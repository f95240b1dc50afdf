use pcbmotorgen::board_items::{
    coils_to_board_items, io_elements_to_board_items, via_board_layers, BoardItem, FootprintMountingStyle, PadStackShape, PadType,
};
use pcbmotorgen::geometry::{CoilArc, CoilSegment, IoPad, IoPadKind, IoTrace, IoTraceRole, PadSize, PhaseCoil, Point, RoutingResult};
use pcbmotorgen::layer_map::BoardLayer;
use pcbmotorgen::rules::DesignRules;

const MM: i64 = 1_000_000;

fn rules() -> DesignRules {
    DesignRules { min_trace_nm: 100_000, min_space_nm: 100_000, min_via_drill_nm: 200_000, min_via_annular_ring_nm: 100_000 }
}

fn smd_pad() -> IoPad {
    IoPad {
        position: Point::new(48 * MM, 2 * MM),
        size: PadSize { x: 600_000, y: 600_000 },
        drill_nm: None,
        layers: vec![1],
        kind: IoPadKind::Smd,
        net: "A".into(),
        number: Some("1".into()),
    }
}

fn tht_pad() -> IoPad {
    IoPad {
        position: Point::new(0, 18 * MM),
        size: PadSize { x: 400_000, y: 400_000 },
        drill_nm: Some(200_000),
        layers: vec![],
        kind: IoPadKind::Tht,
        net: "B".into(),
        number: None,
    }
}

fn result_with(pads: Vec<IoPad>, traces: Vec<IoTrace>) -> RoutingResult {
    let mut r = RoutingResult::empty();
    r.io_pads = pads;
    r.io_traces = traces;
    r
}

#[test]
fn smd_pad_becomes_footprint_instance_with_pad() {
    let items = io_elements_to_board_items(&result_with(vec![smd_pad()], vec![]), 2, &rules(), 48 * MM);
    assert_eq!(items.len(), 1, "one pad → one FootprintInstance");
    assert!(items[0].type_url().ends_with("kiapi.board.types.FootprintInstance"));
    let fp = match &items[0] {
        BoardItem::Footprint(f) => f,
        _ => panic!("expected a footprint"),
    };
    assert_eq!(fp.position.x_nm, 24_000_000);
    assert_eq!(fp.position.y_nm, 2_000_000);
    assert_eq!(fp.layer, BoardLayer::BlFCu);
    let definition = &fp.definition;
    assert_eq!(definition.library_nickname, "pcbmotorgen");
    assert_eq!(definition.entry_name, "io_pad_A_1");
    assert_eq!(definition.attributes.mounting_style, FootprintMountingStyle::FmsSmd);
    assert!(definition.attributes.not_in_schematic);
    assert!(definition.attributes.exclude_from_bill_of_materials);
    let pad = &definition.pad;
    assert_eq!(pad.number, "1");
    assert_eq!(pad.net, "/A");
    assert_eq!(pad.pad_type, PadType::PtSmd);
    assert_eq!(pad.position.x_nm, 0);
    let ps = &pad.pad_stack;
    assert!(ps.drill.is_none(), "SMD pad has no drill");
    assert_eq!(ps.layers, vec![BoardLayer::BlFCu], "declared layer 1 → F_Cu on a 2-layer board");
    assert_eq!(ps.shape, PadStackShape::PssCircle);
    assert_eq!(ps.size.x_nm, 600_000);
    assert_eq!(ps.size.y_nm, 600_000);
}

#[test]
fn tht_pad_defaults_to_full_copper_layer_set_and_carries_drill() {
    let items = io_elements_to_board_items(&result_with(vec![tht_pad()], vec![]), 4, &rules(), 48 * MM);
    let fp = match &items[0] {
        BoardItem::Footprint(f) => f,
        _ => panic!("expected a footprint"),
    };
    let pad = &fp.definition.pad;
    assert_eq!(pad.pad_type, PadType::PtPth);
    assert_eq!(pad.number, "1");
    assert_eq!(pad.net, "/B");
    let drill = pad.pad_stack.drill.expect("THT pad must carry a drill");
    assert_eq!(drill.diameter_nm, 200_000);
    assert_eq!((drill.start_layer, drill.end_layer), (BoardLayer::BlFCu, BoardLayer::BlBCu));
    assert_eq!(pad.pad_stack.layers.len(), 4, "THT default layer set = all board copper layers");
    assert_eq!(pad.pad_stack.layers, vec![BoardLayer::BlBCu, BoardLayer::BlIn1Cu, BoardLayer::BlIn2Cu, BoardLayer::BlFCu]);
    assert_eq!(fp.definition.attributes.mounting_style, FootprintMountingStyle::FmsThroughHole);
}

#[test]
fn rectangular_pad_uses_rectangle_shape() {
    let mut pad = smd_pad();
    pad.size = PadSize { x: MM, y: 600_000 };
    let items = io_elements_to_board_items(&result_with(vec![pad], vec![]), 2, &rules(), 0);
    let fp = match &items[0] {
        BoardItem::Footprint(f) => f,
        _ => panic!("expected a footprint"),
    };
    let ps = &fp.definition.pad.pad_stack;
    assert_eq!(ps.shape, PadStackShape::PssRectangle);
    assert_eq!(ps.size.x_nm, 1_000_000);
    assert_eq!(ps.size.y_nm, 600_000);
}

#[test]
fn io_traces_become_normal_rule_sized_tracks() {
    let trace = IoTrace { start: Point::new(0, 10 * MM), end: Point::new(47 * MM, 2 * MM), layer: 0, net: "A".into(), role: IoTraceRole::Fanout };
    let items = io_elements_to_board_items(&result_with(vec![], vec![trace]), 2, &rules(), 48 * MM);
    assert_eq!(items.len(), 1);
    assert!(items[0].type_url().ends_with("kiapi.board.types.Track"));
    let track = match &items[0] {
        BoardItem::Track(t) => t,
        _ => panic!("expected a track"),
    };
    assert_eq!(track.width_nm, 100_000);
    assert_eq!(track.layer, BoardLayer::BlBCu, "routing layer 0 → B_Cu");
    assert_eq!(track.net, "/A");
    assert_eq!(track.start.x_nm, 0 - 24 * MM);
    assert_eq!(track.start.y_nm, 10_000_000);
    assert_eq!(track.end.x_nm, 47 * MM - 24 * MM);
    assert_eq!(track.end.y_nm, 2_000_000);
}

#[test]
fn empty_io_result_produces_no_items() {
    let items = io_elements_to_board_items(&result_with(vec![], vec![]), 2, &rules(), 48 * MM);
    assert!(items.is_empty());
}

#[test]
fn io_traces_precede_pads_and_pads_are_numbered_by_position() {
    let trace = IoTrace { start: Point::new(0, 0), end: Point::new(MM, 0), layer: 1, net: "B".into(), role: IoTraceRole::Fanout };
    let mut second = tht_pad();
    second.net = "C".into();
    let items = io_elements_to_board_items(&result_with(vec![smd_pad(), second], vec![trace]), 2, &rules(), 0);
    assert_eq!(items.len(), 3);
    assert!(matches!(items[0], BoardItem::Track(_)));
    match &items[2] {
        BoardItem::Footprint(f) => {
            assert_eq!(f.definition.pad.number, "2");
            assert_eq!(f.definition.entry_name, "io_pad_C_2");
        }
        _ => panic!("expected a footprint"),
    }
}

fn coil() -> PhaseCoil {
    PhaseCoil {
        phase_idx: 0,
        layer_idx: 0,
        phase_name: "A".into(),
        pattern_id: String::new(),
        segments: vec![CoilSegment { start: (0, 0), end: (0, 20 * MM), is_active: true }],
        corner_arcs: vec![],
        center_via_positions: Vec::new(),
    }
}

#[test]
fn test_kicad_items_pure_function_smoke() {
    let items = coils_to_board_items(&[coil()], 2, &rules(), 0);
    assert_eq!(items.len(), 1, "one segment -> one Track item");
}

#[test]
fn test_item_count_matches_segments_arcs_and_vias() {
    let mut c = coil();
    c.corner_arcs = vec![CoilArc { start: (0, 0), mid: (MM, MM), end: (2 * MM, 0), is_active: false }];
    c.center_via_positions = vec![(MM, MM), (2 * MM, MM)];
    let mut d = coil();
    d.layer_idx = 1;
    d.phase_name = "B".into();
    let items = coils_to_board_items(&[c, d], 2, &rules(), 0);
    assert_eq!(items.len(), (1 + 1 + 2) + 1);
    assert!(matches!(items[0], BoardItem::Track(_)));
    assert!(matches!(items[1], BoardItem::Arc(_)));
    assert!(matches!(items[2], BoardItem::Via(_)));
    assert!(matches!(items[3], BoardItem::Via(_)));
    assert!(matches!(items[4], BoardItem::Track(_)));
}

#[test]
fn test_track_coordinates_in_nanometres() {
    let mut c = coil();
    c.segments = vec![CoilSegment { start: (10 * MM, 2 * MM), end: (30 * MM, 2 * MM), is_active: true }];
    let items = coils_to_board_items(&[c], 2, &rules(), 600 * MM);
    match &items[0] {
        BoardItem::Track(t) => {
            assert_eq!(t.start.x_nm, 10 * MM - 300 * MM);
            assert_eq!(t.start.y_nm, 2 * MM);
            assert_eq!(t.end.x_nm, 30 * MM - 300 * MM);
        }
        _ => panic!("expected a track"),
    }
}

#[test]
fn track_writer_test_track_width_matches_config() {
    let items = coils_to_board_items(&[coil()], 2, &rules(), 600 * MM);
    match &items[0] {
        BoardItem::Track(t) => assert_eq!(t.width_nm, rules().min_trace_nm),
        _ => panic!("expected a track"),
    }
}

#[test]
fn test_net_names_are_slash_prefixed() {
    let items = coils_to_board_items(&[coil()], 2, &rules(), 0);
    match &items[0] {
        BoardItem::Track(t) => assert_eq!(t.net, "/A"),
        _ => panic!("expected a track"),
    }
}

#[test]
fn test_track_layer_uses_num_layers() {
    let mut c = coil();
    c.layer_idx = 3;
    let items = coils_to_board_items(&[c], 4, &rules(), 0);
    match &items[0] {
        BoardItem::Track(t) => assert_eq!(t.layer, BoardLayer::BlFCu, "top layer of a 4-layer board"),
        _ => panic!("expected a track"),
    }
}

#[test]
fn test_via_construction() {
    let mut c = coil();
    c.segments = vec![];
    c.center_via_positions = vec![(5 * MM, MM)];
    let items = coils_to_board_items(&[c], 4, &rules(), 10 * MM);
    assert_eq!(items.len(), 1);
    assert!(items[0].type_url().ends_with("kiapi.board.types.Via"));
    match &items[0] {
        BoardItem::Via(v) => {
            assert_eq!(v.position.x_nm, 0);
            assert_eq!(v.position.y_nm, MM);
            assert_eq!(v.net, "/A");
            assert_eq!(v.pad_stack.size.x_nm, 400_000);
            assert_eq!(v.pad_stack.shape, PadStackShape::PssCircle);
            assert_eq!(v.pad_stack.drill.unwrap().diameter_nm, 200_000);
        }
        _ => panic!("expected a via"),
    }
}

#[test]
fn test_pad_stack_layers_reflect_num_layers() {
    let mut c = coil();
    c.segments = vec![];
    c.center_via_positions = vec![(0, 0)];
    let items = coils_to_board_items(&[c], 4, &rules(), 0);
    match &items[0] {
        BoardItem::Via(v) => assert_eq!(v.pad_stack.layers, vec![BoardLayer::BlBCu, BoardLayer::BlIn1Cu, BoardLayer::BlIn2Cu, BoardLayer::BlFCu]),
        _ => panic!("expected a via"),
    }
    assert_eq!(via_board_layers(2), vec![BoardLayer::BlBCu, BoardLayer::BlFCu]);
}

#[test]
fn corner_arc_becomes_arc_item() {
    let mut c = coil();
    c.segments = vec![];
    c.corner_arcs = vec![CoilArc { start: (0, 0), mid: (MM, MM), end: (2 * MM, 0), is_active: true }];
    let items = coils_to_board_items(&[c], 2, &rules(), 2 * MM);
    assert!(items[0].type_url().ends_with("kiapi.board.types.Arc"));
    match &items[0] {
        BoardItem::Arc(a) => {
            assert_eq!((a.start.x_nm, a.mid.x_nm, a.end.x_nm), (-MM, 0, MM));
            assert_eq!(a.width_nm, 100_000);
            assert_eq!(a.layer, BoardLayer::BlBCu);
        }
        _ => panic!("expected an arc"),
    }
}

#[test]
fn type_urls_carry_the_google_prefix() {
    let items = coils_to_board_items(&[coil()], 2, &rules(), 0);
    assert_eq!(items[0].type_url(), "type.googleapis.com/kiapi.board.types.Track");
}

#[test]
fn test_coils_to_board_items_via_round_trip_pst_normal_invariants() {
    let layers = 4u32;
    let mut c = coil();
    c.center_via_positions = vec![(MM, 2 * MM), (5 * MM, 7 * MM), (10 * MM, 10 * MM)];
    let items = coils_to_board_items(&[c], layers, &rules(), 0);
    let vias: Vec<_> = items
        .iter()
        .filter_map(|i| match i {
            BoardItem::Via(v) => Some(v),
            _ => None,
        })
        .collect();
    assert_eq!(vias.len(), 3, "expected 3 vias in this coil");
    let expected = vec![BoardLayer::BlBCu, BoardLayer::BlIn1Cu, BoardLayer::BlIn2Cu, BoardLayer::BlFCu];
    for v in vias {
        assert_eq!(v.pad_stack.layers.len(), layers as usize);
        assert_eq!(v.pad_stack.layers, expected);
        assert_eq!(v.pad_stack.shape, PadStackShape::PssCircle);
        assert_eq!((v.pad_stack.size.x_nm, v.pad_stack.size.y_nm), (400_000, 400_000));
        let drill = v.pad_stack.drill.expect("through via is drilled");
        assert_eq!((drill.start_layer, drill.end_layer), (BoardLayer::BlFCu, BoardLayer::BlBCu));
    }
}

#[test]
fn odd_active_length_rounds_track_shift_and_via_position_separately() {
    // Active length 3 nm: tracks move left by 1.5 nm rounded to 2 nm, while
    // a via's shifted position 2 - 1.5 = 0.5 nm rounds to 1 nm.
    let mut c = coil();
    c.segments = vec![CoilSegment { start: (2, 0), end: (2, 7), is_active: true }];
    c.center_via_positions = vec![(2, 0), (-1, 0)];
    let items = coils_to_board_items(&[c], 2, &rules(), 3);
    match &items[0] {
        BoardItem::Track(t) => assert_eq!((t.start.x_nm, t.end.x_nm), (0, 0)),
        _ => panic!("expected a track"),
    }
    match &items[1] {
        BoardItem::Via(v) => assert_eq!(v.position.x_nm, 1),
        _ => panic!("expected a via"),
    }
    match &items[2] {
        BoardItem::Via(v) => assert_eq!(v.position.x_nm, -3, "-1 - 1.5 = -2.5 rounds away from zero"),
        _ => panic!("expected a via"),
    }
}

#[test]
fn odd_active_length_shifts_io_elements_by_the_rounded_half() {
    let trace = IoTrace {
        start: Point::new(2, 0),
        end: Point::new(5, 0),
        layer: 0,
        net: "IO".into(),
        role: IoTraceRole::Fanout,
    };
    let items = io_elements_to_board_items(&result_with(vec![], vec![trace]), 2, &rules(), -3);
    match &items[0] {
        BoardItem::Track(t) => assert_eq!((t.start.x_nm, t.end.x_nm), (4, 7), "shift of -1.5 nm rounds to -2 nm"),
        _ => panic!("expected a track"),
    }
}
