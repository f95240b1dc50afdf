use pcbmotorgen::board::{
    get_board_diagnostics, net_names_of, BoardClient, BoardHandle, BoardOriginType, CommitAction, DocumentIdentifier,
    DocumentSpecifier, DocumentType, EdgeBox, EndCommit, History, Kiid, NetClass, ShapesReply, ITEM_REQUEST_OK,
};
use pcbmotorgen::edge_bbox::{two_point_bbox, ShapeBox, EDGE_CUTS_LAYER};
use pcbmotorgen::board_items::{BoardItem, Vector2};
use pcbmotorgen::geometry::{CoilSegment, PhaseCoil};
use pcbmotorgen::rules::DesignRules;
use pcbmotorgen::tally::{ItemCreationResult, ItemStatus};
use pcbmotorgen::transport::KiCadError;

/// Canned KiCad: answers each command from its fields and records which
/// commands it was sent.
#[derive(Default)]
struct Canned {
    layers: Option<u32>,
    nets: Option<Vec<String>>,
    classes: Option<Vec<(String, Vec<String>)>>,
    origin: Option<(i64, i64)>,
    shapes: Option<Vec<ShapeBox>>,
    outcomes: Option<Vec<(i32, String)>>,
    sent: Vec<String>,
    ended: Vec<(Option<String>, i32)>,
    created_counts: Vec<usize>,
    items_status: Option<i32>,
    begin_fails: bool,
    end_fails: bool,
}

fn unhandled() -> KiCadError {
    KiCadError::Api { status: 3, message: "unhandled command".to_string() }
}

impl BoardClient for Canned {
    /// Only the library's proofs read the history; it is never computed.
    fn history(&self) -> History {
        unreachable!()
    }
    fn get_board_enabled_layers(&mut self, _board: &DocumentSpecifier) -> Result<u32, KiCadError> {
        self.sent.push("GetBoardEnabledLayers".into());
        self.layers.ok_or_else(unhandled)
    }
    fn get_nets(&mut self, _board: &DocumentSpecifier) -> Result<Vec<String>, KiCadError> {
        self.sent.push("GetNets".into());
        self.nets.clone().ok_or_else(unhandled)
    }
    fn get_net_class_for_nets(&mut self, _nets: &Vec<String>) -> Result<Vec<NetClass>, KiCadError> {
        self.sent.push("GetNetClassForNets".into());
        match &self.classes {
            Some(cs) => Ok(cs.iter().map(|(n, c)| NetClass { name: n.clone(), constituents: c.clone() }).collect()),
            None => Err(unhandled()),
        }
    }
    fn get_board_origin(&mut self, _board: &DocumentSpecifier, _t: BoardOriginType) -> Result<Vector2, KiCadError> {
        self.sent.push("GetBoardOrigin".into());
        self.origin.map(|(x, y)| Vector2 { x_nm: x, y_nm: y }).ok_or_else(unhandled)
    }
    fn get_board_shapes(&mut self, _board: &DocumentSpecifier) -> Result<ShapesReply, KiCadError> {
        self.sent.push("GetItems".into());
        let shapes = self.shapes.clone().ok_or_else(unhandled)?;
        Ok(ShapesReply { status: self.items_status.unwrap_or(ITEM_REQUEST_OK), shapes })
    }
    fn begin_commit(&mut self) -> Result<Kiid, KiCadError> {
        self.sent.push("BeginCommit".into());
        if self.begin_fails {
            return Err(unhandled());
        }
        Ok(Kiid { value: "c1".to_string() })
    }
    fn create_items(&mut self, items: &Vec<BoardItem>, _d: &DocumentSpecifier) -> Result<Vec<ItemCreationResult>, KiCadError> {
        self.sent.push("CreateItems".into());
        self.created_counts.push(items.len());
        match &self.outcomes {
            Some(o) => Ok(o
                .iter()
                .map(|(code, msg)| ItemCreationResult {
                    status: Some(ItemStatus { code: *code, error_message: msg.clone() }),
                    item: None,
                })
                .collect()),
            None => Err(unhandled()),
        }
    }
    fn end_commit(&mut self, command: EndCommit) -> Result<(), KiCadError> {
        self.sent.push("EndCommit".into());
        self.ended.push((command.id.map(|k| k.value), command.action));
        if self.end_fails {
            return Err(unhandled());
        }
        Ok(())
    }
}

const MM: i64 = 1_000_000;

/// A segment graphic between two points given in millimetres.
fn segment_on(layer: i32, x0: i64, y0: i64, x1: i64, y1: i64) -> ShapeBox {
    let bbox = two_point_bbox(Vector2 { x_nm: x0 * MM, y_nm: y0 * MM }, Vector2 { x_nm: x1 * MM, y_nm: y1 * MM });
    ShapeBox { layer, bbox: Some(bbox) }
}

fn pcb_document() -> DocumentSpecifier {
    DocumentSpecifier {
        doc_type: DocumentType::DoctypePcb,
        identifier: Some(DocumentIdentifier::BoardFilename("motor.kicad_pcb".to_string())),
    }
}

#[test]
fn test_board_handle_query_methods() {
    let mut client = Canned::default();
    let board = BoardHandle::new(&mut client, pcb_document());
    assert_eq!(board.name().expect("name"), "motor.kicad_pcb");
    assert!(matches!(board.document().identifier, Some(DocumentIdentifier::BoardFilename(_))));
}

#[test]
fn mod_test_board_handle_name_errors_for_non_pcb() {
    let mut client = Canned::default();
    let doc = DocumentSpecifier { doc_type: DocumentType::DoctypeSchematic, identifier: None };
    let board = BoardHandle::new(&mut client, doc);
    assert!(board.name().is_err());
}

#[test]
fn kicad_writer_test_board_handle_name_errors_for_non_pcb() {
    let mut client = Canned::default();
    let doc = DocumentSpecifier { doc_type: DocumentType::DoctypeSchematic, identifier: None };
    let board = BoardHandle::new(&mut client, doc);
    assert!(board.name().is_err());
}

#[test]
fn test_board_handle_name() {
    let mut client = Canned::default();
    let board = BoardHandle::new(&mut client, pcb_document());
    assert_eq!(board.name().unwrap(), "motor.kicad_pcb");
}

#[test]
fn non_pcb_name_error_message() {
    let mut client = Canned::default();
    let board = BoardHandle::new(&mut client, DocumentSpecifier { doc_type: DocumentType::DoctypeSchematic, identifier: None });
    match board.name() {
        Err(KiCadError::Protocol(m)) => assert_eq!(m, "document is not a PCB (no board_filename identifier)"),
        other => panic!("unexpected {:?}", other),
    }
}

#[test]
fn test_get_net_names_returns_names_and_skips_empty() {
    let mut client = Canned { nets: Some(vec!["/A".into(), String::new(), "GND".into()]), ..Canned::default() };
    let mut board = BoardHandle::new(&mut client, pcb_document());
    let nets = board.get_net_names().expect("get_net_names");
    assert_eq!(nets, vec!["/A".to_string(), "GND".to_string()]);
}

#[test]
fn net_names_of_keeps_order() {
    let names = net_names_of(&vec!["b".into(), "".into(), "a".into(), "".into()]);
    assert_eq!(names, vec!["b".to_string(), "a".to_string()]);
}

#[test]
fn test_get_effective_net_classes_sorted_deduped() {
    let mut client = Canned {
        classes: Some(vec![("Default".into(), vec![]), ("Motor".into(), vec![]), ("Motor".into(), vec![])]),
        ..Canned::default()
    };
    let mut board = BoardHandle::new(&mut client, pcb_document());
    let names = board.get_effective_net_classes(&["/A".into(), "/B".into(), "/C".into()]).expect("classes");
    assert_eq!(names, vec!["Default".to_string(), "Motor".to_string()]);
}

#[test]
fn test_get_effective_net_classes_composite_uses_constituents() {
    let mut client = Canned {
        classes: Some(vec![(String::new(), vec!["Power".into(), String::new(), "Motor".into()])]),
        ..Canned::default()
    };
    let mut board = BoardHandle::new(&mut client, pcb_document());
    let names = board.get_effective_net_classes(&["/A".into()]).expect("classes");
    assert_eq!(names, vec!["Motor".to_string(), "Power".to_string()]);
}

#[test]
fn test_get_effective_net_classes_empty_input_sends_nothing() {
    let mut client = Canned::default();
    let mut board = BoardHandle::new(&mut client, pcb_document());
    let names = board.get_effective_net_classes(&[]).expect("empty input");
    assert!(names.is_empty());
    assert!(client.sent.is_empty());
}

#[test]
fn test_get_edge_cut_bbox_mm_returns_box() {
    let b = EdgeBox { x_min_nm: 1_000_000, y_min_nm: 2_000_000, x_max_nm: 4_000_000, y_max_nm: 6_000_000 };
    let mut client = Canned { shapes: Some(vec![segment_on(EDGE_CUTS_LAYER, 1, 2, 4, 6)]), ..Canned::default() };
    let mut board = BoardHandle::new(&mut client, pcb_document());
    assert_eq!(board.get_edge_cut_bbox_nm().expect("bbox"), Some(b));
}

#[test]
fn test_get_edge_cut_bbox_mm_none_when_no_shapes() {
    let mut client = Canned { shapes: Some(vec![]), ..Canned::default() };
    let mut board = BoardHandle::new(&mut client, pcb_document());
    assert_eq!(board.get_edge_cut_bbox_nm().expect("bbox"), None);
}

#[test]
fn test_get_board_origin_returns_vector2() {
    let mut client = Canned { origin: Some((5, -7)), ..Canned::default() };
    let mut board = BoardHandle::new(&mut client, pcb_document());
    let got = board.get_board_origin(BoardOriginType::BotGrid).expect("origin");
    assert_eq!((got.x_nm, got.y_nm), (5, -7));
}

#[test]
fn test_query_failure_surfaces_kicad_error() {
    let mut client = Canned::default();
    let mut board = BoardHandle::new(&mut client, pcb_document());
    let err = board.get_net_names().expect_err("must fail");
    assert!(matches!(err, KiCadError::Api { .. }));
    let err = board.get_edge_cut_bbox_nm().expect_err("must fail");
    assert!(matches!(err, KiCadError::Api { .. }));
}

#[test]
fn board_handle_get_board_origin_returns_origin_point() {
    let mut client = Canned { origin: Some((1_000_000, -2_000_000)), ..Canned::default() };
    let mut board = BoardHandle::new(&mut client, pcb_document());
    let o = board.get_board_origin(BoardOriginType::BotDrill).expect("origin");
    assert_eq!((o.x_nm, o.y_nm), (1_000_000, -2_000_000));
}

#[test]
fn board_handle_get_board_origin_failure_is_api_error() {
    let mut client = Canned::default();
    let mut board = BoardHandle::new(&mut client, pcb_document());
    let err = board.get_board_origin(BoardOriginType::BotGrid).expect_err("unhandled → error");
    assert!(matches!(err, KiCadError::Api { .. }));
}

#[test]
fn test_commit_abort_sends_cma_drop() {
    let cmd = EndCommit { id: Some(Kiid { value: "commit-2".to_string() }), action: CommitAction::CmaDrop as i32, message: String::new() };
    assert_eq!(cmd.action, CommitAction::CmaDrop as i32);
    assert!(cmd.message.is_empty());
}

// --- diagnostics snapshot ---

#[test]
fn net_classes_populated_from_effective_per_net_classes() {
    let mut client = Canned {
        layers: Some(4),
        nets: Some(vec!["/A".into(), "/B".into()]),
        classes: Some(vec![("Motor".into(), vec![]), ("Default".into(), vec![])]),
        shapes: Some(vec![]),
        ..Canned::default()
    };
    let mut board = BoardHandle::new(&mut client, pcb_document());
    let d = get_board_diagnostics(&mut board).expect("diagnostics");
    assert_eq!(d.board_name, "motor.kicad_pcb");
    assert_eq!(d.copper_layer_count, 4);
    assert_eq!(d.available_net_classes, vec!["Default".to_string(), "Motor".to_string()]);
}

#[test]
fn composite_net_class_surfaces_constituents() {
    let mut client = Canned {
        layers: Some(2),
        nets: Some(vec!["/A".into()]),
        classes: Some(vec![(String::new(), vec!["Power".into(), "Motor".into()])]),
        shapes: Some(vec![]),
        ..Canned::default()
    };
    let mut board = BoardHandle::new(&mut client, pcb_document());
    let d = get_board_diagnostics(&mut board).expect("diagnostics");
    assert_eq!(d.available_net_classes, vec!["Motor".to_string(), "Power".to_string()]);
}

#[test]
fn empty_board_no_net_classes_and_no_class_query() {
    let mut client = Canned { layers: Some(2), nets: Some(vec![]), shapes: Some(vec![]), ..Canned::default() };
    {
        let mut board = BoardHandle::new(&mut client, pcb_document());
        let d = get_board_diagnostics(&mut board).expect("diagnostics");
        assert!(d.available_net_classes.is_empty());
    }
    assert!(!client.sent.contains(&"GetNetClassForNets".to_string()));
}

#[test]
fn edge_cut_bbox_populated_from_shapes() {
    let shapes = vec![
        segment_on(EDGE_CUTS_LAYER, 0, 0, 40, 0),
        segment_on(EDGE_CUTS_LAYER, 40, 0, 40, 20),
        segment_on(EDGE_CUTS_LAYER, -10, 20, 0, 20),
        segment_on(40, 100, 100, 200, 200),
    ];
    let mut client = Canned { layers: Some(4), nets: Some(vec![]), shapes: Some(shapes), ..Canned::default() };
    let mut board = BoardHandle::new(&mut client, pcb_document());
    let d = get_board_diagnostics(&mut board).expect("diagnostics");
    assert_eq!(d.copper_layer_count, 4);
    assert_eq!((d.board_x_min_nm, d.board_x_max_nm, d.board_y_min_nm, d.board_y_max_nm), (-10 * MM, 40 * MM, 0, 20 * MM));
}

#[test]
fn non_edge_cut_only_board_degrades_to_zero_bbox() {
    let mut client = Canned {
        layers: Some(2),
        nets: Some(vec![]),
        shapes: Some(vec![segment_on(44, 5, 5, 6, 6)]),
        ..Canned::default()
    };
    let mut board = BoardHandle::new(&mut client, pcb_document());
    let d = get_board_diagnostics(&mut board).expect("diagnostics");
    assert_eq!((d.board_x_min_nm, d.board_x_max_nm, d.board_y_min_nm, d.board_y_max_nm), (0, 0, 0, 0));
}

#[test]
fn unhandled_shape_query_degrades_but_net_classes_stay_real() {
    let mut client = Canned {
        layers: Some(2),
        nets: Some(vec!["/A".into()]),
        classes: Some(vec![("Motor".into(), vec![])]),
        shapes: None,
        ..Canned::default()
    };
    let mut board = BoardHandle::new(&mut client, pcb_document());
    let d = get_board_diagnostics(&mut board).expect("diagnostics");
    assert_eq!(d.board_x_max_nm, 0);
    assert_eq!(d.available_net_classes, vec!["Motor".to_string()]);
}

#[test]
fn unhandled_net_queries_degrade_but_bbox_stays_real() {
    let mut client = Canned {
        layers: Some(2),
        nets: None,
        shapes: Some(vec![segment_on(EDGE_CUTS_LAYER, -2, -1, 8, 4)]),
        ..Canned::default()
    };
    let mut board = BoardHandle::new(&mut client, pcb_document());
    let d = get_board_diagnostics(&mut board).expect("diagnostics");
    assert!(d.available_net_classes.is_empty());
    assert_eq!((d.board_x_min_nm, d.board_x_max_nm, d.board_y_min_nm, d.board_y_max_nm), (-2 * MM, 8 * MM, -MM, 4 * MM));
}

#[test]
fn diagnostics_flow_sends_exactly_the_documented_commands() {
    let mut client = Canned {
        layers: Some(2),
        nets: Some(vec!["/A".into()]),
        classes: Some(vec![("Motor".into(), vec![])]),
        shapes: Some(vec![]),
        ..Canned::default()
    };
    {
        let mut board = BoardHandle::new(&mut client, pcb_document());
        get_board_diagnostics(&mut board).expect("diagnostics");
    }
    assert_eq!(client.sent, vec!["GetBoardEnabledLayers", "GetItems", "GetNets", "GetNetClassForNets"]);
}

// --- writes ---

fn single_track_coils(n: u32) -> Vec<PhaseCoil> {
    (0..n)
        .map(|i| PhaseCoil {
            phase_idx: i,
            layer_idx: 0,
            phase_name: "A".into(),
            pattern_id: String::new(),
            segments: vec![CoilSegment { start: (0, 0), end: (0, 20_000), is_active: true }],
            corner_arcs: Vec::new(),
            center_via_positions: Vec::new(),
        })
        .collect()
}

fn braid_rules() -> DesignRules {
    DesignRules { min_trace_nm: 100_000, min_space_nm: 100_000, min_via_drill_nm: 200_000, min_via_annular_ring_nm: 100_000 }
}

#[test]
fn test_failure_summary_groups_by_code_with_counts() {
    let msg = "attempted to add item with no overlapping layers ...";
    let mut client = Canned {
        outcomes: Some(vec![
            (1, String::new()),
            (7, msg.into()),
            (7, msg.into()),
            (7, msg.into()),
            (2, "invalid item type".into()),
            (7, msg.into()),
        ]),
        ..Canned::default()
    };
    let mut board = BoardHandle::new(&mut client, pcb_document());
    let result = board.write_coils(&single_track_coils(6), 3, &braid_rules(), 600_000_000).expect("write_coils");
    assert_eq!(result.items_attempted, 6);
    assert_eq!(result.items_created, 1);
    assert_eq!(result.failures.len(), 5);
    assert_eq!(result.failure_summary, vec![(7, 4), (2, 1)]);
}

#[test]
fn test_failure_summary_sorts_by_count_descending() {
    let mut client = Canned {
        outcomes: Some(vec![
            (1, String::new()),
            (3, "existing".into()),
            (2, "invalid type".into()),
            (7, "invalid data".into()),
            (7, "invalid data".into()),
            (2, "invalid type".into()),
            (7, "invalid data".into()),
        ]),
        ..Canned::default()
    };
    let mut board = BoardHandle::new(&mut client, pcb_document());
    let result = board.write_coils(&single_track_coils(7), 3, &braid_rules(), 600_000_000).expect("write_coils");
    assert_eq!(result.failure_summary, vec![(7, 3), (2, 2), (3, 1)]);
}

#[test]
fn write_commits_once_with_all_items() {
    let mut client = Canned { outcomes: Some(vec![(1, String::new()), (1, String::new())]), ..Canned::default() };
    {
        let mut board = BoardHandle::new(&mut client, pcb_document());
        let r = board.write_coils(&single_track_coils(2), 2, &braid_rules(), 0).expect("write");
        assert_eq!((r.items_attempted, r.items_created), (2, 2));
    }
    assert_eq!(client.sent, vec!["BeginCommit", "CreateItems", "EndCommit"]);
    assert_eq!(client.created_counts, vec![2]);
    assert_eq!(client.ended, vec![(Some("c1".to_string()), CommitAction::CmaCommit as i32)]);
}

#[test]
fn failed_creation_drops_the_commit() {
    let mut client = Canned::default();
    {
        let mut board = BoardHandle::new(&mut client, pcb_document());
        assert!(board.write_coils(&single_track_coils(1), 2, &braid_rules(), 0).is_err());
    }
    assert_eq!(client.ended, vec![(Some("c1".to_string()), CommitAction::CmaDrop as i32)]);
}

#[test]
fn test_board_handle_write_coils_dry_run_does_not_call_commit() {
    let mut client = Canned::default();
    {
        let mut board = BoardHandle::new(&mut client, pcb_document());
        let result = board.write_coils_dry_run(&single_track_coils(3), 3, &braid_rules(), 600_000_000).expect("dry run");
        assert_eq!(result.items_attempted, 3);
        assert_eq!(result.items_created, 0);
        assert!(result.failures.is_empty());
        assert!(result.failure_summary.is_empty());
    }
    assert!(client.sent.is_empty());
}

#[test]
fn empty_io_write_sends_nothing() {
    let mut client = Canned::default();
    {
        let mut board = BoardHandle::new(&mut client, pcb_document());
        let r = board
            .write_io_elements(&pcbmotorgen::geometry::RoutingResult::empty(), 2, &braid_rules(), 0)
            .expect("empty io write");
        assert_eq!(r.items_attempted, 0);
    }
    assert!(client.sent.is_empty());
}

#[test]
fn failed_begin_sends_nothing_more() {
    let mut client = Canned { begin_fails: true, outcomes: Some(vec![(1, String::new())]), ..Canned::default() };
    {
        let mut board = BoardHandle::new(&mut client, pcb_document());
        assert!(board.write_coils(&single_track_coils(1), 2, &braid_rules(), 0).is_err());
    }
    assert_eq!(client.sent, vec!["BeginCommit"]);
}

#[test]
fn refused_end_commit_fails_the_write() {
    let mut client = Canned { end_fails: true, outcomes: Some(vec![(1, String::new())]), ..Canned::default() };
    {
        let mut board = BoardHandle::new(&mut client, pcb_document());
        assert!(board.write_coils(&single_track_coils(1), 2, &braid_rules(), 0).is_err());
    }
    assert_eq!(client.sent, vec!["BeginCommit", "CreateItems", "EndCommit"]);
    assert_eq!(client.ended, vec![(Some("c1".to_string()), CommitAction::CmaCommit as i32)]);
}

#[test]
fn diagnostics_of_a_netless_board_skip_net_classes() {
    let mut client = Canned { layers: Some(2), nets: Some(vec![String::new()]), shapes: Some(vec![]), ..Canned::default() };
    {
        let mut board = BoardHandle::new(&mut client, pcb_document());
        let d = get_board_diagnostics(&mut board).expect("diagnostics");
        assert!(d.available_net_classes.is_empty());
    }
    assert_eq!(client.sent, vec!["GetBoardEnabledLayers", "GetItems", "GetNets"]);
}

#[test]
fn rejection_count_is_attempted_minus_created() {
    let outcomes = vec![(1, String::new()), (7, "x".to_string()), (2, String::new()), (7, "y".to_string())];
    let mut client = Canned { outcomes: Some(outcomes), ..Canned::default() };
    let mut board = BoardHandle::new(&mut client, pcb_document());
    let r = board.write_coils(&single_track_coils(4), 2, &braid_rules(), 0).expect("write");
    let total: u32 = r.failure_summary.iter().map(|(_, n)| n).sum();
    assert_eq!(r.items_attempted - r.items_created, total);
    assert_eq!(r.failures.len() as u32, total);
    assert_eq!(r.failures[1], "item 2: code=2: <no error message>");
}

#[test]
fn get_items_reply_with_bad_status_is_a_protocol_error() {
    let mut client = Canned {
        shapes: Some(vec![segment_on(EDGE_CUTS_LAYER, 1, 2, 4, 6)]),
        items_status: Some(2),
        ..Canned::default()
    };
    let mut board = BoardHandle::new(&mut client, pcb_document());
    match board.get_edge_cut_bbox_nm() {
        Err(KiCadError::Protocol(m)) => assert_eq!(m, "GetItems failed with ItemRequestStatus 2"),
        other => panic!("expected a protocol error, got {other:?}"),
    }
}
