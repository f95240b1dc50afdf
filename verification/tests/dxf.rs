use pcbmotorgen::dxf::{phase_coils_to_dxf, routing_result_to_dxf};
use pcbmotorgen::geometry::{
    CoilSegment, IoPad, IoPadKind, IoTrace, IoTraceRole, PadSize, PhaseCoil, Point, RouteCurve, RouteSegment, RoutingResult, Via,
};
use pcbmotorgen::helpers::circle_from_three_points;
use pcbmotorgen::ipc::dxf_export_summary;
use pcbmotorgen::rules::DesignRules;

const MM: i64 = 1_000_000;

fn sample_rules() -> DesignRules {
    DesignRules { min_trace_nm: 100_000, min_space_nm: 100_000, min_via_drill_nm: 200_000, min_via_annular_ring_nm: 100_000 }
}

fn seg(x1: i64, y1: i64, x2: i64, y2: i64, active: bool) -> RouteSegment {
    RouteSegment { start: Point::new(x1, y1), end: Point::new(x2, y2), layer: 0, net: "A".into(), is_active: active }
}

fn via(x: i64, y: i64) -> Via {
    Via { position: Point::new(x, y), from_layer: 0, to_layer: 1, net: "A".into() }
}

fn dxf(r: &RoutingResult, active_nm: i64, centre: bool) -> String {
    routing_result_to_dxf(r, &sample_rules(), active_nm, centre, &vec![(0, 0); r.curves.len()])
}

fn sample_result() -> RoutingResult {
    let mut r = RoutingResult::empty();
    r.segments = vec![seg(0, 0, 0, 20_000, true)];
    r.vias = vec![via(1_000, 2_000)];
    r
}

#[test]
fn test_dxf_contains_line_for_segment() {
    let mut r = RoutingResult::empty();
    r.segments = vec![seg(0, 0, 0, 20 * MM, true), seg(0, 20 * MM, 10 * MM, 20 * MM, false)];
    let out = dxf(&r, 48 * MM, true);
    assert_eq!(out.matches("0\nLINE\n").count(), 2, "expected 2 LINE entities for 2 segments");
}

#[test]
fn test_dxf_contains_circle_for_via() {
    let mut r = RoutingResult::empty();
    r.vias = vec![via(MM, 2 * MM)];
    let out = dxf(&r, 48_000, true);
    assert!(out.contains("0\nCIRCLE"), "missing CIRCLE entity for via");
}

#[test]
fn test_line_coordinates_in_mm() {
    let mut r = RoutingResult::empty();
    r.segments = vec![seg(0, 0, 0, 20 * MM, true)];
    let out = dxf(&r, 0, false);
    assert!(out.contains("10\n0.000000"), "x1 should be 0 mm; DXF:\n{}", out);
    assert!(out.contains("20\n0.000000"), "y1 should be 0 mm");
    assert!(out.contains("11\n0.000000"), "x2 should be 0 mm");
    assert!(out.contains("21\n20.000000"), "y2 should be 20 mm");
}

#[test]
fn test_centre_x_offset() {
    let mut r = RoutingResult::empty();
    r.segments = vec![seg(50 * MM, 0, 50 * MM, 20 * MM, true)];
    let out = dxf(&r, 100 * MM, true);
    assert!(out.contains("10\n0.000000"), "centred x1 should be 0 mm");
    let out_nc = dxf(&r, 100 * MM, false);
    assert!(out_nc.contains("10\n50.000000"), "non-centred x1 should be 50 mm");
}

#[test]
fn test_curve_becomes_arc_in_dxf() {
    // 90° arc centred at (0,0), radius 10 mm, from (10,0) to (0,10), through
    // the on-arc lattice point (6, 8).
    let mut r = RoutingResult::empty();
    r.curves = vec![RouteCurve {
        start: Point::new(10 * MM, 0),
        mid: Point::new(6 * MM, 8 * MM),
        end: Point::new(0, 10 * MM),
        layer: 0,
        net: "A".into(),
        is_active: false,
    }];
    let out = routing_result_to_dxf(&r, &sample_rules(), 0, false, &vec![(0, 90_000_000)]);
    assert!(out.contains("0\nARC"), "RouteCurve must become a DXF ARC");
    assert!(out.contains("10\n0.000000"), "arc centre x = 0 mm");
    assert!(out.contains("20\n0.000000"), "arc centre y = 0 mm");
    assert!(out.contains("40\n10.000000"), "arc radius = 10 mm");
    assert!(out.contains("50\n0.000000"), "start angle 0°");
    assert!(out.contains("51\n90.000000"), "end angle 90°");
}

#[test]
fn test_degenerate_curve_falls_back_to_line() {
    let mut r = RoutingResult::empty();
    r.curves = vec![RouteCurve {
        start: Point::new(0, 0),
        mid: Point::new(5 * MM, 0),
        end: Point::new(10 * MM, 0),
        layer: 0,
        net: "A".into(),
        is_active: false,
    }];
    let out = dxf(&r, 0, false);
    assert!(!out.contains("ARC"), "degenerate curve must not emit ARC");
    assert!(out.contains("LINE"), "degenerate curve must fall back to LINE");
}

#[test]
fn test_via_radius_respects_design_rules() {
    let mut r = RoutingResult::empty();
    r.vias = vec![via(0, 0)];
    let out = dxf(&r, 0, false);
    assert!(out.contains("40\n0.200000"), "via circle radius should be 0.2 mm");
}

fn io_result(pads: Vec<IoPad>, traces: Vec<IoTrace>) -> RoutingResult {
    let mut r = RoutingResult::empty();
    r.io_pads = pads;
    r.io_traces = traces;
    r
}

fn smd(x: i64, y: i64, sx: i64, sy: i64, layers: Vec<u32>) -> IoPad {
    IoPad {
        position: Point::new(x, y),
        size: PadSize { x: sx, y: sy },
        drill_nm: None,
        layers,
        kind: IoPadKind::Smd,
        net: "A".into(),
        number: None,
    }
}

#[test]
fn test_dxf_contains_circle_for_round_io_pad() {
    let r = io_result(vec![smd(48 * MM, 2 * MM, 600_000, 600_000, vec![1])], vec![]);
    let out = dxf(&r, 48 * MM, true);
    assert!(out.contains("0\nCIRCLE"), "round IO pad must emit a CIRCLE");
    assert!(out.contains("8\nIO_Pad"), "pad entity must sit on the IO_Pad layer");
    assert!(out.contains("40\n0.300000"), "circle radius = size/2");
    assert!(out.contains("0\nLAYER\n2\nIO_Pad"), "IO_Pad layer must be registered");
}

#[test]
fn test_dxf_contains_rectangle_outline_for_rect_io_pad() {
    let r = io_result(vec![smd(48 * MM, 2 * MM, MM, 600_000, vec![])], vec![]);
    let out = dxf(&r, 48 * MM, true);
    assert_eq!(out.matches("0\nLINE\n").count(), 4, "rectangular IO pad must emit a closed 4-LINE outline");
    assert!(out.contains("10\n23.500000"), "left edge x = 24 - 0.5 mm");
    assert!(out.contains("11\n24.500000"), "right edge x = 24 + 0.5 mm");
    assert!(out.contains("20\n1.700000"), "bottom edge y = 2 - 0.3 mm");
    assert!(out.contains("21\n2.300000"), "top edge y = 2 + 0.3 mm");
    assert!(!out.contains("0\nCIRCLE"), "rectangular pad must not emit a CIRCLE");
}

#[test]
fn test_dxf_io_traces_emit_as_normal_track_lines() {
    let r = io_result(
        vec![],
        vec![IoTrace {
            start: Point::new(0, 10 * MM),
            end: Point::new(47 * MM, 2 * MM),
            layer: 1,
            net: "A".into(),
            role: IoTraceRole::Fanout,
        }],
    );
    let out = dxf(&r, 48 * MM, true);
    assert!(out.contains("0\nLINE"), "IO fanout traces emit as normal tracks");
    assert!(out.contains("0\nLAYER\n2\nL1_A"), "IO traces share the segment layer naming");
    assert!(out.contains("10\n-24.000000"));
}

#[test]
fn test_dxf_legacy_payload_has_no_io_layers_or_entities() {
    let r = io_result(vec![], vec![]);
    let out = dxf(&r, 48 * MM, true);
    assert!(!out.contains("IO_Pad"), "no IO pads → no IO_Pad layer");
    assert_eq!(out.matches("0\nCIRCLE\n").count(), 0, "no IO pads → no extra circles");
}

#[test]
fn test_dxf_has_required_sections() {
    let out = dxf(&sample_result(), 48_000, true);
    assert!(out.contains("0\nSECTION\n2\nHEADER"), "missing HEADER section");
    assert!(out.contains("0\nSECTION\n2\nTABLES"), "missing TABLES section");
    assert!(out.contains("0\nSECTION\n2\nENTITIES"), "missing ENTITIES section");
    assert!(out.ends_with("0\nEOF\n"), "must end with EOF section");
}

#[test]
fn test_dxf_has_insunits_mm() {
    let out = dxf(&sample_result(), 48_000, true);
    assert!(out.contains("$INSUNITS"), "missing $INSUNITS header variable");
    assert!(out.contains("70\n4"), "INSUNITS must be 4 (mm)");
}

#[test]
fn test_layer_names() {
    let out = dxf(&sample_result(), 48_000, true);
    assert!(out.contains("0\nLAYER\n2\nL0_A"), "missing L0_A layer definition");
    assert!(out.contains("0\nLAYER\n2\nVia"), "missing Via layer definition");
    assert!(out.contains("0\nLINE\n8\nL0_A"), "LINE not on L0_A");
    assert!(out.contains("0\nCIRCLE\n8\nVia"), "CIRCLE not on Via layer");
}

#[test]
fn test_empty_result_produces_valid_dxf() {
    let out = dxf(&RoutingResult::empty(), 0, false);
    assert!(out.contains("HEADER"));
    assert!(out.contains("TABLES"));
    assert!(out.contains("ENTITIES"));
    assert!(out.contains("EOF"));
}

#[test]
fn test_arc_from_three_points() {
    // A 90° arc (10,0) → (0,10) mm through (6,8) mm: radius 10, centre (0,0).
    let result = circle_from_three_points((10 * MM, 0), (6 * MM, 8 * MM), (0, 10 * MM));
    assert!(result.is_some(), "should find a valid circle");
    let ((cx, cy), r) = result.unwrap();
    assert_eq!(cx, 0);
    assert_eq!(cy, 0);
    assert_eq!(r, 10_000_000u128);
}

#[test]
fn arc_through_nearest_lattice_point_of_the_45_degree_midpoint() {
    // (10/sqrt 2, 10/sqrt 2) mm lies on no nanometre lattice point; its
    // nearest, (7.071068, 7.071068) mm, gives a circle within a nanometre of
    // centre (0, 0) and radius 10 mm.
    let ((cx, cy), r) = circle_from_three_points((10 * MM, 0), (7_071_068, 7_071_068), (0, 10 * MM)).unwrap();
    assert!(cx.abs() <= 1 && cy.abs() <= 1, "centre ({cx}, {cy})");
    assert!((9_999_999..=10_000_001).contains(&r), "radius {r}");
}

#[test]
fn radius_is_rounded_to_the_nearest_nanometre() {
    // Centre (0, 0); the distance to (1, 1) nm is sqrt 2 = 1.414.. nm, to
    // (1, 2) nm it is sqrt 5 = 2.236.. nm, to (2, 2) nm sqrt 8 = 2.83 nm.
    let circle = |p: (i64, i64)| circle_from_three_points(p, (-p.0, -p.1), (-p.1, p.0)).unwrap();
    assert_eq!(circle((1, 1)), ((0, 0), 1));
    assert_eq!(circle((1, 2)), ((0, 0), 2));
    assert_eq!(circle((2, 2)), ((0, 0), 3));
}

#[test]
fn huge_circle_still_becomes_an_arc() {
    // Centre about 2e18 nm below the chord: far beyond any board, still a
    // circle through three non-collinear points.
    let ((cx, cy), r) = circle_from_three_points((-2_000_000_000, 0), (0, 1), (2_000_000_000, 0)).unwrap();
    assert_eq!(cx, 0);
    // The exact centre is y = 0.5 - 2e18 nm, rounded half away from zero.
    assert_eq!(cy, -2_000_000_000_000_000_000);
    // sqrt(4e36 + 4e18) lies just below 2e18 + 1.
    assert_eq!(r, 2_000_000_000_000_000_001);
    let mut res = RoutingResult::empty();
    res.curves = vec![RouteCurve {
        start: Point::new(-2_000_000_000, 0),
        mid: Point::new(0, 1),
        end: Point::new(2_000_000_000, 0),
        layer: 0,
        net: "A".into(),
        is_active: false,
    }];
    let out = dxf(&res, 0, false);
    assert!(out.contains("0\nARC\n"));
    assert!(out.contains("20\n-2000000000000.000000\n"));
    assert!(out.contains("40\n2000000000000.000001\n"));
    assert!(!out.contains("0\nLINE\n"));
}

fn legacy_result() -> RoutingResult {
    let mut r = RoutingResult::empty();
    r.segments = vec![
        RouteSegment { start: Point::new(0, 0), end: Point::new(0, 20 * MM), layer: 0, net: "A".into(), is_active: true },
        RouteSegment {
            start: Point::new(0, 20 * MM),
            end: Point::new(10 * MM, 20 * MM),
            layer: 0,
            net: "A".into(),
            is_active: false,
        },
    ];
    r.curves = vec![RouteCurve {
        start: Point::new(10 * MM, 0),
        mid: Point::new(10_700_000, 700_000),
        end: Point::new(11 * MM, 1_400_000),
        layer: 1,
        net: "B".into(),
        is_active: false,
    }];
    r.vias = vec![Via { position: Point::new(MM, 2 * MM), from_layer: 0, to_layer: 1, net: "A".into() }];
    r
}

const GOLDEN_DXF: &str = "0\nSECTION\n2\nHEADER\n9\n$INSUNITS\n70\n4\n0\nENDSEC\n0\nSECTION\n2\nTABLES\n0\nTABLE\n2\nLAYER\n70\n3\n\
0\nLAYER\n2\nL0_A\n70\n0\n62\n1\n6\nCONTINUOUS\n0\nLAYER\n2\nL1_B\n70\n0\n62\n2\n6\nCONTINUOUS\n\
0\nLAYER\n2\nVia\n70\n0\n62\n3\n6\nCONTINUOUS\n0\nENDTAB\n0\nENDSEC\n0\nSECTION\n2\nENTITIES\n\
0\nLINE\n8\nL0_A\n10\n-24.000000\n20\n0.000000\n11\n-24.000000\n21\n20.000000\n\
0\nLINE\n8\nL0_A\n10\n-24.000000\n20\n20.000000\n11\n-14.000000\n21\n20.000000\n\
0\nARC\n8\nL1_B\n10\n-15.250000\n20\n1.950000\n40\n2.316247\n50\n302.660913\n51\n346.263732\n\
0\nCIRCLE\n8\nVia\n10\n-23.000000\n20\n2.000000\n40\n0.200000\n0\nENDSEC\n0\nEOF\n";

#[test]
fn dxf_output_is_byte_identical_for_legacy_payloads() {
    // Arc angles come from the caller: 302.660913° and 346.263732°.
    let dxf = routing_result_to_dxf(&legacy_result(), &sample_rules(), 48 * MM, true, &vec![(302_660_913, 346_263_732)]);
    assert_eq!(dxf, GOLDEN_DXF);
}

#[test]
fn collinear_points_have_no_circle() {
    assert!(circle_from_three_points((0, 0), (5, 0), (10, 0)).is_none());
}

#[test]
fn test_phase_coils_to_dxf_produces_valid_output() {
    let coils = vec![PhaseCoil {
        phase_idx: 0,
        layer_idx: 0,
        phase_name: "A".into(),
        pattern_id: String::new(),
        segments: vec![CoilSegment { start: (0, 0), end: (0, 20 * MM), is_active: true }],
        corner_arcs: vec![],
        center_via_positions: vec![(MM, 2 * MM)],
    }];
    let out = phase_coils_to_dxf(&coils, 2, &sample_rules(), 48 * MM, &vec![]);
    assert!(out.contains("LINE"), "should contain LINE from segment");
    assert!(out.contains("CIRCLE"), "should contain CIRCLE from via");
    assert!(out.contains("EOF"), "should end with EOF");
}

#[test]
fn layer_table_is_sorted_and_deduplicated() {
    let mut r = RoutingResult::empty();
    r.segments = vec![
        RouteSegment { start: Point::new(0, 0), end: Point::new(1, 1), layer: 1, net: "B".into(), is_active: true },
        RouteSegment { start: Point::new(0, 0), end: Point::new(1, 1), layer: 0, net: "A".into(), is_active: true },
        RouteSegment { start: Point::new(0, 0), end: Point::new(1, 1), layer: 1, net: "B".into(), is_active: true },
    ];
    r.vias = vec![via(0, 0)];
    let out = dxf(&r, 0, false);
    let a = out.find("2\nL0_A").unwrap();
    let b = out.find("2\nL1_B").unwrap();
    let v = out.find("2\nVia").unwrap();
    assert!(a < b && b < v);
    assert_eq!(out.matches("0\nLAYER\n2\nL1_B\n").count(), 1);
}

#[test]
fn dxf_summary_counts_entities() {
    let mut r = RoutingResult::empty();
    r.segments = vec![seg(0, 0, 0, 20 * MM, true), seg(0, 20 * MM, 10 * MM, 20 * MM, false)];
    r.vias = vec![via(0, 0)];
    let out = dxf(&r, 0, false);
    let s = dxf_export_summary(&out);
    assert_eq!(s.total_lines, 2);
    assert_eq!(s.total_arcs, 0);
    assert_eq!(s.total_circles, 1);
    assert_eq!(s.layer_count, 2, "L0_A and Via are declared");
}

#[test]
fn dxf_summary_counts_non_overlapping_matches() {
    let s = dxf_export_summary("0\nLINE\n0\nLINE\n0\nLAYER\n2\nx\n0\nLAYER\n2\ny");
    assert_eq!(s.total_lines, 2);
    assert_eq!(s.layer_count, 2);
}

#[test]
fn dxf_summary_counts_one_layer_per_table_entry() {
    let out = routing_result_to_dxf(&legacy_result(), &sample_rules(), 48 * MM, true, &vec![(302_660_913, 346_263_732)]);
    let s = dxf_export_summary(&out);
    assert_eq!((s.total_lines, s.total_arcs, s.total_circles, s.layer_count), (2, 1, 1, 3));
}

#[test]
fn odd_pad_sizes_round_half_nanometres_to_even() {
    // 1.000001 mm wide: the edges lie half a nanometre off the lattice and
    // are written at the even neighbour, as six-decimal text rounds.
    let r = io_result(vec![smd(0, 0, 1_000_001, 3_000_003, vec![])], vec![]);
    let out = dxf(&r, 0, false);
    assert!(out.contains("10\n-0.500000\n"), "left edge");
    assert!(out.contains("11\n0.500000\n"), "right edge");
    assert!(out.contains("20\n-1.500002\n"), "bottom edge");
    assert!(out.contains("21\n1.500002\n"), "top edge");
    let round = io_result(vec![smd(0, 0, 3, 3, vec![])], vec![]);
    assert!(dxf(&round, 0, false).contains("40\n0.000002\n"), "radius 1.5 nm is written as 2 nm");
}

#[test]
fn odd_active_length_centres_on_the_exact_half() {
    // An active length of 48.000003 mm moves every x left by 24.0000015 mm;
    // the half nanometre is written at the even neighbour.
    let mut r = RoutingResult::empty();
    r.segments = vec![seg(0, 0, 1, 0, true)];
    r.vias = vec![via(2, 0)];
    let out = dxf(&r, 48_000_003, true);
    assert!(out.contains("10\n-24.000002\n"), "x = 0 moves to -24.0000015 mm; DXF:\n{}", out);
    assert!(out.contains("11\n-24.000000\n"), "x = 1 nm moves to -24.0000005 mm");
    assert!(out.contains("0\nCIRCLE\n8\nVia\n10\n-24.000000\n"), "via at x = 2 nm moves to -23.9999995 mm");
}

#[test]
fn odd_active_length_moves_arc_centre_before_rounding() {
    // The circle through (0, 0), (-4, -3), (0, -1) nm has its centre at
    // x = -2.75 nm. Moved left by 0.5 nm it lies at -3.25 nm and is written
    // as -3 nm; rounding the centre first would give -3.5 nm and then -4 nm.
    let mut r = RoutingResult::empty();
    r.curves = vec![RouteCurve {
        start: Point::new(0, 0),
        mid: Point::new(-4, -3),
        end: Point::new(0, -1),
        layer: 0,
        net: "A".into(),
        is_active: false,
    }];
    let out = routing_result_to_dxf(&r, &sample_rules(), 1, true, &vec![(0, 0)]);
    assert!(out.contains("0\nARC\n8\nL0_A\n10\n-0.000003\n"), "centre moved before rounding; DXF:\n{}", out);
}

#[test]
fn odd_active_length_moves_pad_corners_exactly() {
    // Pad centre x = 0 moved left by 0.5 nm, half-width 1 nm: edges at
    // -1.5 nm and 0.5 nm, written at their even neighbours.
    let r = io_result(vec![smd(0, 0, 2, 4, vec![])], vec![]);
    let out = dxf(&r, 1, true);
    assert!(out.contains("10\n-0.000002\n"), "left edge; DXF:\n{}", out);
    assert!(out.contains("11\n0.000000\n"), "right edge");
}
