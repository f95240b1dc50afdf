use pcbmotorgen::geometry::{Point, RouteSegment, RoutingResult, Via};
use pcbmotorgen::interference::check_interference;
use pcbmotorgen::rules::DesignRules;

const MM: i64 = 1_000_000;

fn rules() -> DesignRules {
    DesignRules {
        min_trace_nm: 100_000,
        min_space_nm: 100_000,
        min_via_drill_nm: 200_000,
        min_via_annular_ring_nm: 100_000,
    }
}

fn seg(x1: i64, y1: i64, x2: i64, y2: i64, layer: u32, net: &str) -> RouteSegment {
    RouteSegment {
        start: Point::new(x1, y1),
        end: Point::new(x2, y2),
        layer,
        net: net.to_string(),
        is_active: true,
    }
}

fn result(segments: Vec<RouteSegment>, vias: Vec<Via>) -> RoutingResult {
    let mut r = RoutingResult::empty();
    r.segments = segments;
    r.vias = vias;
    r
}

#[test]
fn clear_different_net_segments_pass() {
    // 1 mm apart vertically; copper pitch = 0.2 mm → no violation.
    let r = result(vec![seg(0, 0, 10 * MM, 0, 0, "A"), seg(0, MM, 10 * MM, MM, 0, "B")], Vec::new());
    assert!(check_interference(&rules(), &r).is_empty());
}

#[test]
fn too_close_different_net_segments_violate() {
    // 0.05 mm apart; below copper pitch (0.2) → clearance violation.
    let r = result(
        vec![seg(0, 0, 10 * MM, 0, 0, "A"), seg(0, 50_000, 10 * MM, 50_000, 0, "B")],
        Vec::new(),
    );
    let v = check_interference(&rules(), &r);
    assert_eq!(v.len(), 1);
    assert_eq!(v[0].kind, "clearance");
    assert_eq!(v[0].net_a, "A");
    assert_eq!(v[0].net_b, "B");
    assert_eq!(v[0].layer, 0);
}

#[test]
fn same_net_segments_never_violate() {
    let r = result(
        vec![seg(0, 0, 10 * MM, 0, 0, "A"), seg(0, 50_000, 10 * MM, 50_000, 0, "A")],
        Vec::new(),
    );
    assert!(check_interference(&rules(), &r).is_empty());
}

#[test]
fn different_layers_are_independent() {
    let r = result(
        vec![seg(0, 0, 10 * MM, 0, 0, "A"), seg(0, 50_000, 10 * MM, 50_000, 1, "B")],
        Vec::new(),
    );
    assert!(check_interference(&rules(), &r).is_empty());
}

#[test]
fn crossing_segments_report_zero_gap() {
    let r = result(
        vec![seg(0, 0, 10 * MM, 10 * MM, 0, "A"), seg(0, 10 * MM, 10 * MM, 0, 0, "B")],
        Vec::new(),
    );
    let v = check_interference(&rules(), &r);
    assert_eq!(v.len(), 1);
    assert_eq!(v[0].kind, "clearance");
    assert_eq!(v[0].gap_nm, 0);
}

#[test]
fn via_pad_near_different_net_trace_violates() {
    // Required pad-to-trace-centre distance 0.35 mm; the via sits 0.1 mm
    // from the B trace centre → violation.
    let r = result(
        vec![seg(0, MM, 10 * MM, MM, 0, "B")],
        vec![Via { position: Point::new(5 * MM, 900_000), from_layer: 0, to_layer: 1, net: "A".to_string() }],
    );
    let v = check_interference(&rules(), &r);
    assert_eq!(v.len(), 1);
    assert_eq!(v[0].kind, "via_clearance");
    assert_eq!(v[0].net_a, "A");
    assert_eq!(v[0].net_b, "B");
}

#[test]
fn via_pad_on_same_net_never_violates() {
    let r = result(
        vec![seg(0, MM, 10 * MM, MM, 0, "A")],
        vec![Via { position: Point::new(5 * MM, MM), from_layer: 0, to_layer: 1, net: "A".to_string() }],
    );
    assert!(check_interference(&rules(), &r).is_empty());
}

#[test]
fn via_checked_only_on_from_to_layers() {
    // Segment on layer 2 only; via spans layers 0↔1 → not compared.
    let r = result(
        vec![seg(0, MM, 10 * MM, MM, 2, "B")],
        vec![Via { position: Point::new(5 * MM, 900_000), from_layer: 0, to_layer: 1, net: "A".to_string() }],
    );
    assert!(check_interference(&rules(), &r).is_empty());
}

#[test]
fn clearance_message_reports_gap_and_space() {
    let r = result(
        vec![seg(0, 0, 10 * MM, 0, 0, "A"), seg(0, 50_000, 10 * MM, 50_000, 0, "B")],
        Vec::new(),
    );
    let v = check_interference(&rules(), &r);
    assert_eq!(v[0].gap_nm, 50_000);
    assert_eq!(
        v[0].message,
        "segments 0 (net A) and 1 (net B) on layer 0 are 0.050 mm apart \u{2014} below copper clearance 0.100 mm"
    );
}

#[test]
fn via_message_reports_required_clearance() {
    let r = result(
        vec![seg(0, MM, 10 * MM, MM, 0, "B")],
        vec![Via { position: Point::new(5 * MM, 900_000), from_layer: 0, to_layer: 1, net: "A".to_string() }],
    );
    let v = check_interference(&rules(), &r);
    assert_eq!(v[0].gap_nm, 100_000);
    assert_eq!(
        v[0].message,
        "via 0 (net A) pad is only 0.100 mm from net B on layer 0 \u{2014} below required pad clearance 0.350 mm"
    );
}

#[test]
fn pairs_are_reported_layer_by_layer_in_ascending_order() {
    let r = result(
        vec![
            seg(0, 0, 10 * MM, 0, 3, "A"),
            seg(0, 0, 10 * MM, 0, 1, "C"),
            seg(0, 50_000, 10 * MM, 50_000, 3, "B"),
            seg(0, 50_000, 10 * MM, 50_000, 1, "D"),
        ],
        Vec::new(),
    );
    let v = check_interference(&rules(), &r);
    assert_eq!(v.len(), 2);
    assert_eq!((v[0].layer, v[0].net_a.as_str(), v[0].net_b.as_str()), (1, "C", "D"));
    assert_eq!((v[1].layer, v[1].net_a.as_str(), v[1].net_b.as_str()), (3, "A", "B"));
}

#[test]
fn endpoint_touching_segments_of_different_nets_violate_with_zero_gap() {
    let r = result(vec![seg(0, 0, 5 * MM, 0, 0, "A"), seg(5 * MM, 0, 5 * MM, 5 * MM, 0, "B")], Vec::new());
    let v = check_interference(&rules(), &r);
    assert_eq!(v.len(), 1);
    assert_eq!(v[0].gap_nm, 0);
}
