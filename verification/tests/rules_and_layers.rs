use pcbmotorgen::layer_map::{board_layer_code, layer_idx_to_board_layer, via_pad_diameter_nm, BoardLayer};
use pcbmotorgen::rules::DesignRules;

#[test]
fn defaults_are_millimetres() {
    let rules = DesignRules::default();
    assert_eq!(rules.min_trace_nm, 127_000);
    assert_eq!(rules.min_space_nm, 127_000);
    assert_eq!(rules.min_via_drill_nm, 200_000);
    assert_eq!(rules.min_via_annular_ring_nm, 100_000);
    assert_eq!(rules.via_pad_diameter_nm(), 400_000);
    assert_eq!(rules.io_tht_pad_diameter_nm(), 400_000);
}

#[test]
fn derived_pad_sizing_follows_drill_and_ring() {
    let rules = DesignRules { min_via_drill_nm: 300_000, min_via_annular_ring_nm: 50_000, ..DesignRules::default() };
    assert_eq!(rules.via_pad_diameter_nm(), 400_000);
    assert_eq!(rules.via_pad_radius_nm(), 200_000);
    assert_eq!(rules.io_tht_pad_diameter_nm(), rules.via_pad_diameter_nm());
}

#[test]
fn via_pad_radius_rounds_half_nanometres_to_even() {
    let rules = DesignRules { min_via_drill_nm: 200_001, min_via_annular_ring_nm: 100_000, ..DesignRules::default() };
    assert_eq!(rules.via_pad_diameter_nm(), 400_001);
    assert_eq!(rules.via_pad_radius_nm(), 200_000);
    let rules = DesignRules { min_via_drill_nm: 200_003, min_via_annular_ring_nm: 100_000, ..DesignRules::default() };
    assert_eq!(rules.via_pad_diameter_nm(), 400_003);
    assert_eq!(rules.via_pad_radius_nm(), 200_002);
}

#[test]
fn test_layer_0_is_bcu() {
    assert_eq!(layer_idx_to_board_layer(0, 4), BoardLayer::BlBCu);
}

#[test]
fn test_layer_top_is_fcu() {
    assert_eq!(layer_idx_to_board_layer(3, 4), BoardLayer::BlFCu);
}

#[test]
fn test_layer_1_is_in1cu() {
    assert_eq!(layer_idx_to_board_layer(1, 4), BoardLayer::BlIn1Cu);
}

#[test]
fn test_via_pad_diameter() {
    // 0.2 mm drill + 2 × 0.1 mm ring = 0.4 mm = 400,000 nm
    assert_eq!(via_pad_diameter_nm(200_000, 100_000), 400_000);
}

#[test]
fn layer_past_the_top_is_undefined() {
    assert_eq!(layer_idx_to_board_layer(4, 4), BoardLayer::BlUndefined);
    assert_eq!(layer_idx_to_board_layer(2, 2), BoardLayer::BlUndefined);
}

#[test]
fn two_layer_board_maps_bottom_and_top() {
    assert_eq!(layer_idx_to_board_layer(0, 2), BoardLayer::BlBCu);
    assert_eq!(layer_idx_to_board_layer(1, 2), BoardLayer::BlFCu);
}

#[test]
fn board_layer_wire_values() {
    assert_eq!(board_layer_code(BoardLayer::BlFCu), 3);
    assert_eq!(board_layer_code(BoardLayer::BlIn1Cu), 4);
    assert_eq!(board_layer_code(BoardLayer::BlIn30Cu), 33);
    assert_eq!(board_layer_code(BoardLayer::BlBCu), 34);
}

#[test]
fn io_fanout_options_bridge_sizes_from_the_rules() {
    let rules = DesignRules::default();
    let opts = rules.io_fanout_options();
    assert_eq!(opts.pad_diameter_nm, rules.io_tht_pad_diameter_nm());
    assert_eq!(opts.drill_nm, Some(rules.min_via_drill_nm));
    assert!(opts.drill_nm.unwrap() > 0, "drill is positive");
    assert_eq!(opts.pad_diameter_nm, 400_000);
}
