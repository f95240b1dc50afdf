use pcbmotorgen::geometry::{CoilSegment, PhaseCoil};
use pcbmotorgen::ipc::CoilPreviewIpc;
use pcbmotorgen::layer_map::{board_layer_code, BoardLayer};
use pcbmotorgen::preview::preview_coils;

fn coil(layer: u32, phase: &str, segs: usize, vias: usize, pattern: &str) -> PhaseCoil {
    PhaseCoil {
        phase_idx: 0,
        layer_idx: layer,
        phase_name: phase.into(),
        pattern_id: pattern.into(),
        segments: (0..segs).map(|k| CoilSegment { start: (k as i64, 0), end: (k as i64, 1), is_active: true }).collect(),
        corner_arcs: vec![],
        center_via_positions: (0..vias).map(|k| (k as i64, 0)).collect(),
    }
}

fn braid_like() -> Vec<PhaseCoil> {
    let mut cs = Vec::new();
    for layer in [1u32, 0u32] {
        for p in ["A", "B", "C"] {
            cs.push(coil(layer, p, 4, 1, "infinity-braid"));
        }
    }
    cs
}

#[test]
fn test_preview_coils_zero_layers_errors() {
    let err = preview_coils(&[], 0).unwrap_err();
    assert!(err.to_lowercase().contains("num_layers"));
}

#[test]
fn preview_no_coils_errors() {
    let err = preview_coils(&[], 4).unwrap_err();
    assert_eq!(
        err,
        "coil generator produced no coils (num_layers=4). Check that the routing context produces a valid coil set."
    );
}

#[test]
fn preview_layers_are_distinct_and_ascending() {
    let p = preview_coils(&braid_like(), 4).expect("preview");
    assert_eq!(p.layers.len(), 2);
    assert_eq!((p.layers[0].layer_idx, p.layers[1].layer_idx), (0, 1));
    for l in &p.layers {
        assert_eq!(l.phase_count, 3);
        assert_eq!(l.segment_count, 12);
        assert_eq!(l.via_count, 3);
    }
    assert_eq!(p.total_tracks, 24);
    assert_eq!(p.total_vias, 6);
    assert_eq!(p.coils.len(), 6);
}

#[test]
fn preview_bottom_layer_uses_bcu() {
    let p = preview_coils(&braid_like(), 4).expect("preview");
    assert_eq!(p.layers[0].board_layer, board_layer_code(BoardLayer::BlBCu));
    assert_eq!(p.layers[1].board_layer, board_layer_code(BoardLayer::BlIn1Cu));
}

#[test]
fn preview_pattern_id_is_first_named_or_default() {
    let mut cs = braid_like();
    cs[0].pattern_id = String::new();
    cs[1].pattern_id = "wave".into();
    assert_eq!(preview_coils(&cs, 2).unwrap().pattern_id, "wave");
    for c in cs.iter_mut() {
        c.pattern_id = String::new();
    }
    assert_eq!(preview_coils(&cs, 2).unwrap().pattern_id, "infinity-braid");
}

#[test]
fn preview_per_layer_tally_matches_the_coils() {
    let cs = vec![coil(0, "A", 2, 0, ""), coil(2, "A", 5, 3, ""), coil(0, "B", 7, 1, "")];
    let p = preview_coils(&cs, 3).expect("preview");
    for l in &p.layers {
        let segs: usize = cs.iter().filter(|c| c.layer_idx == l.layer_idx).map(|c| c.segments.len()).sum();
        assert_eq!(l.segment_count as usize, segs);
    }
    assert_eq!(p.total_tracks, 14);
    assert_eq!(p.layers[1].board_layer, board_layer_code(BoardLayer::BlFCu));
}

#[test]
fn preview_ipc_carries_tallies() {
    let p = preview_coils(&braid_like(), 4).expect("preview");
    let ipc = CoilPreviewIpc::from_core(&p);
    assert_eq!(ipc.num_layers, 4);
    assert_eq!(ipc.topology, "infinity-braid");
    assert_eq!(ipc.layers.len(), 2);
    assert_eq!(ipc.layers[1].segment_count, 12);
    assert_eq!((ipc.total_tracks, ipc.total_vias), (24, 6));
}
