//! Mapping from routing layer indices to KiCad board layers.
use vstd::prelude::*;

verus! {

/// The KiCad copper (and edge-cut) layers the writers target.
#[derive(Debug, Clone, Copy, PartialEq, Eq, Structural)]
pub enum BoardLayer {
    /// No layer.
    BlUndefined,
    /// Front copper.
    BlFCu,
    /// Inner copper layer 1.
    BlIn1Cu,
    /// Inner copper layer 2.
    BlIn2Cu,
    /// Inner copper layer 3.
    BlIn3Cu,
    /// Inner copper layer 4.
    BlIn4Cu,
    /// Inner copper layer 5.
    BlIn5Cu,
    /// Inner copper layer 6.
    BlIn6Cu,
    /// Inner copper layer 7.
    BlIn7Cu,
    /// Inner copper layer 8.
    BlIn8Cu,
    /// Inner copper layer 9.
    BlIn9Cu,
    /// Inner copper layer 10.
    BlIn10Cu,
    /// Inner copper layer 11.
    BlIn11Cu,
    /// Inner copper layer 12.
    BlIn12Cu,
    /// Inner copper layer 13.
    BlIn13Cu,
    /// Inner copper layer 14.
    BlIn14Cu,
    /// Inner copper layer 15.
    BlIn15Cu,
    /// Inner copper layer 16.
    BlIn16Cu,
    /// Inner copper layer 17.
    BlIn17Cu,
    /// Inner copper layer 18.
    BlIn18Cu,
    /// Inner copper layer 19.
    BlIn19Cu,
    /// Inner copper layer 20.
    BlIn20Cu,
    /// Inner copper layer 21.
    BlIn21Cu,
    /// Inner copper layer 22.
    BlIn22Cu,
    /// Inner copper layer 23.
    BlIn23Cu,
    /// Inner copper layer 24.
    BlIn24Cu,
    /// Inner copper layer 25.
    BlIn25Cu,
    /// Inner copper layer 26.
    BlIn26Cu,
    /// Inner copper layer 27.
    BlIn27Cu,
    /// Inner copper layer 28.
    BlIn28Cu,
    /// Inner copper layer 29.
    BlIn29Cu,
    /// Inner copper layer 30.
    BlIn30Cu,
    /// Back copper.
    BlBCu,
    /// Board outline.
    BlEdgeCuts,
}

/// The inner copper layer with number `n` (1..=30).
pub open spec fn inner_copper(n: u32) -> BoardLayer {
    match n {
        1 => BoardLayer::BlIn1Cu,
        2 => BoardLayer::BlIn2Cu,
        3 => BoardLayer::BlIn3Cu,
        4 => BoardLayer::BlIn4Cu,
        5 => BoardLayer::BlIn5Cu,
        6 => BoardLayer::BlIn6Cu,
        7 => BoardLayer::BlIn7Cu,
        8 => BoardLayer::BlIn8Cu,
        9 => BoardLayer::BlIn9Cu,
        10 => BoardLayer::BlIn10Cu,
        11 => BoardLayer::BlIn11Cu,
        12 => BoardLayer::BlIn12Cu,
        13 => BoardLayer::BlIn13Cu,
        14 => BoardLayer::BlIn14Cu,
        15 => BoardLayer::BlIn15Cu,
        16 => BoardLayer::BlIn16Cu,
        17 => BoardLayer::BlIn17Cu,
        18 => BoardLayer::BlIn18Cu,
        19 => BoardLayer::BlIn19Cu,
        20 => BoardLayer::BlIn20Cu,
        21 => BoardLayer::BlIn21Cu,
        22 => BoardLayer::BlIn22Cu,
        23 => BoardLayer::BlIn23Cu,
        24 => BoardLayer::BlIn24Cu,
        25 => BoardLayer::BlIn25Cu,
        26 => BoardLayer::BlIn26Cu,
        27 => BoardLayer::BlIn27Cu,
        28 => BoardLayer::BlIn28Cu,
        29 => BoardLayer::BlIn29Cu,
        30 => BoardLayer::BlIn30Cu,
        _ => BoardLayer::BlUndefined,
    }
}

/// Layer index 0 is the bottom copper (B.Cu), the last index of a
/// `num_layers` board is the top copper (F.Cu), and index `k` in between is
/// the inner layer `In{k}.Cu`. Indices past the top layer, or inner indices
/// KiCad has no layer for, map to no layer.
pub open spec fn board_layer_for(idx: u32, num_layers: u32) -> BoardLayer {
    if idx == 0 {
        BoardLayer::BlBCu
    } else if idx == num_layers - 1 {
        BoardLayer::BlFCu
    } else if idx < num_layers - 1 {
        inner_copper(idx)
    } else {
        BoardLayer::BlUndefined
    }
}

fn inner_copper_layer(n: u32) -> (l: BoardLayer)
    ensures
        l == inner_copper(n),
{
    match n {
        1 => BoardLayer::BlIn1Cu,
        2 => BoardLayer::BlIn2Cu,
        3 => BoardLayer::BlIn3Cu,
        4 => BoardLayer::BlIn4Cu,
        5 => BoardLayer::BlIn5Cu,
        6 => BoardLayer::BlIn6Cu,
        7 => BoardLayer::BlIn7Cu,
        8 => BoardLayer::BlIn8Cu,
        9 => BoardLayer::BlIn9Cu,
        10 => BoardLayer::BlIn10Cu,
        11 => BoardLayer::BlIn11Cu,
        12 => BoardLayer::BlIn12Cu,
        13 => BoardLayer::BlIn13Cu,
        14 => BoardLayer::BlIn14Cu,
        15 => BoardLayer::BlIn15Cu,
        16 => BoardLayer::BlIn16Cu,
        17 => BoardLayer::BlIn17Cu,
        18 => BoardLayer::BlIn18Cu,
        19 => BoardLayer::BlIn19Cu,
        20 => BoardLayer::BlIn20Cu,
        21 => BoardLayer::BlIn21Cu,
        22 => BoardLayer::BlIn22Cu,
        23 => BoardLayer::BlIn23Cu,
        24 => BoardLayer::BlIn24Cu,
        25 => BoardLayer::BlIn25Cu,
        26 => BoardLayer::BlIn26Cu,
        27 => BoardLayer::BlIn27Cu,
        28 => BoardLayer::BlIn28Cu,
        29 => BoardLayer::BlIn29Cu,
        30 => BoardLayer::BlIn30Cu,
        _ => BoardLayer::BlUndefined,
    }
}

/// Map a routing layer index to its KiCad board layer on a board with
/// `num_layers` copper layers.
pub fn layer_idx_to_board_layer(layer_idx: u32, num_layers: u32) -> (l: BoardLayer)
    ensures
        l == board_layer_for(layer_idx, num_layers),
{
    if layer_idx == 0 {
        BoardLayer::BlBCu
    } else if num_layers >= 1 && layer_idx == num_layers - 1 {
        BoardLayer::BlFCu
    } else if num_layers >= 1 && layer_idx < num_layers - 1 {
        inner_copper_layer(layer_idx)
    } else {
        BoardLayer::BlUndefined
    }
}

/// Via pad diameter in nanometres: drill + 2 × annular ring.
pub fn via_pad_diameter_nm(drill_nm: i64, annular_ring_nm: i64) -> (d: i64)
    requires
        -1_000_000_000_000_000 <= drill_nm <= 1_000_000_000_000_000,
        -1_000_000_000_000_000 <= annular_ring_nm <= 1_000_000_000_000_000,
    ensures
        d == drill_nm + 2 * annular_ring_nm,
{
    drill_nm + 2 * annular_ring_nm
}

/// The layer's value on the KiCad IPC wire (the `BoardLayer` enum of the
/// KiCad API): F.Cu is 3, In1.Cu..In30.Cu are 4..33, B.Cu is 34, Edge.Cuts
/// is 47 and "undefined" is 1.
pub open spec fn layer_code(l: BoardLayer) -> i32 {
    match l {
        BoardLayer::BlUndefined => 1,
        BoardLayer::BlFCu => 3,
        BoardLayer::BlIn1Cu => 4,
        BoardLayer::BlIn2Cu => 5,
        BoardLayer::BlIn3Cu => 6,
        BoardLayer::BlIn4Cu => 7,
        BoardLayer::BlIn5Cu => 8,
        BoardLayer::BlIn6Cu => 9,
        BoardLayer::BlIn7Cu => 10,
        BoardLayer::BlIn8Cu => 11,
        BoardLayer::BlIn9Cu => 12,
        BoardLayer::BlIn10Cu => 13,
        BoardLayer::BlIn11Cu => 14,
        BoardLayer::BlIn12Cu => 15,
        BoardLayer::BlIn13Cu => 16,
        BoardLayer::BlIn14Cu => 17,
        BoardLayer::BlIn15Cu => 18,
        BoardLayer::BlIn16Cu => 19,
        BoardLayer::BlIn17Cu => 20,
        BoardLayer::BlIn18Cu => 21,
        BoardLayer::BlIn19Cu => 22,
        BoardLayer::BlIn20Cu => 23,
        BoardLayer::BlIn21Cu => 24,
        BoardLayer::BlIn22Cu => 25,
        BoardLayer::BlIn23Cu => 26,
        BoardLayer::BlIn24Cu => 27,
        BoardLayer::BlIn25Cu => 28,
        BoardLayer::BlIn26Cu => 29,
        BoardLayer::BlIn27Cu => 30,
        BoardLayer::BlIn28Cu => 31,
        BoardLayer::BlIn29Cu => 32,
        BoardLayer::BlIn30Cu => 33,
        BoardLayer::BlBCu => 34,
        BoardLayer::BlEdgeCuts => 47,
    }
}

/// The layer's value on the KiCad IPC wire.
pub fn board_layer_code(l: BoardLayer) -> (c: i32)
    ensures
        c == layer_code(l),
{
    match l {
        BoardLayer::BlUndefined => 1,
        BoardLayer::BlFCu => 3,
        BoardLayer::BlIn1Cu => 4,
        BoardLayer::BlIn2Cu => 5,
        BoardLayer::BlIn3Cu => 6,
        BoardLayer::BlIn4Cu => 7,
        BoardLayer::BlIn5Cu => 8,
        BoardLayer::BlIn6Cu => 9,
        BoardLayer::BlIn7Cu => 10,
        BoardLayer::BlIn8Cu => 11,
        BoardLayer::BlIn9Cu => 12,
        BoardLayer::BlIn10Cu => 13,
        BoardLayer::BlIn11Cu => 14,
        BoardLayer::BlIn12Cu => 15,
        BoardLayer::BlIn13Cu => 16,
        BoardLayer::BlIn14Cu => 17,
        BoardLayer::BlIn15Cu => 18,
        BoardLayer::BlIn16Cu => 19,
        BoardLayer::BlIn17Cu => 20,
        BoardLayer::BlIn18Cu => 21,
        BoardLayer::BlIn19Cu => 22,
        BoardLayer::BlIn20Cu => 23,
        BoardLayer::BlIn21Cu => 24,
        BoardLayer::BlIn22Cu => 25,
        BoardLayer::BlIn23Cu => 26,
        BoardLayer::BlIn24Cu => 27,
        BoardLayer::BlIn25Cu => 28,
        BoardLayer::BlIn26Cu => 29,
        BoardLayer::BlIn27Cu => 30,
        BoardLayer::BlIn28Cu => 31,
        BoardLayer::BlIn29Cu => 32,
        BoardLayer::BlIn30Cu => 33,
        BoardLayer::BlBCu => 34,
        BoardLayer::BlEdgeCuts => 47,
    }
}


/// On a board of 2 to 32 copper layers every routing layer index maps to a
/// distinct copper layer: index 0 to B.Cu (wire code 34), the last index to
/// F.Cu (wire code 3), and an index `k` in between to `In{k}.Cu`, whose
/// wire code is `3 + k`.
pub proof fn lemma_copper_layer_codes(i: u32, j: u32, n: u32)
    requires
        2 <= n <= 32,
        i < n,
        j < n,
    ensures
        layer_code(board_layer_for(i, n)) == (if i == 0 {
            34
        } else if i == n - 1 {
            3
        } else {
            3 + i
        }),
        i != j ==> board_layer_for(i, n) != board_layer_for(j, n),
{
    assert(layer_code(board_layer_for(i, n)) == (if i == 0 { 34 } else if i == n - 1 { 3 } else { 3 + i }));
    assert(layer_code(board_layer_for(j, n)) == (if j == 0 { 34 } else if j == n - 1 { 3 } else { 3 + j }));
}

} // verus!
