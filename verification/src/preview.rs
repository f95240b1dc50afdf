//! Dry-run preview of a coil set: what a board write would produce, layer by
//! layer, without touching the board.
use vstd::prelude::*;
use crate::geometry::{CoilArc, CoilSegment, PhaseCoil};
use crate::layer_map::{board_layer_code, board_layer_for, layer_code, layer_idx_to_board_layer};
use crate::order::{ascending, insert_sorted_u32};
use crate::text::{nat_text, push_nat, push_str};
use vstd::string::StrSliceExecFns;

verus! {

/// Per-layer breakdown of the coils that would be written.
#[derive(Debug, Clone, Copy, PartialEq, Eq, Structural)]
pub struct CoilPreviewLayer {
    /// Routing layer index.
    pub layer_idx: u32,
    /// KiCad board layer as its wire value.
    pub board_layer: i32,
    /// Number of coils (one per phase and layer) on this layer.
    pub phase_count: u32,
    /// Number of track segments on this layer.
    pub segment_count: u32,
    /// Number of centre vias of the coils on this layer.
    pub via_count: u32,
}

/// Dry-run summary of a coil write.
#[derive(Debug)]
pub struct CoilPreview {
    /// Number of board layers the write targets.
    pub num_layers: u32,
    /// Routing pattern that produced the coil set.
    pub pattern_id: String,
    /// One entry per layer index present in the coil set, ascending.
    pub layers: Vec<CoilPreviewLayer>,
    /// Track segments over all layers.
    pub total_tracks: u32,
    /// Vias over all layers.
    pub total_vias: u32,
    /// The full coil geometry.
    pub coils: Vec<PhaseCoil>,
}

// ---------------------------------------------------------------------------
// Counting
// ---------------------------------------------------------------------------

/// Sum of `w` over the coils on layer `l`.
pub open spec fn weight_on(cs: Seq<PhaseCoil>, l: u32, w: spec_fn(PhaseCoil) -> nat) -> nat
    decreases cs.len(),
{
    if cs.len() == 0 {
        0
    } else {
        weight_on(cs.drop_last(), l, w) + if cs.last().layer_idx == l { w(cs.last()) } else { 0 }
    }
}

/// Sum of `w` over all coils.
pub open spec fn total_weight(cs: Seq<PhaseCoil>, w: spec_fn(PhaseCoil) -> nat) -> nat
    decreases cs.len(),
{
    if cs.len() == 0 {
        0
    } else {
        total_weight(cs.drop_last(), w) + w(cs.last())
    }
}

/// Sum over the layers of `ls` of the per-layer sums of `w`.
pub open spec fn weight_over(cs: Seq<PhaseCoil>, ls: Seq<u32>, w: spec_fn(PhaseCoil) -> nat) -> nat
    decreases ls.len(),
{
    if ls.len() == 0 {
        0
    } else {
        weight_over(cs, ls.drop_last(), w) + weight_on(cs, ls.last(), w)
    }
}

/// A coil counts one.
pub open spec fn one_each() -> spec_fn(PhaseCoil) -> nat {
    |c: PhaseCoil| 1nat
}

/// A coil counts its segments.
pub open spec fn segments_each() -> spec_fn(PhaseCoil) -> nat {
    |c: PhaseCoil| c.segments@.len()
}

/// A coil counts its centre vias.
pub open spec fn vias_each() -> spec_fn(PhaseCoil) -> nat {
    |c: PhaseCoil| c.center_via_positions@.len()
}

/// `layers` lists the distinct coil layer indices in ascending order.
pub open spec fn is_coil_layer_order(cs: Seq<PhaseCoil>, layers: Seq<u32>) -> bool {
    &&& ascending(layers)
    &&& forall|l: u32| layers.contains(l) <==> exists|k: int| 0 <= k < cs.len() && #[trigger] cs[k].layer_idx == l
}

/// The preview entry of layer `l`.
pub open spec fn preview_layer(cs: Seq<PhaseCoil>, l: u32, num_layers: u32) -> CoilPreviewLayer {
    CoilPreviewLayer {
        layer_idx: l,
        board_layer: layer_code(board_layer_for(l, num_layers)),
        phase_count: weight_on(cs, l, one_each()) as u32,
        segment_count: weight_on(cs, l, segments_each()) as u32,
        via_count: weight_on(cs, l, vias_each()) as u32,
    }
}

/// The pattern id of the first coil that names one, else the bundled
/// default `infinity-braid`.
pub open spec fn preview_pattern_id(cs: Seq<PhaseCoil>) -> Seq<char>
    decreases cs.len(),
{
    if cs.len() == 0 {
        "infinity-braid"@
    } else if cs[0].pattern_id@.len() > 0 {
        cs[0].pattern_id@
    } else {
        preview_pattern_id(cs.drop_first())
    }
}

/// The same coil, field by field.
pub open spec fn same_coil(a: PhaseCoil, b: PhaseCoil) -> bool {
    &&& a.phase_idx == b.phase_idx
    &&& a.layer_idx == b.layer_idx
    &&& a.phase_name == b.phase_name
    &&& a.pattern_id == b.pattern_id
    &&& a.segments@ == b.segments@
    &&& a.corner_arcs@ == b.corner_arcs@
    &&& a.center_via_positions@ == b.center_via_positions@
}

pub open spec fn zero_layers_message() -> Seq<char> {
    "num_layers is 0 \u{2014} nothing to preview. Set at least 2 layers."@
}

pub open spec fn no_coils_message(num_layers: u32) -> Seq<char> {
    "coil generator produced no coils (num_layers="@ + nat_text(num_layers as nat)
        + "). Check that the routing context produces a valid coil set."@
}

// ---------------------------------------------------------------------------
// Counting lemmas
// ---------------------------------------------------------------------------

proof fn lemma_weight_on_le_total(cs: Seq<PhaseCoil>, l: u32, w: spec_fn(PhaseCoil) -> nat)
    ensures
        weight_on(cs, l, w) <= total_weight(cs, w),
    decreases cs.len(),
{
    if cs.len() > 0 {
        lemma_weight_on_le_total(cs.drop_last(), l, w);
    }
}

proof fn lemma_total_prefix(cs: Seq<PhaseCoil>, k: int, w: spec_fn(PhaseCoil) -> nat)
    requires
        0 <= k <= cs.len(),
    ensures
        total_weight(cs.take(k), w) <= total_weight(cs, w),
    decreases cs.len() - k,
{
    if k < cs.len() {
        lemma_total_prefix(cs, k + 1, w);
        assert(cs.take(k + 1).drop_last() =~= cs.take(k));
    } else {
        assert(cs.take(k) =~= cs);
    }
}

proof fn lemma_weight_over_prefix(cs: Seq<PhaseCoil>, ls: Seq<u32>, i: int, w: spec_fn(PhaseCoil) -> nat)
    requires
        0 <= i <= ls.len(),
    ensures
        weight_over(cs, ls.take(i), w) <= weight_over(cs, ls, w),
    decreases ls.len() - i,
{
    if i < ls.len() {
        lemma_weight_over_prefix(cs, ls, i + 1, w);
        assert(ls.take(i + 1).drop_last() =~= ls.take(i));
    } else {
        assert(ls.take(i) =~= ls);
    }
}

/// Sum over `ls` of "`v` on layer `x`, else nothing".
spec fn indicator_over(ls: Seq<u32>, x: u32, v: nat) -> nat
    decreases ls.len(),
{
    if ls.len() == 0 {
        0
    } else {
        indicator_over(ls.drop_last(), x, v) + if ls.last() == x { v } else { 0 }
    }
}

proof fn lemma_indicator_once(ls: Seq<u32>, x: u32, v: nat)
    requires
        ascending(ls),
    ensures
        indicator_over(ls, x, v) == if ls.contains(x) { v } else { 0 },
    decreases ls.len(),
{
    if ls.len() > 0 {
        let init = ls.drop_last();
        lemma_indicator_once(init, x, v);
        if ls.last() == x {
            if init.contains(x) {
                let q = choose|q: int| 0 <= q < init.len() && init[q] == x;
                assert(ls[q] == x);
                assert(ls[q] < ls[ls.len() - 1]);
            }
        } else {
            if ls.contains(x) {
                let q = choose|q: int| 0 <= q < ls.len() && ls[q] == x;
                assert(init[q] == x);
            }
            if init.contains(x) {
                let q = choose|q: int| 0 <= q < init.len() && init[q] == x;
                assert(ls[q] == x);
            }
        }
    }
}

proof fn lemma_weight_over_split(cs: Seq<PhaseCoil>, ls: Seq<u32>, w: spec_fn(PhaseCoil) -> nat)
    requires
        cs.len() > 0,
    ensures
        weight_over(cs, ls, w) == weight_over(cs.drop_last(), ls, w) + indicator_over(
            ls,
            cs.last().layer_idx,
            w(cs.last()),
        ),
    decreases ls.len(),
{
    if ls.len() > 0 {
        lemma_weight_over_split(cs, ls.drop_last(), w);
    }
}

proof fn lemma_weight_over_empty(cs: Seq<PhaseCoil>, ls: Seq<u32>, w: spec_fn(PhaseCoil) -> nat)
    requires
        cs.len() == 0,
    ensures
        weight_over(cs, ls, w) == 0,
    decreases ls.len(),
{
    if ls.len() > 0 {
        lemma_weight_over_empty(cs, ls.drop_last(), w);
    }
}

/// Summing per-layer counts over all the layers present counts every coil
/// exactly once.
pub proof fn lemma_layer_sums_complete(cs: Seq<PhaseCoil>, ls: Seq<u32>, w: spec_fn(PhaseCoil) -> nat)
    requires
        ascending(ls),
        forall|k: int| 0 <= k < cs.len() ==> ls.contains(#[trigger] cs[k].layer_idx),
    ensures
        weight_over(cs, ls, w) == total_weight(cs, w),
    decreases cs.len(),
{
    if cs.len() == 0 {
        lemma_weight_over_empty(cs, ls, w);
    } else {
        let init = cs.drop_last();
        assert forall|k: int| 0 <= k < init.len() implies ls.contains(#[trigger] init[k].layer_idx) by {
            assert(init[k] == cs[k]);
        }
        lemma_layer_sums_complete(init, ls, w);
        lemma_weight_over_split(cs, ls, w);
        assert(ls.contains(cs[cs.len() - 1].layer_idx));
        lemma_indicator_once(ls, cs.last().layer_idx, w(cs.last()));
    }
}

proof fn lemma_total_one(cs: Seq<PhaseCoil>)
    ensures
        total_weight(cs, one_each()) == cs.len(),
    decreases cs.len(),
{
    if cs.len() > 0 {
        lemma_total_one(cs.drop_last());
    }
}

// ---------------------------------------------------------------------------
// Preview
// ---------------------------------------------------------------------------

fn copy_coil(c: &PhaseCoil) -> (r: PhaseCoil)
    ensures
        same_coil(r, *c),
{
    let mut segments: Vec<CoilSegment> = Vec::new();
    let mut i: usize = 0;
    while i < c.segments.len()
        invariant
            i <= c.segments@.len(),
            segments@ =~= c.segments@.take(i as int),
        decreases c.segments.len() - i,
    {
        segments.push(c.segments[i]);
        i = i + 1;
    }
    assert(c.segments@.take(c.segments@.len() as int) =~= c.segments@);
    let mut corner_arcs: Vec<CoilArc> = Vec::new();
    let mut j: usize = 0;
    while j < c.corner_arcs.len()
        invariant
            j <= c.corner_arcs@.len(),
            corner_arcs@ =~= c.corner_arcs@.take(j as int),
        decreases c.corner_arcs.len() - j,
    {
        corner_arcs.push(c.corner_arcs[j]);
        j = j + 1;
    }
    assert(c.corner_arcs@.take(c.corner_arcs@.len() as int) =~= c.corner_arcs@);
    let mut vias: Vec<(i64, i64)> = Vec::new();
    let mut k: usize = 0;
    while k < c.center_via_positions.len()
        invariant
            k <= c.center_via_positions@.len(),
            vias@ =~= c.center_via_positions@.take(k as int),
        decreases c.center_via_positions.len() - k,
    {
        vias.push(c.center_via_positions[k]);
        k = k + 1;
    }
    assert(c.center_via_positions@.take(c.center_via_positions@.len() as int) =~= c.center_via_positions@);
    PhaseCoil {
        phase_idx: c.phase_idx,
        layer_idx: c.layer_idx,
        phase_name: c.phase_name.clone(),
        pattern_id: c.pattern_id.clone(),
        segments,
        corner_arcs,
        center_via_positions: vias,
    }
}

/// The distinct layer indices of the coils, ascending.
fn coil_layers(coils: &[PhaseCoil]) -> (v: Vec<u32>)
    ensures
        is_coil_layer_order(coils@, v@),
{
    let mut v: Vec<u32> = Vec::new();
    let mut i: usize = 0;
    while i < coils.len()
        invariant
            i <= coils@.len(),
            ascending(v@),
            forall|l: u32| v@.contains(l) <==> exists|k: int| 0 <= k < i && #[trigger] coils@[k].layer_idx == l,
        decreases coils.len() - i,
    {
        let x = coils[i].layer_idx;
        insert_sorted_u32(&mut v, x);
        proof {
            assert forall|l: u32| v@.contains(l) <==> exists|k: int| 0 <= k < i + 1 && #[trigger] coils@[k].layer_idx == l by {
                if l == x {
                    assert(coils@[i as int].layer_idx == l);
                }
                if exists|k: int| 0 <= k < i + 1 && #[trigger] coils@[k].layer_idx == l {
                    let k = choose|k: int| 0 <= k < i + 1 && #[trigger] coils@[k].layer_idx == l;
                    if k < i {
                        assert(exists|k2: int| 0 <= k2 < i && #[trigger] coils@[k2].layer_idx == l);
                    }
                }
            }
        }
        i = i + 1;
    }
    v
}

/// Coils, segments and vias on layer `l`.
fn layer_tally(coils: &[PhaseCoil], l: u32) -> (t: (u32, u32, u32))
    requires
        coils@.len() <= u32::MAX,
        total_weight(coils@, segments_each()) <= u32::MAX,
        total_weight(coils@, vias_each()) <= u32::MAX,
    ensures
        t.0 == weight_on(coils@, l, one_each()),
        t.1 == weight_on(coils@, l, segments_each()),
        t.2 == weight_on(coils@, l, vias_each()),
{
    let mut phases: u32 = 0;
    let mut segs: u32 = 0;
    let mut vias: u32 = 0;
    let mut k: usize = 0;
    proof {
        lemma_total_one(coils@);
        assert(coils@.take(0) =~= Seq::<PhaseCoil>::empty());
    }
    while k < coils.len()
        invariant
            k <= coils@.len(),
            coils@.len() <= u32::MAX,
            total_weight(coils@, segments_each()) <= u32::MAX,
            total_weight(coils@, vias_each()) <= u32::MAX,
            total_weight(coils@, one_each()) == coils@.len(),
            phases == weight_on(coils@.take(k as int), l, one_each()),
            segs == weight_on(coils@.take(k as int), l, segments_each()),
            vias == weight_on(coils@.take(k as int), l, vias_each()),
        decreases coils.len() - k,
    {
        let ghost next = coils@.take(k + 1);
        proof {
            assert(next.drop_last() =~= coils@.take(k as int));
            assert(next.last() == coils@[k as int]);
            lemma_weight_on_le_total(next, l, one_each());
            lemma_weight_on_le_total(next, l, segments_each());
            lemma_weight_on_le_total(next, l, vias_each());
            lemma_total_prefix(coils@, k + 1, one_each());
            lemma_total_prefix(coils@, k + 1, segments_each());
            lemma_total_prefix(coils@, k + 1, vias_each());
        }
        let c = &coils[k];
        if c.layer_idx == l {
            phases = phases + 1;
            segs = segs + c.segments.len() as u32;
            vias = vias + c.center_via_positions.len() as u32;
        }
        k = k + 1;
    }
    assert(coils@.take(coils@.len() as int) =~= coils@);
    (phases, segs, vias)
}

/// Summarise the coil set a board write would produce, without touching the
/// board: one entry per layer index present (ascending) with its board
/// layer, coil, segment and via counts, the totals, the pattern id and the
/// coils themselves. Fails when `num_layers` is 0 or the set is empty.
pub fn preview_coils(coils: &[PhaseCoil], num_layers: u32) -> (r: Result<CoilPreview, String>)
    requires
        coils@.len() <= u32::MAX,
        total_weight(coils@, segments_each()) <= u32::MAX,
        total_weight(coils@, vias_each()) <= u32::MAX,
    ensures
        num_layers == 0 ==> r is Err && r->Err_0@ == zero_layers_message(),
        num_layers > 0 && coils@.len() == 0 ==> r is Err && r->Err_0@ == no_coils_message(num_layers),
        num_layers > 0 && coils@.len() > 0 ==> r is Ok,
        r is Ok ==> ({
            let p = r->Ok_0;
            &&& p.num_layers == num_layers
            &&& p.pattern_id@ == preview_pattern_id(coils@)
            &&& is_coil_layer_order(coils@, p.layers@.map_values(|e: CoilPreviewLayer| e.layer_idx))
            &&& forall|i: int| 0 <= i < p.layers@.len() ==> #[trigger] p.layers@[i] == preview_layer(
                coils@,
                p.layers@[i].layer_idx,
                num_layers,
            )
            &&& p.total_tracks == total_weight(coils@, segments_each())
            &&& p.total_vias == total_weight(coils@, vias_each())
            &&& p.coils@.len() == coils@.len()
            &&& forall|i: int| 0 <= i < coils@.len() ==> same_coil(#[trigger] p.coils@[i], coils@[i])
        }),
{
    if num_layers == 0 {
        let mut m = String::new();
        push_str(&mut m, "num_layers is 0 \u{2014} nothing to preview. Set at least 2 layers.");
        return Err(m);
    }
    if coils.len() == 0 {
        let mut m = String::new();
        push_str(&mut m, "coil generator produced no coils (num_layers=");
        push_nat(&mut m, num_layers as u64);
        push_str(&mut m, "). Check that the routing context produces a valid coil set.");
        return Err(m);
    }
    // The first coil that names its pattern gives the id.
    let mut pattern_id = String::new();
    let mut found = false;
    let mut q: usize = 0;
    assert(coils@.skip(0) =~= coils@);
    while q < coils.len()
        invariant
            q <= coils@.len(),
            !found ==> pattern_id@ == Seq::<char>::empty(),
            found ==> pattern_id@ == preview_pattern_id(coils@),
            !found ==> preview_pattern_id(coils@) == preview_pattern_id(coils@.skip(q as int)),
        decreases coils.len() - q,
    {
        proof {
            assert(coils@.skip(q as int).drop_first() =~= coils@.skip(q + 1));
            assert(coils@.skip(q as int)[0] == coils@[q as int]);
        }
        if !found && coils[q].pattern_id.as_str().unicode_len() > 0 {
            pattern_id = coils[q].pattern_id.clone();
            found = true;
        }
        q = q + 1;
    }
    if !found {
        assert(coils@.skip(coils@.len() as int) =~= Seq::<PhaseCoil>::empty());
        push_str(&mut pattern_id, "infinity-braid");
        assert(pattern_id@ =~= "infinity-braid"@);
    }
    let used = coil_layers(coils);
    let mut layers: Vec<CoilPreviewLayer> = Vec::new();
    let mut total_tracks: u32 = 0;
    let mut total_vias: u32 = 0;
    let mut li: usize = 0;
    proof {
        assert forall|k: int| 0 <= k < coils@.len() implies used@.contains(#[trigger] coils@[k].layer_idx) by {}
        lemma_layer_sums_complete(coils@, used@, segments_each());
        lemma_layer_sums_complete(coils@, used@, vias_each());
        assert(used@.take(0) =~= Seq::<u32>::empty());
    }
    while li < used.len()
        invariant
            li <= used@.len(),
            num_layers > 0,
            coils@.len() <= u32::MAX,
            total_weight(coils@, segments_each()) <= u32::MAX,
            total_weight(coils@, vias_each()) <= u32::MAX,
            is_coil_layer_order(coils@, used@),
            weight_over(coils@, used@, segments_each()) == total_weight(coils@, segments_each()),
            weight_over(coils@, used@, vias_each()) == total_weight(coils@, vias_each()),
            layers@.len() == li,
            forall|i: int| 0 <= i < li ==> #[trigger] layers@[i] == preview_layer(coils@, used@[i], num_layers),
            total_tracks == weight_over(coils@, used@.take(li as int), segments_each()),
            total_vias == weight_over(coils@, used@.take(li as int), vias_each()),
        decreases used.len() - li,
    {
        let l = used[li];
        let (phase_count, segment_count, via_count) = layer_tally(coils, l);
        let board_layer = board_layer_code(layer_idx_to_board_layer(l, num_layers));
        proof {
            assert(used@.take(li + 1).drop_last() =~= used@.take(li as int));
            lemma_weight_over_prefix(coils@, used@, li + 1, segments_each());
            lemma_weight_over_prefix(coils@, used@, li + 1, vias_each());
        }
        total_tracks = total_tracks + segment_count;
        total_vias = total_vias + via_count;
        layers.push(CoilPreviewLayer { layer_idx: l, board_layer, phase_count, segment_count, via_count });
        li = li + 1;
    }
    assert(used@.take(used@.len() as int) =~= used@);
    assert(layers@.map_values(|e: CoilPreviewLayer| e.layer_idx) =~= used@);
    let mut copies: Vec<PhaseCoil> = Vec::new();
    let mut ci: usize = 0;
    while ci < coils.len()
        invariant
            ci <= coils@.len(),
            copies@.len() == ci,
            forall|i: int| 0 <= i < ci ==> same_coil(#[trigger] copies@[i], coils@[i]),
        decreases coils.len() - ci,
    {
        let c = copy_coil(&coils[ci]);
        copies.push(c);
        ci = ci + 1;
    }
    Ok(CoilPreview { num_layers, pattern_id, layers, total_tracks, total_vias, coils: copies })
}

} // verus!
