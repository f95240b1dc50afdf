//! Design-rule (DRC) interference checks on generated routing geometry.
//!
//! Two checks, reported as diagnostics (geometry is never altered):
//! - same-layer, different-net segments whose distance is below 99.9 % of
//!   the copper pitch (`min_trace + min_space`), at most
//!   [`MAX_PAIR_CHECKS`] segment pairs, layer by layer in ascending order;
//! - via pads against different-net segments on the via's from/to layers,
//!   closer than 99.9 % of `via_pad_radius + min_trace / 2 + min_space`.
use vstd::prelude::*;
use crate::clearance::{
    below_clearance, distance_floor, drc_point, floor_distance, is_below_clearance, orient,
    point_segment_dist2, point_segment_distance2,
};
use crate::geometry::{Point, RouteSegment, RoutingResult, Via};
use crate::order::{ascending, insert_sorted_u32, strictly_sorted};
use crate::rules::DesignRules;
use crate::text::{div_round, fixed_text, mm_text, nat_text, push_fixed, push_mm, push_nat, push_str, div_round_i64};

verus! {

/// Number of segment pairs examined before the clearance check gives up.
pub const MAX_PAIR_CHECKS: usize = 200_001;

/// One DRC violation. `gap_nm` is the measured distance floored to the
/// nanometre.
pub struct InterferenceViolation {
    pub layer: u32,
    pub net_a: String,
    pub net_b: String,
    pub kind: String,
    pub gap_nm: i64,
    pub message: String,
}

/// A violation as plain values: layer, nets, kind, gap, message.
pub type ViolationView = (u32, Seq<char>, Seq<char>, Seq<char>, int, Seq<char>);

pub open spec fn violation_view(v: InterferenceViolation) -> ViolationView {
    (v.layer, v.net_a@, v.net_b@, v.kind@, v.gap_nm as int, v.message@)
}

// ---------------------------------------------------------------------------
// Geometry predicates
// ---------------------------------------------------------------------------

/// The two segments properly cross (each strictly separates the other's
/// endpoints).
pub open spec fn segments_cross(a: RouteSegment, b: RouteSegment) -> bool {
    orient(b.start, b.end, a.start) * orient(b.start, b.end, a.end) < 0 && orient(a.start, a.end, b.start)
        * orient(a.start, a.end, b.end) < 0
}

pub open spec fn min2(x: int, y: int) -> int {
    if x <= y { x } else { y }
}

/// Floored segment-to-segment distance: 0 when they cross, otherwise the
/// smallest endpoint-to-other-segment distance.
pub open spec fn segment_gap(a: RouteSegment, b: RouteSegment) -> int {
    if segments_cross(a, b) {
        0
    } else {
        min2(
            min2(
                floor_distance(point_segment_dist2(a.start, b.start, b.end)),
                floor_distance(point_segment_dist2(a.end, b.start, b.end)),
            ),
            min2(
                floor_distance(point_segment_dist2(b.start, a.start, a.end)),
                floor_distance(point_segment_dist2(b.end, a.start, a.end)),
            ),
        )
    }
}

/// The segments are closer than 99.9 % of half of `limit2`.
pub open spec fn segments_too_close(a: RouteSegment, b: RouteSegment, limit2: int) -> bool {
    if segments_cross(a, b) {
        limit2 > 0
    } else {
        below_clearance(point_segment_dist2(a.start, b.start, b.end), limit2) || below_clearance(
            point_segment_dist2(a.end, b.start, b.end),
            limit2,
        ) || below_clearance(point_segment_dist2(b.start, a.start, a.end), limit2) || below_clearance(
            point_segment_dist2(b.end, a.start, a.end),
            limit2,
        )
    }
}

/// Twice the copper pitch: `2 × (min_trace + min_space)`.
pub open spec fn segment_limit2(rules: DesignRules) -> int {
    2 * (rules.min_trace_nm + rules.min_space_nm)
}

/// Twice the via clearance: `drill + 2 × ring + min_trace + 2 × min_space`.
pub open spec fn via_limit2(rules: DesignRules) -> int {
    rules.min_via_drill_nm + 2 * rules.min_via_annular_ring_nm + rules.min_trace_nm + 2
        * rules.min_space_nm
}

// ---------------------------------------------------------------------------
// Pair enumeration
// ---------------------------------------------------------------------------

/// Indices `k < n` of the segments on layer `l`, ascending.
pub open spec fn indices_on(segs: Seq<RouteSegment>, l: u32, n: nat) -> Seq<int>
    decreases n,
{
    if n == 0 {
        seq![]
    } else if segs[n - 1].layer == l {
        indices_on(segs, l, (n - 1) as nat).push(n - 1)
    } else {
        indices_on(segs, l, (n - 1) as nat)
    }
}

/// Pairs `(idx[a], idx[b])` for `a < b < idx.len()`, in order of `b`.
pub open spec fn row(idx: Seq<int>, a: int) -> Seq<(int, int)> {
    Seq::new((idx.len() - a - 1) as nat, |j: int| (idx[a], idx[a + 1 + j]))
}

/// Rows `0 .. a` of the pair enumeration, concatenated.
pub open spec fn rows(idx: Seq<int>, a: nat) -> Seq<(int, int)>
    decreases a,
{
    if a == 0 {
        seq![]
    } else {
        rows(idx, (a - 1) as nat) + row(idx, a - 1)
    }
}

/// All pairs `(idx[a], idx[b])` with `a < b`, `a`-major.
pub open spec fn pairs_from(idx: Seq<int>) -> Seq<(int, int)> {
    rows(idx, idx.len())
}

/// All same-layer segment pairs, layer by layer in the order of `layers`.
pub open spec fn all_pairs(segs: Seq<RouteSegment>, layers: Seq<u32>) -> Seq<(int, int)>
    decreases layers.len(),
{
    if layers.len() == 0 {
        seq![]
    } else {
        all_pairs(segs, layers.drop_last()) + pairs_from(indices_on(segs, layers.last(), segs.len()))
    }
}

/// `layers` lists the distinct segment layers in ascending order.
pub open spec fn is_layer_order(segs: Seq<RouteSegment>, layers: Seq<u32>) -> bool {
    &&& forall|i: int, j: int| 0 <= i < j < layers.len() ==> layers[i] < layers[j]
    &&& forall|l: u32| layers.contains(l) <==> exists|k: int| 0 <= k < segs.len() && #[trigger] segs[k].layer == l
}

/// Two strictly ascending sequences with the same elements are equal.
proof fn lemma_ascending_same_elements(a: Seq<u32>, b: Seq<u32>)
    requires
        forall|i: int, j: int| 0 <= i < j < a.len() ==> a[i] < a[j],
        forall|i: int, j: int| 0 <= i < j < b.len() ==> b[i] < b[j],
        forall|x: u32| a.contains(x) <==> b.contains(x),
    ensures
        a == b,
    decreases a.len(),
{
    if a.len() == 0 || b.len() == 0 {
        if a.len() > 0 {
            assert(a.contains(a[0]));
            assert(b.contains(a[0]));
            assert(false);
        } else if b.len() > 0 {
            assert(b.contains(b[0]));
            assert(a.contains(b[0]));
            assert(false);
        } else {
            assert(a =~= b);
        }
    } else {
        assert(a.contains(a[0]));
        assert(b.contains(b[0]));
        let j = choose|j: int| 0 <= j < b.len() && b[j] == a[0];
        let i = choose|i: int| 0 <= i < a.len() && a[i] == b[0];
        assert(a[0] == b[0]);
        let a1 = a.drop_first();
        let b1 = b.drop_first();
        assert forall|x: u32| a1.contains(x) <==> b1.contains(x) by {
            if a1.contains(x) {
                let p = choose|p: int| 0 <= p < a1.len() && a1[p] == x;
                assert(a[p + 1] == x);
                assert(a.contains(x));
                let q = choose|q: int| 0 <= q < b.len() && b[q] == x;
                if q == 0 {
                    assert(a[0] < a[p + 1]);
                }
                assert(b1[q - 1] == x);
            }
            if b1.contains(x) {
                let p = choose|p: int| 0 <= p < b1.len() && b1[p] == x;
                assert(b[p + 1] == x);
                assert(b.contains(x));
                let q = choose|q: int| 0 <= q < a.len() && a[q] == x;
                if q == 0 {
                    assert(b[0] < b[p + 1]);
                }
                assert(a1[q - 1] == x);
            }
        }
        lemma_ascending_same_elements(a1, b1);
        assert(a.len() == b.len());
        assert forall|i: int| 0 <= i < a.len() implies a[i] == b[i] by {
            if i > 0 {
                assert(a[i] == a1[i - 1]);
                assert(b[i] == b1[i - 1]);
            }
        }
        assert(a =~= b);
    }
}

/// The layer order of a segment list is unique, so the report of
/// [`check_interference`] is determined by its inputs.
pub proof fn lemma_layer_order_unique(segs: Seq<RouteSegment>, l1: Seq<u32>, l2: Seq<u32>)
    requires
        is_layer_order(segs, l1),
        is_layer_order(segs, l2),
    ensures
        l1 == l2,
{
    assert forall|x: u32| l1.contains(x) <==> l2.contains(x) by {
        if l1.contains(x) {
            assert(exists|k: int| 0 <= k < segs.len() && #[trigger] segs[k].layer == x);
        }
        if l2.contains(x) {
            assert(exists|k: int| 0 <= k < segs.len() && #[trigger] segs[k].layer == x);
        }
    }
    lemma_ascending_same_elements(l1, l2);
}

/// The violation a checked pair gives, if any.
pub open spec fn pair_violation(
    segs: Seq<RouteSegment>,
    p: (int, int),
    rules: DesignRules,
) -> Seq<ViolationView> {
    let a = segs[p.0];
    let b = segs[p.1];
    if a.net@ != b.net@ && segments_too_close(a, b, segment_limit2(rules)) {
        seq![(a.layer, a.net@, b.net@, "clearance"@, segment_gap(a, b), segment_message(
            p.0,
            a,
            p.1,
            b,
            segment_gap(a, b),
            rules.min_space_nm as int,
        ))]
    } else {
        seq![]
    }
}

/// Violations of a sequence of checked pairs, in order.
pub open spec fn pair_violations(
    segs: Seq<RouteSegment>,
    ps: Seq<(int, int)>,
    rules: DesignRules,
) -> Seq<ViolationView>
    decreases ps.len(),
{
    if ps.len() == 0 {
        seq![]
    } else {
        pair_violations(segs, ps.drop_last(), rules) + pair_violation(segs, ps.last(), rules)
    }
}

pub open spec fn segment_message(ia: int, a: RouteSegment, ib: int, b: RouteSegment, gap: int, space: int) -> Seq<char> {
    "segments "@ + nat_text(ia as nat) + " (net "@ + a.net@ + ") and "@ + nat_text(ib as nat) + " (net "@
        + b.net@ + ") on layer "@ + nat_text(a.layer as nat) + " are "@ + mm_text(gap, 3)
        + " mm apart \u{2014} below copper clearance "@ + mm_text(space, 3) + " mm"@
}

pub open spec fn via_message(vi: int, v: Via, s: RouteSegment, gap: int, limit2: int) -> Seq<char> {
    "via "@ + nat_text(vi as nat) + " (net "@ + v.net@ + ") pad is only "@ + mm_text(gap, 3)
        + " mm from net "@ + s.net@ + " on layer "@ + nat_text(s.layer as nat)
        + " \u{2014} below required pad clearance "@ + fixed_text(div_round(limit2, 2000), 3) + " mm"@
}

// ---------------------------------------------------------------------------
// Via checks
// ---------------------------------------------------------------------------

/// Violations of via `vi` against the segments listed in `idx`.
pub open spec fn via_segment_violations(
    segs: Seq<RouteSegment>,
    vi: int,
    v: Via,
    idx: Seq<int>,
    rules: DesignRules,
) -> Seq<ViolationView>
    decreases idx.len(),
{
    if idx.len() == 0 {
        seq![]
    } else {
        let s = segs[idx.last()];
        let d = point_segment_dist2(v.position, s.start, s.end);
        via_segment_violations(segs, vi, v, idx.drop_last(), rules) + if s.net@ != v.net@
            && below_clearance(d, via_limit2(rules)) {
            seq![(s.layer, v.net@, s.net@, "via_clearance"@, floor_distance(d), via_message(
                vi,
                v,
                s,
                floor_distance(d),
                via_limit2(rules),
            ))]
        } else {
            seq![]
        }
    }
}

/// Violations of via `vi` over the layers of `layers` it touches.
pub open spec fn via_violations_on(
    segs: Seq<RouteSegment>,
    vi: int,
    v: Via,
    layers: Seq<u32>,
    rules: DesignRules,
) -> Seq<ViolationView>
    decreases layers.len(),
{
    if layers.len() == 0 {
        seq![]
    } else {
        let l = layers.last();
        via_violations_on(segs, vi, v, layers.drop_last(), rules) + if l == v.from_layer || l
            == v.to_layer {
            via_segment_violations(segs, vi, v, indices_on(segs, l, segs.len()), rules)
        } else {
            seq![]
        }
    }
}

/// Violations of all vias, in via order.
pub open spec fn via_violations(
    segs: Seq<RouteSegment>,
    vias: Seq<Via>,
    layers: Seq<u32>,
    rules: DesignRules,
) -> Seq<ViolationView>
    decreases vias.len(),
{
    if vias.len() == 0 {
        seq![]
    } else {
        via_violations(segs, vias.drop_last(), layers, rules) + via_violations_on(
            segs,
            vias.len() - 1,
            vias.last(),
            layers,
            rules,
        )
    }
}

/// The full report: capped segment-pair violations, then via violations.
pub open spec fn interference_report(r: RoutingResult, rules: DesignRules, layers: Seq<u32>) -> Seq<ViolationView> {
    let ps = all_pairs(r.segments@, layers);
    let n = if ps.len() < MAX_PAIR_CHECKS { ps.len() as int } else { MAX_PAIR_CHECKS as int };
    pair_violations(r.segments@, ps.take(n), rules) + via_violations(r.segments@, r.vias@, layers, rules)
}

/// All segment and via coordinates lie within the exact-arithmetic range.
pub open spec fn drc_input(r: RoutingResult) -> bool {
    &&& forall|k: int| 0 <= k < r.segments@.len() ==> drc_point(#[trigger] r.segments@[k].start)
        && drc_point(r.segments@[k].end)
    &&& forall|k: int| 0 <= k < r.vias@.len() ==> drc_point(#[trigger] r.vias@[k].position)
}

// ---------------------------------------------------------------------------
// Executable checks
// ---------------------------------------------------------------------------

fn orientation(o: Point, a: Point, p: Point) -> (r: i128)
    requires
        drc_point(o),
        drc_point(a),
        drc_point(p),
    ensures
        r == orient(o, a, p),
        -0x8000_0000_0000_0000 <= r <= 0x8000_0000_0000_0000,
{
    let ax: i128 = a.x as i128 - o.x as i128;
    let ay: i128 = a.y as i128 - o.y as i128;
    let px: i128 = p.x as i128 - o.x as i128;
    let py: i128 = p.y as i128 - o.y as i128;
    assert(-0x4000_0000_0000_0000 <= ax * py <= 0x4000_0000_0000_0000) by (nonlinear_arith)
        requires -0x8000_0000 <= ax <= 0x8000_0000, -0x8000_0000 <= py <= 0x8000_0000;
    assert(-0x4000_0000_0000_0000 <= ay * px <= 0x4000_0000_0000_0000) by (nonlinear_arith)
        requires -0x8000_0000 <= ay <= 0x8000_0000, -0x8000_0000 <= px <= 0x8000_0000;
    ax * py - ay * px
}

fn opposite_sides(x: i128, y: i128) -> (r: bool)
    requires
        -0x8000_0000_0000_0000 <= x <= 0x8000_0000_0000_0000,
        -0x8000_0000_0000_0000 <= y <= 0x8000_0000_0000_0000,
    ensures
        r == (x * y < 0),
{
    assert(-0x4000_0000_0000_0000_0000_0000_0000_0000 <= x * y <= 0x4000_0000_0000_0000_0000_0000_0000_0000)
        by (nonlinear_arith)
        requires -0x8000_0000_0000_0000 <= x <= 0x8000_0000_0000_0000,
            -0x8000_0000_0000_0000 <= y <= 0x8000_0000_0000_0000;
    x * y < 0
}

fn segments_cross_exec(a: &RouteSegment, b: &RouteSegment) -> (r: bool)
    requires
        drc_point(a.start),
        drc_point(a.end),
        drc_point(b.start),
        drc_point(b.end),
    ensures
        r == segments_cross(*a, *b),
{
    let d1 = orientation(b.start, b.end, a.start);
    let d2 = orientation(b.start, b.end, a.end);
    let d3 = orientation(a.start, a.end, b.start);
    let d4 = orientation(a.start, a.end, b.end);
    opposite_sides(d1, d2) && opposite_sides(d3, d4)
}

fn min_i64(x: i64, y: i64) -> (r: i64)
    ensures
        r == min2(x as int, y as int),
{
    if x <= y { x } else { y }
}

fn push_violation(out: &mut Vec<InterferenceViolation>, v: InterferenceViolation)
    ensures
        final(out)@.map_values(|w: InterferenceViolation| violation_view(w)) == old(out)@.map_values(
            |w: InterferenceViolation| violation_view(w),
        ) + seq![violation_view(v)],
{
    let ghost before = out@;
    let ghost vv = violation_view(v);
    out.push(v);
    assert(out@.map_values(|w: InterferenceViolation| violation_view(w)) =~= before.map_values(
        |w: InterferenceViolation| violation_view(w),
    ) + seq![vv]);
}

fn own_string(s: &String) -> (r: String)
    ensures
        r@ == s@,
{
    let mut r = String::new();
    push_str(&mut r, s.as_str());
    r
}

fn text(t: &str) -> (r: String)
    ensures
        r@ == t@,
{
    let mut r = String::new();
    push_str(&mut r, t);
    r
}

/// Check one same-layer segment pair and record its violation, if any.
fn check_segment_pair(
    out: &mut Vec<InterferenceViolation>,
    segs: &Vec<RouteSegment>,
    ia: usize,
    ib: usize,
    rules: &DesignRules,
)
    requires
        ia < segs@.len(),
        ib < segs@.len(),
        forall|k: int| 0 <= k < segs@.len() ==> drc_point(#[trigger] segs@[k].start) && drc_point(segs@[k].end),
        rules.in_range(),
    ensures
        final(out)@.map_values(|w: InterferenceViolation| violation_view(w)) == old(out)@.map_values(
            |w: InterferenceViolation| violation_view(w),
        ) + pair_violation(segs@, (ia as int, ib as int), *rules),
{
    let a = &segs[ia];
    let b = &segs[ib];
    assert(drc_point(segs@[ia as int].start) && drc_point(segs@[ia as int].end));
    assert(drc_point(segs@[ib as int].start) && drc_point(segs@[ib as int].end));
    let ghost before = out@.map_values(|w: InterferenceViolation| violation_view(w));
    if a.net == b.net {
        assert(before + pair_violation(segs@, (ia as int, ib as int), *rules) =~= before);
        return;
    }
    let limit2: i64 = 2 * (rules.min_trace_nm + rules.min_space_nm);
    let crossing = segments_cross_exec(a, b);
    let d1 = point_segment_distance2(a.start, b.start, b.end);
    let d2 = point_segment_distance2(a.end, b.start, b.end);
    let d3 = point_segment_distance2(b.start, a.start, a.end);
    let d4 = point_segment_distance2(b.end, a.start, a.end);
    let close = if crossing {
        limit2 > 0
    } else {
        is_below_clearance(d1, limit2) || is_below_clearance(d2, limit2) || is_below_clearance(d3, limit2)
            || is_below_clearance(d4, limit2)
    };
    if !close {
        assert(before + pair_violation(segs@, (ia as int, ib as int), *rules) =~= before);
        return;
    }
    let gap: i64 = if crossing {
        0
    } else {
        min_i64(
            min_i64(distance_floor(d1), distance_floor(d2)),
            min_i64(distance_floor(d3), distance_floor(d4)),
        )
    };
    let mut m = String::new();
    push_str(&mut m, "segments ");
    push_nat(&mut m, ia as u64);
    push_str(&mut m, " (net ");
    push_str(&mut m, a.net.as_str());
    push_str(&mut m, ") and ");
    push_nat(&mut m, ib as u64);
    push_str(&mut m, " (net ");
    push_str(&mut m, b.net.as_str());
    push_str(&mut m, ") on layer ");
    push_nat(&mut m, a.layer as u64);
    push_str(&mut m, " are ");
    push_mm(&mut m, gap, 3);
    push_str(&mut m, " mm apart \u{2014} below copper clearance ");
    push_mm(&mut m, rules.min_space_nm, 3);
    push_str(&mut m, " mm");
    let v = InterferenceViolation {
        layer: a.layer,
        net_a: own_string(&a.net),
        net_b: own_string(&b.net),
        kind: text("clearance"),
        gap_nm: gap,
        message: m,
    };
    proof {
        assert(v.message@ =~= segment_message(ia as int, *a, ib as int, *b, gap as int, rules.min_space_nm as int));
        assert(violation_view(v) == pair_violation(segs@, (ia as int, ib as int), *rules)[0]);
        assert(pair_violation(segs@, (ia as int, ib as int), *rules) =~= seq![violation_view(v)]);
    }
    push_violation(out, v);
}

/// The violations of a via against a single segment, unfolded.
proof fn lemma_via_segment_single(segs: Seq<RouteSegment>, vi: int, v: Via, si: int, rules: DesignRules)
    ensures
        ({
            let s = segs[si];
            let d = point_segment_dist2(v.position, s.start, s.end);
            via_segment_violations(segs, vi, v, seq![si], rules) == if s.net@ != v.net@ && below_clearance(
                d,
                via_limit2(rules),
            ) {
                seq![(s.layer, v.net@, s.net@, "via_clearance"@, floor_distance(d), via_message(
                    vi,
                    v,
                    s,
                    floor_distance(d),
                    via_limit2(rules),
                ))]
            } else {
                Seq::<ViolationView>::empty()
            }
        }),
{
    let idx = seq![si];
    assert(idx.drop_last() =~= Seq::<int>::empty());
    assert(via_segment_violations(segs, vi, v, idx.drop_last(), rules) =~= Seq::<ViolationView>::empty());
    let s = segs[si];
    let d = point_segment_dist2(v.position, s.start, s.end);
    let tail = if s.net@ != v.net@ && below_clearance(d, via_limit2(rules)) {
        seq![(s.layer, v.net@, s.net@, "via_clearance"@, floor_distance(d), via_message(
            vi,
            v,
            s,
            floor_distance(d),
            via_limit2(rules),
        ))]
    } else {
        Seq::<ViolationView>::empty()
    };
    assert(Seq::<ViolationView>::empty() + tail =~= tail);
}

/// Check a via against one segment and record its violation, if any.
fn check_via_segment(
    out: &mut Vec<InterferenceViolation>,
    segs: &Vec<RouteSegment>,
    vi: usize,
    v: &Via,
    si: usize,
    rules: &DesignRules,
)
    requires
        si < segs@.len(),
        forall|k: int| 0 <= k < segs@.len() ==> drc_point(#[trigger] segs@[k].start) && drc_point(segs@[k].end),
        drc_point(v.position),
        rules.in_range(),
    ensures
        final(out)@.map_values(|w: InterferenceViolation| violation_view(w)) == old(out)@.map_values(
            |w: InterferenceViolation| violation_view(w),
        ) + via_segment_violations(segs@, vi as int, *v, seq![si as int], *rules),
{
    let ghost before = out@.map_values(|w: InterferenceViolation| violation_view(w));
    let ghost idx = seq![si as int];
    proof {
        lemma_via_segment_single(segs@, vi as int, *v, si as int, *rules);
    }
    let s = &segs[si];
    assert(drc_point(segs@[si as int].start) && drc_point(segs@[si as int].end));
    let limit2: i64 = rules.min_via_drill_nm + 2 * rules.min_via_annular_ring_nm + rules.min_trace_nm
        + 2 * rules.min_space_nm;
    let d = point_segment_distance2(v.position, s.start, s.end);
    if s.net == v.net || !is_below_clearance(d, limit2) {
        assert(before + via_segment_violations(segs@, vi as int, *v, idx, *rules) =~= before);
        return;
    }
    let gap = distance_floor(d);
    let mut m = String::new();
    push_str(&mut m, "via ");
    push_nat(&mut m, vi as u64);
    push_str(&mut m, " (net ");
    push_str(&mut m, v.net.as_str());
    push_str(&mut m, ") pad is only ");
    push_mm(&mut m, gap, 3);
    push_str(&mut m, " mm from net ");
    push_str(&mut m, s.net.as_str());
    push_str(&mut m, " on layer ");
    push_nat(&mut m, s.layer as u64);
    push_str(&mut m, " \u{2014} below required pad clearance ");
    let lim_um = div_round_i64(limit2, 2000);
    push_fixed(&mut m, lim_um, 3);
    push_str(&mut m, " mm");
    let w = InterferenceViolation {
        layer: s.layer,
        net_a: own_string(&v.net),
        net_b: own_string(&s.net),
        kind: text("via_clearance"),
        gap_nm: gap,
        message: m,
    };
    proof {
        assert(w.message@ =~= via_message(vi as int, *v, *s, gap as int, limit2 as int));
        assert(via_segment_violations(segs@, vi as int, *v, idx, *rules) =~= seq![violation_view(w)]);
    }
    push_violation(out, w);
}


// ---------------------------------------------------------------------------
// Law: a violation always joins two different nets
// ---------------------------------------------------------------------------

/// Every violation in `vs` names two different nets.
pub open spec fn nets_differ(vs: Seq<ViolationView>) -> bool {
    forall|i: int| 0 <= i < vs.len() ==> (#[trigger] vs[i]).1 != vs[i].2
}

proof fn lemma_nets_differ_concat(x: Seq<ViolationView>, y: Seq<ViolationView>)
    requires
        nets_differ(x),
        nets_differ(y),
    ensures
        nets_differ(x + y),
{
    assert forall|i: int| 0 <= i < (x + y).len() implies (#[trigger] (x + y)[i]).1 != (x + y)[i].2 by {
        if i >= x.len() {
            assert((x + y)[i] == y[i - x.len()]);
        }
    }
}

proof fn lemma_pair_violations_differ(segs: Seq<RouteSegment>, ps: Seq<(int, int)>, rules: DesignRules)
    ensures
        nets_differ(pair_violations(segs, ps, rules)),
    decreases ps.len(),
{
    if ps.len() > 0 {
        lemma_pair_violations_differ(segs, ps.drop_last(), rules);
        lemma_nets_differ_concat(
            pair_violations(segs, ps.drop_last(), rules),
            pair_violation(segs, ps.last(), rules),
        );
    }
}

proof fn lemma_via_segment_violations_differ(segs: Seq<RouteSegment>, vi: int, v: Via, idx: Seq<int>, rules: DesignRules)
    ensures
        nets_differ(via_segment_violations(segs, vi, v, idx, rules)),
    decreases idx.len(),
{
    if idx.len() > 0 {
        lemma_via_segment_violations_differ(segs, vi, v, idx.drop_last(), rules);
        lemma_via_segment_single(segs, vi, v, idx.last(), rules);
        lemma_via_segment_push(segs, vi, v, idx.drop_last(), idx.last(), rules);
        assert(idx.drop_last().push(idx.last()) =~= idx);
        lemma_nets_differ_concat(
            via_segment_violations(segs, vi, v, idx.drop_last(), rules),
            via_segment_violations(segs, vi, v, seq![idx.last()], rules),
        );
    }
}

proof fn lemma_via_violations_on_differ(segs: Seq<RouteSegment>, vi: int, v: Via, layers: Seq<u32>, rules: DesignRules)
    ensures
        nets_differ(via_violations_on(segs, vi, v, layers, rules)),
    decreases layers.len(),
{
    if layers.len() > 0 {
        let l = layers.last();
        lemma_via_violations_on_differ(segs, vi, v, layers.drop_last(), rules);
        lemma_via_segment_violations_differ(segs, vi, v, indices_on(segs, l, segs.len()), rules);
        lemma_nets_differ_concat(
            via_violations_on(segs, vi, v, layers.drop_last(), rules),
            if l == v.from_layer || l == v.to_layer {
                via_segment_violations(segs, vi, v, indices_on(segs, l, segs.len()), rules)
            } else {
                seq![]
            },
        );
    }
}

proof fn lemma_via_violations_differ(segs: Seq<RouteSegment>, vias: Seq<Via>, layers: Seq<u32>, rules: DesignRules)
    ensures
        nets_differ(via_violations(segs, vias, layers, rules)),
    decreases vias.len(),
{
    if vias.len() > 0 {
        lemma_via_violations_differ(segs, vias.drop_last(), layers, rules);
        lemma_via_violations_on_differ(segs, vias.len() - 1, vias.last(), layers, rules);
        lemma_nets_differ_concat(
            via_violations(segs, vias.drop_last(), layers, rules),
            via_violations_on(segs, vias.len() - 1, vias.last(), layers, rules),
        );
    }
}

/// A violation always involves two different nets: same-net geometry is
/// never reported, however close it lies.
pub proof fn lemma_report_nets_differ(r: RoutingResult, rules: DesignRules, layers: Seq<u32>)
    ensures
        nets_differ(interference_report(r, rules, layers)),
{
    let ps = all_pairs(r.segments@, layers);
    let n = if ps.len() < MAX_PAIR_CHECKS { ps.len() as int } else { MAX_PAIR_CHECKS as int };
    lemma_pair_violations_differ(r.segments@, ps.take(n), rules);
    lemma_via_violations_differ(r.segments@, r.vias@, layers, rules);
    lemma_nets_differ_concat(
        pair_violations(r.segments@, ps.take(n), rules),
        via_violations(r.segments@, r.vias@, layers, rules),
    );
}

// ---------------------------------------------------------------------------
// Enumeration lemmas
// ---------------------------------------------------------------------------

/// Indices as mathematical integers.
pub open spec fn as_ints(v: Seq<usize>) -> Seq<int> {
    v.map_values(|k: usize| k as int)
}

/// Earlier rows are a prefix of later ones.
proof fn lemma_rows_prefix(idx: Seq<int>, i: nat, j: nat)
    requires
        i <= j <= idx.len(),
    ensures
        rows(idx, i).len() <= rows(idx, j).len(),
        forall|k: int| 0 <= k < rows(idx, i).len() ==> rows(idx, j)[k] == #[trigger] rows(idx, i)[k],
    decreases j,
{
    if j > i {
        lemma_rows_prefix(idx, i, (j - 1) as nat);
    }
}

/// Where the pair `(idx[a], idx[b])` stands in the enumeration of one layer.
proof fn lemma_pair_position(idx: Seq<int>, a: int, b: int)
    requires
        0 <= a < b < idx.len(),
    ensures
        rows(idx, (a + 1) as nat).len() == rows(idx, a as nat).len() + idx.len() - a - 1,
        rows(idx, (a + 1) as nat).len() <= pairs_from(idx).len(),
        pairs_from(idx)[rows(idx, a as nat).len() + b - a - 1] == (idx[a], idx[b]),
{
    let k = rows(idx, a as nat).len() + b - a - 1;
    assert(rows(idx, (a + 1) as nat) == rows(idx, a as nat) + row(idx, a));
    assert(rows(idx, (a + 1) as nat)[k] == row(idx, a)[b - a - 1]);
    lemma_rows_prefix(idx, (a + 1) as nat, idx.len());
}

/// One more layer appends that layer's pairs.
proof fn lemma_all_pairs_step(segs: Seq<RouteSegment>, layers: Seq<u32>, li: int)
    requires
        0 <= li < layers.len(),
    ensures
        all_pairs(segs, layers.take(li + 1)) == all_pairs(segs, layers.take(li)) + pairs_from(
            indices_on(segs, layers[li], segs.len()),
        ),
{
    assert(layers.take(li + 1).drop_last() =~= layers.take(li));
}

/// Earlier layers' pairs are a prefix of later layers' pairs.
proof fn lemma_all_pairs_prefix(segs: Seq<RouteSegment>, layers: Seq<u32>, i: int, j: int)
    requires
        0 <= i <= j <= layers.len(),
    ensures
        all_pairs(segs, layers.take(i)).len() <= all_pairs(segs, layers.take(j)).len(),
        forall|k: int|
            0 <= k < all_pairs(segs, layers.take(i)).len() ==> all_pairs(segs, layers.take(j))[k]
                == #[trigger] all_pairs(segs, layers.take(i))[k],
    decreases j,
{
    if j > i {
        lemma_all_pairs_prefix(segs, layers, i, j - 1);
        lemma_all_pairs_step(segs, layers, j - 1);
    }
}

/// Where the pair `(idx[a], idx[b])` of layer `li` stands in the whole
/// enumeration.
proof fn lemma_full_position(segs: Seq<RouteSegment>, layers: Seq<u32>, li: int, a: int, b: int)
    requires
        0 <= li < layers.len(),
        0 <= a < b < indices_on(segs, layers[li], segs.len()).len(),
    ensures
        ({
            let idx = indices_on(segs, layers[li], segs.len());
            let base = all_pairs(segs, layers.take(li)).len();
            &&& base + rows(idx, (a + 1) as nat).len() <= all_pairs(segs, layers).len()
            &&& all_pairs(segs, layers)[base + rows(idx, a as nat).len() + b - a - 1] == (idx[a], idx[b])
        }),
{
    let idx = indices_on(segs, layers[li], segs.len());
    let base = all_pairs(segs, layers.take(li)).len();
    lemma_pair_position(idx, a, b);
    lemma_all_pairs_step(segs, layers, li);
    lemma_all_pairs_prefix(segs, layers, li + 1, layers.len() as int);
    assert(layers.take(layers.len() as int) =~= layers);
    let k = base + rows(idx, a as nat).len() + b - a - 1;
    assert(all_pairs(segs, layers.take(li + 1))[k] == pairs_from(idx)[k - base]);
}

/// A layer's pairs end where the next layer's begin.
proof fn lemma_layer_end(segs: Seq<RouteSegment>, layers: Seq<u32>, li: int)
    requires
        0 <= li < layers.len(),
    ensures
        all_pairs(segs, layers.take(li + 1)).len() == all_pairs(segs, layers.take(li)).len()
            + rows(indices_on(segs, layers[li], segs.len()), indices_on(segs, layers[li], segs.len()).len()).len(),
        all_pairs(segs, layers.take(li + 1)).len() <= all_pairs(segs, layers).len(),
{
    lemma_all_pairs_step(segs, layers, li);
    lemma_all_pairs_prefix(segs, layers, li + 1, layers.len() as int);
    assert(layers.take(layers.len() as int) =~= layers);
}

/// Violations of a sequence of pairs extended by one pair.
proof fn lemma_pair_violations_push(segs: Seq<RouteSegment>, ps: Seq<(int, int)>, p: (int, int), rules: DesignRules)
    ensures
        pair_violations(segs, ps.push(p), rules) == pair_violations(segs, ps, rules) + pair_violation(segs, p, rules),
{
    assert(ps.push(p).drop_last() =~= ps);
}

/// Via-segment violations over a list extended by one index.
proof fn lemma_via_segment_push(segs: Seq<RouteSegment>, vi: int, v: Via, idx: Seq<int>, si: int, rules: DesignRules)
    ensures
        via_segment_violations(segs, vi, v, idx.push(si), rules) == via_segment_violations(segs, vi, v, idx, rules)
            + via_segment_violations(segs, vi, v, seq![si], rules),
{
    assert(idx.push(si).drop_last() =~= idx);
    lemma_via_segment_single(segs, vi, v, si, rules);
}

// ---------------------------------------------------------------------------
// Grouping by layer
// ---------------------------------------------------------------------------

/// The distinct segment layers in ascending order.
fn segment_layers(segs: &Vec<RouteSegment>) -> (layers: Vec<u32>)
    ensures
        is_layer_order(segs@, layers@),
{
    let mut layers: Vec<u32> = Vec::new();
    let mut i: usize = 0;
    while i < segs.len()
        invariant
            i <= segs@.len(),
            ascending(layers@),
            forall|l: u32| layers@.contains(l) <==> exists|k: int| 0 <= k < i && #[trigger] segs@[k].layer == l,
        decreases segs.len() - i,
    {
        let x = segs[i].layer;
        let ghost before = layers@;
        insert_sorted_u32(&mut layers, x);
        proof {
            assert forall|l: u32| layers@.contains(l) <==> exists|k: int| 0 <= k < i + 1 && #[trigger] segs@[k].layer == l by {
                if l == x {
                    assert(segs@[i as int].layer == l);
                }
                if exists|k: int| 0 <= k < i + 1 && #[trigger] segs@[k].layer == l {
                    let k = choose|k: int| 0 <= k < i + 1 && #[trigger] segs@[k].layer == l;
                    if k < i {
                        assert(exists|k2: int| 0 <= k2 < i && #[trigger] segs@[k2].layer == l);
                    }
                }
            }
        }
        i = i + 1;
    }
    layers
}

/// The indices of the segments on layer `l`, ascending.
fn layer_indices(segs: &Vec<RouteSegment>, l: u32) -> (idx: Vec<usize>)
    ensures
        as_ints(idx@) == indices_on(segs@, l, segs@.len()),
        forall|i: int| 0 <= i < idx@.len() ==> #[trigger] idx@[i] < segs@.len(),
{
    let mut idx: Vec<usize> = Vec::new();
    let mut k: usize = 0;
    while k < segs.len()
        invariant
            k <= segs@.len(),
            as_ints(idx@) == indices_on(segs@, l, k as nat),
            forall|i: int| 0 <= i < idx@.len() ==> #[trigger] idx@[i] < k,
        decreases segs.len() - k,
    {
        if segs[k].layer == l {
            idx.push(k);
            assert(as_ints(idx@) =~= indices_on(segs@, l, k as nat).push(k as int));
        }
        k = k + 1;
    }
    idx
}

// ---------------------------------------------------------------------------
// The check
// ---------------------------------------------------------------------------

/// Run the design-rule (interference) checks on routing geometry with the
/// given rules: same-layer, different-net segment clearance (at most
/// [`MAX_PAIR_CHECKS`] pairs), then via pads against different-net segments
/// on the via's from/to layers. Geometry is only read, never altered.
pub fn check_interference(rules: &DesignRules, result: &RoutingResult) -> (out: Vec<InterferenceViolation>)
    requires
        rules.in_range(),
        drc_input(*result),
    ensures
        exists|layers: Seq<u32>|
            #![trigger is_layer_order(result.segments@, layers)]
            is_layer_order(result.segments@, layers) && out@.map_values(
                |w: InterferenceViolation| violation_view(w),
            ) == interference_report(*result, *rules, layers),
{
    let segs = &result.segments;
    let layers = segment_layers(segs);
    let ghost full = all_pairs(segs@, layers@);
    let mut out: Vec<InterferenceViolation> = Vec::new();
    let mut by_layer: Vec<Vec<usize>> = Vec::new();
    let mut pair_checks: usize = 0;
    let mut li: usize = 0;
    assert(layers@.take(0) =~= Seq::<u32>::empty());
    assert(full.take(0) =~= Seq::<(int, int)>::empty());
    while li < layers.len()
        invariant
            li <= layers@.len(),
            segs@ == result.segments@,
            full == all_pairs(segs@, layers@),
            rules.in_range(),
            drc_input(*result),
            by_layer@.len() == li,
            forall|k: int| 0 <= k < li ==> as_ints(#[trigger] by_layer@[k]@) == indices_on(segs@, layers@[k], segs@.len()),
            forall|k: int, i: int| 0 <= k < li && 0 <= i < by_layer@[k]@.len() ==> #[trigger] by_layer@[k]@[i] < segs@.len(),
            pair_checks <= MAX_PAIR_CHECKS,
            pair_checks <= all_pairs(segs@, layers@.take(li as int)).len(),
            all_pairs(segs@, layers@.take(li as int)).len() <= full.len(),
            pair_checks < MAX_PAIR_CHECKS ==> pair_checks == all_pairs(segs@, layers@.take(li as int)).len(),
            out@.map_values(|w: InterferenceViolation| violation_view(w)) == pair_violations(segs@, full.take(pair_checks as int), *rules),
        decreases layers.len() - li,
    {
        let idx = layer_indices(segs, layers[li]);
        let ghost iv = as_ints(idx@);
        let ghost base = all_pairs(segs@, layers@.take(li as int)).len();
        proof {
            lemma_layer_end(segs@, layers@, li as int);
        }
        let n = idx.len();
        let mut a: usize = 0;
        while a < n
            invariant
                n == idx@.len(),
                iv == as_ints(idx@),
                iv == indices_on(segs@, layers@[li as int], segs@.len()),
                forall|i: int| 0 <= i < idx@.len() ==> #[trigger] idx@[i] < segs@.len(),
                li < layers@.len(),
                segs@ == result.segments@,
                full == all_pairs(segs@, layers@),
                rules.in_range(),
                drc_input(*result),
                base == all_pairs(segs@, layers@.take(li as int)).len(),
                base + rows(iv, iv.len()).len() <= full.len(),
                a <= n,
                pair_checks <= MAX_PAIR_CHECKS,
                pair_checks <= base + rows(iv, a as nat).len(),
                pair_checks < MAX_PAIR_CHECKS ==> pair_checks == base + rows(iv, a as nat).len(),
                out@.map_values(|w: InterferenceViolation| violation_view(w)) == pair_violations(segs@, full.take(pair_checks as int), *rules),
            decreases n - a,
        {
            proof {
                lemma_rows_prefix(iv, (a + 1) as nat, iv.len());
                assert(rows(iv, (a + 1) as nat) == rows(iv, a as nat) + row(iv, a as int));
            }
            let mut b: usize = a + 1;
            while b < n
                invariant
                    n == idx@.len(),
                    iv == as_ints(idx@),
                    iv == indices_on(segs@, layers@[li as int], segs@.len()),
                    forall|i: int| 0 <= i < idx@.len() ==> #[trigger] idx@[i] < segs@.len(),
                    li < layers@.len(),
                    segs@ == result.segments@,
                    full == all_pairs(segs@, layers@),
                    rules.in_range(),
                    drc_input(*result),
                    base == all_pairs(segs@, layers@.take(li as int)).len(),
                    a < n,
                    a + 1 <= b <= n,
                    pair_checks <= MAX_PAIR_CHECKS,
                    pair_checks <= base + rows(iv, a as nat).len() + b - a - 1,
                    pair_checks < MAX_PAIR_CHECKS ==> pair_checks == base + rows(iv, a as nat).len() + b - a - 1,
                    out@.map_values(|w: InterferenceViolation| violation_view(w)) == pair_violations(segs@, full.take(pair_checks as int), *rules),
                ensures
                    pair_checks <= MAX_PAIR_CHECKS,
                    pair_checks <= base + rows(iv, a as nat).len() + n - a - 1,
                    pair_checks < MAX_PAIR_CHECKS ==> pair_checks == base + rows(iv, a as nat).len() + n - a - 1,
                    out@.map_values(|w: InterferenceViolation| violation_view(w)) == pair_violations(segs@, full.take(pair_checks as int), *rules),
                decreases n - b,
            {
                if pair_checks >= MAX_PAIR_CHECKS {
                    break;
                }
                proof {
                    lemma_full_position(segs@, layers@, li as int, a as int, b as int);
                    assert(full.take(pair_checks + 1) =~= full.take(pair_checks as int).push(full[pair_checks as int]));
                    lemma_pair_violations_push(segs@, full.take(pair_checks as int), full[pair_checks as int], *rules);
                    assert(full[pair_checks as int] == (idx@[a as int] as int, idx@[b as int] as int));
                    assert(drc_input(*result));
                }
                check_segment_pair(&mut out, segs, idx[a], idx[b], rules);
                pair_checks = pair_checks + 1;
                b = b + 1;
            }
            a = a + 1;
        }
        by_layer.push(idx);
        li = li + 1;
        proof {
            lemma_all_pairs_step(segs@, layers@, (li - 1) as int);
        }
    }
    proof {
        assert(layers@.take(layers@.len() as int) =~= layers@);
    }
    let ghost pair_part = out@.map_values(|w: InterferenceViolation| violation_view(w));
    let vias = &result.vias;
    let mut vi: usize = 0;
    assert(vias@.take(0) =~= Seq::<Via>::empty());
    while vi < vias.len()
        invariant
            vi <= vias@.len(),
            vias@ == result.vias@,
            segs@ == result.segments@,
            rules.in_range(),
            drc_input(*result),
            by_layer@.len() == layers@.len(),
            forall|k: int| 0 <= k < layers@.len() ==> as_ints(#[trigger] by_layer@[k]@) == indices_on(segs@, layers@[k], segs@.len()),
            forall|k: int, i: int| 0 <= k < layers@.len() && 0 <= i < by_layer@[k]@.len() ==> #[trigger] by_layer@[k]@[i] < segs@.len(),
            out@.map_values(|w: InterferenceViolation| violation_view(w)) == pair_part + via_violations(segs@, vias@.take(vi as int), layers@, *rules),
        decreases vias.len() - vi,
    {
        let v = &vias[vi];
        let ghost done = pair_part + via_violations(segs@, vias@.take(vi as int), layers@, *rules);
        assert(drc_point(vias@[vi as int].position));
        let mut lj: usize = 0;
        assert(layers@.take(0) =~= Seq::<u32>::empty());
        while lj < layers.len()
            invariant
                lj <= layers@.len(),
                vi < vias@.len(),
                *v == vias@[vi as int],
                drc_point(v.position),
                segs@ == result.segments@,
                rules.in_range(),
                drc_input(*result),
                by_layer@.len() == layers@.len(),
                forall|k: int| 0 <= k < layers@.len() ==> as_ints(#[trigger] by_layer@[k]@) == indices_on(segs@, layers@[k], segs@.len()),
                forall|k: int, i: int| 0 <= k < layers@.len() && 0 <= i < by_layer@[k]@.len() ==> #[trigger] by_layer@[k]@[i] < segs@.len(),
                out@.map_values(|w: InterferenceViolation| violation_view(w)) == done + via_violations_on(segs@, vi as int, *v, layers@.take(lj as int), *rules),
            decreases layers.len() - lj,
        {
            let l = layers[lj];
            let ghost mid = done + via_violations_on(segs@, vi as int, *v, layers@.take(lj as int), *rules);
            proof {
                assert(layers@.take(lj + 1).drop_last() =~= layers@.take(lj as int));
            }
            if l == v.from_layer || l == v.to_layer {
                let idx = &by_layer[lj];
                let ghost iv = as_ints(idx@);
                assert(iv == indices_on(segs@, layers@[lj as int], segs@.len()));
                let mut k: usize = 0;
                assert(iv.take(0) =~= Seq::<int>::empty());
                while k < idx.len()
                    invariant
                        k <= idx@.len(),
                        iv == as_ints(idx@),
                        *idx == by_layer@[lj as int],
                        lj < layers@.len(),
                        forall|i: int| 0 <= i < idx@.len() ==> #[trigger] idx@[i] < segs@.len(),
                        drc_point(v.position),
                        segs@ == result.segments@,
                        rules.in_range(),
                        drc_input(*result),
                        out@.map_values(|w: InterferenceViolation| violation_view(w)) == mid + via_segment_violations(segs@, vi as int, *v, iv.take(k as int), *rules),
                    decreases idx.len() - k,
                {
                    assert(idx@[k as int] < segs@.len());
                    proof {
                        assert(iv.take(k + 1) =~= iv.take(k as int).push(idx@[k as int] as int));
                        lemma_via_segment_push(segs@, vi as int, *v, iv.take(k as int), idx@[k as int] as int, *rules);
                    }
                    check_via_segment(&mut out, segs, vi, v, idx[k], rules);
                    k = k + 1;
                }
                assert(iv.take(idx@.len() as int) =~= iv);
            }
            lj = lj + 1;
        }
        assert(layers@.take(layers@.len() as int) =~= layers@);
        assert(vias@.take(vi + 1).drop_last() =~= vias@.take(vi as int));
        vi = vi + 1;
    }
    assert(vias@.take(vias@.len() as int) =~= vias@);
    out
}


// ---------------------------------------------------------------------------
// Laws: the clearance thresholds
// ---------------------------------------------------------------------------

/// The squared distance `d.0 / d.1` is below `(0.999 × len)²`, that is, the
/// distance is under 99.9 % of a positive length `len`.
pub open spec fn under_999_permille(d: (int, int), len: int) -> bool {
    len > 0 && 1_000_000 * d.0 < 998_001 * len * len * d.1
}

proof fn lemma_below_clearance_is_permille(d: (int, int), len: int)
    ensures
        below_clearance(d, 2 * len) == under_999_permille(d, len),
{
    assert(998_001 * (2 * len) * (2 * len) * d.1 == 4 * (998_001 * len * len * d.1)) by (nonlinear_arith);
}

/// A checked pair of segments with different nets is reported exactly when
/// the segments cross or some endpoint of one comes closer to the other
/// than 99.9 % of the copper pitch `min_trace + min_space` (and that pitch
/// is positive); the report is one "clearance" violation on the first
/// segment's layer, naming the first and second net and the floored gap.
/// Pairs of one net are never reported.
pub proof fn lemma_pair_reported_below_copper_pitch(segs: Seq<RouteSegment>, p: (int, int), rules: DesignRules)
    requires
        0 <= p.0 < segs.len(),
        0 <= p.1 < segs.len(),
    ensures
        ({
            let a = segs[p.0];
            let b = segs[p.1];
            let pitch = rules.min_trace_nm + rules.min_space_nm;
            let close = if segments_cross(a, b) {
                pitch > 0
            } else {
                ||| under_999_permille(point_segment_dist2(a.start, b.start, b.end), pitch)
                ||| under_999_permille(point_segment_dist2(a.end, b.start, b.end), pitch)
                ||| under_999_permille(point_segment_dist2(b.start, a.start, a.end), pitch)
                ||| under_999_permille(point_segment_dist2(b.end, a.start, a.end), pitch)
            };
            let vs = pair_violation(segs, p, rules);
            &&& vs.len() == (if a.net@ != b.net@ && close { 1int } else { 0int })
            &&& vs.len() == 1 ==> vs[0].0 == a.layer && vs[0].1 == a.net@ && vs[0].2 == b.net@
                && vs[0].3 == "clearance"@ && vs[0].4 == segment_gap(a, b)
        }),
{
    let a = segs[p.0];
    let b = segs[p.1];
    let pitch = rules.min_trace_nm + rules.min_space_nm;
    lemma_below_clearance_is_permille(point_segment_dist2(a.start, b.start, b.end), pitch);
    lemma_below_clearance_is_permille(point_segment_dist2(a.end, b.start, b.end), pitch);
    lemma_below_clearance_is_permille(point_segment_dist2(b.start, a.start, a.end), pitch);
    lemma_below_clearance_is_permille(point_segment_dist2(b.end, a.start, a.end), pitch);
}

/// Every violation of a pair that is checked shows up in the report of the
/// pairs it is checked among.
pub proof fn lemma_checked_pair_violations_reported(
    segs: Seq<RouteSegment>,
    ps: Seq<(int, int)>,
    rules: DesignRules,
    k: int,
)
    requires
        0 <= k < ps.len(),
    ensures
        forall|i: int| 0 <= i < pair_violation(segs, ps[k], rules).len() ==>
            pair_violations(segs, ps, rules).contains(#[trigger] pair_violation(segs, ps[k], rules)[i]),
    decreases ps.len(),
{
    let init = pair_violations(segs, ps.drop_last(), rules);
    let last = pair_violation(segs, ps.last(), rules);
    assert(pair_violations(segs, ps, rules) == init + last);
    if k == ps.len() - 1 {
        assert forall|i: int| 0 <= i < last.len() implies (init + last).contains(#[trigger] last[i]) by {
            assert((init + last)[init.len() + i] == last[i]);
        }
    } else {
        lemma_checked_pair_violations_reported(segs, ps.drop_last(), rules, k);
        assert(ps.drop_last()[k] == ps[k]);
        assert forall|i: int| 0 <= i < pair_violation(segs, ps[k], rules).len() implies
            (init + last).contains(#[trigger] pair_violation(segs, ps[k], rules)[i]) by {
            let v = pair_violation(segs, ps[k], rules)[i];
            assert(init.contains(v));
            let j = choose|j: int| 0 <= j < init.len() && init[j] == v;
            assert((init + last)[j] == v);
        }
    }
}

/// The report of [`check_interference`] holds the violation of every
/// segment pair within the first [`MAX_PAIR_CHECKS`] same-layer pairs, as
/// [`lemma_pair_reported_below_copper_pitch`] gives it.
pub proof fn lemma_report_holds_checked_pairs(r: RoutingResult, rules: DesignRules, layers: Seq<u32>, k: int)
    requires
        0 <= k < all_pairs(r.segments@, layers).len(),
        k < MAX_PAIR_CHECKS,
    ensures
        forall|i: int| 0 <= i < pair_violation(r.segments@, all_pairs(r.segments@, layers)[k], rules).len()
            ==> interference_report(r, rules, layers).contains(
            #[trigger] pair_violation(r.segments@, all_pairs(r.segments@, layers)[k], rules)[i],
        ),
{
    let ps = all_pairs(r.segments@, layers);
    let n = if ps.len() < MAX_PAIR_CHECKS { ps.len() as int } else { MAX_PAIR_CHECKS as int };
    let checked = ps.take(n);
    lemma_checked_pair_violations_reported(r.segments@, checked, rules, k);
    assert(checked[k] == ps[k]);
    let head = pair_violations(r.segments@, checked, rules);
    let tail = via_violations(r.segments@, r.vias@, layers, rules);
    assert forall|i: int| 0 <= i < pair_violation(r.segments@, ps[k], rules).len() implies (head + tail).contains(
        #[trigger] pair_violation(r.segments@, ps[k], rules)[i],
    ) by {
        let v = pair_violation(r.segments@, ps[k], rules)[i];
        assert(head.contains(v));
        let j = choose|j: int| 0 <= j < head.len() && head[j] == v;
        assert((head + tail)[j] == v);
    }
}


/// A via and a segment of another net on one of the via's layers are
/// reported exactly when the via centre comes closer to the segment than
/// 99.9 % of the pad clearance `via_pad_radius + min_trace / 2 + min_space`
/// (with `via_pad_radius = (drill + 2 × ring) / 2`, compared exactly in
/// doubled units, and the clearance positive); the report is one
/// "via_clearance" violation on the segment's layer naming the via's net,
/// then the segment's, and the floored distance.
pub proof fn lemma_via_reported_below_pad_clearance(segs: Seq<RouteSegment>, vi: int, v: Via, si: int, rules: DesignRules)
    ensures
        ({
            let s = segs[si];
            let d = point_segment_dist2(v.position, s.start, s.end);
            let twice = rules.min_via_drill_nm + 2 * rules.min_via_annular_ring_nm + rules.min_trace_nm + 2
                * rules.min_space_nm;
            let close = twice > 0 && 4_000_000 * d.0 < 998_001 * twice * twice * d.1;
            let vs = via_segment_violations(segs, vi, v, seq![si], rules);
            &&& vs.len() == (if s.net@ != v.net@ && close { 1int } else { 0int })
            &&& vs.len() == 1 ==> vs[0].0 == s.layer && vs[0].1 == v.net@ && vs[0].2 == s.net@
                && vs[0].3 == "via_clearance"@ && vs[0].4 == floor_distance(d)
        }),
{
    lemma_via_segment_single(segs, vi, v, si, rules);
}

} // verus!
