//! KiCad board items built from coil geometry and IO elements.
//!
//! Each phase coil becomes one track per segment, one arc per corner arc and
//! one through via per centre-via position, in that order, coil by coil.
//! The IO elements of a routing result become one track per fanout trace
//! followed by one single-pad footprint per IO pad. Every x coordinate is
//! shifted by half the active-area length so the coil set straddles x = 0:
//! tracks, arcs and IO elements by that half rounded to the nanometre, vias
//! to the nanometre nearest their exact shifted position (exact halves away
//! from zero, as `f64::round` rounds); nets are the phase (or IO) net name
//! with a leading `/`.
use vstd::prelude::*;
use crate::geometry::{point_in_range, size_in_range, CoilArc, CoilSegment, IoPad, IoPadKind, IoTrace, PhaseCoil, Point, RoutingResult, MAX_COORD_NM};
use crate::layer_map::{board_layer_for, layer_idx_to_board_layer, BoardLayer};
use crate::rules::DesignRules;
use crate::text::{half_away, half_away_i128, nat_text, push_nat, push_str};

verus! {

// ---------------------------------------------------------------------------
// Item types
// ---------------------------------------------------------------------------

/// A board position [nm].
#[derive(Debug, Clone, Copy, PartialEq, Eq, Structural)]
pub struct Vector2 {
    pub x_nm: i64,
    pub y_nm: i64,
}

/// Copper shape of a pad stack.
#[derive(Debug, Clone, Copy, PartialEq, Eq, Structural)]
pub enum PadStackShape {
    PssCircle,
    PssRectangle,
}

/// Electrical type of a pad.
#[derive(Debug, Clone, Copy, PartialEq, Eq, Structural)]
pub enum PadType {
    PtSmd,
    PtPth,
    PtEdgeConnector,
}

/// How a footprint is mounted.
#[derive(Debug, Clone, Copy, PartialEq, Eq, Structural)]
pub enum FootprintMountingStyle {
    FmsSmd,
    FmsThroughHole,
    FmsUnspecified,
}

/// A plated drill: circular, uncapped and unfilled, from F.Cu to B.Cu.
#[derive(Debug, Clone, Copy, PartialEq, Eq, Structural)]
pub struct DrillProperties {
    pub start_layer: BoardLayer,
    pub end_layer: BoardLayer,
    pub diameter_nm: i64,
}

/// A normal-mode pad stack: one copper shape (on the all-layers sentinel
/// F.Cu) applied to every copper layer in `layers`, unconnected annular
/// rings kept.
pub struct PadStack {
    pub layers: Vec<BoardLayer>,
    pub drill: Option<DrillProperties>,
    pub shape: PadStackShape,
    pub size: Vector2,
}

/// A straight copper track.
pub struct Track {
    pub start: Vector2,
    pub end: Vector2,
    pub width_nm: i64,
    pub layer: BoardLayer,
    pub net: String,
}

/// A copper arc through start, mid and end.
pub struct Arc {
    pub start: Vector2,
    pub mid: Vector2,
    pub end: Vector2,
    pub width_nm: i64,
    pub layer: BoardLayer,
    pub net: String,
}

/// A through via.
pub struct Via {
    pub position: Vector2,
    pub pad_stack: PadStack,
    pub net: String,
}

/// A pad; its position is relative to the footprint origin.
pub struct Pad {
    pub number: String,
    pub net: String,
    pub pad_type: PadType,
    pub pad_stack: PadStack,
    pub position: Vector2,
}

/// Footprint flags.
#[derive(Debug, Clone, Copy, PartialEq, Eq, Structural)]
pub struct FootprintAttributes {
    pub not_in_schematic: bool,
    pub exclude_from_position_files: bool,
    pub exclude_from_bill_of_materials: bool,
    pub exempt_from_courtyard_requirement: bool,
    pub do_not_populate: bool,
    pub mounting_style: FootprintMountingStyle,
    pub allow_soldermask_bridges: bool,
}

/// A footprint definition holding a single pad.
pub struct Footprint {
    pub library_nickname: String,
    pub entry_name: String,
    pub anchor: Vector2,
    pub attributes: FootprintAttributes,
    pub pad: Pad,
}

/// A placed footprint.
pub struct FootprintInstance {
    pub position: Vector2,
    pub layer: BoardLayer,
    pub definition: Footprint,
}

/// One item for the board's item-creation request.
pub enum BoardItem {
    Track(Track),
    Arc(Arc),
    Via(Via),
    Footprint(FootprintInstance),
}

// ---------------------------------------------------------------------------
// Views
// ---------------------------------------------------------------------------

/// A pad stack as plain values.
pub struct PadStackView {
    pub layers: Seq<BoardLayer>,
    pub drill: Option<DrillProperties>,
    pub shape: PadStackShape,
    pub size: Vector2,
}

/// A board item as plain values.
pub enum ItemView {
    Track { start: Vector2, end: Vector2, width_nm: int, layer: BoardLayer, net: Seq<char> },
    Arc { start: Vector2, mid: Vector2, end: Vector2, width_nm: int, layer: BoardLayer, net: Seq<char> },
    Via { position: Vector2, pad_stack: PadStackView, net: Seq<char> },
    Footprint {
        position: Vector2,
        layer: BoardLayer,
        library_nickname: Seq<char>,
        entry_name: Seq<char>,
        anchor: Vector2,
        attributes: FootprintAttributes,
        number: Seq<char>,
        net: Seq<char>,
        pad_type: PadType,
        pad_stack: PadStackView,
        pad_position: Vector2,
    },
}

pub open spec fn pad_stack_view(p: PadStack) -> PadStackView {
    PadStackView { layers: p.layers@, drill: p.drill, shape: p.shape, size: p.size }
}

pub open spec fn item_view(i: BoardItem) -> ItemView {
    match i {
        BoardItem::Track(t) => ItemView::Track {
            start: t.start,
            end: t.end,
            width_nm: t.width_nm as int,
            layer: t.layer,
            net: t.net@,
        },
        BoardItem::Arc(a) => ItemView::Arc {
            start: a.start,
            mid: a.mid,
            end: a.end,
            width_nm: a.width_nm as int,
            layer: a.layer,
            net: a.net@,
        },
        BoardItem::Via(v) => ItemView::Via {
            position: v.position,
            pad_stack: pad_stack_view(v.pad_stack),
            net: v.net@,
        },
        BoardItem::Footprint(f) => ItemView::Footprint {
            position: f.position,
            layer: f.layer,
            library_nickname: f.definition.library_nickname@,
            entry_name: f.definition.entry_name@,
            anchor: f.definition.anchor,
            attributes: f.definition.attributes,
            number: f.definition.pad.number@,
            net: f.definition.pad.net@,
            pad_type: f.definition.pad.pad_type,
            pad_stack: pad_stack_view(f.definition.pad.pad_stack),
            pad_position: f.definition.pad.position,
        },
    }
}

/// The items as plain values.
pub open spec fn items_view(items: Seq<BoardItem>) -> Seq<ItemView> {
    items.map_values(|i: BoardItem| item_view(i))
}

impl BoardItem {
    /// The item's fully qualified protobuf message name.
    pub open spec fn spec_type_name(&self) -> Seq<char> {
        match self {
            BoardItem::Track(_) => "kiapi.board.types.Track"@,
            BoardItem::Arc(_) => "kiapi.board.types.Arc"@,
            BoardItem::Via(_) => "kiapi.board.types.Via"@,
            BoardItem::Footprint(_) => "kiapi.board.types.FootprintInstance"@,
        }
    }

    /// The item's `google.protobuf.Any` type URL.
    pub fn type_url(&self) -> (u: String)
        ensures
            u@ == "type.googleapis.com/"@ + self.spec_type_name(),
    {
        let mut u = String::new();
        push_str(&mut u, "type.googleapis.com/");
        match self {
            BoardItem::Track(_) => push_str(&mut u, "kiapi.board.types.Track"),
            BoardItem::Arc(_) => push_str(&mut u, "kiapi.board.types.Arc"),
            BoardItem::Via(_) => push_str(&mut u, "kiapi.board.types.Via"),
            BoardItem::Footprint(_) => push_str(&mut u, "kiapi.board.types.FootprintInstance"),
        }
        u
    }
}

// ---------------------------------------------------------------------------
// What each element becomes
// ---------------------------------------------------------------------------

/// A net name with the leading `/` of a board net.
pub open spec fn board_net(name: Seq<char>) -> Seq<char> {
    seq!['/'] + name
}

/// A point shifted left by `off` [nm].
pub open spec fn shifted(x: int, y: int, off: int) -> Vector2 {
    Vector2 { x_nm: (x - off) as i64, y_nm: y as i64 }
}

/// A via position moved left by half of `active` [nm], to the nearest
/// nanometre (exact halves away from zero).
pub open spec fn via_shifted(x: int, y: int, active: int) -> Vector2 {
    Vector2 { x_nm: half_away(2 * x - active) as i64, y_nm: y as i64 }
}

/// The copper layers a through via passes: every layer of the board,
/// bottom first.
pub open spec fn via_layers(num_layers: u32) -> Seq<BoardLayer> {
    Seq::new(num_layers as nat, |i: int| board_layer_for(i as u32, num_layers))
}

/// The drill of a plated through hole of the given diameter.
pub open spec fn through_drill_of(diameter: int) -> DrillProperties {
    DrillProperties { start_layer: BoardLayer::BlFCu, end_layer: BoardLayer::BlBCu, diameter_nm: diameter as i64 }
}

/// One track per segment.
pub open spec fn tracks_of(segs: Seq<CoilSegment>, layer: BoardLayer, net: Seq<char>, width: int, off: int) -> Seq<ItemView> {
    segs.map_values(
        |s: CoilSegment|
            ItemView::Track {
                start: shifted(s.start.0 as int, s.start.1 as int, off),
                end: shifted(s.end.0 as int, s.end.1 as int, off),
                width_nm: width,
                layer: layer,
                net: net,
            },
    )
}

/// One arc per corner arc.
pub open spec fn arcs_of(arcs: Seq<CoilArc>, layer: BoardLayer, net: Seq<char>, width: int, off: int) -> Seq<ItemView> {
    arcs.map_values(
        |a: CoilArc|
            ItemView::Arc {
                start: shifted(a.start.0 as int, a.start.1 as int, off),
                mid: shifted(a.mid.0 as int, a.mid.1 as int, off),
                end: shifted(a.end.0 as int, a.end.1 as int, off),
                width_nm: width,
                layer: layer,
                net: net,
            },
    )
}

/// The pad stack of a through via.
pub open spec fn via_pad_stack(drill: int, pad: int, layers: Seq<BoardLayer>) -> PadStackView {
    PadStackView {
        layers: layers,
        drill: Some(through_drill_of(drill)),
        shape: PadStackShape::PssCircle,
        size: Vector2 { x_nm: pad as i64, y_nm: pad as i64 },
    }
}

/// One through via per position, each moved left by half of `active`.
pub open spec fn vias_of(ps: Seq<(i64, i64)>, net: Seq<char>, drill: int, pad: int, layers: Seq<BoardLayer>, active: int) -> Seq<ItemView> {
    ps.map_values(
        |p: (i64, i64)|
            ItemView::Via { position: via_shifted(p.0 as int, p.1 as int, active), pad_stack: via_pad_stack(drill, pad, layers), net: net },
    )
}

/// The items of one coil for an active area `active` nm long: its tracks,
/// then its arcs (both shifted left by half of `active`, rounded to the
/// nanometre), then its vias.
pub open spec fn coil_items(c: PhaseCoil, num_layers: u32, rules: DesignRules, active: int) -> Seq<ItemView> {
    let layer = board_layer_for(c.layer_idx, num_layers);
    let net = board_net(c.phase_name@);
    let off = half_away(active);
    tracks_of(c.segments@, layer, net, rules.min_trace_nm as int, off) + arcs_of(
        c.corner_arcs@,
        layer,
        net,
        rules.min_trace_nm as int,
        off,
    ) + vias_of(
        c.center_via_positions@,
        net,
        rules.min_via_drill_nm as int,
        rules.spec_via_pad_diameter(),
        via_layers(num_layers),
        active,
    )
}

/// The items of a coil set, coil by coil.
pub open spec fn coils_items(cs: Seq<PhaseCoil>, num_layers: u32, rules: DesignRules, active: int) -> Seq<ItemView>
    decreases cs.len(),
{
    if cs.len() == 0 {
        seq![]
    } else {
        coils_items(cs.drop_last(), num_layers, rules, active) + coil_items(cs.last(), num_layers, rules, active)
    }
}

/// Total number of segments, corner arcs and centre vias of a coil set.
pub open spec fn coil_element_count(cs: Seq<PhaseCoil>) -> nat
    decreases cs.len(),
{
    if cs.len() == 0 {
        0
    } else {
        coil_element_count(cs.drop_last()) + cs.last().segments@.len() + cs.last().corner_arcs@.len()
            + cs.last().center_via_positions@.len()
    }
}

/// Each segment, corner arc and centre via becomes exactly one board item.
pub proof fn lemma_one_item_per_element(cs: Seq<PhaseCoil>, num_layers: u32, rules: DesignRules, active: int)
    ensures
        coils_items(cs, num_layers, rules, active).len() == coil_element_count(cs),
    decreases cs.len(),
{
    if cs.len() > 0 {
        lemma_one_item_per_element(cs.drop_last(), num_layers, rules, active);
    }
}

/// Coil by coil, in input order: the items of coil `k` are one contiguous
/// block that starts after the items of the coils before it and holds
/// exactly that coil's tracks, then its arcs, then its vias.
pub proof fn lemma_items_grouped_per_coil(cs: Seq<PhaseCoil>, num_layers: u32, rules: DesignRules, active: int, k: int)
    requires
        0 <= k < cs.len(),
    ensures
        ({
            let items = coils_items(cs, num_layers, rules, active);
            let start = coil_element_count(cs.take(k)) as int;
            let block = coil_items(cs[k], num_layers, rules, active);
            &&& start + block.len() <= items.len()
            &&& items.subrange(start, start + block.len()) == block
        }),
    decreases cs.len(),
{
    let init = cs.drop_last();
    lemma_one_item_per_element(init, num_layers, rules, active);
    if k == cs.len() - 1 {
        assert(cs.take(k) =~= init);
        assert(coils_items(cs, num_layers, rules, active).subrange(
            coils_items(init, num_layers, rules, active).len() as int,
            coils_items(cs, num_layers, rules, active).len() as int,
        ) =~= coil_items(cs.last(), num_layers, rules, active));
    } else {
        lemma_items_grouped_per_coil(init, num_layers, rules, active, k);
        assert(init.take(k) =~= cs.take(k));
        assert(init[k] == cs[k]);
        let start = coil_element_count(cs.take(k)) as int;
        let block = coil_items(cs[k], num_layers, rules, active);
        assert(coils_items(cs, num_layers, rules, active).subrange(start, start + block.len())
            =~= coils_items(init, num_layers, rules, active).subrange(start, start + block.len()));
    }
}

/// Every coordinate of the coil lies within ±[`MAX_COORD_NM`].
pub open spec fn coil_in_range(c: PhaseCoil) -> bool {
    &&& forall|k: int| 0 <= k < c.segments@.len() ==> pair_in_range(#[trigger] c.segments@[k].start) && pair_in_range(c.segments@[k].end)
    &&& forall|k: int| 0 <= k < c.corner_arcs@.len() ==> pair_in_range(#[trigger] c.corner_arcs@[k].start) && pair_in_range(c.corner_arcs@[k].mid)
        && pair_in_range(c.corner_arcs@[k].end)
    &&& forall|k: int| 0 <= k < c.center_via_positions@.len() ==> pair_in_range(#[trigger] c.center_via_positions@[k])
}

pub open spec fn pair_in_range(p: (i64, i64)) -> bool {
    -MAX_COORD_NM <= p.0 <= MAX_COORD_NM && -MAX_COORD_NM <= p.1 <= MAX_COORD_NM
}

/// Every coil of the set lies within range.
pub open spec fn coils_in_range(cs: Seq<PhaseCoil>) -> bool {
    forall|i: int| 0 <= i < cs.len() ==> coil_in_range(#[trigger] cs[i])
}

// ---------------------------------------------------------------------------
// Builders
// ---------------------------------------------------------------------------

/// `/` followed by `name`.
pub fn board_net_name(name: &str) -> (r: String)
    ensures
        r@ == board_net(name@),
{
    let mut r = String::new();
    r.push('/');
    push_str(&mut r, name);
    r
}

fn shift(x: i64, y: i64, off: i64) -> (v: Vector2)
    requires
        -MAX_COORD_NM <= x <= MAX_COORD_NM,
        -MAX_COORD_NM <= y <= MAX_COORD_NM,
        -4_611_686_018_427_387_904 <= off <= 4_611_686_018_427_387_904,
    ensures
        v == shifted(x as int, y as int, off as int),
{
    Vector2 { x_nm: x - off, y_nm: y }
}

fn shift_via(x: i64, y: i64, active: i64) -> (v: Vector2)
    requires
        -MAX_COORD_NM <= x <= MAX_COORD_NM,
        -MAX_COORD_NM <= y <= MAX_COORD_NM,
    ensures
        v == via_shifted(x as int, y as int, active as int),
{
    let h = half_away_i128(2 * (x as i128) - active as i128);
    Vector2 { x_nm: h as i64, y_nm: y }
}

/// The x shift of tracks, arcs and IO elements: half of `active`, rounded
/// to the nanometre (exact halves away from zero).
fn half_offset(active: i64) -> (off: i64)
    ensures
        off == half_away(active as int),
        -4_611_686_018_427_387_904 <= off <= 4_611_686_018_427_387_904,
{
    half_away_i128(active as i128) as i64
}

/// The copper layers of a `num_layers` board, bottom first: the layer set
/// of a through via.
pub fn via_board_layers(num_layers: u32) -> (v: Vec<BoardLayer>)
    ensures
        v@ == via_layers(num_layers),
{
    let mut v: Vec<BoardLayer> = Vec::new();
    let mut i: u32 = 0;
    while i < num_layers
        invariant
            i <= num_layers,
            v@ =~= via_layers(num_layers).take(i as int),
        decreases num_layers - i,
    {
        let l = layer_idx_to_board_layer(i, num_layers);
        v.push(l);
        i = i + 1;
    }
    v
}

fn copy_layers(v: &Vec<BoardLayer>) -> (r: Vec<BoardLayer>)
    ensures
        r@ == v@,
{
    let mut r: Vec<BoardLayer> = Vec::new();
    let mut i: usize = 0;
    while i < v.len()
        invariant
            i <= v@.len(),
            r@ =~= v@.take(i as int),
        decreases v.len() - i,
    {
        r.push(v[i]);
        i = i + 1;
    }
    r
}

/// Drill properties of a plated through hole of the given diameter.
pub fn through_drill(drill_nm: i64) -> (d: DrillProperties)
    ensures
        d == through_drill_of(drill_nm as int),
{
    DrillProperties { start_layer: BoardLayer::BlFCu, end_layer: BoardLayer::BlBCu, diameter_nm: drill_nm }
}

fn through_pad_stack(drill_nm: i64, pad_diameter_nm: i64, board_layers: &Vec<BoardLayer>) -> (p: PadStack)
    ensures
        pad_stack_view(p) == via_pad_stack(drill_nm as int, pad_diameter_nm as int, board_layers@),
{
    PadStack {
        layers: copy_layers(board_layers),
        drill: Some(through_drill(drill_nm)),
        shape: PadStackShape::PssCircle,
        size: Vector2 { x_nm: pad_diameter_nm, y_nm: pad_diameter_nm },
    }
}

fn push_item(items: &mut Vec<BoardItem>, item: BoardItem)
    ensures
        items_view(final(items)@) == items_view(old(items)@).push(item_view(item)),
{
    let ghost before = items@;
    let ghost v = item_view(item);
    items.push(item);
    assert(items_view(items@) =~= items_view(before).push(v));
}

/// Append one track per segment and one arc per corner arc of `coil`.
fn emit_tracks_and_arcs(
    items: &mut Vec<BoardItem>,
    coil: &PhaseCoil,
    layer: BoardLayer,
    net: &String,
    trace_width_nm: i64,
    off: i64,
)
    requires
        coil_in_range(*coil),
        -4_611_686_018_427_387_904 <= off <= 4_611_686_018_427_387_904,
    ensures
        items_view(final(items)@) == items_view(old(items)@) + tracks_of(
            coil.segments@,
            layer,
            net@,
            trace_width_nm as int,
            off as int,
        ) + arcs_of(coil.corner_arcs@, layer, net@, trace_width_nm as int, off as int),
{
    let ghost start = items_view(items@);
    let mut k: usize = 0;
    while k < coil.segments.len()
        invariant
            k <= coil.segments@.len(),
            coil_in_range(*coil),
            -4_611_686_018_427_387_904 <= off <= 4_611_686_018_427_387_904,
            items_view(items@) == start + tracks_of(coil.segments@.take(k as int), layer, net@, trace_width_nm as int, off as int),
        decreases coil.segments.len() - k,
    {
        let s = coil.segments[k];
        assert(pair_in_range(coil.segments@[k as int].start) && pair_in_range(coil.segments@[k as int].end));
        let t = Track {
            start: shift(s.start.0, s.start.1, off),
            end: shift(s.end.0, s.end.1, off),
            width_nm: trace_width_nm,
            layer,
            net: net.clone(),
        };
        push_item(items, BoardItem::Track(t));
        assert(coil.segments@.take(k + 1) =~= coil.segments@.take(k as int).push(s));
        assert(tracks_of(coil.segments@.take(k + 1), layer, net@, trace_width_nm as int, off as int) =~= tracks_of(
            coil.segments@.take(k as int),
            layer,
            net@,
            trace_width_nm as int,
            off as int,
        ).push(item_view(BoardItem::Track(t))));
        k = k + 1;
    }
    assert(coil.segments@.take(coil.segments@.len() as int) =~= coil.segments@);
    let ghost mid = items_view(items@);
    let mut j: usize = 0;
    while j < coil.corner_arcs.len()
        invariant
            j <= coil.corner_arcs@.len(),
            coil_in_range(*coil),
            -4_611_686_018_427_387_904 <= off <= 4_611_686_018_427_387_904,
            items_view(items@) == mid + arcs_of(coil.corner_arcs@.take(j as int), layer, net@, trace_width_nm as int, off as int),
        decreases coil.corner_arcs.len() - j,
    {
        let a = coil.corner_arcs[j];
        assert(pair_in_range(coil.corner_arcs@[j as int].start) && pair_in_range(coil.corner_arcs@[j as int].mid)
            && pair_in_range(coil.corner_arcs@[j as int].end));
        let arc = Arc {
            start: shift(a.start.0, a.start.1, off),
            mid: shift(a.mid.0, a.mid.1, off),
            end: shift(a.end.0, a.end.1, off),
            width_nm: trace_width_nm,
            layer,
            net: net.clone(),
        };
        push_item(items, BoardItem::Arc(arc));
        assert(coil.corner_arcs@.take(j + 1) =~= coil.corner_arcs@.take(j as int).push(a));
        assert(arcs_of(coil.corner_arcs@.take(j + 1), layer, net@, trace_width_nm as int, off as int) =~= arcs_of(
            coil.corner_arcs@.take(j as int),
            layer,
            net@,
            trace_width_nm as int,
            off as int,
        ).push(item_view(BoardItem::Arc(arc))));
        j = j + 1;
    }
    assert(coil.corner_arcs@.take(coil.corner_arcs@.len() as int) =~= coil.corner_arcs@);
}

/// Append one through via per centre-via position of `coil`.
fn emit_vias(
    items: &mut Vec<BoardItem>,
    coil: &PhaseCoil,
    net: &String,
    drill_nm: i64,
    pad_diameter_nm: i64,
    active: i64,
    board_layers: &Vec<BoardLayer>,
)
    requires
        coil_in_range(*coil),
    ensures
        items_view(final(items)@) == items_view(old(items)@) + vias_of(
            coil.center_via_positions@,
            net@,
            drill_nm as int,
            pad_diameter_nm as int,
            board_layers@,
            active as int,
        ),
{
    let ghost start = items_view(items@);
    let mut k: usize = 0;
    while k < coil.center_via_positions.len()
        invariant
            k <= coil.center_via_positions@.len(),
            coil_in_range(*coil),
                items_view(items@) == start + vias_of(
                coil.center_via_positions@.take(k as int),
                net@,
                drill_nm as int,
                pad_diameter_nm as int,
                board_layers@,
                active as int,
            ),
        decreases coil.center_via_positions.len() - k,
    {
        let p = coil.center_via_positions[k];
        assert(pair_in_range(coil.center_via_positions@[k as int]));
        let via = Via {
            position: shift_via(p.0, p.1, active),
            pad_stack: through_pad_stack(drill_nm, pad_diameter_nm, board_layers),
            net: net.clone(),
        };
        push_item(items, BoardItem::Via(via));
        assert(coil.center_via_positions@.take(k + 1) =~= coil.center_via_positions@.take(k as int).push(p));
        assert(vias_of(
            coil.center_via_positions@.take(k + 1),
            net@,
            drill_nm as int,
            pad_diameter_nm as int,
            board_layers@,
            active as int,
        ) =~= vias_of(
            coil.center_via_positions@.take(k as int),
            net@,
            drill_nm as int,
            pad_diameter_nm as int,
            board_layers@,
            active as int,
        ).push(item_view(BoardItem::Via(via))));
        k = k + 1;
    }
    assert(coil.center_via_positions@.take(coil.center_via_positions@.len() as int) =~= coil.center_via_positions@);
}

/// Convert coil geometry into board items: per coil, one track per segment,
/// one arc per corner arc and one through via per centre-via position. The
/// whole set is shifted left by half the active-area length so it straddles
/// x = 0; layers map through the board's real layer count `num_layers`.
pub fn coils_to_board_items(
    coils: &[PhaseCoil],
    num_layers: u32,
    rules: &DesignRules,
    active_area_length_nm: i64,
) -> (items: Vec<BoardItem>)
    requires
        rules.in_range(),
        coils_in_range(coils@),
    ensures
        items_view(items@) == coils_items(coils@, num_layers, *rules, active_area_length_nm as int),
{
    let trace_width_nm = rules.min_trace_nm;
    let drill_nm = rules.min_via_drill_nm;
    let pad_diameter_nm = rules.via_pad_diameter_nm();
    let x_offset_nm: i64 = half_offset(active_area_length_nm);
    let board_layers = via_board_layers(num_layers);
    let mut items: Vec<BoardItem> = Vec::new();
    let mut i: usize = 0;
    assert(coils@.take(0) =~= Seq::<PhaseCoil>::empty());
    assert(items_view(items@) =~= Seq::<ItemView>::empty());
    while i < coils.len()
        invariant
            i <= coils@.len(),
            rules.in_range(),
            coils_in_range(coils@),
            x_offset_nm as int == half_away(active_area_length_nm as int),
            -4_611_686_018_427_387_904 <= x_offset_nm <= 4_611_686_018_427_387_904,
            trace_width_nm == rules.min_trace_nm,
            drill_nm == rules.min_via_drill_nm,
            pad_diameter_nm == rules.spec_via_pad_diameter(),
            board_layers@ == via_layers(num_layers),
            items_view(items@) == coils_items(coils@.take(i as int), num_layers, *rules, active_area_length_nm as int),
        decreases coils.len() - i,
    {
        let coil = &coils[i];
        assert(coil_in_range(coils@[i as int]));
        let layer = layer_idx_to_board_layer(coil.layer_idx, num_layers);
        let net = board_net_name(coil.phase_name.as_str());
        emit_tracks_and_arcs(&mut items, coil, layer, &net, trace_width_nm, x_offset_nm);
        emit_vias(&mut items, coil, &net, drill_nm, pad_diameter_nm, active_area_length_nm, &board_layers);
        proof {
            assert(coils@.take(i + 1).drop_last() =~= coils@.take(i as int));
            assert(coils@.take(i + 1).last() == coils@[i as int]);
        }
        i = i + 1;
    }
    assert(coils@.take(coils@.len() as int) =~= coils@);
    items
}

// ---------------------------------------------------------------------------
// IO elements
// ---------------------------------------------------------------------------

/// The track of an IO fanout trace.
pub open spec fn io_trace_item(t: IoTrace, num_layers: u32, width: int, off: int) -> ItemView {
    ItemView::Track {
        start: shifted(t.start.x as int, t.start.y as int, off),
        end: shifted(t.end.x as int, t.end.y as int, off),
        width_nm: width,
        layer: board_layer_for(t.layer, num_layers),
        net: board_net(t.net@),
    }
}

pub open spec fn pad_type_of(kind: IoPadKind) -> PadType {
    match kind {
        IoPadKind::Smd => PadType::PtSmd,
        IoPadKind::Tht => PadType::PtPth,
        IoPadKind::BoardEdge => PadType::PtEdgeConnector,
    }
}

pub open spec fn mounting_style_of(kind: IoPadKind) -> FootprintMountingStyle {
    match kind {
        IoPadKind::Smd => FootprintMountingStyle::FmsSmd,
        IoPadKind::Tht => FootprintMountingStyle::FmsThroughHole,
        IoPadKind::BoardEdge => FootprintMountingStyle::FmsUnspecified,
    }
}

/// Layers of a pad that declares none: every copper layer for a
/// through-hole pad, the top layer for surface pads.
pub open spec fn default_pad_layers_of(kind: IoPadKind, num_layers: u32) -> Seq<BoardLayer> {
    match kind {
        IoPadKind::Tht => via_layers(num_layers),
        _ => seq![BoardLayer::BlFCu],
    }
}

/// The pad's copper layers: its declared layers mapped onto the board, or
/// the kind's default set when it declares none.
pub open spec fn pad_layers_of(pad: IoPad, num_layers: u32) -> Seq<BoardLayer> {
    if pad.layers@.len() == 0 {
        default_pad_layers_of(pad.kind, num_layers)
    } else {
        pad.layers@.map_values(|i: u32| board_layer_for(i, num_layers))
    }
}

/// The pad stack of an IO pad: a circle for a square size, a rectangle
/// otherwise; drilled when the pad has a drill.
pub open spec fn io_pad_stack_of(pad: IoPad, num_layers: u32) -> PadStackView {
    PadStackView {
        layers: pad_layers_of(pad, num_layers),
        drill: match pad.drill_nm {
            Some(d) => Some(through_drill_of(d as int)),
            None => None,
        },
        shape: if pad.size.x == pad.size.y { PadStackShape::PssCircle } else { PadStackShape::PssRectangle },
        size: Vector2 { x_nm: pad.size.x, y_nm: pad.size.y },
    }
}

/// The pad's number: its own, or its 1-based position in the pad list.
pub open spec fn pad_number_of(pad: IoPad, index: int) -> Seq<char> {
    match pad.number {
        Some(n) => n@,
        None => nat_text((index + 1) as nat),
    }
}

/// Footprint flags of a generated IO pad: not in the schematic, not on the
/// bill of materials, exempt from courtyard checks.
pub open spec fn io_pad_attributes(kind: IoPadKind) -> FootprintAttributes {
    FootprintAttributes {
        not_in_schematic: true,
        exclude_from_position_files: false,
        exclude_from_bill_of_materials: true,
        exempt_from_courtyard_requirement: true,
        do_not_populate: false,
        mounting_style: mounting_style_of(kind),
        allow_soldermask_bridges: false,
    }
}

/// The single-pad footprint of IO pad number `index` (0-based), placed on
/// F.Cu at the pad centre; the pad sits at the footprint origin.
pub open spec fn io_pad_item(pad: IoPad, index: int, num_layers: u32, off: int) -> ItemView {
    ItemView::Footprint {
        position: shifted(pad.position.x as int, pad.position.y as int, off),
        layer: BoardLayer::BlFCu,
        library_nickname: "pcbmotorgen"@,
        entry_name: "io_pad_"@ + pad.net@ + "_"@ + nat_text((index + 1) as nat),
        anchor: Vector2 { x_nm: 0, y_nm: 0 },
        attributes: io_pad_attributes(pad.kind),
        number: pad_number_of(pad, index),
        net: board_net(pad.net@),
        pad_type: pad_type_of(pad.kind),
        pad_stack: io_pad_stack_of(pad, num_layers),
        pad_position: Vector2 { x_nm: 0, y_nm: 0 },
    }
}

/// One track per fanout trace.
pub open spec fn io_trace_items(ts: Seq<IoTrace>, num_layers: u32, width: int, off: int) -> Seq<ItemView> {
    ts.map_values(|t: IoTrace| io_trace_item(t, num_layers, width, off))
}

/// The IO items of a routing result: one track per fanout trace, then one
/// footprint per IO pad.
pub open spec fn io_items(r: RoutingResult, num_layers: u32, rules: DesignRules, off: int) -> Seq<ItemView> {
    io_trace_items(r.io_traces@, num_layers, rules.min_trace_nm as int, off) + Seq::new(
        r.io_pads@.len(),
        |i: int| io_pad_item(r.io_pads@[i], i, num_layers, off),
    )
}

fn io_trace_track(trace: &IoTrace, num_layers: u32, trace_width_nm: i64, off: i64) -> (t: Track)
    requires
        point_in_range(trace.start),
        point_in_range(trace.end),
        -4_611_686_018_427_387_904 <= off <= 4_611_686_018_427_387_904,
    ensures
        item_view(BoardItem::Track(t)) == io_trace_item(*trace, num_layers, trace_width_nm as int, off as int),
{
    Track {
        start: shift(trace.start.x, trace.start.y, off),
        end: shift(trace.end.x, trace.end.y, off),
        width_nm: trace_width_nm,
        layer: layer_idx_to_board_layer(trace.layer, num_layers),
        net: board_net_name(trace.net.as_str()),
    }
}

fn pad_type(kind: IoPadKind) -> (t: PadType)
    ensures
        t == pad_type_of(kind),
{
    match kind {
        IoPadKind::Smd => PadType::PtSmd,
        IoPadKind::Tht => PadType::PtPth,
        IoPadKind::BoardEdge => PadType::PtEdgeConnector,
    }
}

fn mounting_style(kind: IoPadKind) -> (m: FootprintMountingStyle)
    ensures
        m == mounting_style_of(kind),
{
    match kind {
        IoPadKind::Smd => FootprintMountingStyle::FmsSmd,
        IoPadKind::Tht => FootprintMountingStyle::FmsThroughHole,
        IoPadKind::BoardEdge => FootprintMountingStyle::FmsUnspecified,
    }
}

fn default_pad_layers(kind: IoPadKind, num_layers: u32) -> (v: Vec<BoardLayer>)
    ensures
        v@ == default_pad_layers_of(kind, num_layers),
{
    match kind {
        IoPadKind::Tht => via_board_layers(num_layers),
        _ => {
            let mut v: Vec<BoardLayer> = Vec::new();
            v.push(BoardLayer::BlFCu);
            assert(v@ =~= seq![BoardLayer::BlFCu]);
            v
        },
    }
}

fn io_pad_stack(pad: &IoPad, num_layers: u32) -> (p: PadStack)
    ensures
        pad_stack_view(p) == io_pad_stack_of(*pad, num_layers),
{
    let shape = if pad.size.x == pad.size.y { PadStackShape::PssCircle } else { PadStackShape::PssRectangle };
    let layers = if pad.layers.len() == 0 {
        default_pad_layers(pad.kind, num_layers)
    } else {
        let mut v: Vec<BoardLayer> = Vec::new();
        let mut i: usize = 0;
        while i < pad.layers.len()
            invariant
                i <= pad.layers@.len(),
                v@ =~= pad.layers@.take(i as int).map_values(|k: u32| board_layer_for(k, num_layers)),
            decreases pad.layers.len() - i,
        {
            v.push(layer_idx_to_board_layer(pad.layers[i], num_layers));
            i = i + 1;
        }
        assert(pad.layers@.take(pad.layers@.len() as int) =~= pad.layers@);
        v
    };
    let drill = match pad.drill_nm {
        Some(d) => Some(through_drill(d)),
        None => None,
    };
    PadStack { layers, drill, shape, size: Vector2 { x_nm: pad.size.x, y_nm: pad.size.y } }
}

fn text_of(t: &str) -> (r: String)
    ensures
        r@ == t@,
{
    let mut r = String::new();
    push_str(&mut r, t);
    r
}

/// The single-pad footprint of IO pad number `index` (0-based).
fn io_pad_footprint(pad: &IoPad, index: usize, num_layers: u32, off: i64) -> (f: FootprintInstance)
    requires
        point_in_range(pad.position),
        index < usize::MAX,
        -4_611_686_018_427_387_904 <= off <= 4_611_686_018_427_387_904,
    ensures
        item_view(BoardItem::Footprint(f)) == io_pad_item(*pad, index as int, num_layers, off as int),
{
    let number = match &pad.number {
        Some(n) => n.clone(),
        None => {
            let mut t = String::new();
            push_nat(&mut t, (index + 1) as u64);
            t
        },
    };
    let mut entry = String::new();
    push_str(&mut entry, "io_pad_");
    push_str(&mut entry, pad.net.as_str());
    push_str(&mut entry, "_");
    push_nat(&mut entry, (index + 1) as u64);
    let ki_pad = Pad {
        number,
        net: board_net_name(pad.net.as_str()),
        pad_type: pad_type(pad.kind),
        pad_stack: io_pad_stack(pad, num_layers),
        position: Vector2 { x_nm: 0, y_nm: 0 },
    };
    let definition = Footprint {
        library_nickname: text_of("pcbmotorgen"),
        entry_name: entry,
        anchor: Vector2 { x_nm: 0, y_nm: 0 },
        attributes: FootprintAttributes {
            not_in_schematic: true,
            exclude_from_position_files: false,
            exclude_from_bill_of_materials: true,
            exempt_from_courtyard_requirement: true,
            do_not_populate: false,
            mounting_style: mounting_style(pad.kind),
            allow_soldermask_bridges: false,
        },
        pad: ki_pad,
    };
    FootprintInstance {
        position: shift(pad.position.x, pad.position.y, off),
        layer: BoardLayer::BlFCu,
        definition,
    }
}

/// Append the IO items of `result`: one track per fanout trace, then one
/// footprint per IO pad.
fn emit_io_elements(
    items: &mut Vec<BoardItem>,
    result: &RoutingResult,
    num_layers: u32,
    rules: &DesignRules,
    off: i64,
)
    requires
        result.in_range(),
        -4_611_686_018_427_387_904 <= off <= 4_611_686_018_427_387_904,
    ensures
        items_view(final(items)@) == items_view(old(items)@) + io_items(*result, num_layers, *rules, off as int),
{
    let ghost start = items_view(items@);
    let trace_width_nm = rules.min_trace_nm;
    let ghost w = rules.min_trace_nm as int;
    let mut k: usize = 0;
    while k < result.io_traces.len()
        invariant
            k <= result.io_traces@.len(),
            result.in_range(),
            trace_width_nm == rules.min_trace_nm,
            w == rules.min_trace_nm as int,
            -4_611_686_018_427_387_904 <= off <= 4_611_686_018_427_387_904,
            items_view(items@) == start + io_trace_items(result.io_traces@.take(k as int), num_layers, w, off as int),
        decreases result.io_traces.len() - k,
    {
        let t = &result.io_traces[k];
        assert(point_in_range(result.io_traces@[k as int].start) && point_in_range(result.io_traces@[k as int].end));
        let track = io_trace_track(t, num_layers, trace_width_nm, off);
        push_item(items, BoardItem::Track(track));
        assert(io_trace_items(result.io_traces@.take(k + 1), num_layers, w, off as int) =~= io_trace_items(
            result.io_traces@.take(k as int),
            num_layers,
            w,
            off as int,
        ).push(item_view(BoardItem::Track(track))));
        k = k + 1;
    }
    assert(result.io_traces@.take(result.io_traces@.len() as int) =~= result.io_traces@);
    let ghost mid = items_view(items@);
    let ghost pads = result.io_pads@;
    let mut i: usize = 0;
    while i < result.io_pads.len()
        invariant
            i <= result.io_pads@.len(),
            pads == result.io_pads@,
            result.in_range(),
            -4_611_686_018_427_387_904 <= off <= 4_611_686_018_427_387_904,
            items_view(items@) == mid + Seq::new(i as nat, |j: int| io_pad_item(pads[j], j, num_layers, off as int)),
        decreases result.io_pads.len() - i,
    {
        let pad = &result.io_pads[i];
        assert(point_in_range(result.io_pads@[i as int].position));
        let f = io_pad_footprint(pad, i, num_layers, off);
        push_item(items, BoardItem::Footprint(f));
        assert(Seq::new((i + 1) as nat, |j: int| io_pad_item(pads[j], j, num_layers, off as int)) =~= Seq::new(
            i as nat,
            |j: int| io_pad_item(pads[j], j, num_layers, off as int),
        ).push(io_pad_item(pads[i as int], i as int, num_layers, off as int)));
        i = i + 1;
    }
}

/// Convert the IO elements of a routing result into board items: one track
/// per fanout trace (rule-width, on its mapped layer), then one single-pad
/// footprint per IO pad, with the same centring shift as
/// [`coils_to_board_items`].
pub fn io_elements_to_board_items(
    result: &RoutingResult,
    num_layers: u32,
    rules: &DesignRules,
    active_area_length_nm: i64,
) -> (items: Vec<BoardItem>)
    requires
        result.in_range(),
    ensures
        items_view(items@) == io_items(*result, num_layers, *rules, half_away(active_area_length_nm as int)),
{
    let x_offset_nm: i64 = half_offset(active_area_length_nm);
    let mut items: Vec<BoardItem> = Vec::new();
    emit_io_elements(&mut items, result, num_layers, rules, x_offset_nm);
    assert(items_view(Seq::<BoardItem>::empty()) =~= Seq::<ItemView>::empty());
    assert(Seq::<ItemView>::empty() + io_items(*result, num_layers, *rules, x_offset_nm as int) =~= io_items(
        *result,
        num_layers,
        *rules,
        x_offset_nm as int,
    ));
    items
}


// ---------------------------------------------------------------------------
// Laws: widths and pad numbers
// ---------------------------------------------------------------------------

/// A track or arc item is `w` wide; other items carry no width.
pub open spec fn width_is(item: ItemView, w: int) -> bool {
    match item {
        ItemView::Track { width_nm, .. } => width_nm == w,
        ItemView::Arc { width_nm, .. } => width_nm == w,
        _ => true,
    }
}

/// Every track and arc among `items` is `w` wide.
pub open spec fn tracks_and_arcs_are(items: Seq<ItemView>, w: int) -> bool {
    forall|i: int| 0 <= i < items.len() ==> width_is(#[trigger] items[i], w)
}

proof fn lemma_widths_concat(x: Seq<ItemView>, y: Seq<ItemView>, w: int)
    requires
        tracks_and_arcs_are(x, w),
        tracks_and_arcs_are(y, w),
    ensures
        tracks_and_arcs_are(x + y, w),
{
    assert forall|i: int| 0 <= i < (x + y).len() implies width_is(#[trigger] (x + y)[i], w) by {
        if i < x.len() {
            assert((x + y)[i] == x[i]);
        } else {
            assert((x + y)[i] == y[i - x.len()]);
        }
    }
}

/// Every track and arc written for a coil set is exactly the minimum trace
/// width of the design rules wide.
pub proof fn lemma_coil_copper_uses_trace_width(cs: Seq<PhaseCoil>, num_layers: u32, rules: DesignRules, active: int)
    ensures
        tracks_and_arcs_are(coils_items(cs, num_layers, rules, active), rules.min_trace_nm as int),
    decreases cs.len(),
{
    let w = rules.min_trace_nm as int;
    if cs.len() > 0 {
        lemma_coil_copper_uses_trace_width(cs.drop_last(), num_layers, rules, active);
        let c = cs.last();
        let layer = board_layer_for(c.layer_idx, num_layers);
        let net = board_net(c.phase_name@);
        let off = half_away(active);
        let t = tracks_of(c.segments@, layer, net, rules.min_trace_nm as int, off);
        let a = arcs_of(c.corner_arcs@, layer, net, rules.min_trace_nm as int, off);
        let v = vias_of(
            c.center_via_positions@,
            net,
            rules.min_via_drill_nm as int,
            rules.spec_via_pad_diameter(),
            via_layers(num_layers),
            active,
        );
        assert(tracks_and_arcs_are(t, w));
        assert(tracks_and_arcs_are(a, w));
        assert(tracks_and_arcs_are(v, w));
        lemma_widths_concat(t, a, w);
        lemma_widths_concat(t + a, v, w);
        lemma_widths_concat(coils_items(cs.drop_last(), num_layers, rules, active), t + a + v, w);
    }
}

/// Every IO fanout track is exactly the minimum trace width wide.
pub proof fn lemma_io_tracks_use_trace_width(r: RoutingResult, num_layers: u32, rules: DesignRules, off: int)
    ensures
        tracks_and_arcs_are(io_items(r, num_layers, rules, off), rules.min_trace_nm as int),
{
    let w = rules.min_trace_nm as int;
    let t = io_trace_items(r.io_traces@, num_layers, w, off);
    let f = Seq::new(r.io_pads@.len(), |i: int| io_pad_item(r.io_pads@[i], i, num_layers, off));
    assert(tracks_and_arcs_are(t, w));
    assert(tracks_and_arcs_are(f, w));
    lemma_widths_concat(t, f, w);
}

/// The IO items are one track per fanout trace followed by one footprint
/// per IO pad; the footprint of pad `k` carries the number the pad declares
/// and, only for a pad that declares none, its 1-based position in the pad
/// list.
pub proof fn lemma_io_pad_numbers(r: RoutingResult, num_layers: u32, rules: DesignRules, off: int, k: int)
    requires
        0 <= k < r.io_pads@.len(),
    ensures
        io_items(r, num_layers, rules, off).len() == r.io_traces@.len() + r.io_pads@.len(),
        io_items(r, num_layers, rules, off)[r.io_traces@.len() + k] matches ItemView::Footprint { number, .. }
            && number == (match r.io_pads@[k].number {
            Some(n) => n@,
            None => nat_text((k + 1) as nat),
        }),
{
    let items = io_items(r, num_layers, rules, off);
    assert(items[r.io_traces@.len() + k] == io_pad_item(r.io_pads@[k], k, num_layers, off));
}


// ---------------------------------------------------------------------------
// Law: where a coil's copper goes
// ---------------------------------------------------------------------------

/// `off` is half of `active` to within half a nanometre, and exactly half
/// of it when `active` is even.
pub open spec fn is_half_of(off: int, active: int) -> bool {
    &&& -1 <= 2 * off - active <= 1
    &&& active % 2 == 0 ==> 2 * off == active
}

proof fn lemma_half_away_is_half(v: int)
    ensures
        is_half_of(half_away(v), v),
{
}

/// The items of one coil, for an active area `active` nm long: first one
/// track per segment, from the segment's start to its end, then one arc per
/// corner arc through its three points, every point moved left along x by
/// one common `off` that is half of `active`; tracks and arcs lie on the
/// coil's board layer and its `/`-prefixed phase net and are the minimum
/// trace width wide. Then one via per centre-via position, on the phase
/// net, its x within half a nanometre of `x - active / 2` and its y kept,
/// with a drilled (F.Cu to B.Cu, minimum drill) circular pad stack of the
/// via pad diameter spanning every copper layer of the board, bottom first.
pub proof fn lemma_coil_items_geometry(c: PhaseCoil, num_layers: u32, rules: DesignRules, active: i64)
    requires
        coil_in_range(c),
        rules.in_range(),
    ensures
        exists|off: int|
            #![trigger is_half_of(off, active as int)]
            is_half_of(off, active as int) && ({
                let items = coil_items(c, num_layers, rules, active as int);
                let segs = c.segments@;
                let arcs = c.corner_arcs@;
                let ps = c.center_via_positions@;
                let layer = board_layer_for(c.layer_idx, num_layers);
                let net = seq!['/'] + c.phase_name@;
                let ns = segs.len() as int;
                let na = arcs.len() as int;
                &&& items.len() == ns + na + ps.len()
                &&& forall|j: int| 0 <= j < ns ==> (#[trigger] items[j] matches ItemView::Track {
                    start,
                    end,
                    width_nm,
                    layer: l,
                    net: n,
                } && start.x_nm == segs[j].start.0 - off && start.y_nm == segs[j].start.1 && end.x_nm
                    == segs[j].end.0 - off && end.y_nm == segs[j].end.1 && width_nm == rules.min_trace_nm && l
                    == layer && n == net)
                &&& forall|j: int| 0 <= j < na ==> (#[trigger] items[ns + j] matches ItemView::Arc {
                    start,
                    mid,
                    end,
                    width_nm,
                    layer: l,
                    net: n,
                } && start.x_nm == arcs[j].start.0 - off && start.y_nm == arcs[j].start.1 && mid.x_nm
                    == arcs[j].mid.0 - off && mid.y_nm == arcs[j].mid.1 && end.x_nm == arcs[j].end.0 - off
                    && end.y_nm == arcs[j].end.1 && width_nm == rules.min_trace_nm && l == layer && n == net)
                &&& forall|j: int| 0 <= j < ps.len() ==> (#[trigger] items[ns + na + j] matches ItemView::Via {
                    position,
                    pad_stack,
                    net: n,
                } && -1 <= 2 * position.x_nm - (2 * ps[j].0 - active) <= 1 && position.y_nm == ps[j].1 && n
                    == net && pad_stack.shape == PadStackShape::PssCircle && pad_stack.size.x_nm
                    == rules.min_via_drill_nm + 2 * rules.min_via_annular_ring_nm && pad_stack.size.y_nm
                    == pad_stack.size.x_nm && pad_stack.drill == Some(
                    DrillProperties {
                        start_layer: BoardLayer::BlFCu,
                        end_layer: BoardLayer::BlBCu,
                        diameter_nm: rules.min_via_drill_nm,
                    },
                ) && pad_stack.layers.len() == num_layers && forall|i: int|
                    0 <= i < num_layers ==> #[trigger] pad_stack.layers[i] == board_layer_for(i as u32, num_layers))
            }),
{
    let off = half_away(active as int);
    lemma_half_away_is_half(active as int);
    let items = coil_items(c, num_layers, rules, active as int);
    let segs = c.segments@;
    let arcs = c.corner_arcs@;
    let ps = c.center_via_positions@;
    let ns = segs.len() as int;
    let na = arcs.len() as int;
    assert forall|j: int| 0 <= j < ps.len() implies -1 <= 2 * half_away(2 * (#[trigger] ps[j]).0 - active) - (2 * ps[j].0
        - active) <= 1 by {
        assert(pair_in_range(ps[j]));
        lemma_half_away_is_half(2 * ps[j].0 - active);
    }
    assert forall|j: int| 0 <= j < ns implies pair_in_range(#[trigger] segs[j].start) && pair_in_range(segs[j].end) by {}
    assert forall|j: int| 0 <= j < na implies pair_in_range(#[trigger] arcs[j].start) && pair_in_range(arcs[j].mid)
        && pair_in_range(arcs[j].end) by {}
    let layer = board_layer_for(c.layer_idx, num_layers);
    let net = seq!['/'] + c.phase_name@;
    let t = tracks_of(segs, layer, net, rules.min_trace_nm as int, off);
    let ar = arcs_of(arcs, layer, net, rules.min_trace_nm as int, off);
    let v = vias_of(ps, net, rules.min_via_drill_nm as int, rules.spec_via_pad_diameter(), via_layers(num_layers), active as int);
    assert(items == t + ar + v);
    assert(items.len() == ns + na + ps.len());
    assert forall|j: int| 0 <= j < ns implies (#[trigger] items[j] matches ItemView::Track {
        start,
        end,
        width_nm,
        layer: l,
        net: n,
    } && start.x_nm == segs[j].start.0 - off && start.y_nm == segs[j].start.1 && end.x_nm
        == segs[j].end.0 - off && end.y_nm == segs[j].end.1 && width_nm == rules.min_trace_nm && l
        == layer && n == net) by {
        assert(items[j] == t[j]);
        assert(pair_in_range(segs[j].start) && pair_in_range(segs[j].end));
    }
    assert forall|j: int| 0 <= j < na implies (#[trigger] items[ns + j] matches ItemView::Arc {
        start,
        mid,
        end,
        width_nm,
        layer: l,
        net: n,
    } && start.x_nm == arcs[j].start.0 - off && start.y_nm == arcs[j].start.1 && mid.x_nm
        == arcs[j].mid.0 - off && mid.y_nm == arcs[j].mid.1 && end.x_nm == arcs[j].end.0 - off
        && end.y_nm == arcs[j].end.1 && width_nm == rules.min_trace_nm && l == layer && n == net) by {
        assert(items[ns + j] == ar[j]);
        assert(pair_in_range(arcs[j].start) && pair_in_range(arcs[j].mid) && pair_in_range(arcs[j].end));
    }
    assert forall|j: int| 0 <= j < ps.len() implies (#[trigger] items[ns + na + j] matches ItemView::Via {
        position,
        pad_stack,
        net: n,
    } && -1 <= 2 * position.x_nm - (2 * ps[j].0 - active) <= 1 && position.y_nm == ps[j].1 && n
        == net && pad_stack.shape == PadStackShape::PssCircle && pad_stack.size.x_nm
        == rules.min_via_drill_nm + 2 * rules.min_via_annular_ring_nm && pad_stack.size.y_nm
        == pad_stack.size.x_nm && pad_stack.drill == Some(
        DrillProperties {
            start_layer: BoardLayer::BlFCu,
            end_layer: BoardLayer::BlBCu,
            diameter_nm: rules.min_via_drill_nm,
        },
    ) && pad_stack.layers.len() == num_layers && forall|i: int|
        0 <= i < num_layers ==> #[trigger] pad_stack.layers[i] == board_layer_for(i as u32, num_layers)) by {
        assert(items[ns + na + j] == v[j]);
        assert(pair_in_range(ps[j]));
        lemma_half_away_is_half(2 * ps[j].0 - active);
        let h = half_away(2 * ps[j].0 - active);
        assert(i64::MIN <= h <= i64::MAX);
        assert(via_shifted(ps[j].0 as int, ps[j].1 as int, active as int).x_nm == h);
    }
}


/// The IO items of a routing result, for an active area `active` nm long:
/// one track per fanout trace, from its start to its end, both ends moved
/// left along x by one common `off` that is half of `active`, on the board
/// layer of the trace's layer, its `/`-prefixed net and the minimum trace
/// width; then one footprint per IO pad, placed on F.Cu at the pad centre
/// moved by the same `off`, on the pad's `/`-prefixed net, whose pad type
/// follows the pad kind (SMD, plated through hole, edge connector), whose
/// pad stack is a circle exactly for a square pad, sized as the pad, drilled
/// from F.Cu to B.Cu with the pad's drill when it has one, and placed on the
/// pad's own layers mapped onto the board (every copper layer for a
/// through-hole pad, F.Cu otherwise, when it declares none).
pub proof fn lemma_io_items_geometry(r: RoutingResult, num_layers: u32, rules: DesignRules, active: i64)
    requires
        r.in_range(),
    ensures
        exists|off: int|
            #![trigger is_half_of(off, active as int)]
            is_half_of(off, active as int) && ({
                let items = io_items(r, num_layers, rules, half_away(active as int));
                let ts = r.io_traces@;
                let pads = r.io_pads@;
                let nt = ts.len() as int;
                &&& items.len() == nt + pads.len()
                &&& forall|j: int| 0 <= j < nt ==> (#[trigger] items[j] matches ItemView::Track {
                    start,
                    end,
                    width_nm,
                    layer: l,
                    net: n,
                } && start.x_nm == ts[j].start.x - off && start.y_nm == ts[j].start.y && end.x_nm
                    == ts[j].end.x - off && end.y_nm == ts[j].end.y && width_nm == rules.min_trace_nm && l
                    == board_layer_for(ts[j].layer, num_layers) && n == seq!['/'] + ts[j].net@)
                &&& forall|j: int| 0 <= j < pads.len() ==> (#[trigger] items[nt + j] matches ItemView::Footprint {
                    position,
                    layer: l,
                    net: n,
                    pad_type,
                    pad_stack,
                    ..
                } && position.x_nm == pads[j].position.x - off && position.y_nm == pads[j].position.y && l
                    == BoardLayer::BlFCu && n == seq!['/'] + pads[j].net@ && pad_type == (match pads[j].kind {
                    IoPadKind::Smd => PadType::PtSmd,
                    IoPadKind::Tht => PadType::PtPth,
                    IoPadKind::BoardEdge => PadType::PtEdgeConnector,
                }) && (pad_stack.shape == PadStackShape::PssCircle <==> pads[j].size.x == pads[j].size.y)
                    && pad_stack.size == Vector2 { x_nm: pads[j].size.x, y_nm: pads[j].size.y } && pad_stack.drill
                    == (match pads[j].drill_nm {
                    Some(d) => Some(
                        DrillProperties { start_layer: BoardLayer::BlFCu, end_layer: BoardLayer::BlBCu, diameter_nm: d },
                    ),
                    None => None,
                }) && (pads[j].layers@.len() > 0 ==> pad_stack.layers.len() == pads[j].layers@.len()
                    && forall|i: int| 0 <= i < pads[j].layers@.len() ==> #[trigger] pad_stack.layers[i]
                    == board_layer_for(pads[j].layers@[i], num_layers)) && (pads[j].layers@.len() == 0
                    && pads[j].kind == IoPadKind::Tht ==> pad_stack.layers.len() == num_layers && forall|i: int|
                    0 <= i < num_layers ==> #[trigger] pad_stack.layers[i] == board_layer_for(i as u32, num_layers))
                    && (pads[j].layers@.len() == 0 && pads[j].kind != IoPadKind::Tht ==> pad_stack.layers
                    == seq![BoardLayer::BlFCu]))
            }),
{
    let off = half_away(active as int);
    lemma_half_away_is_half(active as int);
    let items = io_items(r, num_layers, rules, off);
    let ts = r.io_traces@;
    let pads = r.io_pads@;
    let nt = ts.len() as int;
    let t = io_trace_items(ts, num_layers, rules.min_trace_nm as int, off);
    let f = Seq::new(pads.len(), |i: int| io_pad_item(pads[i], i, num_layers, off));
    assert(items == t + f);
    assert forall|j: int| 0 <= j < nt implies (#[trigger] items[j] matches ItemView::Track {
        start,
        end,
        width_nm,
        layer: l,
        net: n,
    } && start.x_nm == ts[j].start.x - off && start.y_nm == ts[j].start.y && end.x_nm
        == ts[j].end.x - off && end.y_nm == ts[j].end.y && width_nm == rules.min_trace_nm && l
        == board_layer_for(ts[j].layer, num_layers) && n == seq!['/'] + ts[j].net@) by {
        assert(items[j] == t[j]);
        assert(point_in_range(ts[j].start) && point_in_range(ts[j].end));
    }
    assert forall|j: int| 0 <= j < pads.len() implies (#[trigger] items[nt + j] matches ItemView::Footprint {
        position,
        layer: l,
        net: n,
        pad_type,
        pad_stack,
        ..
    } && position.x_nm == pads[j].position.x - off && position.y_nm == pads[j].position.y && l
        == BoardLayer::BlFCu && n == seq!['/'] + pads[j].net@ && pad_type == (match pads[j].kind {
        IoPadKind::Smd => PadType::PtSmd,
        IoPadKind::Tht => PadType::PtPth,
        IoPadKind::BoardEdge => PadType::PtEdgeConnector,
    }) && (pad_stack.shape == PadStackShape::PssCircle <==> pads[j].size.x == pads[j].size.y)
        && pad_stack.size == Vector2 { x_nm: pads[j].size.x, y_nm: pads[j].size.y } && pad_stack.drill
        == (match pads[j].drill_nm {
        Some(d) => Some(
            DrillProperties { start_layer: BoardLayer::BlFCu, end_layer: BoardLayer::BlBCu, diameter_nm: d },
        ),
        None => None,
    }) && (pads[j].layers@.len() > 0 ==> pad_stack.layers.len() == pads[j].layers@.len()
        && forall|i: int| 0 <= i < pads[j].layers@.len() ==> #[trigger] pad_stack.layers[i]
        == board_layer_for(pads[j].layers@[i], num_layers)) && (pads[j].layers@.len() == 0
        && pads[j].kind == IoPadKind::Tht ==> pad_stack.layers.len() == num_layers && forall|i: int|
        0 <= i < num_layers ==> #[trigger] pad_stack.layers[i] == board_layer_for(i as u32, num_layers))
        && (pads[j].layers@.len() == 0 && pads[j].kind != IoPadKind::Tht ==> pad_stack.layers
        == seq![BoardLayer::BlFCu])) by {
        assert(items[nt + j] == f[j]);
        assert(point_in_range(pads[j].position) && size_in_range(pads[j].size));
    }
}

} // verus!
