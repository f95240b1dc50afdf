//! DXF R12 ASCII export of routing geometry.
//!
//! Every DXF record is a group code line followed by a value line; the file
//! is the HEADER section (units: millimetres), a TABLES section with one
//! LAYER per distinct layer name (sorted), the ENTITIES section and EOF.
//! Segments and IO traces become LINEs on `L<layer>_<net>`, curves become
//! ARCs (or a LINE when their three points are collinear), vias become CIRCLEs on
//! `Via`, and IO pads become a CIRCLE (square pads) or a closed four-LINE
//! outline on `IO_Pad`. Coordinates are written in millimetres with six
//! decimals, converted exactly from the nanometre geometry; a centring shift
//! by half the active length is applied before that single rounding.
use vstd::prelude::*;
use crate::geometry::{
    curves_in_range, pads_in_range, point_in_range, segments_in_range, size_in_range, traces_in_range,
    vias_in_range, IoPad, IoTrace, PhaseCoil, Point, RouteCurve, RouteSegment, RoutingResult, Via,
    MAX_COORD_NM,
};
use crate::board_items::{coil_in_range, coils_in_range, pair_in_range};
use crate::geometry::{CoilArc, CoilSegment};
use crate::helpers::{
    circle_from_three_points, coord_ok, normalise_angle_udeg, normalised_angle, shifted_centre_x, shifted_circle_centre_x,
    spec_circle,
};
use crate::order::{insert_sorted_unique, strictly_sorted, texts};
use crate::rules::DesignRules;
use crate::text::{div_round, round_half_even_u128, fixed_text, int_text, mm6_text, nat_text, push_fixed, push_int, push_mm6, push_mm6_wide, push_nat, push_str};

verus! {

// ---------------------------------------------------------------------------
// Group codes
// ---------------------------------------------------------------------------

/// One DXF group: `code`, newline, `value`, newline.
pub open spec fn group_text(code: int, value: Seq<char>) -> Seq<char> {
    int_text(code) + "\n"@ + value + "\n"@
}

/// Append one group-code / value pair.
pub fn dxf_group(out: &mut String, code: i32, value: &str)
    ensures
        final(out)@ == old(out)@ + group_text(code as int, value@),
{
    push_int(out, code as i64);
    push_str(out, "\n");
    push_str(out, value);
    push_str(out, "\n");
    assert(final(out)@ =~= old(out)@ + group_text(code as int, value@));
}

/// Append a group whose value is a length in millimetres (six decimals),
/// given in nanometres.
pub fn dxf_group_mm(out: &mut String, code: i32, nm: i64)
    ensures
        final(out)@ == old(out)@ + group_text(code as int, mm6_text(nm as int)),
{
    push_int(out, code as i64);
    push_str(out, "\n");
    push_mm6(out, nm);
    push_str(out, "\n");
    assert(final(out)@ =~= old(out)@ + group_text(code as int, mm6_text(nm as int)));
}

/// Append a group whose value is a 128-bit length in nanometres, written in
/// millimetres with six decimals.
fn dxf_group_mm_wide(out: &mut String, code: i32, nm: i128)
    requires
        nm > i128::MIN,
    ensures
        final(out)@ == old(out)@ + group_text(code as int, mm6_text(nm as int)),
{
    push_int(out, code as i64);
    push_str(out, "\n");
    push_mm6_wide(out, nm);
    push_str(out, "\n");
    assert(final(out)@ =~= old(out)@ + group_text(code as int, mm6_text(nm as int)));
}

fn dxf_group_nat(out: &mut String, code: i32, n: u64)
    ensures
        final(out)@ == old(out)@ + group_text(code as int, nat_text(n as nat)),
{
    push_int(out, code as i64);
    push_str(out, "\n");
    push_nat(out, n);
    push_str(out, "\n");
    assert(final(out)@ =~= old(out)@ + group_text(code as int, nat_text(n as nat)));
}

fn dxf_group_udeg(out: &mut String, code: i32, udeg: i64)
    ensures
        final(out)@ == old(out)@ + group_text(code as int, fixed_text(udeg as int, 6)),
{
    push_int(out, code as i64);
    push_str(out, "\n");
    push_fixed(out, udeg, 6);
    push_str(out, "\n");
    assert(final(out)@ =~= old(out)@ + group_text(code as int, fixed_text(udeg as int, 6)));
}

// ---------------------------------------------------------------------------
// HEADER and TABLES
// ---------------------------------------------------------------------------

/// The HEADER section: drawing units are millimetres (`$INSUNITS` = 4).
pub open spec fn header_text() -> Seq<char> {
    group_text(0, "SECTION"@) + group_text(2, "HEADER"@) + group_text(9, "$INSUNITS"@)
        + group_text(70, "4"@) + group_text(0, "ENDSEC"@)
}

/// Emit the HEADER section.
pub fn write_header(out: &mut String)
    ensures
        final(out)@ == old(out)@ + header_text(),
{
    dxf_group(out, 0, "SECTION");
    dxf_group(out, 2, "HEADER");
    dxf_group(out, 9, "$INSUNITS");
    dxf_group(out, 70, "4");
    dxf_group(out, 0, "ENDSEC");
    assert(final(out)@ =~= old(out)@ + header_text());
}

/// Colour of the `i`-th layer: 3 for `Via`, otherwise cycling through 1–7.
pub open spec fn colour_text(i: nat, name: Seq<char>) -> Seq<char> {
    if name == "Via"@ {
        "3"@
    } else {
        nat_text(i % 7 + 1)
    }
}

/// The LAYER table entry of the `i`-th layer.
pub open spec fn layer_entry_text(i: nat, name: Seq<char>) -> Seq<char> {
    group_text(0, "LAYER"@) + group_text(2, name) + group_text(70, "0"@) + group_text(
        62,
        colour_text(i, name),
    ) + group_text(6, "CONTINUOUS"@)
}

/// The LAYER table entries of `names`, in order.
pub open spec fn layer_entries_text(names: Seq<Seq<char>>) -> Seq<char>
    decreases names.len(),
{
    if names.len() == 0 {
        seq![]
    } else {
        layer_entries_text(names.drop_last()) + layer_entry_text(
            (names.len() - 1) as nat,
            names.last(),
        )
    }
}

/// The TABLES section declaring `names`.
pub open spec fn tables_text(names: Seq<Seq<char>>) -> Seq<char> {
    group_text(0, "SECTION"@) + group_text(2, "TABLES"@) + group_text(0, "TABLE"@) + group_text(
        2,
        "LAYER"@,
    ) + group_text(70, nat_text(names.len())) + layer_entries_text(names) + group_text(
        0,
        "ENDTAB"@,
    ) + group_text(0, "ENDSEC"@)
}

fn write_layer_entry(out: &mut String, i: usize, name: &str, is_via: bool)
    requires
        is_via == (name@ == "Via"@),
    ensures
        final(out)@ == old(out)@ + layer_entry_text(i as nat, name@),
{
    dxf_group(out, 0, "LAYER");
    dxf_group(out, 2, name);
    dxf_group(out, 70, "0");
    if is_via {
        dxf_group(out, 62, "3");
    } else {
        dxf_group_nat(out, 62, (i % 7 + 1) as u64);
    }
    dxf_group(out, 6, "CONTINUOUS");
    assert(final(out)@ =~= old(out)@ + layer_entry_text(i as nat, name@));
}

/// Emit the TABLES section: one LAYER entry per name, in the given order.
pub fn write_tables(out: &mut String, layer_names: &Vec<String>)
    ensures
        final(out)@ == old(out)@ + tables_text(texts(layer_names@)),
{
    let ghost names = texts(layer_names@);
    let ghost start = out@;
    dxf_group(out, 0, "SECTION");
    dxf_group(out, 2, "TABLES");
    dxf_group(out, 0, "TABLE");
    dxf_group(out, 2, "LAYER");
    dxf_group_nat(out, 70, layer_names.len() as u64);
    let ghost prefix = out@;
    let mut via_name = String::new();
    push_str(&mut via_name, "Via");
    let mut i: usize = 0;
    while i < layer_names.len()
        invariant
            i <= layer_names@.len(),
            names == texts(layer_names@),
            via_name@ == "Via"@,
            out@ == prefix + layer_entries_text(names.take(i as int)),
        decreases layer_names@.len() - i,
    {
        let name = &layer_names[i];
        let is_via = *name == via_name;
        write_layer_entry(out, i, name.as_str(), is_via);
        proof {
            assert(names.take(i + 1).drop_last() =~= names.take(i as int));
            assert(names.take(i + 1).last() == name@);
        }
        i = i + 1;
    }
    assert(names.take(layer_names@.len() as int) =~= names);
    dxf_group(out, 0, "ENDTAB");
    dxf_group(out, 0, "ENDSEC");
    assert(final(out)@ =~= start + tables_text(names));
}

// ---------------------------------------------------------------------------
// Entities
// ---------------------------------------------------------------------------

/// A LINE entity between two points [nm].
#[verifier::opaque]
pub open spec fn line_text(layer: Seq<char>, x1: int, y1: int, x2: int, y2: int) -> Seq<char> {
    group_text(0, "LINE"@) + group_text(8, layer) + group_text(10, mm6_text(x1)) + group_text(
        20,
        mm6_text(y1),
    ) + group_text(11, mm6_text(x2)) + group_text(21, mm6_text(y2))
}

/// Emit a LINE entity from two endpoints [nm].
pub fn write_line(out: &mut String, layer: &str, x1: i64, y1: i64, x2: i64, y2: i64)
    ensures
        final(out)@ == old(out)@ + line_text(layer@, x1 as int, y1 as int, x2 as int, y2 as int),
{
    dxf_group(out, 0, "LINE");
    dxf_group(out, 8, layer);
    dxf_group_mm(out, 10, x1);
    dxf_group_mm(out, 20, y1);
    dxf_group_mm(out, 11, x2);
    dxf_group_mm(out, 21, y2);
    reveal(line_text);
    assert(final(out)@ =~= old(out)@ + line_text(layer@, x1 as int, y1 as int, x2 as int, y2 as int));
}

/// A CIRCLE entity [nm].
#[verifier::opaque]
pub open spec fn circle_text(layer: Seq<char>, cx: int, cy: int, r: int) -> Seq<char> {
    group_text(0, "CIRCLE"@) + group_text(8, layer) + group_text(10, mm6_text(cx)) + group_text(
        20,
        mm6_text(cy),
    ) + group_text(40, mm6_text(r))
}

/// Emit a CIRCLE entity [nm].
pub fn write_circle(out: &mut String, layer: &str, cx: i64, cy: i64, radius: i64)
    ensures
        final(out)@ == old(out)@ + circle_text(layer@, cx as int, cy as int, radius as int),
{
    dxf_group(out, 0, "CIRCLE");
    dxf_group(out, 8, layer);
    dxf_group_mm(out, 10, cx);
    dxf_group_mm(out, 20, cy);
    dxf_group_mm(out, 40, radius);
    reveal(circle_text);
    assert(final(out)@ =~= old(out)@ + circle_text(layer@, cx as int, cy as int, radius as int));
}

/// Half of `v` nanometres, to the nearest nanometre (exact halves to the
/// even one), as the six-decimal millimetre text of `v / 2` reads.
pub open spec fn half_nm(v: int) -> int {
    div_round(v, 2)
}

/// `x` moved left by half of `off2`, to the nearest nanometre.
pub open spec fn shifted_x(x: int, off2: int) -> int {
    half_nm(2 * x - off2)
}

/// A pad outline for a pad whose centre lies at `(cx2 / 2, cy)`: a CIRCLE
/// of half the size for square pads, otherwise the closed rectangle as four
/// LINEs (bottom, right, top, left), each corner `centre ± size / 2` to the
/// nearest nanometre.
pub open spec fn pad_text(layer: Seq<char>, cx2: int, cy: int, sx: int, sy: int) -> Seq<char> {
    if sx == sy {
        circle_text(layer, half_nm(cx2), cy, half_nm(sx))
    } else {
        let (x0, x1) = (half_nm(cx2 - sx), half_nm(cx2 + sx));
        let (y0, y1) = (half_nm(2 * cy - sy), half_nm(2 * cy + sy));
        line_text(layer, x0, y0, x1, y0) + line_text(layer, x1, y0, x1, y1) + line_text(
            layer,
            x1,
            y1,
            x0,
            y1,
        ) + line_text(layer, x0, y1, x0, y0)
    }
}

/// `v / 2` to the nearest integer, exact halves to the even one.
fn half_round(v: i128) -> (r: i64)
    requires
        -17_000_000_000_000_000_000 <= v <= 17_000_000_000_000_000_000,
    ensures
        r == half_nm(v as int),
{
    let a: u128 = if v < 0 { (-v) as u128 } else { v as u128 };
    let q = round_half_even_u128(a, 2);
    if v < 0 {
        -(q as i128) as i64
    } else {
        q as i64
    }
}

/// `x` moved left by half of `off2`, to the nearest nanometre.
fn shift_x(x: i64, off2: i64) -> (r: i64)
    requires
        -MAX_COORD_NM <= x <= MAX_COORD_NM,
        -2 * MAX_COORD_NM <= off2 <= 2 * MAX_COORD_NM,
    ensures
        r == shifted_x(x as int, off2 as int),
{
    half_round(2 * (x as i128) - off2 as i128)
}

/// Emit one pad whose centre lies at `(cx2 / 2, cy)` [nm].
fn write_pad(out: &mut String, layer: &str, cx2: i128, cy: i64, size_x: i64, size_y: i64)
    requires
        -4 * MAX_COORD_NM <= cx2 <= 4 * MAX_COORD_NM,
        -MAX_COORD_NM <= cy <= MAX_COORD_NM,
        -MAX_COORD_NM <= size_x <= MAX_COORD_NM,
        -MAX_COORD_NM <= size_y <= MAX_COORD_NM,
    ensures
        final(out)@ == old(out)@ + pad_text(layer@, cx2 as int, cy as int, size_x as int, size_y as int),
{
    if size_x == size_y {
        let c = half_round(cx2);
        let r = half_round(size_x as i128);
        write_circle(out, layer, c, cy, r);
        return;
    }
    let ghost start = out@;
    let cy2 = 2 * (cy as i128);
    let x0 = half_round(cx2 - size_x as i128);
    let x1 = half_round(cx2 + size_x as i128);
    let y0 = half_round(cy2 - size_y as i128);
    let y1 = half_round(cy2 + size_y as i128);
    let ghost l1 = line_text(layer@, x0 as int, y0 as int, x1 as int, y0 as int);
    let ghost l2 = line_text(layer@, x1 as int, y0 as int, x1 as int, y1 as int);
    let ghost l3 = line_text(layer@, x1 as int, y1 as int, x0 as int, y1 as int);
    let ghost l4 = line_text(layer@, x0 as int, y1 as int, x0 as int, y0 as int);
    write_line(out, layer, x0, y0, x1, y0);
    write_line(out, layer, x1, y0, x1, y1);
    write_line(out, layer, x1, y1, x0, y1);
    write_line(out, layer, x0, y1, x0, y0);
    assert(out@ =~= start + (l1 + l2 + l3 + l4));
}

/// An ARC entity through three points, moved left by half of `off` along x
/// (its centre rounded once, after the move), or a LINE from start to end
/// when the points are collinear. `angles` are the
/// start and end angles of the arc in micro-degrees (normalised to
/// `[0, 360°)` on output).
pub open spec fn arc_text(
    layer: Seq<char>,
    p1: (i64, i64),
    p2: (i64, i64),
    p3: (i64, i64),
    angles: (i64, i64),
    off: int,
) -> Seq<char> {
    match spec_circle(p1, p2, p3) {
        None => line_text(layer, shifted_x(p1.0 as int, off), p1.1 as int, shifted_x(p3.0 as int, off), p3.1 as int),
        Some(((cx, cy), r)) => group_text(0, "ARC"@) + group_text(8, layer) + group_text(
            10,
            mm6_text(shifted_centre_x(p1, p2, p3, off)),
        ) + group_text(20, mm6_text(cy)) + group_text(40, mm6_text(r)) + group_text(
            50,
            fixed_text(normalised_angle(angles.0 as int), 6),
        ) + group_text(51, fixed_text(normalised_angle(angles.1 as int), 6)),
    }
}

/// Emit an ARC through three points [nm], moved left by half of `x_offset`
/// (a LINE when the points are collinear).
pub fn write_arc(
    out: &mut String,
    layer: &str,
    p_start: (i64, i64),
    p_mid: (i64, i64),
    p_end: (i64, i64),
    angles: (i64, i64),
    x_offset: i64,
)
    requires
        coord_ok(p_start),
        coord_ok(p_mid),
        coord_ok(p_end),
        -2 * MAX_COORD_NM <= x_offset <= 2 * MAX_COORD_NM,
    ensures
        final(out)@ == old(out)@ + arc_text(layer@, p_start, p_mid, p_end, angles, x_offset as int),
{
    let ghost start = out@;
    match circle_from_three_points(p_start, p_mid, p_end) {
        Some(((cx, cy), r)) => {
            dxf_group(out, 0, "ARC");
            dxf_group(out, 8, layer);
            dxf_group_mm_wide(out, 10, shifted_circle_centre_x(p_start, p_mid, p_end, x_offset));
            dxf_group_mm_wide(out, 20, cy);
            dxf_group_mm_wide(out, 40, r as i128);
            let a0 = normalise_angle_udeg(angles.0);
            let a1 = normalise_angle_udeg(angles.1);
            dxf_group_udeg(out, 50, a0);
            dxf_group_udeg(out, 51, a1);
            assert(final(out)@ =~= start + arc_text(layer@, p_start, p_mid, p_end, angles, x_offset as int));
        },
        None => {
            write_line(out, layer, shift_x(p_start.0, x_offset), p_start.1, shift_x(p_end.0, x_offset), p_end.1);
        },
    }
}

// ---------------------------------------------------------------------------
// Layer names
// ---------------------------------------------------------------------------

/// Name of the DXF layer carrying tracks of `net` on routing layer `layer`.
pub open spec fn track_layer_name(layer: u32, net: Seq<char>) -> Seq<char> {
    "L"@ + nat_text(layer as nat) + "_"@ + net
}

/// Build `L<layer>_<net>`.
pub fn track_layer_name_string(layer: u32, net: &String) -> (s: String)
    ensures
        s@ == track_layer_name(layer, net@),
{
    let mut s = String::new();
    push_str(&mut s, "L");
    push_nat(&mut s, layer as u64);
    push_str(&mut s, "_");
    push_str(&mut s, net.as_str());
    assert(s@ =~= track_layer_name(layer, net@));
    s
}

/// `t` is one of the layer names the export of `r` declares: a track layer
/// of a segment, curve or IO trace, `Via` when there are vias, `IO_Pad` when
/// there are IO pads.
pub open spec fn required_layer_name(r: RoutingResult, t: Seq<char>) -> bool {
    ||| exists|i: int| 0 <= i < r.segments@.len() && t == track_layer_name(
        #[trigger] r.segments@[i].layer,
        r.segments@[i].net@,
    )
    ||| exists|i: int| 0 <= i < r.curves@.len() && t == track_layer_name(
        #[trigger] r.curves@[i].layer,
        r.curves@[i].net@,
    )
    ||| r.vias@.len() > 0 && t == "Via"@
    ||| exists|i: int| 0 <= i < r.io_traces@.len() && t == track_layer_name(
        #[trigger] r.io_traces@[i].layer,
        r.io_traces@[i].net@,
    )
    ||| r.io_pads@.len() > 0 && t == "IO_Pad"@
}

/// The distinct layer names of the export of `result`, sorted.
pub fn dxf_layer_names(result: &RoutingResult) -> (names: Vec<String>)
    ensures
        strictly_sorted(texts(names@)),
        forall|t: Seq<char>| texts(names@).contains(t) <==> required_layer_name(*result, t),
{
    let mut names: Vec<String> = Vec::new();
    let mut i: usize = 0;
    while i < result.segments.len()
        invariant
            i <= result.segments@.len(),
            strictly_sorted(texts(names@)),
            forall|t: Seq<char>| texts(names@).contains(t) <==> exists|k: int| 0 <= k < i
                && t == track_layer_name(#[trigger] result.segments@[k].layer, result.segments@[k].net@),
        decreases result.segments@.len() - i,
    {
        let seg = &result.segments[i];
        let name = track_layer_name_string(seg.layer, &seg.net);
        insert_sorted_unique(&mut names, name);
        proof {
            assert forall|t: Seq<char>| texts(names@).contains(t) <==> exists|k: int| 0 <= k < i + 1
                && t == track_layer_name(#[trigger] result.segments@[k].layer, result.segments@[k].net@) by {
                if exists|k: int| 0 <= k < i + 1
                    && t == track_layer_name(#[trigger] result.segments@[k].layer, result.segments@[k].net@) {
                    let k = choose|k: int| 0 <= k < i + 1
                        && t == track_layer_name(#[trigger] result.segments@[k].layer, result.segments@[k].net@);
                    if k < i {
                    }
                }
            }
        }
        i = i + 1;
    }
    let ghost seg_names = texts(names@);
    let mut i: usize = 0;
    while i < result.curves.len()
        invariant
            i <= result.curves@.len(),
            strictly_sorted(texts(names@)),
            forall|t: Seq<char>| #![trigger texts(names@).contains(t)] texts(names@).contains(t) <==> (seg_names.contains(t) || exists|k: int| 0 <= k < i
                && t == track_layer_name(#[trigger] result.curves@[k].layer, result.curves@[k].net@)),
        decreases result.curves@.len() - i,
    {
        let c = &result.curves[i];
        let name = track_layer_name_string(c.layer, &c.net);
        let ghost before = texts(names@);
        let ghost nm = name@;
        insert_sorted_unique(&mut names, name);
        proof {
            assert forall|t: Seq<char>| #![trigger texts(names@).contains(t)] texts(names@).contains(t) <==> (seg_names.contains(t) || exists|k: int| 0 <= k < i + 1
                && t == track_layer_name(#[trigger] result.curves@[k].layer, result.curves@[k].net@)) by {
                if t == nm {
                    assert(t == track_layer_name(result.curves@[i as int].layer, result.curves@[i as int].net@));
                }
                if exists|k: int| 0 <= k < i + 1
                    && t == track_layer_name(#[trigger] result.curves@[k].layer, result.curves@[k].net@) {
                    let k = choose|k: int| 0 <= k < i + 1
                        && t == track_layer_name(#[trigger] result.curves@[k].layer, result.curves@[k].net@);
                    if k < i {
                        assert(before.contains(t));
                    }
                }
                if before.contains(t) {
                }
            }
        }
        i = i + 1;
    }
    let ghost curve_names = texts(names@);
    if result.vias.len() > 0 {
        let mut v = String::new();
        push_str(&mut v, "Via");
        insert_sorted_unique(&mut names, v);
    }
    let ghost via_names = texts(names@);
    let mut i: usize = 0;
    while i < result.io_traces.len()
        invariant
            i <= result.io_traces@.len(),
            strictly_sorted(texts(names@)),
            forall|t: Seq<char>| #![trigger texts(names@).contains(t)] texts(names@).contains(t) <==> (via_names.contains(t) || exists|k: int| 0 <= k < i
                && t == track_layer_name(#[trigger] result.io_traces@[k].layer, result.io_traces@[k].net@)),
        decreases result.io_traces@.len() - i,
    {
        let tr = &result.io_traces[i];
        let name = track_layer_name_string(tr.layer, &tr.net);
        let ghost before = texts(names@);
        let ghost nm = name@;
        insert_sorted_unique(&mut names, name);
        proof {
            assert forall|t: Seq<char>| #![trigger texts(names@).contains(t)] texts(names@).contains(t) <==> (via_names.contains(t) || exists|k: int| 0 <= k < i + 1
                && t == track_layer_name(#[trigger] result.io_traces@[k].layer, result.io_traces@[k].net@)) by {
                if t == nm {
                    assert(t == track_layer_name(result.io_traces@[i as int].layer, result.io_traces@[i as int].net@));
                }
                if exists|k: int| 0 <= k < i + 1
                    && t == track_layer_name(#[trigger] result.io_traces@[k].layer, result.io_traces@[k].net@) {
                    let k = choose|k: int| 0 <= k < i + 1
                        && t == track_layer_name(#[trigger] result.io_traces@[k].layer, result.io_traces@[k].net@);
                    if k < i {
                        assert(before.contains(t));
                    }
                }
                if before.contains(t) {
                }
            }
        }
        i = i + 1;
    }
    if result.io_pads.len() > 0 {
        let mut v = String::new();
        push_str(&mut v, "IO_Pad");
        insert_sorted_unique(&mut names, v);
    }
    names
}

// ---------------------------------------------------------------------------
// Entity sections
// ---------------------------------------------------------------------------

/// LINE entities of the segments, moved left by half of `off`.
pub open spec fn segments_text(segs: Seq<RouteSegment>, off: int) -> Seq<char>
    decreases segs.len(),
{
    if segs.len() == 0 {
        seq![]
    } else {
        let g = segs.last();
        segments_text(segs.drop_last(), off) + line_text(
            track_layer_name(g.layer, g.net@),
            shifted_x(g.start.x as int, off),
            g.start.y as int,
            shifted_x(g.end.x as int, off),
            g.end.y as int,
        )
    }
}

/// ARC (or fallback LINE) entities of the curves, moved left by half of `off`;
/// curve `k` uses `angles[k]`.
pub open spec fn curves_text(curves: Seq<RouteCurve>, angles: Seq<(i64, i64)>, off: int) -> Seq<char>
    decreases curves.len(),
{
    if curves.len() == 0 {
        seq![]
    } else {
        let c = curves.last();
        curves_text(curves.drop_last(), angles, off) + arc_text(
            track_layer_name(c.layer, c.net@),
            (c.start.x, c.start.y),
            (c.mid.x, c.mid.y),
            (c.end.x, c.end.y),
            angles[curves.len() - 1],
            off,
        )
    }
}

/// CIRCLE entities of radius `r` on `Via`, moved left by half of `off`.
pub open spec fn vias_text(vias: Seq<Via>, r: int, off: int) -> Seq<char>
    decreases vias.len(),
{
    if vias.len() == 0 {
        seq![]
    } else {
        let v = vias.last();
        vias_text(vias.drop_last(), r, off) + circle_text("Via"@, shifted_x(v.position.x as int, off), v.position.y as int, r)
    }
}

/// LINE entities of the IO traces, moved left by half of `off`.
pub open spec fn traces_text(traces: Seq<IoTrace>, off: int) -> Seq<char>
    decreases traces.len(),
{
    if traces.len() == 0 {
        seq![]
    } else {
        let g = traces.last();
        traces_text(traces.drop_last(), off) + line_text(
            track_layer_name(g.layer, g.net@),
            shifted_x(g.start.x as int, off),
            g.start.y as int,
            shifted_x(g.end.x as int, off),
            g.end.y as int,
        )
    }
}

/// Pad outlines of the IO pads on `IO_Pad`, moved left by half of `off`.
pub open spec fn pads_text(pads: Seq<IoPad>, off: int) -> Seq<char>
    decreases pads.len(),
{
    if pads.len() == 0 {
        seq![]
    } else {
        let p = pads.last();
        pads_text(pads.drop_last(), off) + pad_text(
            "IO_Pad"@,
            2 * p.position.x - off,
            p.position.y as int,
            p.size.x as int,
            p.size.y as int,
        )
    }
}

/// The complete DXF file for `r` with TABLES declaring `names`, x shifted
/// left by `off`, via circles of radius `via_r`.
pub open spec fn dxf_text(
    r: RoutingResult,
    via_r: int,
    off: int,
    angles: Seq<(i64, i64)>,
    names: Seq<Seq<char>>,
) -> Seq<char> {
    header_text() + tables_text(names) + group_text(0, "SECTION"@) + group_text(2, "ENTITIES"@)
        + segments_text(r.segments@, off) + curves_text(r.curves@, angles, off) + vias_text(
        r.vias@,
        via_r,
        off,
    ) + traces_text(r.io_traces@, off) + pads_text(r.io_pads@, off) + group_text(0, "ENDSEC"@)
        + group_text(0, "EOF"@)
}

/// Twice the x shift applied by the export: the active area length when
/// centring (every x moves left by half of it), otherwise none.
pub open spec fn x_offset(active_area_length_nm: i64, centre_x: bool) -> int {
    if centre_x {
        active_area_length_nm as int
    } else {
        0
    }
}

fn write_segments(out: &mut String, segs: &Vec<RouteSegment>, off: i64)
    requires
        segments_in_range(segs@),
        -2 * MAX_COORD_NM <= off <= 2 * MAX_COORD_NM,
    ensures
        final(out)@ == old(out)@ + segments_text(segs@, off as int),
{
    let ghost start = out@;
    let mut i: usize = 0;
    while i < segs.len()
        invariant
            -2 * MAX_COORD_NM <= off <= 2 * MAX_COORD_NM,
            i <= segs@.len(),
            segments_in_range(segs@),
                out@ == start + segments_text(segs@.take(i as int), off as int),
        decreases segs@.len() - i,
    {
        let g = &segs[i];
        let name = track_layer_name_string(g.layer, &g.net);
        assert(point_in_range(segs@[i as int].start) && point_in_range(segs@[i as int].end));
        write_line(out, name.as_str(), shift_x(g.start.x, off), g.start.y, shift_x(g.end.x, off), g.end.y);
        proof {
            assert(segs@.take(i + 1).drop_last() =~= segs@.take(i as int));
        }
        i = i + 1;
    }
    assert(segs@.take(segs@.len() as int) =~= segs@);
}

fn write_curves(out: &mut String, curves: &Vec<RouteCurve>, angles: &Vec<(i64, i64)>, off: i64)
    requires
        angles@.len() == curves@.len(),
        curves_in_range(curves@),
        -2 * MAX_COORD_NM <= off <= 2 * MAX_COORD_NM,
    ensures
        final(out)@ == old(out)@ + curves_text(curves@, angles@, off as int),
{
    let ghost start = out@;
    let mut i: usize = 0;
    while i < curves.len()
        invariant
            -2 * MAX_COORD_NM <= off <= 2 * MAX_COORD_NM,
            i <= curves@.len(),
            angles@.len() == curves@.len(),
            curves_in_range(curves@),
                out@ == start + curves_text(curves@.take(i as int), angles@, off as int),
        decreases curves@.len() - i,
    {
        let c = &curves[i];
        let name = track_layer_name_string(c.layer, &c.net);
        assert(point_in_range(curves@[i as int].start) && point_in_range(curves@[i as int].mid)
            && point_in_range(curves@[i as int].end));
        write_arc(
            out,
            name.as_str(),
            (c.start.x, c.start.y),
            (c.mid.x, c.mid.y),
            (c.end.x, c.end.y),
            angles[i],
            off,
        );
        proof {
            assert(curves@.take(i + 1).drop_last() =~= curves@.take(i as int));
        }
        i = i + 1;
    }
    assert(curves@.take(curves@.len() as int) =~= curves@);
}

fn write_vias(out: &mut String, vias: &Vec<Via>, r: i64, off: i64)
    requires
        vias_in_range(vias@),
        -2 * MAX_COORD_NM <= off <= 2 * MAX_COORD_NM,
    ensures
        final(out)@ == old(out)@ + vias_text(vias@, r as int, off as int),
{
    let ghost start = out@;
    let mut i: usize = 0;
    while i < vias.len()
        invariant
            -2 * MAX_COORD_NM <= off <= 2 * MAX_COORD_NM,
            i <= vias@.len(),
            vias_in_range(vias@),
                out@ == start + vias_text(vias@.take(i as int), r as int, off as int),
        decreases vias@.len() - i,
    {
        let v = &vias[i];
        assert(point_in_range(vias@[i as int].position));
        write_circle(out, "Via", shift_x(v.position.x, off), v.position.y, r);
        proof {
            assert(vias@.take(i + 1).drop_last() =~= vias@.take(i as int));
        }
        i = i + 1;
    }
    assert(vias@.take(vias@.len() as int) =~= vias@);
}

fn write_traces(out: &mut String, traces: &Vec<IoTrace>, off: i64)
    requires
        traces_in_range(traces@),
        -2 * MAX_COORD_NM <= off <= 2 * MAX_COORD_NM,
    ensures
        final(out)@ == old(out)@ + traces_text(traces@, off as int),
{
    let ghost start = out@;
    let mut i: usize = 0;
    while i < traces.len()
        invariant
            -2 * MAX_COORD_NM <= off <= 2 * MAX_COORD_NM,
            i <= traces@.len(),
            traces_in_range(traces@),
                out@ == start + traces_text(traces@.take(i as int), off as int),
        decreases traces@.len() - i,
    {
        let g = &traces[i];
        let name = track_layer_name_string(g.layer, &g.net);
        assert(point_in_range(traces@[i as int].start) && point_in_range(traces@[i as int].end));
        write_line(out, name.as_str(), shift_x(g.start.x, off), g.start.y, shift_x(g.end.x, off), g.end.y);
        proof {
            assert(traces@.take(i + 1).drop_last() =~= traces@.take(i as int));
        }
        i = i + 1;
    }
    assert(traces@.take(traces@.len() as int) =~= traces@);
}

fn write_pads(out: &mut String, pads: &Vec<IoPad>, off: i64)
    requires
        pads_in_range(pads@),
        -2 * MAX_COORD_NM <= off <= 2 * MAX_COORD_NM,
    ensures
        final(out)@ == old(out)@ + pads_text(pads@, off as int),
{
    let ghost start = out@;
    let mut i: usize = 0;
    while i < pads.len()
        invariant
            -2 * MAX_COORD_NM <= off <= 2 * MAX_COORD_NM,
            i <= pads@.len(),
            pads_in_range(pads@),
                out@ == start + pads_text(pads@.take(i as int), off as int),
        decreases pads@.len() - i,
    {
        let p = &pads[i];
        assert(point_in_range(pads@[i as int].position) && size_in_range(pads@[i as int].size));
        write_pad(out, "IO_Pad", 2 * (p.position.x as i128) - off as i128, p.position.y, p.size.x, p.size.y);
        proof {
            assert(pads@.take(i + 1).drop_last() =~= pads@.take(i as int));
        }
        i = i + 1;
    }
    assert(pads@.take(pads@.len() as int) =~= pads@);
}

/// `text` is the DXF file of `r`: the layer table lists exactly the layer
/// names the geometry needs, sorted, and the entities follow.
pub open spec fn is_dxf_of(
    text: Seq<char>,
    r: RoutingResult,
    rules: DesignRules,
    active_area_length_nm: i64,
    centre_x: bool,
    angles: Seq<(i64, i64)>,
) -> bool {
    exists|names: Seq<Seq<char>>|
        {
            &&& strictly_sorted(names)
            &&& forall|t: Seq<char>| names.contains(t) <==> required_layer_name(r, t)
            &&& text == dxf_text(
                r,
                half_nm(rules.spec_via_pad_diameter()),
                x_offset(active_area_length_nm, centre_x),
                angles,
                names,
            )
        }
}

/// Every export is framed the same way, whatever the geometry (an empty
/// routing result included): it opens with the HEADER section declaring
/// millimetres and the start of the TABLES section, the ENTITIES section
/// follows the end of the TABLES section, and the file ends by closing the
/// ENTITIES section and with EOF.
pub proof fn lemma_dxf_framing(
    text: Seq<char>,
    r: RoutingResult,
    rules: DesignRules,
    active_area_length_nm: i64,
    centre_x: bool,
    angles: Seq<(i64, i64)>,
)
    requires
        is_dxf_of(text, r, rules, active_area_length_nm, centre_x, angles),
    ensures
        exists|table: Seq<char>, entities: Seq<char>|
            text == "0\nSECTION\n2\nHEADER\n9\n$INSUNITS\n70\n4\n0\nENDSEC\n0\nSECTION\n2\nTABLES\n"@ + table
                + "0\nENDTAB\n0\nENDSEC\n0\nSECTION\n2\nENTITIES\n"@ + entities + "0\nENDSEC\n0\nEOF\n"@,
{
    let names = choose|names: Seq<Seq<char>>|
        {
            &&& strictly_sorted(names)
            &&& forall|t: Seq<char>| names.contains(t) <==> required_layer_name(r, t)
            &&& text == dxf_text(
                r,
                half_nm(rules.spec_via_pad_diameter()),
                x_offset(active_area_length_nm, centre_x),
                angles,
                names,
            )
        };
    lemma_dxf_text_framing(
        r,
        half_nm(rules.spec_via_pad_diameter()),
        x_offset(active_area_length_nm, centre_x),
        angles,
        names,
    );
}

proof fn lemma_dxf_text_framing(
    r: RoutingResult,
    via_r: int,
    off: int,
    angles: Seq<(i64, i64)>,
    names: Seq<Seq<char>>,
)
    ensures
        exists|table: Seq<char>, entities: Seq<char>|
            dxf_text(r, via_r, off, angles, names)
                == "0\nSECTION\n2\nHEADER\n9\n$INSUNITS\n70\n4\n0\nENDSEC\n0\nSECTION\n2\nTABLES\n"@ + table
                + "0\nENDTAB\n0\nENDSEC\n0\nSECTION\n2\nENTITIES\n"@ + entities + "0\nENDSEC\n0\nEOF\n"@,
{
    let s = group_text(0, "SECTION"@);
    let e = group_text(0, "ENDSEC"@);
    let tb = group_text(2, "TABLES"@);
    let et = group_text(0, "ENDTAB"@);
    let en = group_text(2, "ENTITIES"@);
    let eof = group_text(0, "EOF"@);
    let table = group_text(0, "TABLE"@) + group_text(2, "LAYER"@) + group_text(70, nat_text(names.len()))
        + layer_entries_text(names);
    let entities = segments_text(r.segments@, off) + curves_text(r.curves@, angles, off) + vias_text(
        r.vias@,
        via_r,
        off,
    ) + traces_text(r.io_traces@, off) + pads_text(r.io_pads@, off);
    assert(tables_text(names) =~= s + tb + table + et + e);
    assert(dxf_text(r, via_r, off, angles, names) == header_text() + (s + tb + table + et + e) + s + en + entities + e + eof);
    lemma_concat_shape(header_text(), s, tb, table, et, e, en, entities, eof);
    lemma_framing_texts();
}

proof fn lemma_concat_shape(
    h: Seq<char>,
    s: Seq<char>,
    tb: Seq<char>,
    table: Seq<char>,
    et: Seq<char>,
    e: Seq<char>,
    en: Seq<char>,
    entities: Seq<char>,
    eof: Seq<char>,
)
    ensures
        h + (s + tb + table + et + e) + s + en + entities + e + eof == (h + s + tb) + table + (et + e + s + en)
            + entities + (e + eof),
{
    assert(h + (s + tb + table + et + e) + s + en + entities + e + eof =~= (h + s + tb) + table + (et + e + s + en)
        + entities + (e + eof));
}

/// The fixed pieces of the framing, as text.
proof fn lemma_framing_texts()
    ensures
        header_text() + group_text(0, "SECTION"@) + group_text(2, "TABLES"@)
            == "0\nSECTION\n2\nHEADER\n9\n$INSUNITS\n70\n4\n0\nENDSEC\n0\nSECTION\n2\nTABLES\n"@,
        group_text(0, "ENDTAB"@) + group_text(0, "ENDSEC"@) + group_text(0, "SECTION"@) + group_text(2, "ENTITIES"@)
            == "0\nENDTAB\n0\nENDSEC\n0\nSECTION\n2\nENTITIES\n"@,
        group_text(0, "ENDSEC"@) + group_text(0, "EOF"@) == "0\nENDSEC\n0\nEOF\n"@,
{
    reveal_strlit("0\nSECTION\n2\nHEADER\n9\n$INSUNITS\n70\n4\n0\nENDSEC\n0\nSECTION\n2\nTABLES\n");
    reveal_strlit("0\nENDTAB\n0\nENDSEC\n0\nSECTION\n2\nENTITIES\n");
    reveal_strlit("0\nENDSEC\n0\nEOF\n");
    reveal_strlit("\n");
    reveal_strlit("SECTION");
    reveal_strlit("HEADER");
    reveal_strlit("$INSUNITS");
    reveal_strlit("4");
    reveal_strlit("ENDSEC");
    reveal_strlit("TABLES");
    reveal_strlit("ENDTAB");
    reveal_strlit("ENTITIES");
    reveal_strlit("EOF");
    assert(int_text(0) =~= seq!['0']);
    assert(int_text(2) =~= seq!['2']);
    assert(int_text(9) =~= seq!['9']);
    assert(int_text(70) =~= seq!['7', '0']) by {
        reveal_with_fuel(nat_text, 2);
    }
    assert(header_text() + group_text(0, "SECTION"@) + group_text(2, "TABLES"@)
        =~= "0\nSECTION\n2\nHEADER\n9\n$INSUNITS\n70\n4\n0\nENDSEC\n0\nSECTION\n2\nTABLES\n"@);
    assert(group_text(0, "ENDTAB"@) + group_text(0, "ENDSEC"@) + group_text(0, "SECTION"@) + group_text(2, "ENTITIES"@)
        =~= "0\nENDTAB\n0\nENDSEC\n0\nSECTION\n2\nENTITIES\n"@);
    assert(group_text(0, "ENDSEC"@) + group_text(0, "EOF"@) =~= "0\nENDSEC\n0\nEOF\n"@);
}

/// A routing result without IO elements exports exactly its coil geometry:
/// no IO entities are written and no `IO_Pad` layer is declared, so the
/// file is the one the coil geometry alone gives.
pub proof fn lemma_io_free_export(
    r: RoutingResult,
    via_r: int,
    off: int,
    angles: Seq<(i64, i64)>,
    names: Seq<Seq<char>>,
)
    requires
        r.io_traces@.len() == 0,
        r.io_pads@.len() == 0,
    ensures
        dxf_text(r, via_r, off, angles, names) == header_text() + tables_text(names) + group_text(
            0,
            "SECTION"@,
        ) + group_text(2, "ENTITIES"@) + segments_text(r.segments@, off) + curves_text(r.curves@, angles, off)
            + vias_text(r.vias@, via_r, off) + group_text(0, "ENDSEC"@) + group_text(0, "EOF"@),
        !required_layer_name(r, "IO_Pad"@),
{
    reveal_strlit("IO_Pad");
    reveal_strlit("Via");
    reveal_strlit("L");
    assert(traces_text(r.io_traces@, off) =~= Seq::<char>::empty());
    assert(pads_text(r.io_pads@, off) =~= Seq::<char>::empty());
    let e = Seq::<char>::empty();
    let before = header_text() + tables_text(names) + group_text(0, "SECTION"@) + group_text(2, "ENTITIES"@)
        + segments_text(r.segments@, off) + curves_text(r.curves@, angles, off) + vias_text(r.vias@, via_r, off);
    assert(before + e + e =~= before);
    assert forall|layer: u32, net: Seq<char>| #[trigger] track_layer_name(layer, net) != "IO_Pad"@ by {
        assert(track_layer_name(layer, net)[0] == 'L');
        assert("IO_Pad"@[0] == 'I');
    }
    assert("Via"@ != "IO_Pad"@) by {
        assert("Via"@.len() != "IO_Pad"@.len());
    }
    if required_layer_name(r, "IO_Pad"@) {
        if exists|i: int| 0 <= i < r.segments@.len() && "IO_Pad"@ == track_layer_name(
            #[trigger] r.segments@[i].layer,
            r.segments@[i].net@,
        ) {
            let i = choose|i: int| 0 <= i < r.segments@.len() && "IO_Pad"@ == track_layer_name(
                #[trigger] r.segments@[i].layer,
                r.segments@[i].net@,
            );
            assert(track_layer_name(r.segments@[i].layer, r.segments@[i].net@) != "IO_Pad"@);
        }
        if exists|i: int| 0 <= i < r.curves@.len() && "IO_Pad"@ == track_layer_name(
            #[trigger] r.curves@[i].layer,
            r.curves@[i].net@,
        ) {
            let i = choose|i: int| 0 <= i < r.curves@.len() && "IO_Pad"@ == track_layer_name(
                #[trigger] r.curves@[i].layer,
                r.curves@[i].net@,
            );
            assert(track_layer_name(r.curves@[i].layer, r.curves@[i].net@) != "IO_Pad"@);
        }
    }
}

/// Build the full DXF file for a routing result.
///
/// `active_area_length_nm` is the length of the active area; when
/// `centre_x` holds, every x coordinate is shifted by exactly half of it so
/// the coil set is centred on x = 0, and the shifted value is written to the
/// nearest nanometre (half a nanometre to the even neighbour, as six-decimal
/// text rounds). `curve_angles[k]` gives the start and end angles
/// (micro-degrees, measured about the curve's circle centre) of curve `k`:
/// they need trigonometry, which the caller supplies.
pub fn routing_result_to_dxf(
    result: &RoutingResult,
    rules: &DesignRules,
    active_area_length_nm: i64,
    centre_x: bool,
    curve_angles: &Vec<(i64, i64)>,
) -> (out: String)
    requires
        result.in_range(),
        rules.in_range(),
        curve_angles@.len() == result.curves@.len(),
        centre_x ==> -2 * MAX_COORD_NM <= active_area_length_nm <= 2 * MAX_COORD_NM,
    ensures
        is_dxf_of(out@, *result, *rules, active_area_length_nm, centre_x, curve_angles@),
{
    let x_offset2_nm: i64 = if centre_x { active_area_length_nm } else { 0 };
    let via_radius_nm = rules.via_pad_radius_nm();
    let layer_names = dxf_layer_names(result);
    let mut out = String::new();
    write_header(&mut out);
    write_tables(&mut out, &layer_names);
    dxf_group(&mut out, 0, "SECTION");
    dxf_group(&mut out, 2, "ENTITIES");
    write_segments(&mut out, &result.segments, x_offset2_nm);
    write_curves(&mut out, &result.curves, curve_angles, x_offset2_nm);
    write_vias(&mut out, &result.vias, via_radius_nm, x_offset2_nm);
    write_traces(&mut out, &result.io_traces, x_offset2_nm);
    write_pads(&mut out, &result.io_pads, x_offset2_nm);
    dxf_group(&mut out, 0, "ENDSEC");
    dxf_group(&mut out, 0, "EOF");
    proof {
        let names = texts(layer_names@);
        assert(out@ =~= dxf_text(
            *result,
            half_nm(rules.spec_via_pad_diameter()),
            x_offset(active_area_length_nm, centre_x),
            curve_angles@,
            names,
        ));
    }
    out
}

// ---------------------------------------------------------------------------
// Phase coils
// ---------------------------------------------------------------------------

/// The route segment of a coil segment.
pub open spec fn coil_segment_route(c: PhaseCoil, s: CoilSegment) -> RouteSegment {
    RouteSegment {
        start: Point { x: s.start.0, y: s.start.1 },
        end: Point { x: s.end.0, y: s.end.1 },
        layer: c.layer_idx,
        net: c.phase_name,
        is_active: s.is_active,
    }
}

/// The route curve of a corner arc.
pub open spec fn coil_arc_route(c: PhaseCoil, a: CoilArc) -> RouteCurve {
    RouteCurve {
        start: Point { x: a.start.0, y: a.start.1 },
        mid: Point { x: a.mid.0, y: a.mid.1 },
        end: Point { x: a.end.0, y: a.end.1 },
        layer: c.layer_idx,
        net: c.phase_name,
        is_active: a.is_active,
    }
}

/// The through via of a centre-via position: from layer 0 to the top layer.
pub open spec fn coil_via_route(c: PhaseCoil, p: (i64, i64), num_layers: u32) -> Via {
    Via {
        position: Point { x: p.0, y: p.1 },
        from_layer: 0,
        to_layer: if num_layers > 0 { (num_layers - 1) as u32 } else { 0 },
        net: c.phase_name,
    }
}

/// The segments of a coil set, coil by coil.
pub open spec fn coil_route_segments(cs: Seq<PhaseCoil>) -> Seq<RouteSegment>
    decreases cs.len(),
{
    if cs.len() == 0 {
        seq![]
    } else {
        coil_route_segments(cs.drop_last()) + cs.last().segments@.map_values(
            |s: CoilSegment| coil_segment_route(cs.last(), s),
        )
    }
}

/// The curves of a coil set, coil by coil.
pub open spec fn coil_route_curves(cs: Seq<PhaseCoil>) -> Seq<RouteCurve>
    decreases cs.len(),
{
    if cs.len() == 0 {
        seq![]
    } else {
        coil_route_curves(cs.drop_last()) + cs.last().corner_arcs@.map_values(
            |a: CoilArc| coil_arc_route(cs.last(), a),
        )
    }
}

/// The vias of a coil set, coil by coil.
pub open spec fn coil_route_vias(cs: Seq<PhaseCoil>, num_layers: u32) -> Seq<Via>
    decreases cs.len(),
{
    if cs.len() == 0 {
        seq![]
    } else {
        coil_route_vias(cs.drop_last(), num_layers) + cs.last().center_via_positions@.map_values(
            |p: (i64, i64)| coil_via_route(cs.last(), p, num_layers),
        )
    }
}

/// `r` is the routing result a coil set stands for: its segments, corner
/// arcs and centre vias (each via spanning layer 0 to the top layer), and
/// no IO elements.
pub open spec fn is_coil_result(r: RoutingResult, cs: Seq<PhaseCoil>, num_layers: u32) -> bool {
    &&& r.segments@ == coil_route_segments(cs)
    &&& r.curves@ == coil_route_curves(cs)
    &&& r.vias@ == coil_route_vias(cs, num_layers)
    &&& r.io_pads@.len() == 0
    &&& r.io_traces@.len() == 0
}

/// The routing result of a coil set.
fn phase_coils_result(coils: &[PhaseCoil], num_layers: u32) -> (r: RoutingResult)
    requires
        coils_in_range(coils@),
    ensures
        is_coil_result(r, coils@, num_layers),
        r.in_range(),
{
    let mut r = RoutingResult::empty();
    let to_layer: u32 = if num_layers > 0 { num_layers - 1 } else { 0 };
    let mut i: usize = 0;
    assert(coils@.take(0) =~= Seq::<PhaseCoil>::empty());
    assert(r.segments@ =~= coil_route_segments(coils@.take(0)));
    assert(r.curves@ =~= coil_route_curves(coils@.take(0)));
    assert(r.vias@ =~= coil_route_vias(coils@.take(0), num_layers));
    while i < coils.len()
        invariant
            i <= coils@.len(),
            coils_in_range(coils@),
            to_layer == (if num_layers > 0 { (num_layers - 1) as u32 } else { 0u32 }),
            r.segments@ == coil_route_segments(coils@.take(i as int)),
            r.curves@ == coil_route_curves(coils@.take(i as int)),
            r.vias@ == coil_route_vias(coils@.take(i as int), num_layers),
            r.io_pads@.len() == 0,
            r.io_traces@.len() == 0,
            r.in_range(),
        decreases coils.len() - i,
    {
        let coil = &coils[i];
        assert(coil_in_range(coils@[i as int]));
        let ghost segs0 = r.segments@;
        let ghost curves0 = r.curves@;
        let ghost vias0 = r.vias@;
        let mut k: usize = 0;
        while k < coil.segments.len()
            invariant
                k <= coil.segments@.len(),
                coil_in_range(*coil),
                r.segments@ == segs0 + coil.segments@.take(k as int).map_values(|s: CoilSegment| coil_segment_route(*coil, s)),
                r.curves@ == curves0,
                r.vias@ == vias0,
                r.io_pads@.len() == 0,
                r.io_traces@.len() == 0,
                r.in_range(),
            decreases coil.segments.len() - k,
        {
            let s = coil.segments[k];
            assert(pair_in_range(coil.segments@[k as int].start) && pair_in_range(coil.segments@[k as int].end));
            let seg = RouteSegment {
                start: Point::new(s.start.0, s.start.1),
                end: Point::new(s.end.0, s.end.1),
                layer: coil.layer_idx,
                net: coil.phase_name.clone(),
                is_active: s.is_active,
            };
            let ghost before = r.segments@;
            r.segments.push(seg);
            assert(segments_in_range(r.segments@)) by {
                assert forall|q: int| 0 <= q < r.segments@.len() implies point_in_range(#[trigger] r.segments@[q].start)
                    && point_in_range(r.segments@[q].end) by {
                    if q < before.len() {
                        assert(r.segments@[q] == before[q]);
                    }
                }
            }
            assert(coil.segments@.take(k + 1) =~= coil.segments@.take(k as int).push(s));
            assert(r.segments@ =~= segs0 + coil.segments@.take(k + 1).map_values(|s: CoilSegment| coil_segment_route(*coil, s)));
            k = k + 1;
        }
        assert(coil.segments@.take(coil.segments@.len() as int) =~= coil.segments@);
        let mut j: usize = 0;
        while j < coil.corner_arcs.len()
            invariant
                j <= coil.corner_arcs@.len(),
                coil_in_range(*coil),
                r.segments@ == segs0 + coil.segments@.map_values(|s: CoilSegment| coil_segment_route(*coil, s)),
                r.curves@ == curves0 + coil.corner_arcs@.take(j as int).map_values(|a: CoilArc| coil_arc_route(*coil, a)),
                r.vias@ == vias0,
                r.io_pads@.len() == 0,
                r.io_traces@.len() == 0,
                r.in_range(),
            decreases coil.corner_arcs.len() - j,
        {
            let a = coil.corner_arcs[j];
            assert(pair_in_range(coil.corner_arcs@[j as int].start) && pair_in_range(coil.corner_arcs@[j as int].mid)
                && pair_in_range(coil.corner_arcs@[j as int].end));
            let curve = RouteCurve {
                start: Point::new(a.start.0, a.start.1),
                mid: Point::new(a.mid.0, a.mid.1),
                end: Point::new(a.end.0, a.end.1),
                layer: coil.layer_idx,
                net: coil.phase_name.clone(),
                is_active: a.is_active,
            };
            r.curves.push(curve);
            assert(coil.corner_arcs@.take(j + 1) =~= coil.corner_arcs@.take(j as int).push(a));
            assert(r.curves@ =~= curves0 + coil.corner_arcs@.take(j + 1).map_values(|a: CoilArc| coil_arc_route(*coil, a)));
            j = j + 1;
        }
        assert(coil.corner_arcs@.take(coil.corner_arcs@.len() as int) =~= coil.corner_arcs@);
        let mut k2: usize = 0;
        while k2 < coil.center_via_positions.len()
            invariant
                k2 <= coil.center_via_positions@.len(),
                coil_in_range(*coil),
                to_layer == (if num_layers > 0 { (num_layers - 1) as u32 } else { 0u32 }),
                r.segments@ == segs0 + coil.segments@.map_values(|s: CoilSegment| coil_segment_route(*coil, s)),
                r.curves@ == curves0 + coil.corner_arcs@.map_values(|a: CoilArc| coil_arc_route(*coil, a)),
                r.vias@ == vias0 + coil.center_via_positions@.take(k2 as int).map_values(
                    |p: (i64, i64)| coil_via_route(*coil, p, num_layers),
                ),
                r.io_pads@.len() == 0,
                r.io_traces@.len() == 0,
                r.in_range(),
            decreases coil.center_via_positions.len() - k2,
        {
            let p = coil.center_via_positions[k2];
            assert(pair_in_range(coil.center_via_positions@[k2 as int]));
            let via = Via {
                position: Point::new(p.0, p.1),
                from_layer: 0,
                to_layer,
                net: coil.phase_name.clone(),
            };
            r.vias.push(via);
            assert(coil.center_via_positions@.take(k2 + 1) =~= coil.center_via_positions@.take(k2 as int).push(p));
            assert(r.vias@ =~= vias0 + coil.center_via_positions@.take(k2 + 1).map_values(
                |p: (i64, i64)| coil_via_route(*coil, p, num_layers),
            ));
            k2 = k2 + 1;
        }
        assert(coil.center_via_positions@.take(coil.center_via_positions@.len() as int) =~= coil.center_via_positions@);
        proof {
            assert(coils@.take(i + 1).drop_last() =~= coils@.take(i as int));
        }
        i = i + 1;
    }
    assert(coils@.take(coils@.len() as int) =~= coils@);
    r
}

/// Export a set of phase coils to DXF: the coils stand for a routing result
/// (segments, corner arcs as curves, centre vias from layer 0 to the top
/// layer) exported with the x axis centred. `arc_angles[k]` gives the start
/// and end angles (micro-degrees) of the `k`-th corner arc, coil by coil.
pub fn phase_coils_to_dxf(
    coils: &[PhaseCoil],
    num_layers: u32,
    rules: &DesignRules,
    active_area_length_nm: i64,
    arc_angles: &Vec<(i64, i64)>,
) -> (out: String)
    requires
        rules.in_range(),
        coils_in_range(coils@),
        arc_angles@.len() == coil_route_curves(coils@).len(),
        -2 * MAX_COORD_NM <= active_area_length_nm <= 2 * MAX_COORD_NM,
    ensures
        exists|r: RoutingResult|
            is_coil_result(r, coils@, num_layers) && is_dxf_of(out@, r, *rules, active_area_length_nm, true, arc_angles@),
{
    let result = phase_coils_result(coils, num_layers);
    let out = routing_result_to_dxf(&result, rules, active_area_length_nm, true, arc_angles);
    assert(is_coil_result(result, coils@, num_layers));
    out
}


// ---------------------------------------------------------------------------
// Laws: lines keep their length when moved
// ---------------------------------------------------------------------------

/// Twice `half_nm(v)` is `v` to within one, and exactly `v` for even `v`.
proof fn lemma_half_nm_close(v: int)
    ensures
        -1 <= 2 * half_nm(v) - v <= 1,
        v % 2 == 0 ==> 2 * half_nm(v) == v,
{
}

/// LINE entities on the track layers of `ts`, the `k`-th from
/// `(xs[k].0, start.y)` to `(xs[k].1, end.y)` of trace `k`.
pub open spec fn trace_lines(ts: Seq<IoTrace>, xs: Seq<(int, int)>) -> Seq<char>
    decreases ts.len(),
{
    if ts.len() == 0 || xs.len() == 0 {
        seq![]
    } else {
        let g = ts.last();
        trace_lines(ts.drop_last(), xs.drop_last()) + line_text(
            track_layer_name(g.layer, g.net@),
            xs.last().0,
            g.start.y as int,
            xs.last().1,
            g.end.y as int,
        )
    }
}

/// LINE entities on the track layers of `gs`, the `k`-th from
/// `(xs[k].0, start.y)` to `(xs[k].1, end.y)` of segment `k`.
pub open spec fn segment_lines(gs: Seq<RouteSegment>, xs: Seq<(int, int)>) -> Seq<char>
    decreases gs.len(),
{
    if gs.len() == 0 || xs.len() == 0 {
        seq![]
    } else {
        let g = gs.last();
        segment_lines(gs.drop_last(), xs.drop_last()) + line_text(
            track_layer_name(g.layer, g.net@),
            xs.last().0,
            g.start.y as int,
            xs.last().1,
            g.end.y as int,
        )
    }
}

/// `xs` moves each pair of ends `ends[k]` left by the same half of `off`:
/// each end lands within half a nanometre of its exact position, so a line
/// keeps its length to within a nanometre, exactly when `off` is even.
pub open spec fn ends_moved_together(ends: Seq<(int, int)>, xs: Seq<(int, int)>, off: int) -> bool {
    &&& xs.len() == ends.len()
    &&& forall|k: int| 0 <= k < ends.len() ==> {
        &&& -1 <= 2 * (#[trigger] xs[k]).0 - (2 * ends[k].0 - off) <= 1
        &&& -1 <= 2 * xs[k].1 - (2 * ends[k].1 - off) <= 1
        &&& -1 <= (xs[k].1 - xs[k].0) - (ends[k].1 - ends[k].0) <= 1
        &&& off % 2 == 0 ==> xs[k].1 - xs[k].0 == ends[k].1 - ends[k].0
    }
}

pub open spec fn trace_ends(ts: Seq<IoTrace>) -> Seq<(int, int)> {
    Seq::new(ts.len(), |k: int| (ts[k].start.x as int, ts[k].end.x as int))
}

pub open spec fn segment_ends(gs: Seq<RouteSegment>) -> Seq<(int, int)> {
    Seq::new(gs.len(), |k: int| (gs[k].start.x as int, gs[k].end.x as int))
}

spec fn moved_ends(ends: Seq<(int, int)>, off: int) -> Seq<(int, int)> {
    Seq::new(ends.len(), |k: int| (shifted_x(ends[k].0, off), shifted_x(ends[k].1, off)))
}

proof fn lemma_moved_ends_together(ends: Seq<(int, int)>, off: int)
    ensures
        ends_moved_together(ends, moved_ends(ends, off), off),
{
    let xs = moved_ends(ends, off);
    assert forall|k: int| 0 <= k < ends.len() implies {
        &&& -1 <= 2 * (#[trigger] xs[k]).0 - (2 * ends[k].0 - off) <= 1
        &&& -1 <= 2 * xs[k].1 - (2 * ends[k].1 - off) <= 1
        &&& -1 <= (xs[k].1 - xs[k].0) - (ends[k].1 - ends[k].0) <= 1
        &&& off % 2 == 0 ==> xs[k].1 - xs[k].0 == ends[k].1 - ends[k].0
    } by {
        lemma_half_nm_close(2 * ends[k].0 - off);
        lemma_half_nm_close(2 * ends[k].1 - off);
    }
}

proof fn lemma_traces_text_lines(ts: Seq<IoTrace>, off: int)
    ensures
        traces_text(ts, off) == trace_lines(ts, moved_ends(trace_ends(ts), off)),
    decreases ts.len(),
{
    if ts.len() > 0 {
        lemma_traces_text_lines(ts.drop_last(), off);
        assert(moved_ends(trace_ends(ts), off).drop_last() =~= moved_ends(trace_ends(ts.drop_last()), off));
    }
}

proof fn lemma_segments_text_lines(gs: Seq<RouteSegment>, off: int)
    ensures
        segments_text(gs, off) == segment_lines(gs, moved_ends(segment_ends(gs), off)),
    decreases gs.len(),
{
    if gs.len() > 0 {
        lemma_segments_text_lines(gs.drop_last(), off);
        assert(moved_ends(segment_ends(gs), off).drop_last() =~= moved_ends(segment_ends(gs.drop_last()), off));
    }
}

/// Each IO trace is exported as one LINE on its track layer from its start
/// to its end, y unchanged, both x coordinates moved left by the same half
/// of `off`: each end within half a nanometre of its exact place, so the
/// line keeps the trace's length (to the nanometre) and direction.
pub proof fn lemma_trace_lines_moved_together(ts: Seq<IoTrace>, off: int)
    ensures
        exists|xs: Seq<(int, int)>|
            ends_moved_together(trace_ends(ts), xs, off) && traces_text(ts, off) == trace_lines(ts, xs),
{
    lemma_traces_text_lines(ts, off);
    lemma_moved_ends_together(trace_ends(ts), off);
    let xs = moved_ends(trace_ends(ts), off);
    assert(ends_moved_together(trace_ends(ts), xs, off) && traces_text(ts, off) == trace_lines(ts, xs));
}

/// Each route segment is exported as one LINE on its track layer from its
/// start to its end, y unchanged, both x coordinates moved left by the same
/// half of `off`, so the line keeps the segment's length and direction.
pub proof fn lemma_segment_lines_moved_together(gs: Seq<RouteSegment>, off: int)
    ensures
        exists|xs: Seq<(int, int)>|
            ends_moved_together(segment_ends(gs), xs, off) && segments_text(gs, off) == segment_lines(gs, xs),
{
    lemma_segments_text_lines(gs, off);
    lemma_moved_ends_together(segment_ends(gs), off);
    let xs = moved_ends(segment_ends(gs), off);
    assert(ends_moved_together(segment_ends(gs), xs, off) && segments_text(gs, off) == segment_lines(gs, xs));
}


/// CIRCLE entities of radius `r` on `Via`, the `k`-th centred at
/// `(xs[k], y)` for the `k`-th via's `y`.
pub open spec fn via_circles(vs: Seq<Via>, xs: Seq<int>, r: int) -> Seq<char>
    decreases vs.len(),
{
    if vs.len() == 0 || xs.len() == 0 {
        seq![]
    } else {
        via_circles(vs.drop_last(), xs.drop_last(), r) + circle_text("Via"@, xs.last(), vs.last().position.y as int, r)
    }
}

proof fn lemma_vias_text_circles(vs: Seq<Via>, r: int, off: int)
    ensures
        vias_text(vs, r, off) == via_circles(
            vs,
            Seq::new(vs.len(), |k: int| shifted_x(vs[k].position.x as int, off)),
            r,
        ),
    decreases vs.len(),
{
    if vs.len() > 0 {
        lemma_vias_text_circles(vs.drop_last(), r, off);
        assert(Seq::new(vs.len(), |k: int| shifted_x(vs[k].position.x as int, off)).drop_last() =~= Seq::new(
            vs.drop_last().len(),
            |k: int| shifted_x(vs.drop_last()[k].position.x as int, off),
        ));
    }
}

/// Each via is exported as one CIRCLE of the given radius on the `Via`
/// layer, at the via's y and at its x moved left by half of `off`, to within
/// half a nanometre (exactly when `off` is even).
pub proof fn lemma_via_circles_moved(vs: Seq<Via>, r: int, off: int)
    ensures
        exists|xs: Seq<int>|
            {
                &&& xs.len() == vs.len()
                &&& forall|k: int| 0 <= k < vs.len() ==> -1 <= 2 * (#[trigger] xs[k]) - (2 * vs[k].position.x - off) <= 1
                    && (off % 2 == 0 ==> 2 * xs[k] == 2 * vs[k].position.x - off)
                &&& vias_text(vs, r, off) == via_circles(vs, xs, r)
            },
{
    lemma_vias_text_circles(vs, r, off);
    let xs = Seq::new(vs.len(), |k: int| shifted_x(vs[k].position.x as int, off));
    assert forall|k: int| 0 <= k < vs.len() implies -1 <= 2 * (#[trigger] xs[k]) - (2 * vs[k].position.x - off) <= 1
        && (off % 2 == 0 ==> 2 * xs[k] == 2 * vs[k].position.x - off) by {
        lemma_half_nm_close(2 * vs[k].position.x - off);
    }
}

/// The export of `r` moves every x left by half the active area length when
/// centring and not at all otherwise, and draws vias with a radius of half
/// the via pad diameter `drill + 2 × ring`, to within half a nanometre
/// (exactly when the diameter is even).
pub proof fn lemma_dxf_offset_and_via_radius(
    text: Seq<char>,
    r: RoutingResult,
    rules: DesignRules,
    active_area_length_nm: i64,
    centre_x: bool,
    angles: Seq<(i64, i64)>,
)
    requires
        is_dxf_of(text, r, rules, active_area_length_nm, centre_x, angles),
    ensures
        exists|via_r: int, off: int, names: Seq<Seq<char>>|
            {
                &&& off == (if centre_x { active_area_length_nm as int } else { 0 })
                &&& -1 <= 2 * via_r - (rules.min_via_drill_nm + 2 * rules.min_via_annular_ring_nm) <= 1
                &&& (rules.min_via_drill_nm % 2 == 0 ==> 2 * via_r == rules.min_via_drill_nm + 2
                    * rules.min_via_annular_ring_nm)
                &&& strictly_sorted(names)
                &&& forall|t: Seq<char>| names.contains(t) <==> required_layer_name(r, t)
                &&& #[trigger] dxf_text(r, via_r, off, angles, names) == text
            },
{
    let names = choose|names: Seq<Seq<char>>|
        {
            &&& strictly_sorted(names)
            &&& forall|t: Seq<char>| names.contains(t) <==> required_layer_name(r, t)
            &&& text == dxf_text(
                r,
                half_nm(rules.spec_via_pad_diameter()),
                x_offset(active_area_length_nm, centre_x),
                angles,
                names,
            )
        };
    lemma_half_nm_close(rules.spec_via_pad_diameter());
    assert(dxf_text(r, half_nm(rules.spec_via_pad_diameter()), x_offset(active_area_length_nm, centre_x), angles, names) == text);
}


/// The outline of a rectangle with corners `(x0, y0)` and `(x1, y1)` as four
/// LINEs: bottom, right, top, left.
pub open spec fn rectangle_lines(layer: Seq<char>, x0: int, y0: int, x1: int, y1: int) -> Seq<char> {
    line_text(layer, x0, y0, x1, y0) + line_text(layer, x1, y0, x1, y1) + line_text(layer, x1, y1, x0, y1)
        + line_text(layer, x0, y1, x0, y0)
}

/// Pad outlines on `IO_Pad`: for a square pad `k` a CIRCLE at
/// `(qs[k].0, y)` of radius `qs[k].4`, otherwise the rectangle with corners
/// `(qs[k].0, qs[k].1)` and `(qs[k].2, qs[k].3)`.
pub open spec fn pad_outlines(pads: Seq<IoPad>, qs: Seq<(int, int, int, int, int)>) -> Seq<char>
    decreases pads.len(),
{
    if pads.len() == 0 || qs.len() == 0 {
        seq![]
    } else {
        let p = pads.last();
        let q = qs.last();
        pad_outlines(pads.drop_last(), qs.drop_last()) + if p.size.x == p.size.y {
            circle_text("IO_Pad"@, q.0, p.position.y as int, q.4)
        } else {
            rectangle_lines("IO_Pad"@, q.0, q.1, q.2, q.3)
        }
    }
}

/// `q` places pad `p`, moved left by half of `off`, to within half a
/// nanometre in every coordinate: a square pad's circle at its centre with
/// half its size as radius, another pad's rectangle at centre ± size / 2.
pub open spec fn pad_placed(p: IoPad, q: (int, int, int, int, int), off: int) -> bool {
    if p.size.x == p.size.y {
        &&& -1 <= 2 * q.0 - (2 * p.position.x - off) <= 1
        &&& -1 <= 2 * q.4 - p.size.x <= 1
    } else {
        &&& -1 <= 2 * q.0 - (2 * p.position.x - off - p.size.x) <= 1
        &&& -1 <= 2 * q.2 - (2 * p.position.x - off + p.size.x) <= 1
        &&& -1 <= 2 * q.1 - (2 * p.position.y - p.size.y) <= 1
        &&& -1 <= 2 * q.3 - (2 * p.position.y + p.size.y) <= 1
    }
}

spec fn pad_place(p: IoPad, off: int) -> (int, int, int, int, int) {
    let cx2 = 2 * p.position.x - off;
    if p.size.x == p.size.y {
        (half_nm(cx2), 0, 0, 0, half_nm(p.size.x as int))
    } else {
        (half_nm(cx2 - p.size.x), half_nm(2 * p.position.y - p.size.y), half_nm(cx2 + p.size.x), half_nm(
            2 * p.position.y + p.size.y,
        ), 0)
    }
}

proof fn lemma_pads_text_outlines(pads: Seq<IoPad>, off: int)
    ensures
        pads_text(pads, off) == pad_outlines(pads, Seq::new(pads.len(), |k: int| pad_place(pads[k], off))),
    decreases pads.len(),
{
    if pads.len() > 0 {
        lemma_pads_text_outlines(pads.drop_last(), off);
        assert(Seq::new(pads.len(), |k: int| pad_place(pads[k], off)).drop_last() =~= Seq::new(
            pads.drop_last().len(),
            |k: int| pad_place(pads.drop_last()[k], off),
        ));
    }
}

/// Each IO pad is exported on `IO_Pad` as a CIRCLE of half its size at its
/// centre when it is square, and otherwise as the closed four-LINE outline
/// of its rectangle (bottom, right, top, left), every coordinate moved left
/// by half of `off` along x and to within half a nanometre of its exact
/// place.
pub proof fn lemma_pad_outlines_placed(pads: Seq<IoPad>, off: int)
    ensures
        exists|qs: Seq<(int, int, int, int, int)>|
            {
                &&& qs.len() == pads.len()
                &&& forall|k: int| 0 <= k < pads.len() ==> pad_placed(pads[k], #[trigger] qs[k], off)
                &&& pads_text(pads, off) == pad_outlines(pads, qs)
            },
{
    lemma_pads_text_outlines(pads, off);
    let qs = Seq::new(pads.len(), |k: int| pad_place(pads[k], off));
    assert forall|k: int| 0 <= k < pads.len() implies pad_placed(pads[k], #[trigger] qs[k], off) by {
        let p = pads[k];
        lemma_half_nm_close(2 * p.position.x - off);
        lemma_half_nm_close(p.size.x as int);
        lemma_half_nm_close(2 * p.position.x - off - p.size.x);
        lemma_half_nm_close(2 * p.position.x - off + p.size.x);
        lemma_half_nm_close(2 * p.position.y - p.size.y);
        lemma_half_nm_close(2 * p.position.y + p.size.y);
    }
}

} // verus!
