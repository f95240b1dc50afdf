//! The routing geometry that the exporters consume.
//!
//! Coordinates and sizes are integer nanometres; layers are routing layer
//! indices (0 = bottom copper).
use vstd::prelude::*;

verus! {

/// Largest coordinate or size magnitude, in nanometres, that the exporters
/// accept (1 km), so that their offset arithmetic cannot overflow.
pub const MAX_COORD_NM: i64 = 1_000_000_000_000;

/// A point in the board plane [nm].
#[derive(Debug, Clone, Copy, PartialEq, Eq, Structural)]
pub struct Point {
    pub x: i64,
    pub y: i64,
}

impl Point {
    pub fn new(x: i64, y: i64) -> (p: Self)
        ensures
            p.x == x,
            p.y == y,
    {
        Point { x, y }
    }
}

/// Both coordinates lie within ±[`MAX_COORD_NM`].
pub open spec fn point_in_range(p: Point) -> bool {
    -MAX_COORD_NM <= p.x <= MAX_COORD_NM && -MAX_COORD_NM <= p.y <= MAX_COORD_NM
}

/// A straight trace segment.
pub struct RouteSegment {
    pub start: Point,
    pub end: Point,
    pub layer: u32,
    pub net: String,
    pub is_active: bool,
}

/// A curved trace through three points (start, mid, end).
pub struct RouteCurve {
    pub start: Point,
    pub mid: Point,
    pub end: Point,
    pub layer: u32,
    pub net: String,
    pub is_active: bool,
}

/// A via between two copper layers.
pub struct Via {
    pub position: Point,
    pub from_layer: u32,
    pub to_layer: u32,
    pub net: String,
}

/// Copper size of a pad [nm].
#[derive(Debug, Clone, Copy, PartialEq, Eq, Structural)]
pub struct PadSize {
    pub x: i64,
    pub y: i64,
}

/// How an IO pad is mounted.
#[derive(Debug, Clone, Copy, PartialEq, Eq, Structural)]
pub enum IoPadKind {
    Smd,
    Tht,
    BoardEdge,
}

/// An IO (connector) pad.
pub struct IoPad {
    pub position: Point,
    pub size: PadSize,
    pub drill_nm: Option<i64>,
    pub layers: Vec<u32>,
    pub kind: IoPadKind,
    pub net: String,
    pub number: Option<String>,
}

/// What an IO trace is for.
#[derive(Debug, Clone, Copy, PartialEq, Eq, Structural)]
pub enum IoTraceRole {
    Fanout,
}

/// A trace joining a coil terminal to an IO pad.
pub struct IoTrace {
    pub start: Point,
    pub end: Point,
    pub layer: u32,
    pub net: String,
    pub role: IoTraceRole,
}

/// A complete set of routed geometry.
pub struct RoutingResult {
    pub segments: Vec<RouteSegment>,
    pub curves: Vec<RouteCurve>,
    pub vias: Vec<Via>,
    pub io_pads: Vec<IoPad>,
    pub io_traces: Vec<IoTrace>,
}

impl RoutingResult {
    /// An empty result.
    pub fn empty() -> (r: Self)
        ensures
            r.segments@.len() == 0,
            r.curves@.len() == 0,
            r.vias@.len() == 0,
            r.io_pads@.len() == 0,
            r.io_traces@.len() == 0,
    {
        RoutingResult {
            segments: Vec::new(),
            curves: Vec::new(),
            vias: Vec::new(),
            io_pads: Vec::new(),
            io_traces: Vec::new(),
        }
    }

    /// Every coordinate and pad size lies within ±[`MAX_COORD_NM`].
    pub open spec fn in_range(&self) -> bool {
        &&& segments_in_range(self.segments@)
        &&& curves_in_range(self.curves@)
        &&& vias_in_range(self.vias@)
        &&& pads_in_range(self.io_pads@)
        &&& traces_in_range(self.io_traces@)
    }
}

/// All segment endpoints lie within range.
pub open spec fn segments_in_range(s: Seq<RouteSegment>) -> bool {
    forall|k: int| 0 <= k < s.len() ==> point_in_range(#[trigger] s[k].start) && point_in_range(s[k].end)
}

/// All curve points lie within range.
pub open spec fn curves_in_range(s: Seq<RouteCurve>) -> bool {
    forall|k: int| 0 <= k < s.len() ==> point_in_range(#[trigger] s[k].start) && point_in_range(s[k].mid)
        && point_in_range(s[k].end)
}

/// All via positions lie within range.
pub open spec fn vias_in_range(s: Seq<Via>) -> bool {
    forall|k: int| 0 <= k < s.len() ==> point_in_range(#[trigger] s[k].position)
}

/// All pad positions and sizes lie within range.
pub open spec fn pads_in_range(s: Seq<IoPad>) -> bool {
    forall|k: int| 0 <= k < s.len() ==> point_in_range(#[trigger] s[k].position) && size_in_range(s[k].size)
}

/// Both pad dimensions lie within ±[`MAX_COORD_NM`].
pub open spec fn size_in_range(z: PadSize) -> bool {
    -MAX_COORD_NM <= z.x <= MAX_COORD_NM && -MAX_COORD_NM <= z.y <= MAX_COORD_NM
}

/// All IO trace endpoints lie within range.
pub open spec fn traces_in_range(s: Seq<IoTrace>) -> bool {
    forall|k: int| 0 <= k < s.len() ==> point_in_range(#[trigger] s[k].start) && point_in_range(s[k].end)
}

/// A straight piece of a phase coil, endpoints `(x, y)` [nm].
#[derive(Debug, Clone, Copy)]
pub struct CoilSegment {
    pub start: (i64, i64),
    pub end: (i64, i64),
    pub is_active: bool,
}

/// A corner arc of a phase coil through three points [nm].
#[derive(Debug, Clone, Copy)]
pub struct CoilArc {
    pub start: (i64, i64),
    pub mid: (i64, i64),
    pub end: (i64, i64),
    pub is_active: bool,
}

/// The presentation model of one phase's coil on one layer.
#[derive(Debug)]
pub struct PhaseCoil {
    pub phase_idx: u32,
    pub layer_idx: u32,
    pub phase_name: String,
    /// Routing pattern that produced the coil (empty when unknown).
    pub pattern_id: String,
    pub segments: Vec<CoilSegment>,
    pub corner_arcs: Vec<CoilArc>,
    pub center_via_positions: Vec<(i64, i64)>,
}

} // verus!
