//! Design rules (DFM) that govern trace width, clearance and via sizing.
//!
//! All lengths are integer nanometres, the unit KiCad itself stores.
use vstd::prelude::*;
use crate::text::{div_round, div_round_i64};

verus! {

/// Largest length, in nanometres, that the sizing arithmetic accepts (1 km).
pub const MAX_RULE_NM: i64 = 1_000_000_000_000;

/// A snapshot of the DFM rules applied to generated routing geometry.
#[derive(Debug, Clone, Copy, PartialEq, Eq, Structural)]
pub struct DesignRules {
    /// Minimum manufacturable trace width [nm].
    pub min_trace_nm: i64,
    /// Minimum trace-to-trace clearance [nm].
    pub min_space_nm: i64,
    /// Minimum via drill diameter [nm].
    pub min_via_drill_nm: i64,
    /// Minimum via annular ring width [nm].
    pub min_via_annular_ring_nm: i64,
}

impl DesignRules {
    /// Every rule lies within ±[`MAX_RULE_NM`], so sizes derived from them
    /// cannot overflow.
    pub open spec fn in_range(&self) -> bool {
        &&& -MAX_RULE_NM <= self.min_trace_nm <= MAX_RULE_NM
        &&& -MAX_RULE_NM <= self.min_space_nm <= MAX_RULE_NM
        &&& -MAX_RULE_NM <= self.min_via_drill_nm <= MAX_RULE_NM
        &&& -MAX_RULE_NM <= self.min_via_annular_ring_nm <= MAX_RULE_NM
    }

    /// drill + 2 × annular ring.
    pub open spec fn spec_via_pad_diameter(&self) -> int {
        self.min_via_drill_nm + 2 * self.min_via_annular_ring_nm
    }

    /// The default rules: 5 mil (0.127 mm) trace and space, 0.2 mm via drill,
    /// 0.1 mm annular ring.
    pub fn default_rules() -> (r: Self)
        ensures
            r.min_trace_nm == 127_000,
            r.min_space_nm == 127_000,
            r.min_via_drill_nm == 200_000,
            r.min_via_annular_ring_nm == 100_000,
    {
        DesignRules {
            min_trace_nm: 127_000,
            min_space_nm: 127_000,
            min_via_drill_nm: 200_000,
            min_via_annular_ring_nm: 100_000,
        }
    }

    /// Minimum via pad diameter [nm] = drill + 2 × annular ring.
    pub fn via_pad_diameter_nm(&self) -> (d: i64)
        requires
            self.in_range(),
        ensures
            d == self.spec_via_pad_diameter(),
    {
        self.min_via_drill_nm + 2 * self.min_via_annular_ring_nm
    }

    /// Minimum via pad radius [nm]: half the pad diameter, to the nearest
    /// nanometre (an exact half to the even one).
    pub fn via_pad_radius_nm(&self) -> (r: i64)
        requires
            self.in_range(),
        ensures
            r == div_round(self.spec_via_pad_diameter(), 2),
    {
        let d = self.via_pad_diameter_nm();
        div_round_i64(d, 2)
    }

    /// Default plated IO pad diameter [nm]: the via pad diameter.
    pub fn io_tht_pad_diameter_nm(&self) -> (d: i64)
        requires
            self.in_range(),
        ensures
            d == self.spec_via_pad_diameter(),
    {
        self.via_pad_diameter_nm()
    }
}

/// Sizing of the IO connector fanout handed to the routing stage: the
/// plated pad copper diameter and, for through-hole pads, the drill [nm].
#[derive(Debug, Clone, Copy, PartialEq, Eq, Structural)]
pub struct IoFanoutOptions {
    pub pad_diameter_nm: i64,
    pub drill_nm: Option<i64>,
}

impl IoFanoutOptions {
    /// Through-hole pads of the given copper diameter and drill.
    pub fn tht(pad_diameter_nm: i64, drill_nm: i64) -> (o: Self)
        ensures
            o.pad_diameter_nm == pad_diameter_nm,
            o.drill_nm == Some(drill_nm),
    {
        IoFanoutOptions { pad_diameter_nm, drill_nm: Some(drill_nm) }
    }
}

impl DesignRules {
    /// The IO fanout sizing these rules imply: through-hole pads of the IO
    /// pad diameter, drilled at the minimum via drill.
    pub fn io_fanout_options(&self) -> (o: IoFanoutOptions)
        requires
            self.in_range(),
        ensures
            o.pad_diameter_nm == self.spec_via_pad_diameter(),
            o.drill_nm == Some(self.min_via_drill_nm),
    {
        IoFanoutOptions::tht(self.io_tht_pad_diameter_nm(), self.min_via_drill_nm)
    }
}

impl Default for DesignRules {
    fn default() -> (r: Self)
        ensures
            r.min_trace_nm == 127_000,
            r.min_space_nm == 127_000,
            r.min_via_drill_nm == 200_000,
            r.min_via_annular_ring_nm == 100_000,
    {
        Self::default_rules()
    }
}

} // verus!
