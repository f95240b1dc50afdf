//! Verified core of a PCB linear-motor stator generator: DXF export, KiCad
//! write bookkeeping, design-rule checks and pre-write validation.
use vstd::prelude::*;

pub mod board;
pub mod board_items;
pub mod clearance;
pub mod code_counts;
pub mod diagnostics;
pub mod dxf;
pub mod edge_bbox;
pub mod geometry;
pub mod helpers;
pub mod interference;
pub mod ipc;
pub mod layer_map;
pub mod menu;
pub mod order;
pub mod plugins;
pub mod preview;
pub mod project;
pub mod rules;
pub mod tally;
pub mod transport;
pub mod text;

verus! {

} // verus!
