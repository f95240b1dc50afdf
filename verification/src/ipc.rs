//! Values exchanged with the desktop front end, and their conversions from
//! the library's own results.
use vstd::prelude::*;
use crate::board::WriteCoilsResult;
use crate::diagnostics::{PreconditionLevel, PreconditionWarning};
use crate::preview::{CoilPreview, CoilPreviewLayer};
use crate::text::push_str;
use vstd::string::StrSliceExecFns;

verus! {

/// Severity of a [`PreconditionWarningIpc`] (wire form `info`, `warning`,
/// `error`).
#[derive(Debug, Clone, Copy, PartialEq, Eq, Structural)]
pub enum PreconditionLevelIpc {
    Info,
    Warning,
    Error,
}

/// FOC commutation strategy (wire form `max_torque`, `phase_a_only`).
#[derive(Debug, Clone, Copy, PartialEq, Eq, Structural)]
pub enum CommutationModeIpc {
    MaxTorque,
    PhaseAOnly,
}

/// A precondition warning as the front end receives it.
pub struct PreconditionWarningIpc {
    pub level: PreconditionLevelIpc,
    pub field: Option<String>,
    pub message: String,
}

pub open spec fn level_ipc(l: PreconditionLevel) -> PreconditionLevelIpc {
    match l {
        PreconditionLevel::Info => PreconditionLevelIpc::Info,
        PreconditionLevel::Warning => PreconditionLevelIpc::Warning,
        PreconditionLevel::Error => PreconditionLevelIpc::Error,
    }
}

impl PreconditionWarningIpc {
    /// Convert a warning to its wire form: same level, field and message.
    pub fn from_core(w: &PreconditionWarning) -> (r: Self)
        ensures
            r.level == level_ipc(w.level),
            r.field == w.field,
            r.message == w.message,
    {
        let level = match w.level {
            PreconditionLevel::Info => PreconditionLevelIpc::Info,
            PreconditionLevel::Warning => PreconditionLevelIpc::Warning,
            PreconditionLevel::Error => PreconditionLevelIpc::Error,
        };
        let field = match &w.field {
            Some(f) => Some(f.clone()),
            None => None,
        };
        PreconditionWarningIpc { level, field, message: w.message.clone() }
    }
}

/// Per-layer preview entry as the front end receives it (without the board
/// layer, which the front end infers from the index).
#[derive(Debug, Clone, Copy, PartialEq, Eq, Structural)]
pub struct CoilPreviewLayerIpc {
    pub layer_idx: u32,
    pub phase_count: u32,
    pub segment_count: u32,
    pub via_count: u32,
}

/// Coil preview as the front end receives it: the per-layer tally and the
/// pattern label, without the geometry.
pub struct CoilPreviewIpc {
    pub num_layers: u32,
    /// The routing pattern id that produced the coils.
    pub topology: String,
    pub layers: Vec<CoilPreviewLayerIpc>,
    pub total_tracks: u32,
    pub total_vias: u32,
}

pub open spec fn layer_ipc(l: CoilPreviewLayer) -> CoilPreviewLayerIpc {
    CoilPreviewLayerIpc {
        layer_idx: l.layer_idx,
        phase_count: l.phase_count,
        segment_count: l.segment_count,
        via_count: l.via_count,
    }
}

impl CoilPreviewIpc {
    /// Convert a preview to its wire form.
    pub fn from_core(p: &CoilPreview) -> (r: Self)
        ensures
            r.num_layers == p.num_layers,
            r.topology == p.pattern_id,
            r.layers@ == p.layers@.map_values(|l: CoilPreviewLayer| layer_ipc(l)),
            r.total_tracks == p.total_tracks,
            r.total_vias == p.total_vias,
    {
        let mut layers: Vec<CoilPreviewLayerIpc> = Vec::new();
        let mut i: usize = 0;
        while i < p.layers.len()
            invariant
                i <= p.layers@.len(),
                layers@ =~= p.layers@.take(i as int).map_values(|l: CoilPreviewLayer| layer_ipc(l)),
            decreases p.layers.len() - i,
        {
            let l = p.layers[i];
            layers.push(
                CoilPreviewLayerIpc {
                    layer_idx: l.layer_idx,
                    phase_count: l.phase_count,
                    segment_count: l.segment_count,
                    via_count: l.via_count,
                },
            );
            i = i + 1;
        }
        assert(p.layers@.take(p.layers@.len() as int) =~= p.layers@);
        CoilPreviewIpc {
            num_layers: p.num_layers,
            topology: p.pattern_id.clone(),
            layers,
            total_tracks: p.total_tracks,
            total_vias: p.total_vias,
        }
    }
}

/// DXF export answer: the file content and a summary for the user.
pub struct DxfExportResult {
    pub dxf_content: String,
    pub summary: DxfExportSummary,
}

/// Entity and layer counts of an exported DXF file.
#[derive(Debug, Clone, Copy, PartialEq, Eq, Structural)]
pub struct DxfExportSummary {
    pub total_lines: u32,
    pub total_arcs: u32,
    pub total_circles: u32,
    pub layer_count: u32,
}

/// Number of non-overlapping occurrences of `p` in `s`, found left to right.
pub open spec fn count_matches(s: Seq<char>, p: Seq<char>) -> nat
    decreases s.len(),
{
    if p.len() == 0 || s.len() < p.len() {
        0
    } else if s.take(p.len() as int) == p {
        1 + count_matches(s.skip(p.len() as int), p)
    } else {
        count_matches(s.skip(1), p)
    }
}

/// The summary of a DXF file: `0\nLINE\n`, `0\nARC\n` and `0\nCIRCLE\n`
/// records counted as lines, arcs and circles, and the `0\nLAYER\n2\n`
/// records of the layer table counted as layers, one per layer definition.
pub open spec fn dxf_summary_of(text: Seq<char>) -> DxfExportSummary {
    DxfExportSummary {
        total_lines: count_matches(text, "0\nLINE\n"@) as u32,
        total_arcs: count_matches(text, "0\nARC\n"@) as u32,
        total_circles: count_matches(text, "0\nCIRCLE\n"@) as u32,
        layer_count: count_matches(text, "0\nLAYER\n2\n"@) as u32,
    }
}

fn chars_of(s: &str) -> (v: Vec<char>)
    ensures
        v@ == s@,
{
    let mut v: Vec<char> = Vec::new();
    for c in it: s.chars()
        invariant
            v@ == it.seq().take(it.index() as int),
    {
        v.push(c);
    }
    v
}

fn matches_at(v: &Vec<char>, i: usize, p: &Vec<char>) -> (r: bool)
    requires
        i + p@.len() <= v@.len(),
    ensures
        r == (v@.skip(i as int).take(p@.len() as int) == p@),
{
    let m = p.len();
    let mut j: usize = 0;
    while j < m
        invariant
            m == p@.len(),
            i + m <= v.len(),
            j <= m,
            forall|k: int| 0 <= k < j ==> v@[i + k] == p@[k],
        decreases m - j,
    {
        if v[i + j] != p[j] {
            assert(v@.skip(i as int).take(m as int)[j as int] != p@[j as int]);
            return false;
        }
        j = j + 1;
    }
    assert(v@.skip(i as int).take(m as int) =~= p@);
    true
}

proof fn lemma_count_step(s: Seq<char>, p: Seq<char>, i: int)
    requires
        p.len() > 0,
        0 <= i,
        i + p.len() <= s.len(),
    ensures
        count_matches(s.skip(i), p) == if s.skip(i).take(p.len() as int) == p {
            1 + count_matches(s.skip(i + p.len()), p)
        } else {
            count_matches(s.skip(i + 1), p)
        },
{
    assert(s.skip(i).skip(p.len() as int) =~= s.skip(i + p.len()));
    assert(s.skip(i).skip(1) =~= s.skip(i + 1));
}

/// Count the non-overlapping occurrences of `p` in `v`.
fn count_in(v: &Vec<char>, p: &Vec<char>) -> (r: usize)
    requires
        p@.len() > 0,
    ensures
        r == count_matches(v@, p@),
{
    let n = v.len();
    let m = p.len();
    let mut count: usize = 0;
    let mut i: usize = 0;
    assert(v@.skip(0) =~= v@);
    while m <= n - i
        invariant
            n == v@.len(),
            m == p@.len(),
            m > 0,
            i <= n,
            count <= i,
            count + count_matches(v@.skip(i as int), p@) == count_matches(v@, p@),
        decreases n - i,
    {
        proof {
            lemma_count_step(v@, p@, i as int);
        }
        if matches_at(v, i, p) {
            count = count + 1;
            i = i + m;
        } else {
            i = i + 1;
        }
    }
    count
}

fn pattern(t: &str) -> (v: Vec<char>)
    ensures
        v@ == t@,
{
    chars_of(t)
}

/// Summarise an exported DXF file by counting its entity records and layer
/// definitions.
pub fn dxf_export_summary(dxf_content: &str) -> (r: DxfExportSummary)
    ensures
        r == dxf_summary_of(dxf_content@),
{
    proof {
        reveal_strlit("0\nLINE\n");
        reveal_strlit("0\nARC\n");
        reveal_strlit("0\nCIRCLE\n");
        reveal_strlit("0\nLAYER\n2\n");
    }
    let text = chars_of(dxf_content);
    let lines = count_in(&text, &pattern("0\nLINE\n"));
    let arcs = count_in(&text, &pattern("0\nARC\n"));
    let circles = count_in(&text, &pattern("0\nCIRCLE\n"));
    let layers = count_in(&text, &pattern("0\nLAYER\n2\n"));
    DxfExportSummary {
        total_lines: lines as u32,
        total_arcs: arcs as u32,
        total_circles: circles as u32,
        layer_count: layers as u32,
    }
}

/// Outcome of connecting to KiCad.
pub struct KicadConnectionResult {
    pub connected: bool,
    pub board_name: String,
    pub copper_layers: u32,
}

/// Outcome of a board write as the front end receives it.
pub struct KicadWriteResult {
    pub items_attempted: u32,
    pub items_created: u32,
    pub failures: Vec<String>,
    pub failure_summary: Vec<(i32, u32)>,
    /// `atomic-commit` for a real write, `(dry run - no commit)` otherwise.
    pub commit_id: String,
}

pub open spec fn commit_label(dry_run: bool) -> Seq<char> {
    if dry_run {
        "(dry run - no commit)"@
    } else {
        "atomic-commit"@
    }
}

impl KicadWriteResult {
    /// The wire form of a write result, labelled by whether it was a dry run.
    pub fn from_write(result: WriteCoilsResult, dry_run: bool) -> (r: Self)
        ensures
            r.items_attempted == result.items_attempted,
            r.items_created == result.items_created,
            r.failures == result.failures,
            r.failure_summary == result.failure_summary,
            r.commit_id@ == commit_label(dry_run),
    {
        let mut commit_id = String::new();
        if dry_run {
            push_str(&mut commit_id, "(dry run - no commit)");
        } else {
            push_str(&mut commit_id, "atomic-commit");
        }
        KicadWriteResult {
            items_attempted: result.items_attempted,
            items_created: result.items_created,
            failures: result.failures,
            failure_summary: result.failure_summary,
            commit_id,
        }
    }
}

/// Outcome of pinging KiCad.
pub struct KicadPingResult {
    pub ok: bool,
    pub version: String,
}

/// A routing pattern the front end can select, with its layer constraints.
pub struct RoutingPatternInfo {
    pub id: String,
    pub display_name: String,
    pub min_layers: Option<u32>,
    pub max_layers: Option<u32>,
    pub layers_multiple_of: Option<u32>,
}

/// An installed plugin as the front end lists it.
pub struct InstalledPluginIpc {
    pub id: String,
    pub kind: String,
    pub display_name: String,
    pub author: String,
    pub version: String,
    pub description: String,
}

/// Answer to a project save.
pub struct SaveProjectResultIpc {
    pub path: String,
    pub format_version: u32,
    pub saved_at_unix_ms: i64,
}

/// Design-validation findings of a project.
pub struct ProjectValidationIpc {
    pub errors: Vec<String>,
    pub warnings: Vec<String>,
}

/// A rejected motor configuration, with the reason.
pub struct ConfigError(pub String);

} // verus!
