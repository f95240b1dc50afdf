//! Board diagnostics snapshot and pre-write precondition validation.
//!
//! [`validate_write_preconditions`] compares the generation spec (design
//! rules, layer count, active area, board width) against a
//! [`BoardDiagnostics`] snapshot of the open board and returns the warnings
//! the UI shows before anything is written.
use vstd::prelude::*;
use crate::rules::DesignRules;
use crate::text::{mm_short_text, mm_text, nat_text, push_mm, push_mm_short, push_nat, push_str};

verus! {

/// Snapshot of the open KiCad board.
///
/// The bounding box is that of the board's edge-cut graphics in nanometres;
/// all four values are 0 when the box is unknown.
pub struct BoardDiagnostics {
    /// File name of the open board, e.g. `"board.kicad_pcb"`.
    pub board_name: String,
    /// Number of copper layers enabled on the board.
    pub copper_layer_count: u32,
    pub board_x_min_nm: i64,
    pub board_x_max_nm: i64,
    pub board_y_min_nm: i64,
    pub board_y_max_nm: i64,
    /// Names of the net classes in use on the board, sorted.
    pub available_net_classes: Vec<String>,
}

/// `hi - lo`, clamped to `[0, i64::MAX]`.
pub open spec fn extent(lo: i64, hi: i64) -> int {
    if hi - lo <= 0 {
        0
    } else if hi - lo > i64::MAX {
        i64::MAX as int
    } else {
        hi - lo
    }
}

fn extent_nm(lo: i64, hi: i64) -> (r: i64)
    ensures
        r == extent(lo, hi),
{
    let d: i128 = hi as i128 - lo as i128;
    if d <= 0 {
        0
    } else if d > i64::MAX as i128 {
        i64::MAX
    } else {
        d as i64
    }
}

impl BoardDiagnostics {
    /// Width of the edge-cut bounding box [nm]; 0 when unknown or inverted.
    pub fn board_width_nm(&self) -> (w: i64)
        ensures
            w == extent(self.board_x_min_nm, self.board_x_max_nm),
    {
        extent_nm(self.board_x_min_nm, self.board_x_max_nm)
    }

    /// Height of the edge-cut bounding box [nm]; 0 when unknown or inverted.
    pub fn board_height_nm(&self) -> (h: i64)
        ensures
            h == extent(self.board_y_min_nm, self.board_y_max_nm),
    {
        extent_nm(self.board_y_min_nm, self.board_y_max_nm)
    }
}

/// Severity of a [`PreconditionWarning`].
#[derive(Debug, Clone, Copy, PartialEq, Eq, Structural)]
pub enum PreconditionLevel {
    /// Informational: the design works, a tweak is recommended.
    Info,
    /// Warning: the design will likely underperform.
    Warning,
    /// Error: the write would fail or produce broken geometry.
    Error,
}

/// One warning about the (config, board) pair: its severity, the
/// machine-readable input it concerns, and the message shown verbatim.
pub struct PreconditionWarning {
    pub level: PreconditionLevel,
    pub field: Option<String>,
    pub message: String,
}

/// A warning as plain values: level, field, message.
pub type WarningView = (PreconditionLevel, Option<Seq<char>>, Seq<char>);

/// The plain-value view of a warning.
pub open spec fn warning_view(w: PreconditionWarning) -> WarningView {
    (w.level, match w.field {
        Some(f) => Some(f@),
        None => None,
    }, w.message@)
}

fn own_field(field: Option<&str>) -> (r: Option<String>)
    ensures
        match field {
            Some(f) => r matches Some(s) && s@ == f@,
            None => r is None,
        },
{
    match field {
        Some(f) => {
            let mut s = String::new();
            push_str(&mut s, f);
            Some(s)
        },
        None => None,
    }
}

impl PreconditionWarning {
    /// Construct a warning of the given level.
    pub fn new(level: PreconditionLevel, field: Option<&str>, message: &str) -> (w: Self)
        ensures
            w.level == level,
            match field {
                Some(f) => w.field matches Some(s) && s@ == f@,
                None => w.field is None,
            },
            w.message@ == message@,
    {
        let mut m = String::new();
        push_str(&mut m, message);
        PreconditionWarning { level, field: own_field(field), message: m }
    }

    /// Construct an Info-level warning.
    pub fn info(field: Option<&str>, message: &str) -> (w: Self)
        ensures
            w.level == PreconditionLevel::Info,
            match field {
                Some(f) => w.field matches Some(s) && s@ == f@,
                None => w.field is None,
            },
            w.message@ == message@,
    {
        Self::new(PreconditionLevel::Info, field, message)
    }

    /// Construct a Warning-level warning.
    pub fn warn(field: Option<&str>, message: &str) -> (w: Self)
        ensures
            w.level == PreconditionLevel::Warning,
            match field {
                Some(f) => w.field matches Some(s) && s@ == f@,
                None => w.field is None,
            },
            w.message@ == message@,
    {
        Self::new(PreconditionLevel::Warning, field, message)
    }

    /// Construct an Error-level warning.
    pub fn error(field: Option<&str>, message: &str) -> (w: Self)
        ensures
            w.level == PreconditionLevel::Error,
            match field {
                Some(f) => w.field matches Some(s) && s@ == f@,
                None => w.field is None,
            },
            w.message@ == message@,
    {
        Self::new(PreconditionLevel::Error, field, message)
    }
}

/// Message for a config that asks for more layers than the board has.
pub open spec fn layer_mismatch_text(num_layers: u32, board_name: Seq<char>, count: u32) -> Seq<char> {
    "Your config requests "@ + nat_text(num_layers as nat) + " layer(s) but the board '"@
        + board_name + "' only has "@ + nat_text(count as nat) + ". Reduce num_layers to "@
        + nat_text(count as nat) + " to match the board."@
}

/// Message for a zero layer count.
pub open spec fn zero_layers_text() -> Seq<char> {
    "num_layers is 0 \u{2014} no coils can be generated. Set at least 2."@
}

/// Message for an active area longer than the board edge-cut is wide.
pub open spec fn active_area_text(active_nm: int, board_w_nm: int) -> Seq<char> {
    "Your active area is "@ + mm_text(active_nm, 1) + " mm but the board edge-cut is only "@
        + mm_text(board_w_nm, 1)
        + " mm wide. Either reduce active_area_length, use a larger board, or expand the board's edge cuts."@
}

/// Message for a board width larger than the board edge-cut is tall.
pub open spec fn board_width_text(width_nm: int, board_h_nm: int) -> Seq<char> {
    "Your board_width is "@ + mm_text(width_nm, 1) + " mm but the board edge-cut is only "@
        + mm_text(board_h_nm, 1)
        + " mm tall. Either reduce board_width, or expand the board's edge cuts."@
}

/// Message for non-positive trace or space rules.
pub open spec fn bad_rules_text(trace_nm: int, space_nm: int) -> Seq<char> {
    "Design rules are not positive (min_trace_mm="@ + mm_short_text(trace_nm) + ", min_space_mm="@
        + mm_short_text(space_nm) + "). Cannot produce manufacturable geometry."@
}

/// The warnings owed for a (rules, layer count, active area, board width,
/// board) combination, in check order:
/// 1. more layers requested than a board with a known layer count has → Error;
/// 2. zero layers → Error;
/// 3. active area longer than a known board width → Warning;
/// 4. board width larger than a known board height → Warning;
/// 5. non-positive trace width or spacing → Error.
pub open spec fn expected_warnings(
    rules: DesignRules,
    num_layers: u32,
    active_area_length_nm: i64,
    board_width_nm: i64,
    d: BoardDiagnostics,
) -> Seq<WarningView> {
    let w = extent(d.board_x_min_nm, d.board_x_max_nm);
    let h = extent(d.board_y_min_nm, d.board_y_max_nm);
    let s1: Seq<WarningView> = if num_layers > d.copper_layer_count && d.copper_layer_count > 0 {
        seq![(PreconditionLevel::Error, Some("num_layers"@),
            layer_mismatch_text(num_layers, d.board_name@, d.copper_layer_count))]
    } else {
        seq![]
    };
    let s2: Seq<WarningView> = if num_layers == 0 {
        seq![(PreconditionLevel::Error, Some("num_layers"@), zero_layers_text())]
    } else {
        seq![]
    };
    let s3: Seq<WarningView> = if w > 0 && active_area_length_nm > w {
        seq![(PreconditionLevel::Warning, Some("active_area_length_m"@),
            active_area_text(active_area_length_nm as int, w))]
    } else {
        seq![]
    };
    let s4: Seq<WarningView> = if h > 0 && board_width_nm > h {
        seq![(PreconditionLevel::Warning, Some("board_width_m"@),
            board_width_text(board_width_nm as int, h))]
    } else {
        seq![]
    };
    let s5: Seq<WarningView> = if rules.min_trace_nm <= 0 || rules.min_space_nm <= 0 {
        seq![(PreconditionLevel::Error, Some("design_rules"@),
            bad_rules_text(rules.min_trace_nm as int, rules.min_space_nm as int))]
    } else {
        seq![]
    };
    s1 + s2 + s3 + s4 + s5
}

fn push_warning(
    out: &mut Vec<PreconditionWarning>,
    level: PreconditionLevel,
    field: &str,
    message: String,
)
    ensures
        final(out)@.map_values(|w: PreconditionWarning| warning_view(w)) == old(out)@.map_values(
            |w: PreconditionWarning| warning_view(w),
        ).push((level, Some(field@), message@)),
{
    let mut f = String::new();
    push_str(&mut f, field);
    let w = PreconditionWarning { level, field: Some(f), message };
    let ghost before = out@;
    out.push(w);
    assert(out@.map_values(|w: PreconditionWarning| warning_view(w)) =~= before.map_values(
        |w: PreconditionWarning| warning_view(w),
    ).push((level, Some(field@), message@)));
}

/// Pure pre-write validation: the warnings/errors the UI should display
/// before letting the user write to the board.
///
/// Layer-count checks use the user-selected `num_layers`; the dimension
/// checks only fire when the board's edge-cut box is known (non-zero).
/// `active_area_length_nm` and `board_width_nm` are the config's active area
/// length and board width in nanometres.
pub fn validate_write_preconditions(
    rules: &DesignRules,
    num_layers: u32,
    active_area_length_nm: i64,
    board_width_nm: i64,
    diagnostics: &BoardDiagnostics,
) -> (out: Vec<PreconditionWarning>)
    ensures
        out@.map_values(|w: PreconditionWarning| warning_view(w)) == expected_warnings(
            *rules,
            num_layers,
            active_area_length_nm,
            board_width_nm,
            *diagnostics,
        ),
{
    let mut out: Vec<PreconditionWarning> = Vec::new();
    let ghost v0 = out@.map_values(|w: PreconditionWarning| warning_view(w));
    assert(v0 =~= seq![]);

    // (1) more layers than the board has → Error
    if num_layers > diagnostics.copper_layer_count && diagnostics.copper_layer_count > 0 {
        let mut m = String::new();
        push_str(&mut m, "Your config requests ");
        push_nat(&mut m, num_layers as u64);
        push_str(&mut m, " layer(s) but the board '");
        push_str(&mut m, diagnostics.board_name.as_str());
        push_str(&mut m, "' only has ");
        push_nat(&mut m, diagnostics.copper_layer_count as u64);
        push_str(&mut m, ". Reduce num_layers to ");
        push_nat(&mut m, diagnostics.copper_layer_count as u64);
        push_str(&mut m, " to match the board.");
        push_warning(&mut out, PreconditionLevel::Error, "num_layers", m);
    }
    let ghost v1 = out@.map_values(|w: PreconditionWarning| warning_view(w));

    // (2) zero layers → Error
    if num_layers == 0 {
        let mut m = String::new();
        push_str(&mut m, "num_layers is 0 \u{2014} no coils can be generated. Set at least 2.");
        push_warning(&mut out, PreconditionLevel::Error, "num_layers", m);
    }
    let ghost v2 = out@.map_values(|w: PreconditionWarning| warning_view(w));

    // (3) active area longer than the board is wide → Warning
    let board_w = diagnostics.board_width_nm();
    if board_w > 0 && active_area_length_nm > board_w {
        let mut m = String::new();
        push_str(&mut m, "Your active area is ");
        push_mm(&mut m, active_area_length_nm, 1);
        push_str(&mut m, " mm but the board edge-cut is only ");
        push_mm(&mut m, board_w, 1);
        push_str(
            &mut m,
            " mm wide. Either reduce active_area_length, use a larger board, or expand the board's edge cuts.",
        );
        push_warning(&mut out, PreconditionLevel::Warning, "active_area_length_m", m);
    }
    let ghost v3 = out@.map_values(|w: PreconditionWarning| warning_view(w));

    // (4) board width larger than the board is tall → Warning
    let board_h = diagnostics.board_height_nm();
    if board_h > 0 && board_width_nm > board_h {
        let mut m = String::new();
        push_str(&mut m, "Your board_width is ");
        push_mm(&mut m, board_width_nm, 1);
        push_str(&mut m, " mm but the board edge-cut is only ");
        push_mm(&mut m, board_h, 1);
        push_str(&mut m, " mm tall. Either reduce board_width, or expand the board's edge cuts.");
        push_warning(&mut out, PreconditionLevel::Warning, "board_width_m", m);
    }
    let ghost v4 = out@.map_values(|w: PreconditionWarning| warning_view(w));

    // (5) non-positive design rules → Error
    if rules.min_trace_nm <= 0 || rules.min_space_nm <= 0 {
        let mut m = String::new();
        push_str(&mut m, "Design rules are not positive (min_trace_mm=");
        push_mm_short(&mut m, rules.min_trace_nm);
        push_str(&mut m, ", min_space_mm=");
        push_mm_short(&mut m, rules.min_space_nm);
        push_str(&mut m, "). Cannot produce manufacturable geometry.");
        push_warning(&mut out, PreconditionLevel::Error, "design_rules", m);
    }
    proof {
        reveal_strlit("num_layers");
        let e = expected_warnings(*rules, num_layers, active_area_length_nm, board_width_nm, *diagnostics);
        assert(out@.map_values(|w: PreconditionWarning| warning_view(w)) =~= e);
    }
    out
}


// ---------------------------------------------------------------------------
// Law: each warning comes from exactly its own check
// ---------------------------------------------------------------------------

/// `ws` holds a warning of `level` about `field`.
pub open spec fn has_warning(ws: Seq<WarningView>, level: PreconditionLevel, field: Seq<char>) -> bool {
    exists|i: int| 0 <= i < ws.len() && (#[trigger] ws[i]).0 == level && ws[i].1 == Some(field)
}

/// One warning per failed check, and nothing else: non-positive trace width
/// or spacing gives an Error about `design_rules` (and positive ones never
/// do); a known board width below the active area length gives a Warning
/// about `active_area_length_m`; a known board height below the board width
/// gives a Warning about `board_width_m`; zero layers, or more layers than a
/// board with a known layer count has, give an Error about `num_layers`.
pub proof fn lemma_warnings_follow_checks(
    rules: DesignRules,
    num_layers: u32,
    active_area_length_nm: i64,
    board_width_nm: i64,
    d: BoardDiagnostics,
)
    ensures
        ({
            let ws = expected_warnings(rules, num_layers, active_area_length_nm, board_width_nm, d);
            let w = extent(d.board_x_min_nm, d.board_x_max_nm);
            let h = extent(d.board_y_min_nm, d.board_y_max_nm);
            let too_many = num_layers > d.copper_layer_count && d.copper_layer_count > 0;
            let bad_rules = rules.min_trace_nm <= 0 || rules.min_space_nm <= 0;
            let too_long = w > 0 && active_area_length_nm > w;
            let too_wide = h > 0 && board_width_nm > h;
            &&& has_warning(ws, PreconditionLevel::Error, "design_rules"@) <==> bad_rules
            &&& has_warning(ws, PreconditionLevel::Warning, "active_area_length_m"@) <==> too_long
            &&& has_warning(ws, PreconditionLevel::Warning, "board_width_m"@) <==> too_wide
            &&& has_warning(ws, PreconditionLevel::Error, "num_layers"@) <==> (num_layers == 0 || too_many)
            &&& ws.len() == (if too_many { 1int } else { 0 }) + (if num_layers == 0 { 1int } else { 0 })
                + (if too_long { 1int } else { 0 }) + (if too_wide { 1int } else { 0 }) + (if bad_rules {
                1int
            } else {
                0
            })
        }),
{
    reveal_strlit("design_rules");
    reveal_strlit("active_area_length_m");
    reveal_strlit("board_width_m");
    reveal_strlit("num_layers");
    let ws = expected_warnings(rules, num_layers, active_area_length_nm, board_width_nm, d);
    let fields: Seq<Seq<char>> = seq!["num_layers"@, "active_area_length_m"@, "board_width_m"@, "design_rules"@];
    assert forall|i: int, j: int| 0 <= i < j < 4 implies fields[i] != fields[j] by {
        assert(fields[i].len() != fields[j].len());
    }
    assert forall|i: int| 0 <= i < ws.len() implies (#[trigger] ws[i]).1 matches Some(f) && (
        (f == "num_layers"@ && ws[i].0 == PreconditionLevel::Error && (num_layers == 0 || (num_layers
            > d.copper_layer_count && d.copper_layer_count > 0)))
        || (f == "active_area_length_m"@ && ws[i].0 == PreconditionLevel::Warning)
        || (f == "board_width_m"@ && ws[i].0 == PreconditionLevel::Warning)
        || (f == "design_rules"@ && ws[i].0 == PreconditionLevel::Error)) by {}
    let w = extent(d.board_x_min_nm, d.board_x_max_nm);
    let h = extent(d.board_y_min_nm, d.board_y_max_nm);
    let too_many = num_layers > d.copper_layer_count && d.copper_layer_count > 0;
    let k1: int = if too_many { 1 } else { 0 };
    let k2: int = k1 + if num_layers == 0 { 1int } else { 0 };
    let k3: int = k2 + if w > 0 && active_area_length_nm > w { 1int } else { 0 };
    let k4: int = k3 + if h > 0 && board_width_nm > h { 1int } else { 0 };
    if rules.min_trace_nm <= 0 || rules.min_space_nm <= 0 {
        assert(ws[k4].1 == Some("design_rules"@));
    }
    if w > 0 && active_area_length_nm > w {
        assert(ws[k2].1 == Some("active_area_length_m"@));
    }
    if h > 0 && board_width_nm > h {
        assert(ws[k3].1 == Some("board_width_m"@));
    }
    if too_many {
        assert(ws[0].1 == Some("num_layers"@));
    }
    if num_layers == 0 {
        assert(ws[k1].1 == Some("num_layers"@));
    }
}

} // verus!
