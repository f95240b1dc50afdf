use pcbmotorgen::diagnostics::{validate_write_preconditions, BoardDiagnostics, PreconditionLevel, PreconditionWarning};
use pcbmotorgen::rules::DesignRules;
use pcbmotorgen::text::push_mm;

const MM: i64 = 1_000_000;
/// Active area used by the braid precondition tests (0.6 m).
const ACTIVE_AREA_NM: i64 = 600 * MM;
/// Board width used by the braid precondition tests (0.02 m).
const BOARD_WIDTH_NM: i64 = 20 * MM;

fn braid_rules() -> DesignRules {
    DesignRules { min_trace_nm: 127_000, min_space_nm: 127_000, min_via_drill_nm: 200_000, min_via_annular_ring_nm: 100_000 }
}

fn empty_diagnostics() -> BoardDiagnostics {
    BoardDiagnostics {
        board_name: "test.kicad_pcb".into(),
        copper_layer_count: 0,
        board_x_min_nm: 0,
        board_x_max_nm: 0,
        board_y_min_nm: 0,
        board_y_max_nm: 0,
        available_net_classes: Vec::new(),
    }
}

#[test]
fn test_board_diagnostics_width_height_zero_when_not_set() {
    let d = empty_diagnostics();
    assert_eq!(d.board_width_nm(), 0);
    assert_eq!(d.board_height_nm(), 0);
}

#[test]
fn test_board_diagnostics_width_height_positive_when_set() {
    let d = BoardDiagnostics {
        board_x_min_nm: -25 * MM,
        board_x_max_nm: 25 * MM,
        board_y_min_nm: -10 * MM,
        board_y_max_nm: 10 * MM,
        ..empty_diagnostics()
    };
    assert_eq!(d.board_width_nm(), 50 * MM);
    assert_eq!(d.board_height_nm(), 20 * MM);
}

#[test]
fn test_board_diagnostics_width_height_clamped_at_zero() {
    let d = BoardDiagnostics {
        board_x_min_nm: 25 * MM,
        board_x_max_nm: -25 * MM,
        board_y_min_nm: 10 * MM,
        board_y_max_nm: -10 * MM,
        ..empty_diagnostics()
    };
    assert_eq!(d.board_width_nm(), 0);
    assert_eq!(d.board_height_nm(), 0);
}

fn errors(ws: &[PreconditionWarning]) -> Vec<&PreconditionWarning> {
    ws.iter().filter(|w| w.level == PreconditionLevel::Error).collect()
}

#[test]
fn test_validate_layer_mismatch_is_error() {
    let rules = braid_rules();
    let mut d = empty_diagnostics();
    d.copper_layer_count = 4;
    let warnings = validate_write_preconditions(&rules, 6, ACTIVE_AREA_NM, BOARD_WIDTH_NM, &d);
    let errs = errors(&warnings);
    assert!(!errs.is_empty(), "expected an error for layer mismatch");
    assert!(errs[0].message.contains("6"));
    assert!(errs[0].message.contains("4"));
    assert_eq!(errs[0].field.as_deref(), Some("num_layers"));
}

#[test]
fn test_validate_layer_mismatch_reports_user_num_layers() {
    let rules = braid_rules();
    let mut d = empty_diagnostics();
    d.copper_layer_count = 4;
    let warnings = validate_write_preconditions(&rules, 4, ACTIVE_AREA_NM, BOARD_WIDTH_NM, &d);
    let layer_errs: Vec<&PreconditionWarning> = warnings
        .iter()
        .filter(|w| w.level == PreconditionLevel::Error && w.field.as_deref() == Some("num_layers"))
        .collect();
    assert!(layer_errs.is_empty());
    let warnings = validate_write_preconditions(&rules, 6, ACTIVE_AREA_NM, BOARD_WIDTH_NM, &d);
    let layer_errs: Vec<&PreconditionWarning> = warnings
        .iter()
        .filter(|w| w.level == PreconditionLevel::Error && w.field.as_deref() == Some("num_layers"))
        .collect();
    assert_eq!(layer_errs.len(), 1, "expected exactly one layer-count error");
    assert!(layer_errs[0].message.contains("6 layer(s)"));
}

#[test]
fn test_validate_layer_match_no_warning() {
    let rules = braid_rules();
    let mut d = empty_diagnostics();
    d.copper_layer_count = 4;
    let warnings = validate_write_preconditions(&rules, 4, ACTIVE_AREA_NM, BOARD_WIDTH_NM, &d);
    let errs: Vec<&PreconditionWarning> = warnings
        .iter()
        .filter(|w| w.level == PreconditionLevel::Error && w.field.as_deref() == Some("num_layers"))
        .collect();
    assert!(errs.is_empty());
}

#[test]
fn test_validate_zero_layers_is_error() {
    let rules = braid_rules();
    let warnings = validate_write_preconditions(&rules, 0, ACTIVE_AREA_NM, BOARD_WIDTH_NM, &empty_diagnostics());
    let errs = errors(&warnings);
    assert!(!errs.is_empty());
    assert!(errs[0].message.to_lowercase().contains("num_layers"));
}

#[test]
fn test_validate_active_area_too_wide_warns() {
    let rules = braid_rules();
    let mut d = empty_diagnostics();
    d.board_x_min_nm = 0;
    d.board_x_max_nm = 100 * MM;
    let warnings = validate_write_preconditions(&rules, 4, 500 * MM, BOARD_WIDTH_NM, &d);
    let warns: Vec<&PreconditionWarning> =
        warnings.iter().filter(|w| w.field.as_deref() == Some("active_area_length_m")).collect();
    assert!(!warns.is_empty(), "expected active_area warning");
    assert!(warns[0].message.contains("500"));
    assert!(warns[0].message.contains("100"));
}

#[test]
fn test_validate_active_area_fits_no_warning() {
    let rules = braid_rules();
    let mut d = empty_diagnostics();
    d.board_x_min_nm = 0;
    d.board_x_max_nm = 250 * MM;
    let warnings = validate_write_preconditions(&rules, 4, 195 * MM, BOARD_WIDTH_NM, &d);
    let warns: Vec<&PreconditionWarning> =
        warnings.iter().filter(|w| w.field.as_deref() == Some("active_area_length_m")).collect();
    assert!(warns.is_empty());
}

#[test]
fn test_validate_board_dimensions_unknown_no_warning() {
    let rules = braid_rules();
    let d = empty_diagnostics();
    let warnings = validate_write_preconditions(&rules, 4, 500 * MM, 50 * MM, &d);
    let dim_warns: Vec<&PreconditionWarning> = warnings
        .iter()
        .filter(|w| w.field.as_deref() == Some("active_area_length_m") || w.field.as_deref() == Some("board_width_m"))
        .collect();
    assert!(dim_warns.is_empty());
}

#[test]
fn test_validate_zero_or_negative_design_rules_errors() {
    let mut rules = braid_rules();
    rules.min_space_nm = 0;
    let warnings = validate_write_preconditions(&rules, 4, ACTIVE_AREA_NM, BOARD_WIDTH_NM, &empty_diagnostics());
    let errs = errors(&warnings);
    assert!(!errs.is_empty(), "invalid design rules must produce an error");
    assert_eq!(errs[0].field.as_deref(), Some("design_rules"));
}

#[test]
fn layer_mismatch_message_text() {
    let mut d = empty_diagnostics();
    d.copper_layer_count = 2;
    let warnings = validate_write_preconditions(&braid_rules(), 4, ACTIVE_AREA_NM, BOARD_WIDTH_NM, &d);
    assert_eq!(warnings.len(), 1);
    assert_eq!(
        warnings[0].message,
        "Your config requests 4 layer(s) but the board 'test.kicad_pcb' only has 2. Reduce num_layers to 2 to match the board."
    );
}

#[test]
fn board_width_too_tall_warns() {
    let mut d = empty_diagnostics();
    d.board_x_max_nm = 700 * MM;
    d.board_y_max_nm = 10 * MM;
    let warnings = validate_write_preconditions(&braid_rules(), 0, ACTIVE_AREA_NM, BOARD_WIDTH_NM, &d);
    let w: Vec<&PreconditionWarning> = warnings.iter().filter(|w| w.field.as_deref() == Some("board_width_m")).collect();
    assert_eq!(w.len(), 1);
    assert_eq!(w[0].level, PreconditionLevel::Warning);
}

#[test]
fn warning_constructors_set_level_field_and_message() {
    let w = PreconditionWarning::info(Some("f"), "m");
    assert_eq!(w.level, PreconditionLevel::Info);
    assert_eq!(w.field.as_deref(), Some("f"));
    assert_eq!(w.message, "m");
    let w = PreconditionWarning::warn(None, "x");
    assert_eq!(w.level, PreconditionLevel::Warning);
    assert!(w.field.is_none());
    let w = PreconditionWarning::error(Some("g"), "y");
    assert_eq!(w.level, PreconditionLevel::Error);
    let w = PreconditionWarning::new(PreconditionLevel::Warning, Some("h"), "z");
    assert_eq!(w.level, PreconditionLevel::Warning);
    assert_eq!(w.message, "z");
}

#[test]
fn millimetre_text_rounds_exact_halves_to_even() {
    let mut s = String::new();
    push_mm(&mut s, 12_250_000, 1);
    s.push(' ');
    push_mm(&mut s, 12_350_000, 1);
    s.push(' ');
    push_mm(&mut s, -12_250_000, 1);
    s.push(' ');
    push_mm(&mut s, 12_250_001, 1);
    s.push(' ');
    push_mm(&mut s, 1_000_500, 3);
    assert_eq!(s, "12.2 12.4 -12.2 12.3 1.000");
}
