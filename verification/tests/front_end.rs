use pcbmotorgen::board::WriteCoilsResult;
use pcbmotorgen::diagnostics::{PreconditionLevel, PreconditionWarning};
use pcbmotorgen::ipc::{KicadWriteResult, PreconditionLevelIpc, PreconditionWarningIpc};
use pcbmotorgen::menu::{recent_event_payload, recent_item_id, recent_submenu, RecentEntry, RecentFiles};
use pcbmotorgen::project::{migration_path, project_format_version, FormatVersionField, PROJECT_FORMAT_VERSION};
use pcbmotorgen::plugins::{
    extension_for, plugin_file_name, remove_plugin_entry, routing_pattern_id, slug, trim, upsert_plugin, InstalledPlugin, Platform,
    PluginMetadata,
};

fn recents() -> RecentFiles {
    RecentFiles(vec!["/home/u/a.pcbmg".to_string(), "/home/u/b.pcbmg".to_string()])
}

#[test]
fn recent_payload_resolves_index() {
    assert_eq!(recent_event_payload(&recents(), "menu:open-recent:1"), Some("/home/u/b.pcbmg".to_string()));
    assert_eq!(recent_event_payload(&recents(), "menu:open-recent:0"), Some("/home/u/a.pcbmg".to_string()));
}

#[test]
fn recent_payload_rejects_other_ids() {
    assert_eq!(recent_event_payload(&recents(), "menu:open-recent-empty"), None);
    assert_eq!(recent_event_payload(&recents(), "menu:open-project"), None);
    assert_eq!(recent_event_payload(&recents(), "menu:open-recent:2"), None);
    assert_eq!(recent_event_payload(&recents(), "menu:open-recent:"), None);
    assert_eq!(recent_event_payload(&recents(), "menu:open-recent:x1"), None);
    assert_eq!(recent_event_payload(&recents(), "menu:open-recent:-1"), None);
    assert_eq!(recent_event_payload(&recents(), "menu:open-recent:99999999999999999999999"), None);
}

#[test]
fn recent_payload_accepts_what_parse_accepts() {
    assert_eq!(recent_event_payload(&recents(), "menu:open-recent:+1"), Some("/home/u/b.pcbmg".to_string()));
    assert_eq!(recent_event_payload(&recents(), "menu:open-recent:001"), Some("/home/u/b.pcbmg".to_string()));
}

#[test]
fn recent_item_ids_round_trip() {
    let id = recent_item_id(1);
    assert_eq!(id, "menu:open-recent:1");
    assert_eq!(recent_event_payload(&recents(), &id), Some("/home/u/b.pcbmg".to_string()));
}

#[test]
fn slug_lowercases_and_replaces() {
    assert_eq!(slug("My Plugin-v2.0"), "my_plugin_v2_0");
    assert_eq!(slug("ÄBC"), "_bc");
}

#[test]
fn extension_depends_on_kind_and_platform() {
    assert_eq!(extension_for("python", Platform::Other), "py");
    assert_eq!(extension_for("native", Platform::MacOs), "dylib");
    assert_eq!(extension_for("native", Platform::Windows), "dll");
    assert_eq!(extension_for("native", Platform::Other), "so");
    assert_eq!(extension_for("wasm", Platform::Other), "bin");
    assert_eq!(plugin_file_name("Wave Gen", "python", Platform::Other), "wave_gen.py");
}

fn plugin(id: &str, file: &str) -> InstalledPlugin {
    InstalledPlugin {
        id: id.into(),
        kind: "python".into(),
        file: file.into(),
        display_name: id.into(),
        author: String::new(),
        version: String::new(),
        description: String::new(),
    }
}

#[test]
fn manifest_entry_falls_back_to_id_for_display_name() {
    let meta = PluginMetadata { display_name: String::new(), author: "me".into(), version: "1".into(), description: "d".into() };
    let p = InstalledPlugin::from_metadata("wave", "python", "wave.py".into(), &meta);
    assert_eq!(p.display_name, "wave");
    assert_eq!(p.author, "me");
    let meta = PluginMetadata { display_name: "Wave".into(), ..meta };
    assert_eq!(InstalledPlugin::from_metadata("wave", "python", "wave.py".into(), &meta).display_name, "Wave");
}

#[test]
fn upsert_replaces_and_appends() {
    let all = vec![plugin("a", "a1"), plugin("b", "b1"), plugin("a", "a2")];
    let out = upsert_plugin(all, plugin("a", "a3"));
    let files: Vec<&str> = out.iter().map(|p| p.file.as_str()).collect();
    assert_eq!(files, vec!["b1", "a3"]);
}

#[test]
fn remove_takes_the_first_match() {
    let (rest, removed) = remove_plugin_entry(vec![plugin("a", "a1"), plugin("b", "b1")], "b");
    assert_eq!(removed.map(|p| p.file), Some("b1".to_string()));
    assert_eq!(rest.len(), 1);
    let (rest, removed) = remove_plugin_entry(rest, "zzz");
    assert!(removed.is_none());
    assert_eq!(rest.len(), 1);
}

#[test]
fn precondition_warning_ipc_copies_fields() {
    let w = PreconditionWarning::warn(Some("num_layers"), "check layers");
    let ipc = PreconditionWarningIpc::from_core(&w);
    assert_eq!(ipc.level, PreconditionLevelIpc::Warning);
    assert_eq!(ipc.field.as_deref(), Some("num_layers"));
    assert_eq!(ipc.message, "check layers");
    let e = PreconditionWarningIpc::from_core(&PreconditionWarning::new(PreconditionLevel::Error, None, "x"));
    assert_eq!(e.level, PreconditionLevelIpc::Error);
}

#[test]
fn write_result_is_labelled_by_dry_run() {
    let r = WriteCoilsResult { items_attempted: 3, items_created: 0, failures: vec![], failure_summary: vec![] };
    let ipc = KicadWriteResult::from_write(r, true);
    assert_eq!(ipc.commit_id, "(dry run - no commit)");
    assert_eq!(ipc.items_attempted, 3);
    let r = WriteCoilsResult { items_attempted: 2, items_created: 2, failures: vec![], failure_summary: vec![] };
    assert_eq!(KicadWriteResult::from_write(r, false).commit_id, "atomic-commit");
}

#[test]
fn missing_format_version_rejected() {
    let err = project_format_version(FormatVersionField::Missing).expect_err("must reject");
    assert!(err.contains("missing format_version"), "got: {err}");
}

#[test]
fn future_format_version_rejected() {
    let err = project_format_version(FormatVersionField::Value(u64::from(PROJECT_FORMAT_VERSION) + 1)).expect_err("must reject");
    assert!(err.contains("newer version of pcbmotorgen"), "got: {err}");
    assert_eq!(
        err,
        "project file was saved by a newer version of pcbmotorgen (format v2); this build supports up to v1. Update the app to open this file."
    );
}

#[test]
fn non_integer_format_version_rejected() {
    let err = project_format_version(FormatVersionField::NotUnsigned).expect_err("must reject");
    assert_eq!(err, "corrupt project file: format_version must be a non-negative integer");
}

#[test]
fn current_format_version_accepted_and_migrates_to_itself() {
    assert_eq!(project_format_version(FormatVersionField::Value(1)), Ok(1));
    assert_eq!(migration_path(1), Ok(PROJECT_FORMAT_VERSION));
}

#[test]
fn version_zero_has_no_migration_path() {
    assert_eq!(project_format_version(FormatVersionField::Value(0)), Ok(0));
    assert_eq!(migration_path(0), Err("no migration path from project format v0".to_string()));
}

#[test]
fn versions_beyond_32_bits_are_newer() {
    let err = project_format_version(FormatVersionField::Value((1u64 << 32) + 1)).expect_err("must reject");
    assert!(err.contains("(format v4294967297)"), "got: {err}");
}

fn item_of(e: &RecentEntry) -> (String, String, bool) {
    match e {
        RecentEntry::Item { id, label, enabled } => (id.clone(), label.clone(), *enabled),
        RecentEntry::Separator => panic!("expected an item"),
    }
}

#[test]
fn empty_recents_show_a_disabled_placeholder() {
    let m = recent_submenu(&[], &[]);
    assert!(!m.enabled);
    assert_eq!(m.entries.len(), 3);
    assert_eq!(item_of(&m.entries[0]), ("menu:open-recent-empty".to_string(), "No Recent Files".to_string(), false));
    assert!(matches!(m.entries[1], RecentEntry::Separator));
    assert_eq!(item_of(&m.entries[2]), ("menu:clear-recent-files".to_string(), "Clear Recent Files".to_string(), false));
}

#[test]
fn recents_become_indexed_entries_that_resolve_back() {
    let paths = vec!["/home/u/a.pmproj".to_string(), "/home/u/b.pmproj".to_string()];
    let labels = vec!["a.pmproj".to_string(), "b.pmproj".to_string()];
    let m = recent_submenu(&paths, &labels);
    assert!(m.enabled);
    assert_eq!(m.entries.len(), 4);
    assert_eq!(item_of(&m.entries[0]), ("menu:open-recent:0".to_string(), "a.pmproj".to_string(), true));
    assert_eq!(item_of(&m.entries[1]), ("menu:open-recent:1".to_string(), "b.pmproj".to_string(), true));
    assert!(matches!(m.entries[2], RecentEntry::Separator));
    assert_eq!(item_of(&m.entries[3]), ("menu:clear-recent-files".to_string(), "Clear Recent Files".to_string(), true));
    let state = RecentFiles(paths.clone());
    for (i, e) in m.entries.iter().take(2).enumerate() {
        let (id, _, _) = item_of(e);
        assert_eq!(recent_event_payload(&state, &id), Some(paths[i].clone()));
    }
}

#[test]
fn blank_routing_pattern_resolves_to_the_default() {
    assert_eq!(routing_pattern_id(""), "infinity-braid");
    assert_eq!(routing_pattern_id(" \t\n"), "infinity-braid");
    assert_eq!(routing_pattern_id("\u{3000}\u{a0}"), "infinity-braid");
}

#[test]
fn routing_pattern_is_trimmed() {
    assert_eq!(routing_pattern_id("  quad-stack \n"), "quad-stack");
    assert_eq!(routing_pattern_id("my pattern"), "my pattern");
}

#[test]
fn trim_agrees_with_str_trim() {
    for s in ["", " ", "a", " a ", "\u{2000}x y\u{205f}", "\r\nz\u{85}", "\u{200b}w\u{200b}", "\u{180e}v"] {
        assert_eq!(trim(s), s.trim(), "input {s:?}");
    }
}
