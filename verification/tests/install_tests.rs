//! Character-folder naming rules and the choice of character.
use lgo::cache::default_cache_path;
use lgo::install::{
    data_dir, data_path, embedded_character_any, gear_dir, join_path, reports_dir, gear_folders_from_entries, resolve_report_character, resolve_slots_target,
    select_character, strip_gear_suffix, GearFolder, ResolveSlotsTarget,
};
use lgo::slot_resolver::{bookmarklet_stats_path, canonical_gear_path};
use std::path::{Path, PathBuf};

fn file_name_of(path: &str) -> Option<&str> {
    Path::new(path).file_name().and_then(|n| n.to_str())
}

fn report_character(path: &str, field: Option<&str>) -> Result<String, String> {
    resolve_report_character(file_name_of(path), path, field)
}

fn folder(character: &str) -> GearFolder {
    GearFolder { character: character.to_string(), path: format!("/install/{}_Gear", character) }
}

#[test]
fn resolve_report_character_prefers_field_then_filename() {
    assert_eq!(report_character("whatever.toml", Some("Thalya")).unwrap(), "Thalya");
    assert_eq!(report_character("lgo_Bilbo_gearReady.toml", None).unwrap(), "Bilbo");
    assert!(report_character("mystery.toml", None).is_err());
}

#[test]
fn report_character_field_is_trimmed_and_blank_field_falls_back() {
    assert_eq!(report_character("x.toml", Some("  Thalya \t")).unwrap(), "Thalya");
    assert_eq!(report_character("lgo_Bilbo_gearReady.toml", Some("   ")).unwrap(), "Bilbo");
    let err = report_character("mystery.toml", Some("")).unwrap_err();
    assert!(err.starts_with("Cannot determine the character for report routing from mystery.toml."));
}

#[test]
fn gear_suffix_is_matched_case_insensitively() {
    assert_eq!(strip_gear_suffix("Thalya_Gear").as_deref(), Some("Thalya"));
    assert_eq!(strip_gear_suffix("Thalya_GEAR").as_deref(), Some("Thalya"));
    assert_eq!(strip_gear_suffix("_Gear"), None);
    assert_eq!(strip_gear_suffix("Thalya"), None);
}

#[test]
fn embedded_character_recognises_every_gear_file() {
    assert_eq!(embedded_character_any("lgo_Thalya_gearStats.toml").as_deref(), Some("Thalya"));
    assert_eq!(embedded_character_any("LGO_Bilbo_GEARREADY.TOML").as_deref(), Some("Bilbo"));
    assert_eq!(embedded_character_any("lgo_Frodo_builds.toml").as_deref(), Some("Frodo"));
    assert_eq!(embedded_character_any("lgo__builds.toml"), None);
    assert_eq!(embedded_character_any("notes.txt"), None);
}

#[test]
fn folders_are_found_and_sorted_ignoring_case() {
    let entries = vec![
        ("zeta_Gear".to_string(), "/i/zeta_Gear".to_string()),
        ("Data".to_string(), "/i/Data".to_string()),
        ("Alpha_gear".to_string(), "/i/Alpha_gear".to_string()),
        ("beta_GEAR".to_string(), "/i/beta_GEAR".to_string()),
    ];
    let folders = gear_folders_from_entries(&entries);
    let names: Vec<&str> = folders.iter().map(|f| f.character.as_str()).collect();
    assert_eq!(names, vec!["Alpha", "beta", "zeta"]);
    assert_eq!(folders[0].path, "/i/Alpha_gear");
}

#[test]
fn single_folder_auto_selects() {
    let sel = select_character("/install", &[folder("Thalya")], &[None], None).expect("select");
    assert_eq!(sel.character, "Thalya");
    assert_eq!(sel.gear_dir, "/install/Thalya_Gear");
    assert!(sel.note.is_none());
}

#[test]
fn requested_matches_case_insensitively() {
    let sel = select_character("/install", &[folder("Thalya")], &[None], Some("THALYA")).expect("select");
    assert_eq!(sel.character, "Thalya");
}

#[test]
fn requested_missing_errors() {
    let err = select_character("/install", &[folder("Thalya")], &[None], Some("Legolas")).unwrap_err();
    assert!(err.contains("Legolas_Gear"), "got: {err}");
}

#[test]
fn zero_folders_errors() {
    let err = select_character("/install", &[], &[], None).unwrap_err();
    assert!(err.starts_with("Install directory:\n/install\n"), "got: {err}");
    assert!(err.contains("No character gear folders"), "got: {err}");
}

#[test]
fn multiple_folders_pick_recent_gear_ready() {
    let folders = [folder("Alpha"), folder("Beta")];
    let sel = select_character("/install", &folders, &[Some(100), Some(200)], None).expect("select");
    assert_eq!(sel.character, "Beta");
    assert_eq!(sel.note.as_deref(), Some("Using character: Beta (most recently updated)"));
    let sel = select_character("/install", &folders, &[Some(300), None], None).expect("select");
    assert_eq!(sel.character, "Alpha");
    let sel = select_character("/install", &folders, &[None, None], None).expect("select");
    assert_eq!(sel.character, "Beta");
}

#[test]
fn resolve_slots_zero_message_starts_with_install_directory() {
    let err = resolve_slots_target("/install", &[], &[], None).unwrap_err();
    assert!(err.starts_with("Install directory:\n/install\n"), "got: {err}");
    assert!(err.contains("No gear folders or loose gearStats files found"), "got: {err}");
}

#[test]
fn resolve_slots_creates_missing_requested_folder() {
    match resolve_slots_target("/install", &[folder("Thalya")], &[None], Some("Bilbo")).unwrap() {
        ResolveSlotsTarget::Create(c) => assert_eq!(c, "Bilbo"),
        other => panic!("expected create, got {:?}", other),
    }
    match resolve_slots_target("/install", &[folder("Thalya")], &[None], Some("thalya")).unwrap() {
        ResolveSlotsTarget::Existing(sel) => assert_eq!(sel.character, "Thalya"),
        other => panic!("expected existing, got {:?}", other),
    }
}

#[test]
fn reports_dir_is_nested_in_gear_folder() {
    let install = Path::new("/install");
    assert_eq!(
        PathBuf::from(reports_dir("/install", "Thalya")),
        install.join("Thalya_Gear").join("Thalya_Reports")
    );
}

#[test]
fn gear_dir_appends_gear_suffix() {
    assert_eq!(gear_dir("/install", "Thalya"), "/install/Thalya_Gear");
    assert_eq!(gear_dir("/install/", "Thalya"), "/install/Thalya_Gear");
    assert_eq!(gear_dir("", "Thalya"), "Thalya_Gear");
}

#[test]
fn join_path_follows_path_join() {
    for (base, part) in [("a", "b"), ("a/", "b"), ("", "b"), ("a", "/abs"), ("a", ""), ("/", "x")] {
        assert_eq!(PathBuf::from(join_path(base, part)), Path::new(base).join(part), "{base} + {part}");
    }
}

#[test]
fn data_paths_live_under_the_data_folder() {
    assert_eq!(data_dir("/opt/lgo"), "/opt/lgo/data");
    assert_eq!(data_path("/opt/lgo", "lgo_virtues.json"), "/opt/lgo/data/lgo_virtues.json");
}

#[test]
fn default_cache_path_uses_plugindata_dir_or_current_dir() {
    assert_eq!(default_cache_path(Some("/plug")), "/plug/lgo_cache.json");
    assert_eq!(default_cache_path(None), "./lgo_cache.json");
}

#[test]
fn gear_file_paths_embed_the_character() {
    assert_eq!(bookmarklet_stats_path("/g", "Thalya"), "/g/lgo_Thalya_gearStats.toml");
    assert_eq!(canonical_gear_path("/g", "Thalya"), "/g/lgo_Thalya_gearReady.toml");
}

#[test]
fn files_named_for_other_characters_are_warned_about() {
    let names: Vec<String> = [
        "lgo_Thalya_gearReady.toml",
        "lgo_Zed_gearStats.toml",
        "lgo_alpha_builds.toml",
        "LGO_zed_gearReady.toml",
        "notes.txt",
        "lgo_THALYA_builds.toml",
    ]
    .iter()
    .map(|s| s.to_string())
    .collect();
    assert_eq!(
        lgo::install::name_mismatch_warning("/g/Thalya_Gear", &names, "thalya"),
        Some(
            "WARNING: gear folder /g/Thalya_Gear is for character 'thalya' but contains files named for: Zed, alpha. Proceeding with the folder name 'thalya'; rename the folder or the files if this is wrong."
                .to_string()
        )
    );
    let clean: Vec<String> = vec!["lgo_Thalya_gearReady.toml".to_string()];
    assert_eq!(lgo::install::name_mismatch_warning("/g", &clean, "Thalya"), None);
}
