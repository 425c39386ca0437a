//! Command-line parsing: verbs, aliases, options, goals and report routing.
use lgo::cli::{
    extract_character_segment_from_canonical_gear_filename, format_stat_list, parse_command,
    resolve_report_character, CliParseError, Command,
};
use std::path::Path;

/// The final component of a path, as the caller hands it over.
fn file_name_of(path: &str) -> &str {
    Path::new(path).file_name().and_then(|n| n.to_str()).expect("path has a file name")
}


fn s(parts: &[&str]) -> Vec<String> {
    parts.iter().map(|p| p.to_string()).collect()
}

#[test]
fn help_tokens_parse_as_help_command() {
    for token in ["--help", "-h", "help"] {
        let cmd = parse_command(&s(&[token])).expect("help token should parse");
        assert!(matches!(cmd, Command::Help));
    }
}

#[test]
fn statlist_switch_parses_as_statlist_command() {
    let cmd = parse_command(&s(&["--statlist"])).expect("--statlist should parse");
    assert!(matches!(cmd, Command::StatList));
}

#[test]
fn statlist_switch_is_case_insensitive() {
    let cmd = parse_command(&s(&["--StAtLiSt"])).expect("--StAtLiSt should parse");
    assert!(matches!(cmd, Command::StatList));
}

#[test]
fn help_flag_after_any_verb_parses_as_help() {
    for cmdline in [
        vec!["optimize", "--help"],
        vec!["resolve-slots", "-h"],
        vec!["scrap-gear", "--help"],
        vec!["base-stats", "-h"],
        vec!["build-db", "--help"],
        vec!["optimize", "tm:1", "--help"],
    ] {
        let cmd = parse_command(&s(&cmdline)).expect("help should parse");
        assert!(matches!(cmd, Command::Help), "failed for {:?}", cmdline);
    }
}

#[test]
fn statlist_output_contains_headers_and_canonical_pairs() {
    let output = format_stat_list();
    assert!(output.contains("Stat Abbreviation"));
    assert!(output.contains("Stat Name"));
    assert!(output.contains("ml"));
    assert!(output.contains("Morale"));
    assert!(output.contains("tm"));
    assert!(output.contains("Tactical Mastery"));
    assert!(output.contains("tt"));
    assert!(output.contains("Tactical Mitigation"));
}

#[test]
fn optimize_verb_is_case_insensitive_across_aliases() {
    for verb in ["optimize", "Optimize", "OPTIMIZE", "--Optimize", "-O"] {
        let cmd = parse_command(&s(&[verb, "tm:1"])).expect("optimize alias should parse");
        match cmd {
            Command::Optimize(cli) => assert_eq!(cli.goals.len(), 1),
            _ => panic!("expected optimize command"),
        }
    }
}

#[test]
fn base_stats_verb_is_case_insensitive_across_aliases() {
    for verb in ["base-stats", "Base-Stats", "BASE-STATS", "--Base-Stats"] {
        let cmd = parse_command(&s(&[verb])).expect("base-stats alias should parse");
        assert!(matches!(cmd, Command::BaseStats(_)));
    }
}

#[test]
fn base_stats_accepts_character_and_file_flags() {
    let cmd = parse_command(&s(&[
        "base-stats",
        "--character",
        "Thalya",
        "--file",
        "my/gear.toml",
    ]))
    .expect("base-stats flags should parse");
    match cmd {
        Command::BaseStats(cli) => {
            assert_eq!(cli.character.as_deref(), Some("Thalya"));
            assert_eq!(cli.file, Some("my/gear.toml".to_string()));
        }
        _ => panic!("expected base-stats command"),
    }

    let cmd = parse_command(&s(&["base-stats", "-c", "Thalya", "-f", "gear.toml"]))
        .expect("base-stats short flags should parse");
    match cmd {
        Command::BaseStats(cli) => {
            assert_eq!(cli.character.as_deref(), Some("Thalya"));
            assert_eq!(cli.file, Some("gear.toml".to_string()));
        }
        _ => panic!("expected base-stats command"),
    }
}

#[test]
fn base_stats_flags_are_case_insensitive_and_preserve_values() {
    let cmd = parse_command(&s(&[
        "base-stats",
        "--ChArAcTeR",
        "ThAlYa",
        "--FiLe",
        "MiXeD/Path.toml",
    ]))
    .expect("base-stats mixed-case flags should parse");
    match cmd {
        Command::BaseStats(cli) => {
            assert_eq!(cli.character.as_deref(), Some("ThAlYa"));
            assert_eq!(cli.file, Some("MiXeD/Path.toml".to_string()));
        }
        _ => panic!("expected base-stats command"),
    }

    let cmd = parse_command(&s(&[
        "base-stats",
        "-C",
        "CharName",
        "-F",
        "Case/Path.toml",
    ]))
    .expect("base-stats mixed-case short flags should parse");
    match cmd {
        Command::BaseStats(cli) => {
            assert_eq!(cli.character.as_deref(), Some("CharName"));
            assert_eq!(cli.file, Some("Case/Path.toml".to_string()));
        }
        _ => panic!("expected base-stats command"),
    }
}

#[test]
fn base_stats_rejects_positional_arguments() {
    let err = parse_command(&s(&["base-stats", "tm:450000"])).unwrap_err();
    match err {
        CliParseError::Message(msg) => {
            assert_eq!(msg, "'base-stats' takes no positional arguments")
        }
        _ => panic!("expected message parse error"),
    }
}

#[test]
fn resolve_slots_verb_is_case_insensitive_across_aliases() {
    for verb in [
        "resolve-slots",
        "Resolve-Slots",
        "RESOLVE-SLOTS",
        "--Resolve-Slots",
        "-R",
    ] {
        let cmd = parse_command(&s(&[verb])).expect("resolve alias should parse");
        assert!(matches!(cmd, Command::ResolveSlots(_)));
    }
}

#[test]
fn old_style_goal_invocation_is_missing_subcommand_error() {
    let err = parse_command(&s(&["tm:450000", "cr:350000"])).unwrap_err();
    assert!(matches!(err, CliParseError::MissingSubcommand));
}

#[test]
fn resolve_slots_rejects_positional_arguments() {
    let err = parse_command(&s(&["resolve-slots", "tm:450000"])).unwrap_err();
    match err {
        CliParseError::Message(msg) => {
            assert_eq!(msg, "'resolve-slots' takes no positional arguments")
        }
        _ => panic!("expected message parse error"),
    }
}

#[test]
fn resolve_slots_accepts_shared_flags_only() {
    let cmd = parse_command(&s(&["resolve-slots", "--character", "Thalya"]))
        .expect("resolve-slots flags should parse");
    match cmd {
        Command::ResolveSlots(cli) => {
            assert_eq!(cli.character.as_deref(), Some("Thalya"));
            assert!(!cli.force);
        }
        _ => panic!("expected resolve-slots command"),
    }
}

#[test]
fn resolve_slots_flags_are_case_insensitive_and_preserve_values() {
    let cmd = parse_command(&s(&["resolve-slots", "--ChArAcTeR", "ThAlYa", "--FoRcE"]))
        .expect("resolve-slots mixed-case flags should parse");
    match cmd {
        Command::ResolveSlots(cli) => {
            assert_eq!(cli.character.as_deref(), Some("ThAlYa"));
            assert!(cli.force);
        }
        _ => panic!("expected resolve-slots command"),
    }

    let cmd = parse_command(&s(&["resolve-slots", "-C", "RaWName", "-F"]))
        .expect("resolve-slots mixed-case short flags should parse");
    match cmd {
        Command::ResolveSlots(cli) => {
            assert_eq!(cli.character.as_deref(), Some("RaWName"));
            assert!(cli.force);
        }
        _ => panic!("expected resolve-slots command"),
    }
}

#[test]
fn resolve_slots_accepts_force_flag() {
    for token in ["--force", "-f"] {
        let cmd = parse_command(&s(&["resolve-slots", token])).expect("must parse");
        match cmd {
            Command::ResolveSlots(cli) => {
                assert!(cli.force, "force should be set for {}", token)
            }
            _ => panic!("expected resolve-slots"),
        }
    }
}

#[test]
fn build_db_verb_is_case_insensitive_across_aliases() {
    for verb in ["build-db", "Build-Db", "BUILD-DB", "--Build-Db", "-B"] {
        let cmd = parse_command(&s(&[verb])).expect("build-db alias should parse");
        assert!(matches!(cmd, Command::BuildDb(_)));
    }
}

#[test]
fn build_db_rejects_positional_arguments() {
    let err = parse_command(&s(&["build-db", "tm:450000"])).unwrap_err();
    match err {
        CliParseError::Message(msg) => {
            assert_eq!(msg, "'build-db' takes no positional arguments")
        }
        _ => panic!("expected message parse error"),
    }
}

#[test]
fn build_db_accepts_path_flags() {
    let cmd = parse_command(&s(&[
        "build-db",
        "--items",
        "my/items.xml",
        "--out",
        "my/out.json",
    ]))
    .expect("build-db path flags should parse");
    match cmd {
        Command::BuildDb(cli) => {
            assert_eq!(cli.items, Some("my/items.xml".to_string()));
            assert_eq!(cli.out, Some("my/out.json".to_string()));
        }
        _ => panic!("expected build-db command"),
    }
}

#[test]
fn build_db_flags_are_case_insensitive_and_preserve_values() {
    let cmd = parse_command(&s(&[
        "build-db",
        "--ItEmS",
        "MiXeD/Input.xml",
        "--OuT",
        "MiXeD/Output.json",
    ]))
    .expect("build-db mixed-case flags should parse");
    match cmd {
        Command::BuildDb(cli) => {
            assert_eq!(cli.items, Some("MiXeD/Input.xml".to_string()));
            assert_eq!(cli.out, Some("MiXeD/Output.json".to_string()));
        }
        _ => panic!("expected build-db command"),
    }
}

#[test]
fn optimize_file_flag_sets_toml_path() {
    let cmd = parse_command(&s(&["optimize", "--file", "some.toml", "tm:1"]))
        .expect("optimize --file should parse");
    match cmd {
        Command::Optimize(cli) => {
            assert_eq!(cli.file, Some("some.toml".to_string()));
            assert!(cli.builds_file.is_none());
            assert!(cli.build.is_none());
            assert!(cli.save_build.is_none());
            assert!(!cli.to_file);
            assert_eq!(cli.goals.len(), 1);
        }
        _ => panic!("expected optimize command"),
    }
}

#[test]
fn optimize_file_short_flag_sets_toml_path() {
    let cmd = parse_command(&s(&["optimize", "-f", "gear.toml", "tm:1"]))
        .expect("optimize -f should parse");
    match cmd {
        Command::Optimize(cli) => {
            assert_eq!(cli.file, Some("gear.toml".to_string()));
        }
        _ => panic!("expected optimize command"),
    }
}

#[test]
fn optimize_file_and_character_can_be_combined() {
    let cmd = parse_command(&s(&[
        "optimize",
        "--file",
        "my/gear.toml",
        "--character",
        "Thalya",
        "tm:1",
    ]))
    .expect("optimize --file + --character should parse");
    match cmd {
        Command::Optimize(cli) => {
            assert_eq!(cli.file, Some("my/gear.toml".to_string()));
            assert_eq!(cli.character.as_deref(), Some("Thalya"));
        }
        _ => panic!("expected optimize command"),
    }
}

#[test]
fn optimize_accepts_save_build_flag() {
    let cmd = parse_command(&s(&[
        "optimize",
        "--save-build",
        "healer",
        "--builds-file",
        "builds.toml",
        "oh:200000",
        "cr:350000",
    ]))
    .expect("optimize --save-build should parse");
    match cmd {
        Command::Optimize(cli) => {
            assert_eq!(cli.save_build.as_deref(), Some("healer"));
            assert_eq!(cli.builds_file, Some("builds.toml".to_string()));
            assert!(!cli.to_file);
            assert_eq!(cli.goals.len(), 2);
            assert!(cli.build.is_none());
        }
        _ => panic!("expected optimize command"),
    }
}

#[test]
fn optimize_accepts_to_file_flag() {
    let cmd = parse_command(&s(&["optimize", "--to-file", "tm:1"]))
        .expect("optimize --to-file should parse");
    match cmd {
        Command::Optimize(cli) => {
            assert!(cli.to_file);
            assert_eq!(cli.goals.len(), 1);
        }
        _ => panic!("expected optimize command"),
    }
}

#[test]
fn optimize_to_file_can_be_combined_with_other_flags() {
    let cmd = parse_command(&s(&[
        "optimize",
        "--file",
        "gear.toml",
        "--save-build",
        "healer",
        "--to-file",
        "tm:1",
    ]))
    .expect("optimize combined flags should parse");
    match cmd {
        Command::Optimize(cli) => {
            assert_eq!(cli.file, Some("gear.toml".to_string()));
            assert_eq!(cli.save_build.as_deref(), Some("healer"));
            assert!(cli.to_file);
            assert_eq!(cli.goals.len(), 1);
        }
        _ => panic!("expected optimize command"),
    }
}

#[test]
fn optimize_flags_are_case_insensitive_and_preserve_values() {
    let cmd = parse_command(&s(&[
        "optimize",
        "--ChArAcTeR",
        "ThAlYa",
        "--FiLe",
        "MiXeD/Path.toml",
        "--BuIlDs-FiLe",
        "BuIlDs/MiXeD.toml",
        "--SaVe-BuIlD",
        "HeAlEr Build",
        "--to-File",
        "tm:1",
    ]))
    .expect("optimize mixed-case flags should parse");
    match cmd {
        Command::Optimize(cli) => {
            assert_eq!(cli.character.as_deref(), Some("ThAlYa"));
            assert_eq!(cli.file, Some("MiXeD/Path.toml".to_string()));
            assert_eq!(cli.builds_file, Some("BuIlDs/MiXeD.toml".to_string()));
            assert_eq!(cli.save_build.as_deref(), Some("HeAlEr Build"));
            assert!(cli.to_file);
            assert_eq!(cli.goals.len(), 1);
        }
        _ => panic!("expected optimize command"),
    }

    let cmd = parse_command(&s(&[
        "optimize",
        "-C",
        "MiXeDName",
        "-F",
        "Case/Path.toml",
        "tm:1",
    ]))
    .expect("optimize mixed-case short flags should parse");
    match cmd {
        Command::Optimize(cli) => {
            assert_eq!(cli.character.as_deref(), Some("MiXeDName"));
            assert_eq!(cli.file, Some("Case/Path.toml".to_string()));
            assert_eq!(cli.goals.len(), 1);
        }
        _ => panic!("expected optimize command"),
    }
}

#[test]
fn optimize_accepts_build_flag_without_goals() {
    let cmd = parse_command(&s(&[
        "optimize",
        "--build",
        "Healer",
        "--save-build",
        "Copy",
    ]))
    .expect("optimize --build should parse");
    match cmd {
        Command::Optimize(cli) => {
            assert_eq!(cli.build.as_deref(), Some("Healer"));
            assert_eq!(cli.save_build.as_deref(), Some("Copy"));
            assert!(cli.goals.is_empty());
        }
        _ => panic!("expected optimize command"),
    }
}

#[test]
fn optimize_build_flag_is_case_insensitive_and_preserves_build_name() {
    let cmd = parse_command(&s(&[
        "optimize",
        "--BuIlD",
        "HeAlEr Build",
        "--BuIlDs-FiLe",
        "MiXeD/Builds.toml",
        "--SaVe-BuIlD",
        "CoPy Build",
    ]))
    .expect("optimize mixed-case build flags should parse");
    match cmd {
        Command::Optimize(cli) => {
            assert_eq!(cli.build.as_deref(), Some("HeAlEr Build"));
            assert_eq!(cli.builds_file, Some("MiXeD/Builds.toml".to_string()));
            assert_eq!(cli.save_build.as_deref(), Some("CoPy Build"));
            assert!(cli.goals.is_empty());
        }
        _ => panic!("expected optimize command"),
    }
}

#[test]
fn optimize_rejects_build_with_goals() {
    let err = parse_command(&s(&["optimize", "--build", "healer", "oh:1"]))
        .expect_err("must reject goals with --build");
    match err {
        CliParseError::Message(msg) => {
            assert_eq!(msg, "Cannot supply stat goals when using --build <name>.")
        }
        _ => panic!("expected message parse error"),
    }
}

#[test]
fn optimize_rejects_save_build_without_goals() {
    let err = parse_command(&s(&["optimize", "--save-build", "healer"]))
        .expect_err("must reject save-build without goals");
    match err {
        CliParseError::Message(msg) => {
            assert_eq!(msg, "--save-build requires at least one stat goal.")
        }
        _ => panic!("expected message parse error"),
    }
}

#[test]
fn optimize_without_file_has_none_file() {
    let cmd =
        parse_command(&s(&["optimize", "tm:1"])).expect("optimize without --file must parse");
    match cmd {
        Command::Optimize(cli) => {
            assert!(cli.file.is_none(), "--file must be None when not supplied");
        }
        _ => panic!("expected optimize command"),
    }
}

#[test]
fn scrap_gear_verb_is_case_insensitive_across_aliases() {
    for verb in [
        "scrap-gear",
        "Scrap-Gear",
        "SCRAP-GEAR",
        "scrapgear",
        "--Scrap-Gear",
        "-S",
    ] {
        let cmd = parse_command(&s(&[verb])).expect("scrap-gear alias should parse");
        assert!(matches!(cmd, Command::ScrapGear(_)));
    }
}

#[test]
fn scrap_gear_accepts_character_and_file_flags() {
    let cmd = parse_command(&s(&[
        "scrap-gear",
        "--character",
        "Thalya",
        "--file",
        "gear.toml",
        "--builds-file",
        "builds.toml",
    ]))
    .expect("scrap-gear flags should parse");
    match cmd {
        Command::ScrapGear(cli) => {
            assert_eq!(cli.character.as_deref(), Some("Thalya"));
            assert_eq!(cli.file, Some("gear.toml".to_string()));
            assert_eq!(cli.builds_file, Some("builds.toml".to_string()));
        }
        _ => panic!("expected scrap-gear command"),
    }
}

#[test]
fn scrap_gear_flags_are_case_insensitive_and_preserve_values() {
    let cmd = parse_command(&s(&[
        "scrap-gear",
        "--ChArAcTeR",
        "ThAlYa",
        "--FiLe",
        "MiXeD/Gear.toml",
        "--BuIlDs-FiLe",
        "MiXeD/Builds.toml",
    ]))
    .expect("scrap-gear mixed-case flags should parse");
    match cmd {
        Command::ScrapGear(cli) => {
            assert_eq!(cli.character.as_deref(), Some("ThAlYa"));
            assert_eq!(cli.file, Some("MiXeD/Gear.toml".to_string()));
            assert_eq!(cli.builds_file, Some("MiXeD/Builds.toml".to_string()));
        }
        _ => panic!("expected scrap-gear command"),
    }

    let cmd = parse_command(&s(&["scrap-gear", "-C", "Name", "-F", "Case/Path.toml"]))
        .expect("scrap-gear mixed-case short flags should parse");
    match cmd {
        Command::ScrapGear(cli) => {
            assert_eq!(cli.character.as_deref(), Some("Name"));
            assert_eq!(cli.file, Some("Case/Path.toml".to_string()));
        }
        _ => panic!("expected scrap-gear command"),
    }
}

#[test]
fn scrap_gear_rejects_positional_arguments() {
    let err = parse_command(&s(&["scrap-gear", "extra"])).expect_err("must reject positional");
    match err {
        CliParseError::Message(msg) => {
            assert_eq!(msg, "'scrap-gear' takes no positional arguments")
        }
        _ => panic!("expected message parse error"),
    }
}

#[test]
fn extracts_character_segment_from_canonical_gear_filename() {
    assert_eq!(
        extract_character_segment_from_canonical_gear_filename(file_name_of("/tmp/lgo_Thalya_gearReady.toml")),
        Some("Thalya".to_string())
    );
    assert_eq!(
        extract_character_segment_from_canonical_gear_filename(file_name_of("/tmp/lgo_THALYA_GEARREADY.toml")),
        Some("THALYA".to_string())
    );
    assert_eq!(
        extract_character_segment_from_canonical_gear_filename(file_name_of("/tmp/gear.toml")),
        None
    );
}

#[test]
fn report_character_fallback_precedence_matches_optimize_logic() {
    assert_eq!(
        resolve_report_character(
            Some("FromToml".to_string()),
            Some("FromCli"),
            Some("AutoDiscovered".to_string())
        ),
        "FromToml"
    );
    assert_eq!(
        resolve_report_character(None, Some("FromCli"), Some("AutoDiscovered".to_string())),
        "FromCli"
    );
    assert_eq!(
        resolve_report_character(None, None, Some("AutoDiscovered".to_string())),
        "AutoDiscovered"
    );
    assert_eq!(resolve_report_character(None, None, None), "Unknown");
}
