//! Saved build profiles: reading, updating and writing.
use lgo::build_profiles::{SavedBuild, SavedBuilds};
use lgo::stat::{Stat, StatGoal};

fn fake_path() -> &'static str {
    "/tmp/lgo_test_builds.toml"
}

#[test]
fn parses_saved_builds() {
    let builds = SavedBuilds::from_toml_str(
        r#"
[builds.healer]
goals = ["oh:200000", "cr:350000", "ml:0"]

[builds.tank]
goals = ["tt:450000", "ml:300000", "pt:0"]
"#,
        fake_path(),
    )
    .expect("must parse");

    assert_eq!(builds.builds().len(), 2);
    assert_eq!(builds.builds()[0].name, "healer");
    assert_eq!(builds.builds()[0].goals[0].stat, Stat::OutgoingHealing);
    assert_eq!(builds.builds()[1].goals[2].stat, Stat::PhysicalMitigation);
}

#[test]
fn rejects_duplicate_case_insensitive_build_names() {
    let err = SavedBuilds::from_toml_str(
        r#"
[builds.Healer]
goals = ["oh:1"]

[builds.healer]
goals = ["oh:2"]
"#,
        fake_path(),
    )
    .expect_err("must reject duplicates");

    assert!(err.contains("Duplicate build names `Healer` and `healer`"));
}

#[test]
fn rejects_invalid_goal_with_build_name_in_message() {
    let err = SavedBuilds::from_toml_str(
        r#"
[builds.healer]
goals = ["bogus:1"]
"#,
        fake_path(),
    )
    .expect_err("must reject invalid goal");

    assert!(err.contains("Invalid goal `bogus:1` in build `healer`"));
}

#[test]
fn rejects_empty_goals_array() {
    let err = SavedBuilds::from_toml_str(
        r#"
[builds.healer]
goals = []
"#,
        fake_path(),
    )
    .expect_err("must reject empty goals");

    assert!(err.contains("Build `healer` has an empty `goals` array."));
}

#[test]
fn upsert_overwrites_case_insensitively_and_preserves_new_display_name() {
    let mut builds = SavedBuilds::from_toml_str(
        r#"
[builds.healer]
goals = ["oh:1"]
"#,
        fake_path(),
    )
    .expect("must parse");

    builds.upsert("Healer".to_string(), vec![StatGoal { stat: Stat::CriticalRating, minimum: 2 }]);

    assert_eq!(builds.builds().len(), 1);
    assert_eq!(builds.builds()[0].name, "Healer");
    assert_eq!(builds.builds()[0].goals[0].stat, Stat::CriticalRating);
    assert_eq!(builds.builds()[0].goals[0].minimum, 2);
}

#[test]
fn writes_canonical_goal_strings() {
    let builds = SavedBuilds::from_builds(vec![SavedBuild {
        name: "Healer Build".to_string(),
        goals: vec![
            StatGoal { stat: Stat::OutgoingHealing, minimum: 200000 },
            StatGoal { stat: Stat::Morale, minimum: 0 },
        ],
    }]);

    let written = builds.to_toml_string();
    assert!(written.contains(r#"[builds."Healer Build"]"#));
    assert!(written.contains(r#"goals = ["oh:200000", "ml:0"]"#));
}

#[test]
fn writes_bare_build_name_when_toml_allows_it() {
    let builds = SavedBuilds::from_builds(vec![SavedBuild {
        name: "healer".to_string(),
        goals: vec![StatGoal { stat: Stat::OutgoingHealing, minimum: 200000 }],
    }]);

    let written = builds.to_toml_string();
    assert!(written.contains("[builds.healer]"));
}

#[test]
fn written_builds_read_back_unchanged() {
    let builds = SavedBuilds::from_builds(vec![
        SavedBuild {
            name: "Healer Build".to_string(),
            goals: vec![StatGoal { stat: Stat::OutgoingHealing, minimum: 200000 }],
        },
        SavedBuild {
            name: "tank".to_string(),
            goals: vec![
                StatGoal { stat: Stat::TacticalMitigation, minimum: 450000 },
                StatGoal { stat: Stat::Morale, minimum: -5 },
            ],
        },
    ]);
    let written = builds.to_toml_string();
    let read = SavedBuilds::from_toml_str(&written, fake_path()).expect("written file must parse");
    assert_eq!(read, builds);
}

#[test]
fn rejects_unknown_keys_and_malformed_documents() {
    let err = SavedBuilds::from_toml_str("other = 1\n", fake_path()).unwrap_err();
    assert_eq!(
        err,
        "Unknown top-level key `other` in /tmp/lgo_test_builds.toml. Expected only `[builds.<name>]` entries."
    );
    let err = SavedBuilds::from_toml_str("[builds.a]\ngoals = [\"ml:1\"]\nextra = 2\n", fake_path()).unwrap_err();
    assert_eq!(err, "Unknown key `extra` in build `a`.");
    let err = SavedBuilds::from_toml_str("[builds.a]\n", fake_path()).unwrap_err();
    assert_eq!(err, "Build `a` is missing `goals`.");
    let err = SavedBuilds::from_toml_str("[builds.a]\ngoals = [1]\n", fake_path()).unwrap_err();
    assert_eq!(err, "Build `a` has a non-string goal entry in `goals`.");
    assert!(SavedBuilds::from_toml_str("[[[", fake_path()).unwrap_err().starts_with("Malformed TOML in "));
    assert!(SavedBuilds::from_toml_str("", fake_path()).unwrap().is_empty());
}

#[test]
fn find_ignores_ascii_case() {
    let builds = SavedBuilds::from_builds(vec![SavedBuild {
        name: "Healer".to_string(),
        goals: vec![StatGoal { stat: Stat::OutgoingHealing, minimum: 1 }],
    }]);
    assert_eq!(builds.find("HEALER").map(|b| b.name.as_str()), Some("Healer"));
    assert!(builds.find("tank").is_none());
}
