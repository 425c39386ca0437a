//! Virtue data loading and selection resolution.
use lgo::stat::Stat;
use lgo::virtues::{SelectedVirtues, VirtuesDb, VirtuesError};

fn db_from_json(src: &str) -> VirtuesDb {
    VirtuesDb::from_json_str(src, "<test>").expect("virtue db should parse")
}

fn load_err(src: &str) -> String {
    match VirtuesDb::from_json_str(src, "<test>") {
        Ok(_) => panic!("expected an error"),
        Err(e) => e.message(),
    }
}

fn selection(names: [Option<&str>; 5]) -> SelectedVirtues {
    SelectedVirtues { slots: names.map(|n| n.map(|s| s.to_string())) }
}

#[test]
fn resolve_selected_trims_case_insensitively_and_canonicalizes_names() {
    let db = db_from_json(
        r#"{
            "Wisdom": { "Will": 80, "TacticalMastery": 192 },
            "Zeal":   { "Might": 80, "CriticalRating": 136 }
        }"#,
    );
    let selected = SelectedVirtues {
        slots: [Some(" wisdom ".to_string()), Some("ZEAL".to_string()), None, None, None],
    };

    let resolved = db.resolve_selected(&selected).expect("selection must resolve");
    assert_eq!(resolved.slots[0].as_deref(), Some("Wisdom"));
    assert_eq!(resolved.slots[1].as_deref(), Some("Zeal"));
    assert_eq!(resolved.tracked_stats.get(Stat::TacticalMastery), 192);
    assert_eq!(resolved.tracked_stats.get(Stat::CriticalRating), 136);
    assert_eq!(resolved.base_stats.get(Stat::Will), 80);
    assert_eq!(resolved.base_stats.get(Stat::Might), 80);
}

#[test]
fn resolve_selected_rejects_unknown_virtue_name() {
    let db = db_from_json(r#"{ "Wisdom": { "Will": 80 } }"#);
    let selected = SelectedVirtues { slots: [Some("Insight".to_string()), None, None, None, None] };

    let err = db.resolve_selected(&selected).err().expect("unknown virtue must fail");
    assert_eq!(err.message(), "Unknown Virtue 'Insight'; check the spelling in data/lgo_virtues.json.");
}

#[test]
fn resolve_selected_rejects_duplicate_virtues_case_insensitively() {
    let db = db_from_json(r#"{ "Wisdom": { "Will": 80 } }"#);
    let selected = SelectedVirtues {
        slots: [Some("Wisdom".to_string()), Some(" wisdom ".to_string()), None, None, None],
    };

    let err = db.resolve_selected(&selected).err().expect("duplicate virtue must fail");
    assert_eq!(err.message(), "Duplicate Virtue 'Wisdom'; a character cannot select the same Virtue twice.");
}

#[test]
fn virtue_data_rejects_unknown_stat_keys() {
    assert_eq!(
        load_err(r#"{ "Wisdom": { "WisdomRating": 80 } }"#),
        "virtue data for Virtue 'Wisdom' contains unknown stat 'WisdomRating'"
    );
}

#[test]
fn virtue_data_rejects_a_virtue_that_is_not_an_object() {
    assert_eq!(load_err(r#"{ "Wisdom": 80 }"#), "virtue data for Virtue 'Wisdom' must be an object");
}

#[test]
fn virtue_data_rejects_a_stat_that_is_not_an_integer() {
    assert_eq!(load_err(r#"{ "Wisdom": { "Will": "x" } }"#), "virtue data stat 'Wisdom.Will' must be an integer");
    assert_eq!(load_err(r#"{ "Wisdom": { "Will": 1.5 } }"#), "virtue data stat 'Wisdom.Will' must be an integer");
}

#[test]
fn virtue_data_rejects_names_differing_only_by_case() {
    assert_eq!(
        load_err(r#"{ "Wisdom": { "Will": 1 }, "wisdom": { "Will": 2 } }"#),
        "virtue data contains duplicate Virtue names differing only by case: 'Wisdom' and 'wisdom'"
    );
}

#[test]
fn virtue_data_top_level_must_be_an_object() {
    assert_eq!(load_err("[1, 2]"), "virtue data top level must be an object");
}

#[test]
fn zero_values_are_skipped_even_under_unknown_keys() {
    let db = db_from_json(r#"{ "Justice": { "ICMR": 0, "Morale": 8261, "TacticalMitigation": 4007 } }"#);
    let resolved = db.resolve_selected(&selection([Some("justice"), None, None, None, None])).expect("resolves");
    assert_eq!(resolved.tracked_stats.get(Stat::Morale), 8261);
    assert_eq!(resolved.tracked_stats.get(Stat::TacticalMitigation), 4007);
    assert_eq!(resolved.base_stats.get(Stat::Will), 0);
}

#[test]
fn stats_of_several_virtues_are_summed() {
    let db = db_from_json(
        r#"{
            "Wisdom": { "Will": 80, "TacticalMastery": 192 },
            "Zeal":   { "Will": 20, "TacticalMastery": 8 },
            "Honour": { "Morale": 5 }
        }"#,
    );
    let resolved = db
        .resolve_selected(&selection([None, Some("honour"), Some("  "), Some("Zeal"), Some("WISDOM")]))
        .expect("resolves");
    assert_eq!(resolved.slots[0], None);
    assert_eq!(resolved.slots[1].as_deref(), Some("Honour"));
    assert_eq!(resolved.slots[2], None);
    assert_eq!(resolved.slots[3].as_deref(), Some("Zeal"));
    assert_eq!(resolved.slots[4].as_deref(), Some("Wisdom"));
    assert_eq!(resolved.base_stats.get(Stat::Will), 100);
    assert_eq!(resolved.tracked_stats.get(Stat::TacticalMastery), 200);
    assert_eq!(resolved.tracked_stats.get(Stat::Morale), 5);
}

#[test]
fn empty_selection_resolves_to_nothing() {
    let db = db_from_json(r#"{ "Wisdom": { "Will": 80 } }"#);
    let selected = selection([None, None, None, None, None]);
    assert!(selected.is_empty());
    assert!(!selection([None, None, Some(""), None, None]).is_empty());
    let resolved = db.resolve_selected(&selected).expect("resolves");
    assert!(resolved.slots.iter().all(Option::is_none));
    assert_eq!(resolved.base_stats.get(Stat::Will), 0);
}

#[test]
fn io_and_parse_errors_name_the_file() {
    let io = VirtuesError::Io { path: "data/lgo_virtues.json".to_string(), message: "not found".to_string() };
    assert_eq!(io.message(), "Cannot read virtue data 'data/lgo_virtues.json': not found");
    let parse = VirtuesError::ParseJson { path: "v.json".to_string(), message: "EOF".to_string() };
    assert_eq!(parse.message(), "Cannot parse virtue data 'v.json': EOF");
}

#[test]
fn checked_resolution_refuses_sums_past_i64() {
    let db = db_from_json(r#"{ "Zeal": { "Might": 9223372036854775807 }, "Valour": { "Might": 1 } }"#);
    let fits = selection([Some("Zeal"), None, None, None, None]);
    assert!(db.selection_fits_exec(&fits));
    assert!(matches!(db.resolve_selected_checked(&fits), Some(Ok(_))));
    let over = selection([Some("Zeal"), Some("Valour"), None, None, None]);
    assert!(!db.selection_fits_exec(&over));
    assert!(db.resolve_selected_checked(&over).is_none());
    let unknown = selection([Some("Nope"), Some("Zeal"), Some("Valour"), None, None]);
    assert!(matches!(db.resolve_selected_checked(&unknown), Some(Err(VirtuesError::UnknownSelectedVirtue { .. }))));
    let _ = Stat::Might;
}

#[test]
fn virtue_data_that_is_not_json_or_not_an_object_is_refused() {
    assert!(load_err("{ not json").starts_with("Cannot parse virtue data '<test>': "));
    assert_eq!(load_err("[1, 2]"), "virtue data top level must be an object");
    assert_eq!(load_err(r#"{ "Zeal": 3 }"#), "virtue data for Virtue 'Zeal' must be an object");
    assert!(matches!(VirtuesDb::from_json_str("{}", "x"), Ok(_)));
}

#[test]
fn apply_selected_virtues_adds_tracked_and_base_stats_to_doc() {
    let mut doc = lgo::gearstats::read_stats_str(
        r#"
class = "Lore-master"

[InnateStats]
Will = 10

[Virtues]
Virtue1 = " wisdom "
Virtue2 = "ZEAL"

[[item]]
slot = "Head"
name = "Test Helm"
"#,
        "gear.toml",
    )
    .expect("toml must parse");
    let db = db_from_json(
        r#"{
            "Wisdom": { "Will": 80, "TacticalMastery": 192 },
            "Zeal":   { "Might": 80, "CriticalRating": 136 }
        }"#,
    );
    assert!(db.virtues_fit_doc(&doc));
    db.apply_selected_virtues(&mut doc).expect("virtues must apply");

    assert_eq!(doc.selected_virtues.slots[0].as_deref(), Some("Wisdom"));
    assert_eq!(doc.selected_virtues.slots[1].as_deref(), Some("Zeal"));
    assert_eq!(doc.innate_stats.get(Stat::TacticalMastery), 192);
    assert_eq!(doc.innate_stats.get(Stat::CriticalRating), 136);
    assert_eq!(doc.innate_base_stats.get(Stat::Will), 90);
    assert_eq!(doc.innate_base_stats.get(Stat::Might), 80);
    let projected = doc.projected_base_stats();
    assert_eq!(projected.get(Stat::Will), 90);
    assert_eq!(projected.get(Stat::Might), 80);
    assert_eq!(projected.get(Stat::TacticalMastery), 0);
}

#[test]
fn failed_virtue_application_leaves_the_document_unchanged() {
    let mut doc = lgo::gearstats::read_stats_str(
        "[InnateStats]\nMorale = 5\nFate = 3\n\n[Virtues]\nVirtue3 = \"Insight\"\n\n[[item]]\nslot = \"Head\"\nname = \"Helm\"\n",
        "gear.toml",
    )
    .expect("toml must parse");
    assert_eq!(doc.selected_virtues.slots[2].as_deref(), Some("Insight"));
    assert!(doc.selected_virtues.slots[0].is_none());
    assert_eq!(doc.innate_base_stats.get(Stat::Fate), 3);
    assert_eq!(doc.innate_base_stats.get(Stat::Morale), 0);
    let db = db_from_json(r#"{ "Wisdom": { "Will": 80 } }"#);
    let err = db.apply_selected_virtues(&mut doc).expect_err("unknown virtue must fail");
    assert!(matches!(err, VirtuesError::UnknownSelectedVirtue { .. }));
    assert_eq!(doc.innate_stats.get(Stat::Morale), 5);
    assert_eq!(doc.innate_base_stats.get(Stat::Fate), 3);
    assert_eq!(doc.selected_virtues.slots[2].as_deref(), Some("Insight"));
}

#[test]
fn virtue_totals_that_would_overflow_are_reported_before_applying() {
    let doc = lgo::gearstats::read_stats_str(
        "[InnateStats]\nMorale = 9223372036854775807\n\n[Virtues]\nVirtue1 = \"Wisdom\"\n\n[[item]]\nslot = \"Head\"\nname = \"Helm\"\n",
        "gear.toml",
    )
    .expect("toml must parse");
    let db = db_from_json(r#"{ "Wisdom": { "Morale": 1 } }"#);
    assert!(!db.virtues_fit_doc(&doc));
}
