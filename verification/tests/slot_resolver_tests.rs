use lgo::gear::Slot;
use lgo::slot_resolver::{
    apply_generated_header, group_by_family, group_divider_prefix, item_data_equal, item_names, latest_plugindata_name,
    plan_merge,
    resolve_items, slot_family, slot_family_label, slot_family_order, strip_family_dividers,
    strip_generated_header, strip_leading_blank_lines, unknown_slot_names, ItemFields, ItemsDb, ItemsDbError,
    MergeSource, PlanStep, PromptAnswer, PromptCategory, RawDbEntry, ResolutionOutcome, UnknownReason,
};
use lgo::stat::{Stat, StatMap};

const FIXTURE: &str = r#"{
    "Test Helm": { "name": "Test Helm", "slot": "Head" },
    "Test Bracelet": { "name": "Test Bracelet", "slot": "Wrist1" },
    "Test Sword": { "name": "Test Sword", "slot": "MainHand" },
    "Test Greatsword": { "name": "Test Greatsword", "slot": "MainHand", "two_handed": true },
    "Test Tome": { "name": "Test Tome", "slot": "ClassItem" }
}"#;

fn entries_from_json(json: &str) -> Vec<RawDbEntry> {
    let v: serde_json::Value = serde_json::from_str(json).expect("fixture JSON");
    let obj = v.as_object().expect("top-level object");
    let mut out = Vec::new();
    for (_, e) in obj {
        out.push(RawDbEntry {
            name: e["name"].as_str().unwrap().to_string(),
            slot: e["slot"].as_str().unwrap().to_string(),
            two_handed: e.get("two_handed").and_then(|b| b.as_bool()).unwrap_or(false),
        });
    }
    out
}

fn fixture_db() -> ItemsDb {
    ItemsDb::from_entries(entries_from_json(FIXTURE)).expect("fixture must load")
}

fn item(name: &str, slot: &str, stats: &[(Stat, i64)]) -> ItemFields {
    ItemFields {
        name: Some(name.to_string()),
        slot: Some(slot.to_string()),
        stats: StatMap::from_pairs(stats),
        essence: StatMap::new(),
    }
}

#[test]
fn slot_family_order_is_canonical() {
    let order = slot_family_order();
    let expected = vec![
        Slot::Head,
        Slot::Chest,
        Slot::Legs,
        Slot::Hands,
        Slot::Feet,
        Slot::Shoulders,
        Slot::Back,
        Slot::Wrist1,
        Slot::Neck,
        Slot::Finger1,
        Slot::Ear1,
        Slot::Pocket,
        Slot::MainHand,
        Slot::OffHand,
        Slot::Ranged,
        Slot::ClassItem,
    ];
    assert_eq!(order, expected);
}

#[test]
fn strip_leading_blank_lines_handles_crlf_prefixes() {
    assert_eq!(strip_leading_blank_lines("\r\n  \r\n# note\r\n"), "# note\r\n");
    assert_eq!(strip_leading_blank_lines("\r\n"), "");
}

#[test]
fn attach_table_to_previous_line_strips_only_leading_blank_lines() {
    assert_eq!(
        strip_leading_blank_lines("\n  \r\n# user note: essence totals maintained by hand\n  # keep detail\n\n"),
        "# user note: essence totals maintained by hand\n  # keep detail\n\n"
    );
}

#[test]
fn loads_fixture_and_resolves_known_items() {
    let db = fixture_db();
    assert_eq!(db.len(), 5);
    assert!(!db.is_empty());
    assert_eq!(db.lookup("Test Helm"), Some(Slot::Head));
    assert_eq!(db.lookup("Test Bracelet"), Some(Slot::Wrist1));
    assert_eq!(db.lookup("Test Sword"), Some(Slot::MainHand));
    assert_eq!(db.lookup("Test Greatsword"), Some(Slot::MainHand));
    assert_eq!(db.lookup("Test Tome"), Some(Slot::ClassItem));
}

#[test]
fn lookup_returns_none_for_unknown_name() {
    let db = fixture_db();
    assert_eq!(db.lookup("Forgotten Elvish Healer's Hood"), None);
    assert_eq!(db.lookup(""), None);
}

#[test]
fn unknown_slot_value_is_an_error() {
    let bad = r#"{ "Bad Item": { "name": "Bad Item", "slot": "Frobnicate" } }"#;
    let err = ItemsDb::from_entries(entries_from_json(bad)).expect_err("unknown slot string must error");
    match err {
        ItemsDbError::UnknownSlot { item_name, slot_string } => {
            assert_eq!(item_name, "Bad Item");
            assert_eq!(slot_string, "Frobnicate");
        }
        other => panic!("expected UnknownSlot, got {:?}", other),
    }
}

#[test]
fn excluded_lotro_slot_is_an_error() {
    let bad = r#"{ "Mining Pick": { "name": "Mining Pick", "slot": "CraftItem" } }"#;
    let err = ItemsDb::from_entries(entries_from_json(bad)).expect_err("excluded slot must error");
    assert!(matches!(err, ItemsDbError::UnknownSlot { .. }));
    assert_eq!(err.message(), "Items DB entry for item 'Mining Pick' has unrecognised slot 'CraftItem'");
}

#[test]
fn empty_object_yields_empty_db() {
    let db = ItemsDb::from_entries(Vec::new()).expect("empty must load");
    assert_eq!(db.len(), 0);
    assert!(db.is_empty());
    assert_eq!(db.lookup("anything"), None);
}

#[test]
fn lookup_is_case_sensitive() {
    let db = fixture_db();
    assert_eq!(db.lookup("test helm"), None);
    assert_eq!(db.lookup("TEST HELM"), None);
    assert_eq!(db.lookup("Test Helm"), Some(Slot::Head));
}

#[test]
fn lookup_two_handed_reflects_db_flag() {
    let db = fixture_db();
    assert!(db.lookup_two_handed("Test Greatsword"));
    assert!(!db.lookup_two_handed("Test Sword"));
    assert!(!db.lookup_two_handed("Not In Db"));
}

#[test]
fn display_slot_strings_and_first_entry_win() {
    let entries = vec![
        RawDbEntry { name: "Ring".to_string(), slot: "Finger".to_string(), two_handed: false },
        RawDbEntry { name: "Ring".to_string(), slot: "Head".to_string(), two_handed: true },
        RawDbEntry { name: "Bow".to_string(), slot: "Ranged".to_string(), two_handed: false },
    ];
    let db = ItemsDb::from_entries(entries).unwrap();
    assert_eq!(db.len(), 2);
    assert_eq!(db.lookup("Ring"), Some(Slot::Finger1));
    assert!(!db.lookup_two_handed("Ring"));
}

#[test]
fn slot_families_and_labels() {
    assert_eq!(slot_family(Slot::Ear2), Slot::Ear1);
    assert_eq!(slot_family(Slot::Back), Slot::Back);
    assert_eq!(slot_family_label(Slot::Finger1), "Finger");
    assert_eq!(slot_family_label(Slot::MainHand), "Main-hand");
    assert_eq!(slot_family_label(Slot::Wrist2), "Unknown");
}

#[test]
fn output_orders_items_by_slot_family_order() {
    let keys = vec![Some(Slot::ClassItem), None, Some(Slot::Finger2), Some(Slot::Head), Some(Slot::Finger1)];
    let groups = group_by_family(&keys);
    let view: Vec<(&str, Vec<usize>)> = groups.iter().map(|g| (g.label.as_str(), g.members.clone())).collect();
    assert_eq!(
        view,
        vec![("Head", vec![3]), ("Finger", vec![2, 4]), ("Class Item", vec![0]), ("Unknown (not in items DB)", vec![1])]
    );
}

#[test]
fn unknown_items_get_their_own_section_at_end() {
    let db = fixture_db();
    let items = vec![item("Mystery", "Chest", &[]), item("Test Helm", "Body", &[])];
    let (outcomes, slots) = resolve_items(&items, &db);
    assert_eq!(
        outcomes[0],
        ResolutionOutcome::Unknown {
            name: "Mystery".to_string(),
            original_slot: Some("Chest".to_string()),
            reason: UnknownReason::NotInDb
        }
    );
    assert_eq!(
        outcomes[1],
        ResolutionOutcome::Resolved { name: "Test Helm".to_string(), from_slot: Some("Body".to_string()), to_slot: Slot::Head }
    );
    let groups = group_by_family(&slots);
    assert_eq!(groups.len(), 2);
    assert_eq!(groups[0].label, "Head");
    assert_eq!(groups[1].label, "Unknown (not in items DB)");
    assert_eq!(groups[1].members, vec![0]);
}

#[test]
fn group_dividers_are_inserted_per_family() {
    assert_eq!(group_divider_prefix("", "Head"), "\n# --- Head ---\n\n");
    assert_eq!(group_divider_prefix("# keep me\n\n", "Ear"), "# keep me\n\n# --- Ear ---\n\n");
}

#[test]
fn divider_lines_do_not_accumulate() {
    let prefix = "\n# --- Head ---\n\n# my note\n  # --- Old ---  \n";
    assert_eq!(strip_family_dividers(prefix), "\n\n# my note\n");
    assert_eq!(strip_family_dividers(""), "");
    let regrouped = group_divider_prefix(&strip_family_dividers("\n# --- Head ---\n\n"), "Head");
    assert_eq!(regrouped, "\n# --- Head ---\n\n");
}

#[test]
fn generated_header_replaces_old_header_lines() {
    let src = "# LGO 2026, by Thalya\n# gearReady.toml updated: 01/01/26 00:00:00\r\ncharacter = \"X\"\n";
    assert_eq!(strip_generated_header(src), "character = \"X\"\n");
    let out = apply_generated_header(src, "02/03/26 04:05:06");
    assert_eq!(out, "# gearReady.toml updated: 02/03/26 04:05:06\ncharacter = \"X\"\n");
    let again = apply_generated_header(&out, "02/03/26 04:05:06");
    assert_eq!(again, out);
}

#[test]
fn first_run_item_and_unknown_slot_names() {
    let incoming = vec![item("Test Helm", "Head", &[]), item("Mystery", "Unknown", &[])];
    assert_eq!(item_names(&incoming), vec!["Test Helm".to_string(), "Mystery".to_string()]);
    assert_eq!(unknown_slot_names(&incoming), vec!["Mystery".to_string()]);
}

fn done(step: PlanStep) -> lgo::slot_resolver::MergePlan {
    match step {
        PlanStep::Done(p) => p,
        PlanStep::Ask { category, name } => panic!("unexpected question {:?} {}", category, name),
    }
}

#[test]
fn plan_merge_idempotent_when_nothing_changes() {
    let items = vec![item("A", "Head", &[(Stat::Armor, 5)]), item("A", "Head", &[(Stat::Armor, 5)]), item("B", "Back", &[])];
    for force in [false, true] {
        let plan = done(plan_merge(&items, &items, force, &[]));
        assert_eq!(plan.tables, vec![MergeSource::Previous(0), MergeSource::Previous(1), MergeSource::Previous(2)]);
        assert_eq!(plan.preserved, vec!["A".to_string(), "A".to_string(), "B".to_string()]);
        assert!(plan.added.is_empty() && plan.removed.is_empty() && plan.overwritten.is_empty());
    }
}

#[test]
fn merge_adds_new_items_and_removes_absent_ones() {
    let prev = vec![item("Old", "Head", &[]), item("Keep", "Back", &[])];
    let incoming = vec![item("Keep", "Back", &[(Stat::Block, 1)]), item("New", "Legs", &[])];
    let plan = done(plan_merge(&prev, &incoming, false, &[]));
    assert_eq!(plan.tables, vec![MergeSource::Previous(1), MergeSource::Incoming(1)]);
    assert_eq!(plan.removed, vec!["Old".to_string()]);
    assert_eq!(plan.preserved, vec!["Keep".to_string()]);
    assert_eq!(plan.added, vec!["New".to_string()]);
}

#[test]
fn merge_force_asks_and_follows_answers() {
    let prev = vec![item("A", "Head", &[(Stat::Block, 1)]), item("B", "Back", &[(Stat::Block, 1)]), item("Gone", "Legs", &[])];
    let incoming = vec![item("A", "Head", &[(Stat::Block, 2)]), item("B", "Back", &[(Stat::Block, 2)])];
    match plan_merge(&prev, &incoming, true, &[]) {
        PlanStep::Ask { category, name } => {
            assert_eq!(category, PromptCategory::Overwrite);
            assert_eq!(name, "A");
        }
        PlanStep::Done(_) => panic!("expected a question"),
    }
    let plan = done(plan_merge(&prev, &incoming, true, &[PromptAnswer::YesToAll, PromptAnswer::No]));
    assert_eq!(plan.tables, vec![MergeSource::Incoming(0), MergeSource::Incoming(1), MergeSource::Previous(2)]);
    assert_eq!(plan.overwritten, vec!["A".to_string(), "B".to_string()]);
    assert_eq!(plan.preserved, vec!["Gone".to_string()]);
}

#[test]
fn merge_duplicate_matching_prefers_exact_data() {
    let prev = vec![item("Ring", "Finger", &[(Stat::Block, 2)])];
    let incoming = vec![item("Ring", "Finger", &[(Stat::Block, 1)]), item("Ring", "Finger", &[(Stat::Block, 2)])];
    let plan = done(plan_merge(&prev, &incoming, true, &[]));
    assert_eq!(plan.tables, vec![MergeSource::Previous(0), MergeSource::Incoming(0)]);
    assert_eq!(plan.added, vec!["Ring".to_string()]);
    assert!(item_data_equal(&prev[0], &incoming[1]));
    assert!(!item_data_equal(&prev[0], &incoming[0]));
}

#[test]
fn latest_plugindata_name_picks_newest_match() {
    let names: Vec<String> = vec![
        "lgo_Thalya_gearNames_20260906_025012.plugindata".to_string(),
        "LGO_thalya_GEARNAMES_20260907_000000.PLUGINDATA".to_string(),
        "lgo_Other_gearNames_20270101_000000.plugindata".to_string(),
        "lgo_Thalya_gearStats.toml".to_string(),
        "lgo_Thalya_gearNames_20260908_000000.txt".to_string(),
    ];
    assert_eq!(
        latest_plugindata_name(&names, "Thalya"),
        Some("lgo_Thalya_gearNames_20260906_025012.plugindata".to_string())
    );
    let only_upper: Vec<String> = vec!["LGO_thalya_GEARNAMES_1.PLUGINDATA".to_string()];
    assert_eq!(latest_plugindata_name(&only_upper, "thalya"), Some("LGO_thalya_GEARNAMES_1.PLUGINDATA".to_string()));
    assert_eq!(latest_plugindata_name(&names, "Nobody"), None);
}

#[test]
fn report_without_export_needs_a_canonical_file() {
    let report = lgo::slot_resolver::report_without_export("dir/lgo_T_gearReady.toml".to_string(), true).unwrap();
    assert!(report.no_new_export);
    assert!(report.previous_existed);
    assert!(report.bookmarklet_path.is_none());
    assert_eq!(report.canonical_path, "dir/lgo_T_gearReady.toml");
    assert!(report.outcome.added.is_empty());
    let err = lgo::slot_resolver::report_without_export("x".to_string(), false).unwrap_err();
    assert_eq!(
        err.message("dir", "T"),
        "No lgo_T_gearStats.toml or lgo_T_gearReady.toml found in dir"
    );
}

#[test]
fn first_run_outcome_adds_every_item() {
    let incoming = vec![item("Test Helm", "Head", &[]), item("Odd Thing", "Unknown", &[])];
    let outcome = lgo::slot_resolver::MergeOutcome::first_run(&incoming, "text".to_string());
    assert_eq!(outcome.added, vec!["Test Helm".to_string(), "Odd Thing".to_string()]);
    assert_eq!(outcome.unknown_slot, vec!["Odd Thing".to_string()]);
    assert!(outcome.preserved.is_empty() && outcome.overwritten.is_empty() && outcome.removed.is_empty());
    assert_eq!(outcome.merged_text, "text");
}

#[test]
fn plan_outcome_keeps_the_plan_lists() {
    let prev = vec![item("Test Helm", "Head", &[(Stat::Might, 1)]), item("Gone", "Chest", &[])];
    let incoming = vec![item("Test Helm", "Head", &[(Stat::Might, 2)])];
    let plan = match plan_merge(&prev, &incoming, false, &[]) {
        PlanStep::Done(p) => p,
        other => panic!("unexpected {:?}", other),
    };
    let outcome = lgo::slot_resolver::MergeOutcome::from_plan(plan, &incoming, "merged".to_string());
    assert_eq!(outcome.preserved, vec!["Test Helm".to_string()]);
    assert_eq!(outcome.removed, vec!["Gone".to_string()]);
    assert!(outcome.added.is_empty());
    assert!(outcome.unknown_slot.is_empty());
    assert_eq!(outcome.merged_text, "merged");
}
