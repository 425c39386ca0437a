use lgo::gear_file::{merge_into_canonical, resolve_export, MergeStep};
use lgo::slot_resolver::{ItemsDb, MergeOutcome, PromptAnswer, PromptCategory, RawDbEntry};

const FIXTURE: &str = r#"{
    "Test Helm": { "name": "Test Helm", "slot": "Head" },
    "Test Bracelet": { "name": "Test Bracelet", "slot": "Wrist1" },
    "Test Sword": { "name": "Test Sword", "slot": "MainHand" },
    "Test Greatsword": { "name": "Test Greatsword", "slot": "MainHand", "two_handed": true },
    "Test Tome": { "name": "Test Tome", "slot": "ClassItem" }
}"#;

const STAMP: &str = "01/02/26 03:04:05";

fn fixture_db() -> ItemsDb {
    let v: serde_json::Value = serde_json::from_str(FIXTURE).expect("fixture JSON");
    let mut out = Vec::new();
    for (_, e) in v.as_object().unwrap() {
        out.push(RawDbEntry {
            name: e["name"].as_str().unwrap().to_string(),
            slot: e["slot"].as_str().unwrap().to_string(),
            two_handed: e.get("two_handed").and_then(|b| b.as_bool()).unwrap_or(false),
        });
    }
    ItemsDb::from_entries(out).expect("fixture must load")
}

type TestItem<'a> = (&'a str, &'a str, &'a [(&'a str, i64)]);

fn make_doc(items: &[TestItem<'_>]) -> String {
    let mut s = String::from("# LGO gear stats file\n");
    for (name, slot, stats) in items {
        s.push_str("\n[[item]]\n");
        s.push_str(&format!("slot = \"{}\"\n", slot));
        s.push_str(&format!("name = \"{}\"\n", name));
        for (k, v) in *stats {
            s.push_str(&format!("{} = {}\n", k, v));
        }
    }
    s
}

fn make_doc_with_meta(character: &str, class: &str, items: &[TestItem<'_>]) -> String {
    let mut s = String::from("# LGO gear stats file — generated by bookmarklet\n");
    s.push_str(&format!("character          = \"{}\"\n", character));
    s.push_str(&format!("class              = \"{}\"\n", class));
    for (name, slot, stats) in items {
        s.push_str("\n[[item]]\n");
        s.push_str(&format!("slot = \"{}\"\n", slot));
        s.push_str(&format!("name = \"{}\"\n", name));
        for (k, v) in *stats {
            s.push_str(&format!("{} = {}\n", k, v));
        }
    }
    s
}

fn resolve_toml_str(src: &str, db: &ItemsDb) -> Result<(String, ()), String> {
    resolve_export(src, db, "<test>").map(|s| (s, ()))
}

/// Runs a merge to the end. `script` is `None` for an unforced merge, or the
/// forced merge's expected questions with their answers; a question not in
/// the script fails the test.
fn merge_ic(
    previous: Option<&str>,
    incoming: &str,
    script: Option<Vec<(PromptCategory, PromptAnswer)>>,
) -> Result<MergeOutcome, String> {
    let db = fixture_db();
    let force = script.is_some();
    let script = script.unwrap_or_default();
    let mut answers: Vec<PromptAnswer> = Vec::new();
    loop {
        match merge_into_canonical(previous, "<previous>", incoming, "<incoming>", &db, force, &answers, STAMP)? {
            MergeStep::Done(o) => return Ok(o),
            MergeStep::Ask { category, name } => {
                let k = answers.len();
                let (expected, answer) = *script.get(k).unwrap_or_else(|| panic!("unexpected question about {}", name));
                assert_eq!(category, expected, "prompt category mismatch for {}", name);
                answers.push(answer);
            }
        }
    }
}

fn no_force() -> Option<Vec<(PromptCategory, PromptAnswer)>> {
    None
}

fn force_with(answers: Vec<(PromptCategory, PromptAnswer)>) -> Option<Vec<(PromptCategory, PromptAnswer)>> {
    Some(answers)
}

fn count_item_name(src: &str, name: &str) -> usize {
    let needle = format!("name = \"{}\"", name);
    src.lines().filter(|l| l.trim() == needle).count()
}

fn strip_generated_timestamp_comment(src: &str) -> String {
    src.split_inclusive('\n').filter(|line| !line.contains("# gearReady.toml updated:")).collect()
}

fn count_generated_timestamp_comments(src: &str) -> usize {
    src.lines().filter(|line| line.contains("# gearReady.toml updated:")).count()
}

#[test]
fn merge_first_run_takes_incoming_modulo_timestamp() {
    let incoming = make_doc(&[("Test Helm", "Head", &[("Armor", 100)])]);
    let outcome = merge_ic(None, &incoming, no_force()).expect("must merge");
    assert_eq!(outcome.added, vec!["Test Helm"]);
    assert!(outcome.preserved.is_empty());
    assert!(outcome.removed.is_empty());
    assert_eq!(count_generated_timestamp_comments(&outcome.merged_text), 1);
    assert!(
        outcome.merged_text.starts_with("# gearReady.toml updated:"),
        "timestamp must be the first canonical output line:\n{}",
        outcome.merged_text
    );
    assert_eq!(strip_generated_timestamp_comment(&outcome.merged_text), incoming);
}

#[test]
fn merge_first_run_preserves_duplicate_same_name_instances() {
    let incoming = make_doc(&[
        ("Test Bracelet", "Wrist (1)", &[("Armor", 100)]),
        ("Test Bracelet", "Wrist (1)", &[("Armor", 200)]),
    ]);
    let outcome = merge_ic(None, &incoming, no_force()).expect("must merge");
    assert_eq!(outcome.added, vec!["Test Bracelet", "Test Bracelet"]);
    assert_eq!(count_item_name(&outcome.merged_text, "Test Bracelet"), 2);
    assert!(outcome.merged_text.contains("Armor = 100"));
    assert!(outcome.merged_text.contains("Armor = 200"));
}

#[test]
fn merge_idempotent_when_nothing_changes() {
    let db = fixture_db();
    let bookmarklet = make_doc(&[("Test Helm", "Unknown", &[("Armor", 100)]), ("Test Bracelet", "Unknown", &[("Armor", 50)])]);
    let (resolved, _) = resolve_toml_str(&bookmarklet, &db).expect("resolve");
    let first = merge_ic(None, &resolved, no_force()).expect("first merge").merged_text;
    let second = merge_ic(Some(&first), &resolved, no_force()).expect("second merge").merged_text;
    assert_eq!(
        strip_generated_timestamp_comment(&first),
        strip_generated_timestamp_comment(&second),
        "second merge must be identical apart from timestamp:\n--- first ---\n{}\n--- second ---\n{}",
        first,
        second
    );
    let third = merge_ic(Some(&second), &resolved, no_force()).expect("third merge").merged_text;
    assert_eq!(strip_generated_timestamp_comment(&second), strip_generated_timestamp_comment(&third));
    assert_eq!(count_generated_timestamp_comments(&third), 1);
}

#[test]
fn resolve_toml_str_does_not_insert_canonical_timestamp() {
    let db = fixture_db();
    let bookmarklet = make_doc(&[("Test Helm", "Unknown", &[("Armor", 100)])]);
    let (resolved, _) = resolve_toml_str(&bookmarklet, &db).expect("resolve");
    assert_eq!(count_generated_timestamp_comments(&resolved), 0);
}

#[test]
fn merge_removes_old_timestamp_comments_before_prepending_one() {
    let db = fixture_db();
    let bookmarklet = make_doc(&[("Test Helm", "Unknown", &[("Armor", 100)])]);
    let (resolved, _) = resolve_toml_str(&bookmarklet, &db).expect("resolve");
    let first = merge_ic(None, &resolved, no_force()).expect("first merge").merged_text;
    let previous_with_extra_timestamp =
        first.replacen("[[item]]", "# gearReady.toml updated: 01/01/25 00:00:00\n[[item]]", 1);
    let second = merge_ic(Some(&previous_with_extra_timestamp), &resolved, no_force()).expect("second merge").merged_text;
    assert_eq!(count_generated_timestamp_comments(&second), 1);
    assert!(second.starts_with("# gearReady.toml updated:"), "fresh timestamp must be prepended:\n{}", second);
    assert!(!second.contains("01/01/25 00:00:00"), "old timestamp comments must be removed:\n{}", second);
}

#[test]
fn merge_idempotent_with_duplicate_same_name_stat_divergence() {
    let db = fixture_db();
    let bookmarklet =
        make_doc(&[("Test Bracelet", "Unknown", &[("Armor", 100)]), ("Test Bracelet", "Unknown", &[("Armor", 200)])]);
    let (resolved, _) = resolve_toml_str(&bookmarklet, &db).expect("resolve");
    let first = merge_ic(None, &resolved, no_force()).expect("first merge").merged_text;
    let second = merge_ic(Some(&first), &resolved, no_force()).expect("second merge").merged_text;
    let third = merge_ic(Some(&second), &resolved, no_force()).expect("third merge").merged_text;
    assert_eq!(strip_generated_timestamp_comment(&first), strip_generated_timestamp_comment(&second));
    assert_eq!(strip_generated_timestamp_comment(&second), strip_generated_timestamp_comment(&third));
    assert_eq!(count_item_name(&third, "Test Bracelet"), 2);
    assert!(third.contains("Armor = 100"));
    assert!(third.contains("Armor = 200"));
}

#[test]
fn merge_duplicate_matching_prefers_exact_canonical_data_before_occurrence_order() {
    let prev = "\
[[item]]\n\
slot = \"Wrist (1)\"\n\
name = \"Test Bracelet\"\n\
# user note that must not affect identity\n\
Armor = 100\n\
\n\
[[item]]\n\
slot = \"Wrist (1)\"\n\
name = \"Test Bracelet\"\n\
Armor = 900\n";
    let incoming =
        make_doc(&[("Test Bracelet", "Wrist (1)", &[("Armor", 200)]), ("Test Bracelet", "Wrist (1)", &[("Armor", 100)])]);
    let outcome = merge_ic(Some(prev), &incoming, force_with(vec![(PromptCategory::Overwrite, PromptAnswer::Yes)]))
        .expect("must merge");
    assert_eq!(outcome.preserved, vec!["Test Bracelet"]);
    assert_eq!(outcome.overwritten, vec!["Test Bracelet"]);
    assert!(outcome.merged_text.contains("Armor = 100"));
    assert!(outcome.merged_text.contains("Armor = 200"));
    assert!(!outcome.merged_text.contains("Armor = 900"));
    assert_eq!(count_item_name(&outcome.merged_text, "Test Bracelet"), 2);
}

#[test]
fn merge_comments_and_decor_do_not_create_distinct_instance_identity() {
    let prev = "\
[[item]]\n\
slot = \"Head\"\n\
name = \"Test Helm\"\n\
# Ash Nazg Gimbatul\n\
Armor = 100\n";
    let incoming = make_doc(&[("Test Helm", "Head", &[("Armor", 100)])]);
    let outcome = merge_ic(Some(prev), &incoming, force_with(vec![])).expect("must merge without prompting");
    assert_eq!(outcome.preserved, vec!["Test Helm"]);
    assert!(outcome.added.is_empty());
    assert!(outcome.removed.is_empty());
    assert_eq!(count_item_name(&outcome.merged_text, "Test Helm"), 1);
    assert!(outcome.merged_text.contains("# Ash Nazg Gimbatul"));
}

#[test]
fn merge_count_increase_adds_only_new_duplicate_instances() {
    let prev = make_doc(&[("Test Bracelet", "Wrist (1)", &[("Armor", 100)])]);
    let incoming =
        make_doc(&[("Test Bracelet", "Wrist (1)", &[("Armor", 100)]), ("Test Bracelet", "Wrist (1)", &[("Armor", 200)])]);
    let outcome = merge_ic(Some(&prev), &incoming, no_force()).expect("must merge");
    assert_eq!(outcome.preserved, vec!["Test Bracelet"]);
    assert_eq!(outcome.added, vec!["Test Bracelet"]);
    assert!(outcome.removed.is_empty());
    assert_eq!(count_item_name(&outcome.merged_text, "Test Bracelet"), 2);
}

#[test]
fn merge_count_decrease_removes_only_missing_duplicate_instances() {
    let prev =
        make_doc(&[("Test Bracelet", "Wrist (1)", &[("Armor", 100)]), ("Test Bracelet", "Wrist (1)", &[("Armor", 200)])]);
    let incoming = make_doc(&[("Test Bracelet", "Wrist (1)", &[("Armor", 100)])]);
    let outcome = merge_ic(Some(&prev), &incoming, no_force()).expect("must merge");
    assert_eq!(outcome.preserved, vec!["Test Bracelet"]);
    assert_eq!(outcome.removed, vec!["Test Bracelet"]);
    assert!(outcome.added.is_empty());
    assert_eq!(count_item_name(&outcome.merged_text, "Test Bracelet"), 1);
    assert!(outcome.merged_text.contains("Armor = 100"));
    assert!(!outcome.merged_text.contains("Armor = 200"));
}

fn resolved(items: &[TestItem<'_>]) -> String {
    resolve_toml_str(&make_doc(items), &fixture_db()).expect("resolve").0
}

#[test]
fn merge_adds_new_items_from_incoming() {
    let prev = resolved(&[("Test Helm", "Unknown", &[("Armor", 100)])]);
    let incoming = resolved(&[("Test Helm", "Unknown", &[("Armor", 100)]), ("Test Sword", "Unknown", &[("CriticalRating", 50)])]);
    let outcome = merge_ic(Some(&prev), &incoming, no_force()).expect("must merge");
    assert_eq!(outcome.added, vec!["Test Sword"]);
    assert_eq!(outcome.preserved, vec!["Test Helm"]);
    assert!(outcome.removed.is_empty());
    assert!(outcome.merged_text.contains("Test Sword"));
    assert!(outcome.merged_text.contains("Test Helm"));
}

#[test]
fn merge_removes_items_absent_from_incoming() {
    let prev = resolved(&[("Test Helm", "Unknown", &[("Armor", 100)]), ("Test Sword", "Unknown", &[("CriticalRating", 50)])]);
    let incoming = resolved(&[("Test Helm", "Unknown", &[("Armor", 100)])]);
    let outcome = merge_ic(Some(&prev), &incoming, no_force()).expect("must merge");
    assert_eq!(outcome.removed, vec!["Test Sword"]);
    assert_eq!(outcome.preserved, vec!["Test Helm"]);
    assert!(!outcome.merged_text.contains("Test Sword"));
}

#[test]
fn merge_preserves_previous_when_stats_differ_no_force() {
    let prev = resolved(&[("Test Helm", "Unknown", &[("Armor", 999)])]);
    let incoming = resolved(&[("Test Helm", "Unknown", &[("Armor", 100)])]);
    let outcome = merge_ic(Some(&prev), &incoming, no_force()).expect("must merge");
    assert_eq!(outcome.preserved, vec!["Test Helm"]);
    assert!(outcome.overwritten.is_empty());
    assert!(outcome.merged_text.contains("Armor = 999"), "previous value must be preserved:\n{}", outcome.merged_text);
}

#[test]
fn merge_force_yes_overwrites() {
    let prev = resolved(&[("Test Helm", "Unknown", &[("Armor", 999)])]);
    let incoming = resolved(&[("Test Helm", "Unknown", &[("Armor", 100)])]);
    let outcome = merge_ic(Some(&prev), &incoming, force_with(vec![(PromptCategory::Overwrite, PromptAnswer::Yes)]))
        .expect("must merge");
    assert_eq!(outcome.overwritten, vec!["Test Helm"]);
    assert!(outcome.merged_text.contains("Armor = 100"));
    assert!(!outcome.merged_text.contains("Armor = 999"));
}

#[test]
fn merge_force_no_keeps_previous() {
    let prev = resolved(&[("Test Helm", "Unknown", &[("Armor", 999)])]);
    let incoming = resolved(&[("Test Helm", "Unknown", &[("Armor", 100)])]);
    let outcome = merge_ic(Some(&prev), &incoming, force_with(vec![(PromptCategory::Overwrite, PromptAnswer::No)]))
        .expect("must merge");
    assert_eq!(outcome.preserved, vec!["Test Helm"]);
    assert!(outcome.overwritten.is_empty());
    assert!(outcome.merged_text.contains("Armor = 999"));
}

#[test]
fn merge_force_yes_to_all_overwrite_skips_subsequent_overwrite_prompts() {
    let incoming = resolved(&[("Test Helm", "Unknown", &[("Armor", 100)]), ("Test Bracelet", "Unknown", &[("Armor", 5)])]);
    let prev = resolved(&[
        ("Test Helm", "Unknown", &[("Armor", 999)]),
        ("Test Bracelet", "Unknown", &[("Armor", 50)]),
        ("Test Sword", "Unknown", &[("CriticalRating", 1)]),
    ]);
    let outcome = merge_ic(
        Some(&prev),
        &incoming,
        force_with(vec![
            (PromptCategory::Overwrite, PromptAnswer::YesToAll),
            (PromptCategory::Remove, PromptAnswer::Yes),
        ]),
    )
    .expect("must merge");
    assert_eq!(outcome.overwritten.len(), 2);
    assert!(outcome.overwritten.contains(&"Test Helm".to_string()));
    assert!(outcome.overwritten.contains(&"Test Bracelet".to_string()));
    assert_eq!(outcome.removed, vec!["Test Sword"]);
}

#[test]
fn merge_force_identical_data_never_prompts() {
    let prev = resolved(&[("Test Helm", "Unknown", &[("Armor", 100)])]);
    let incoming = resolved(&[("Test Helm", "Unknown", &[("Armor", 100)])]);
    let outcome = merge_ic(Some(&prev), &incoming, force_with(vec![])).expect("must merge with no prompts");
    assert_eq!(outcome.preserved, vec!["Test Helm"]);
    assert!(outcome.overwritten.is_empty());
}

#[test]
fn merge_force_remove_yes_drops_item() {
    let prev = resolved(&[("Test Sword", "Unknown", &[("CriticalRating", 50)])]);
    let incoming = resolved(&[("Test Helm", "Unknown", &[("Armor", 100)])]);
    let outcome = merge_ic(Some(&prev), &incoming, force_with(vec![(PromptCategory::Remove, PromptAnswer::Yes)]))
        .expect("must merge");
    assert_eq!(outcome.removed, vec!["Test Sword"]);
    assert!(!outcome.merged_text.contains("Test Sword"));
}

#[test]
fn merge_force_remove_no_retains_item() {
    let prev = resolved(&[("Test Sword", "Unknown", &[("CriticalRating", 50)])]);
    let incoming = resolved(&[("Test Helm", "Unknown", &[("Armor", 100)])]);
    let outcome = merge_ic(Some(&prev), &incoming, force_with(vec![(PromptCategory::Remove, PromptAnswer::No)]))
        .expect("must merge");
    assert!(outcome.removed.is_empty());
    assert!(outcome.preserved.contains(&"Test Sword".to_string()));
    assert!(outcome.merged_text.contains("Test Sword"));
}

#[test]
fn merge_unknown_slot_names_reported() {
    let db = fixture_db();
    let inc_in = "\
[[item]]\n\
slot = \"Unknown\"\n\
name = \"Mystery Renamed Legendary\"\n\
";
    let (incoming, _) = resolve_toml_str(inc_in, &db).expect("resolve incoming");
    let outcome = merge_ic(None, &incoming, no_force()).expect("merge");
    assert_eq!(outcome.unknown_slot, vec!["Mystery Renamed Legendary"]);
}

#[test]
fn merge_preserves_per_item_comments_across_iterations() {
    let db = fixture_db();
    let prev = "\
[[item]]\n\
slot = \"Head\"\n\
name = \"Test Helm\"\n\
# essence: +1500 tactical mastery\n\
Armor = 100\n";
    let inc_in = make_doc(&[("Test Helm", "Unknown", &[("Armor", 100)])]);
    let (incoming, _) = resolve_toml_str(&inc_in, &db).expect("resolve incoming");
    let outcome = merge_ic(Some(prev), &incoming, no_force()).expect("must merge");
    assert!(
        outcome.merged_text.contains("# essence: +1500 tactical mastery"),
        "hand-written comment must survive merge:\n{}",
        outcome.merged_text
    );
}

#[test]
fn resolve_toml_str_preserves_character_and_class() {
    let db = fixture_db();
    let input = make_doc_with_meta("Thalya", "Lore-master", &[("Test Helm", "Unknown", &[("Armor", 100)])]);
    let (resolved, _) = resolve_toml_str(&input, &db).expect("resolve");
    assert!(resolved.contains("character          = \"Thalya\""), "{}", resolved);
    assert!(resolved.contains("class              = \"Lore-master\""), "{}", resolved);
}

#[test]
fn merge_first_run_preserves_character_and_class() {
    let db = fixture_db();
    let input = make_doc_with_meta("Thalya", "Lore-master", &[("Test Helm", "Unknown", &[("Armor", 100)])]);
    let (incoming, _) = resolve_toml_str(&input, &db).expect("resolve");
    let outcome = merge_ic(None, &incoming, no_force()).expect("merge");
    assert!(outcome.merged_text.contains("Thalya"));
    assert!(outcome.merged_text.contains("Lore-master"));
}

#[test]
fn merge_subsequent_run_carries_character_and_class_into_canonical() {
    let db = fixture_db();
    let prev = resolve_toml_str(&make_doc(&[("Test Helm", "Unknown", &[("Armor", 100)])]), &db).unwrap().0;
    let input = make_doc_with_meta("Thalya", "Lore-master", &[("Test Helm", "Unknown", &[("Armor", 100)])]);
    let (incoming, _) = resolve_toml_str(&input, &db).expect("resolve");
    let outcome = merge_ic(Some(&prev), &incoming, no_force()).expect("merge");
    assert!(outcome.merged_text.contains("Thalya"), "{}", outcome.merged_text);
    assert!(outcome.merged_text.contains("Lore-master"), "{}", outcome.merged_text);
}

#[test]
fn parse_error_surfaces_as_parse_error() {
    let db = fixture_db();
    let err = resolve_toml_str("this is = = not toml", &db).unwrap_err();
    assert!(err.starts_with("Cannot parse TOML <test>: "), "{}", err);
}

#[test]
fn missing_item_array_surfaces_as_no_items_array() {
    let db = fixture_db();
    let err = resolve_toml_str("character = \"X\"\n", &db).unwrap_err();
    assert_eq!(err, "No [[item]] array found in <test>");
}

#[test]
fn resolves_known_item_to_canonical_slot() {
    let db = fixture_db();
    let (out, _) = resolve_toml_str(&make_doc(&[("Test Helm", "Unknown", &[("Armor", 100)])]), &db).unwrap();
    assert!(out.contains("slot = \"Head\""), "{}", out);
}

#[test]
fn unknown_item_keeps_original_slot_and_records_outcome() {
    let db = fixture_db();
    let (out, _) = resolve_toml_str(&make_doc(&[("Mystery", "Weird Slot", &[])]), &db).unwrap();
    assert!(out.contains("slot = \"Weird Slot\""), "{}", out);
}

#[test]
fn resolved_two_handed_item_gains_flag() {
    let db = fixture_db();
    let (out, _) = resolve_toml_str(&make_doc(&[("Test Greatsword", "Unknown", &[])]), &db).unwrap();
    assert!(out.contains("two_handed = true"), "{}", out);
    let (one, _) = resolve_toml_str(
        "[[item]]\nslot = \"Unknown\"\nname = \"Test Sword\"\ntwo_handed = true\n",
        &db,
    )
    .unwrap();
    assert!(!one.contains("two_handed"), "{}", one);
}

#[test]
fn resolver_emits_all_stats_and_zeroed_essence_totals() {
    let db = fixture_db();
    let (out, _) = resolve_toml_str(&make_doc(&[("Test Helm", "Unknown", &[("Armor", 100)])]), &db).unwrap();
    assert!(out.contains("Armor = 100"), "{}", out);
    assert!(out.contains("Morale = 0"), "{}", out);
    assert!(out.contains("[item.EssenceTotals]"), "{}", out);
}

#[test]
fn output_groups_items_by_family() {
    let db = fixture_db();
    let (out, _) = resolve_toml_str(
        &make_doc(&[("Test Sword", "Unknown", &[]), ("Mystery", "Weird", &[]), ("Test Helm", "Unknown", &[])]),
        &db,
    )
    .unwrap();
    let helm = out.find("Test Helm").unwrap();
    let sword = out.find("Test Sword").unwrap();
    let mystery = out.find("Mystery").unwrap();
    assert!(helm < sword && sword < mystery, "{}", out);
}

#[test]
fn document_header_comments_precede_first_group_divider() {
    let db = fixture_db();
    let input = "\
# Doc header line 1\n\
# Doc header line 2\n\
\n\
[[item]]\n\
slot = \"Unknown\"\n\
name = \"Test Helm\"\n";
    let (out, _) = resolve_toml_str(input, &db).expect("must resolve");
    let hdr = out.find("# Doc header line 1").expect("doc header preserved");
    let div = out.find("# --- Head ---").expect("divider present");
    assert!(hdr < div, "doc header must precede first divider, got:\n{}", out);
}

#[test]
fn merge_preserves_user_two_handed_on_unknown_item() {
    let db = fixture_db();
    let prev = "\
[[item]]\n\
slot = \"Main-hand\"\n\
name = \"Renamed Legendary Greatclub\"\n\
two_handed = true\n\
Armor = 555\n";
    let incoming = make_doc(&[("Renamed Legendary Greatclub", "Main-hand", &[("Armor", 100)])]);
    let (resolved, _) = resolve_toml_str(&incoming, &db).expect("resolve incoming");
    let outcome = merge_ic(Some(prev), &resolved, no_force()).expect("must merge");
    assert!(
        outcome.merged_text.contains("two_handed = true"),
        "user flag on an item not in the DB must be preserved:\n{}",
        outcome.merged_text
    );
}

#[test]
fn merge_refreshes_two_handed_into_preserved_block() {
    let db = fixture_db();
    let prev = "\
[[item]]\n\
slot = \"Main-hand\"\n\
name = \"Test Greatsword\"\n\
Armor = 555\n\
[item.EssenceTotals]\n\
Morale = 77\n";
    let incoming = make_doc(&[("Test Greatsword", "Unknown", &[("Armor", 100)])]);
    let (resolved, _) = resolve_toml_str(&incoming, &db).expect("resolve incoming");
    let outcome = merge_ic(Some(prev), &resolved, no_force()).expect("must merge");
    let merged = &outcome.merged_text;
    assert!(merged.contains("two_handed = true"), "preserved block must gain the generated flag:\n{}", merged);
    assert!(merged.contains("Armor = 555"), "hand-edited stats must be preserved:\n{}", merged);
    assert!(merged.contains("Morale = 77"), "hand-edited essence totals must be preserved:\n{}", merged);
}

#[test]
fn merge_removes_stale_two_handed_from_known_one_handed_item() {
    let db = fixture_db();
    let prev = "\
[[item]]\n\
slot = \"Main-hand\"\n\
name = \"Test Sword\"\n\
two_handed = true\n\
Armor = 555\n";
    let incoming = make_doc(&[("Test Sword", "Unknown", &[("Armor", 100)])]);
    let (resolved, _) = resolve_toml_str(&incoming, &db).expect("resolve incoming");
    let outcome = merge_ic(Some(prev), &resolved, no_force()).expect("must merge");
    let merged = &outcome.merged_text;
    assert!(!merged.contains("two_handed"), "stale flag on a known one-handed item must be removed:\n{}", merged);
    assert!(merged.contains("Armor = 555"), "hand-edited stats must still be preserved:\n{}", merged);
}

#[test]
fn merge_updates_metadata_in_pre_existing_canonical_without_metadata() {
    let db = fixture_db();
    let prev = make_doc(&[("Test Helm", "Unknown", &[("Armor", 100)])]);
    let (prev_resolved, _) = resolve_toml_str(&prev, &db).expect("resolve prev");
    let incoming = make_doc_with_meta("Thalya", "Lore-master", &[("Test Helm", "Unknown", &[("Armor", 100)])]);
    let (resolved, _) = resolve_toml_str(&incoming, &db).expect("resolve incoming");
    let outcome = merge_ic(Some(&prev_resolved), &resolved, no_force()).expect("must merge");
    assert!(outcome.merged_text.contains("Thalya"), "character must be injected:\n{}", outcome.merged_text);
    assert!(outcome.merged_text.contains("Lore-master"), "class must be injected:\n{}", outcome.merged_text);
}

#[test]
fn merge_with_two_handed_flag_is_idempotent_modulo_timestamp() {
    let db = fixture_db();
    let bookmarklet = make_doc(&[("Test Greatsword", "Unknown", &[("Armor", 100)]), ("Test Helm", "Unknown", &[("Armor", 50)])]);
    let (resolved, _) = resolve_toml_str(&bookmarklet, &db).expect("resolve");
    let first = merge_ic(None, &resolved, no_force()).expect("first merge").merged_text;
    let second = merge_ic(Some(&first), &resolved, no_force()).expect("second merge").merged_text;
    let third = merge_ic(Some(&second), &resolved, no_force()).expect("third merge").merged_text;
    assert!(first.contains("two_handed = true"));
    assert_eq!(strip_generated_timestamp_comment(&first), strip_generated_timestamp_comment(&second));
    assert_eq!(strip_generated_timestamp_comment(&second), strip_generated_timestamp_comment(&third));
}

#[test]
fn resolved_one_handed_item_omits_and_strips_two_handed() {
    let db = fixture_db();
    let input = "\
[[item]]\n\
slot = \"Unknown\"\n\
name = \"Test Sword\"\n\
two_handed = true\n\
Armor = 100\n";
    let (out, _) = resolve_toml_str(input, &db).expect("must resolve");
    assert!(!out.contains("two_handed"), "known one-handed item must not carry two_handed:\n{}", out);
}

#[test]
fn resolved_two_handed_item_gains_flag_after_name_before_stats() {
    let db = fixture_db();
    let input = make_doc(&[("Test Greatsword", "Unknown", &[("Armor", 100)])]);
    let (out, _) = resolve_toml_str(&input, &db).expect("must resolve");
    assert!(
        out.contains("name = \"Test Greatsword\"\ntwo_handed = true\nMorale"),
        "two_handed must sit after name and before the stat block:\n{}",
        out
    );
}

#[test]
fn resolver_emits_all_stats_and_zeroed_essence_totals_without_blank_gap() {
    let db = fixture_db();
    let input = "\
[[item]]\n\
slot = \"Unknown\"\n\
name = \"Test Helm\"\n\
CriticalRating = 100\n";
    let (out, _) = resolve_toml_str(input, &db).expect("must resolve");
    let item_start = out.find("[[item]]").expect("item emitted");
    let essence_start = out.find("[item.EssenceTotals]").expect("EssenceTotals emitted");
    let item_text = &out[item_start..essence_start];
    let essence_text = &out[essence_start..];
    assert!(
        !out.contains("TacticalMitigation = 0\n\n[item.EssenceTotals]"),
        "EssenceTotals must stay attached to base item:\n{}",
        out
    );
    for s in lgo::stat::tracked_stats() {
        let key = lgo::stat::stat_key(s);
        assert!(item_text.contains(&format!("{} = ", key)), "base item missing {}:\n{}", key, out);
        assert!(essence_text.contains(&format!("{} = 0", key)), "EssenceTotals missing zeroed {}:\n{}", key, out);
    }
}

#[test]
fn unknown_item_preserves_user_two_handed_flag() {
    let db = fixture_db();
    let input = "\
[[item]]\n\
slot = \"Main-hand\"\n\
name = \"Renamed Legendary Greatclub\"\n\
two_handed = true\n\
Armor = 100\n";
    let (out, _) = resolve_toml_str(input, &db).expect("must resolve");
    assert!(out.contains("two_handed = true"), "hand-edited two_handed on an unknown item must survive:\n{}", out);
}

#[test]
fn warning_comments_inside_items_are_preserved() {
    let db = fixture_db();
    let input = "\
[[item]]\n\
slot = \"Unknown\"\n\
name = \"Mystery Item\"\n\
# WARNING: all stats unknown\n\
Armor = 0\n";
    let (out, _) = resolve_toml_str(input, &db).expect("must resolve");
    assert!(out.contains("# WARNING: all stats unknown"), "per-item warning comment was lost:\n{}", out);
}

fn first_item_stats(text: &str) -> (Option<i64>, Option<i64>) {
    let doc: toml_edit::DocumentMut = text.parse().expect("output parses");
    let item = doc
        .get("item")
        .and_then(|item| item.as_array_of_tables())
        .and_then(|items| items.iter().next())
        .expect("one item");
    let essence = item.get("EssenceTotals").and_then(|item| item.as_table()).expect("EssenceTotals table");
    (
        item.get("CriticalRating").and_then(|item| item.as_integer()),
        essence.get("CriticalRating").and_then(|item| item.as_integer()),
    )
}

#[test]
fn resolver_preserves_existing_essence_totals_on_normal_merge() {
    let db = fixture_db();
    let previous = "\
[[item]]\n\
slot = \"Unknown\"\n\
name = \"Test Helm\"\n\
CriticalRating = 100\n\
[item.EssenceTotals]\n\
CriticalRating = 300\n";
    let (prev, _) = resolve_toml_str(previous, &db).expect("resolve previous");
    let incoming_input = "\
[[item]]\n\
slot = \"Unknown\"\n\
name = \"Test Helm\"\n\
CriticalRating = 200\n";
    let (incoming, _) = resolve_toml_str(incoming_input, &db).expect("resolve incoming");
    let outcome = merge_ic(Some(&prev), &incoming, no_force()).expect("merge");
    assert_eq!(first_item_stats(&outcome.merged_text), (Some(100), Some(300)));
}

#[test]
fn merge_force_overwrite_resets_essence_totals_from_incoming() {
    let db = fixture_db();
    let previous = "\
[[item]]\n\
slot = \"Unknown\"\n\
name = \"Test Helm\"\n\
CriticalRating = 100\n\
[item.EssenceTotals]\n\
CriticalRating = 300\n";
    let (prev, _) = resolve_toml_str(previous, &db).expect("resolve previous");
    let incoming_input = "\
[[item]]\n\
slot = \"Unknown\"\n\
name = \"Test Helm\"\n\
CriticalRating = 200\n";
    let (incoming, _) = resolve_toml_str(incoming_input, &db).expect("resolve incoming");
    let outcome = merge_ic(Some(&prev), &incoming, force_with(vec![(PromptCategory::Overwrite, PromptAnswer::Yes)]))
        .expect("merge");
    assert_eq!(first_item_stats(&outcome.merged_text), (Some(200), Some(0)));
}

#[test]
fn resolver_keeps_the_comments_around_the_essence_totals_header() {
    let db = fixture_db();
    let input = "\
[[item]]\n\
slot = \"Unknown\"\n\
name = \"Test Helm\"\n\
CriticalRating = 100\n\
# essence slots filled by hand\n\
[item.EssenceTotals]  # two essences\n\
Morale = 5\n";
    let (out, _) = resolve_toml_str(input, &db).expect("must resolve");
    assert!(
        out.contains("# essence slots filled by hand\n[item.EssenceTotals]  # two essences\n"),
        "essence header comments must survive:\n{}",
        out
    );
    assert!(out.contains("Morale = 5"), "{}", out);
}
