use lgo::cache::CachedItem;
use lgo::gear::Slot;
use lgo::merge::{
    count_prompts, edit_key, merge_stats, parse_batch_option, parse_keep_answer, parse_user_edits, prompt_fields,
    BatchOption, MergeContext,
};
use lgo::stat::{Stat, StatMap};

fn make_item(name: &str, stats: &[(Stat, i64)]) -> CachedItem {
    CachedItem { name: name.to_string(), slot: Slot::Finger1, stats: StatMap::from_pairs(stats) }
}

fn ctx(old: Vec<CachedItem>, edits: &[&str], had: bool) -> MergeContext {
    MergeContext {
        old_items: old,
        user_edits: edits.iter().map(|e| e.to_string()).collect(),
        had_user_edits_section: had,
    }
}

#[test]
fn exporter_gap_always_preserved() {
    let new_items = vec![make_item("Ring", &[(Stat::Block, 0)])];
    let ctx = ctx(vec![make_item("Ring", &[(Stat::Block, 500)])], &[], true);
    let prompts = count_prompts(&new_items, &ctx.old_items, &ctx.user_edits, ctx.had_user_edits_section);
    assert_eq!(prompts, 0);
}

#[test]
fn no_change_no_prompt() {
    let item = make_item("Ring", &[(Stat::Block, 500)]);
    let new_items = vec![item.clone()];
    let ctx = ctx(vec![item], &[], true);
    assert_eq!(count_prompts(&new_items, &ctx.old_items, &ctx.user_edits, ctx.had_user_edits_section), 0);
}

#[test]
fn flagged_field_triggers_prompt() {
    let new_items = vec![make_item("Ring", &[(Stat::Block, 600)])];
    let ctx = ctx(vec![make_item("Ring", &[(Stat::Block, 500)])], &["Ring.Block"], true);
    assert_eq!(count_prompts(&new_items, &ctx.old_items, &ctx.user_edits, ctx.had_user_edits_section), 1);
}

#[test]
fn first_merge_no_section_all_diffs_prompt() {
    let new_items = vec![make_item("Ring", &[(Stat::Block, 600)])];
    let ctx = ctx(vec![make_item("Ring", &[(Stat::Block, 500)])], &[], false);
    assert_eq!(count_prompts(&new_items, &ctx.old_items, &ctx.user_edits, ctx.had_user_edits_section), 1);
}

#[test]
fn unflagged_diff_with_section_no_prompt() {
    let new_items = vec![make_item("Ring", &[(Stat::Block, 600)])];
    let ctx = ctx(vec![make_item("Ring", &[(Stat::Block, 500)])], &[], true);
    assert_eq!(count_prompts(&new_items, &ctx.old_items, &ctx.user_edits, ctx.had_user_edits_section), 0);
}

#[test]
fn parse_user_edits_empty_section() {
    let src = r#"
[[item]]
slot = "Head"
name = "Helm"
Block = 0

[__user_edits__]
"#;
    let (edits, had) = parse_user_edits(src).unwrap();
    assert!(had);
    assert!(edits.is_empty());
}

#[test]
fn parse_user_edits_with_entries() {
    let src = r#"
[[item]]
slot = "Head"
name = "Helm"
Block = 0

[__user_edits__]
"Helm.Block" = true
"OtherRing.Parry" = true
"#;
    let (edits, had) = parse_user_edits(src).unwrap();
    assert!(had);
    assert!(edits.iter().any(|e| e == "Helm.Block"));
    assert!(edits.iter().any(|e| e == "OtherRing.Parry"));
    assert_eq!(edits.len(), 2);
}

#[test]
fn parse_user_edits_no_section() {
    let src = r#"
[[item]]
slot = "Head"
name = "Helm"
Block = 0
"#;
    let (edits, had) = parse_user_edits(src).unwrap();
    assert!(!had);
    assert!(edits.is_empty());
}

#[test]
fn user_edits_ignore_false_and_non_boolean_entries() {
    let src = "[__user_edits__]\n\"A.Block\" = false\n\"B.Parry\" = 1\n\"C.Evade\" = true\n";
    let (edits, had) = parse_user_edits(src).unwrap();
    assert!(had);
    assert_eq!(edits, vec!["C.Evade".to_string()]);
    let (edits, had) = parse_user_edits("__user_edits__ = 3\n").unwrap();
    assert!(had);
    assert!(edits.is_empty());
}

#[test]
fn malformed_stats_file_is_reported() {
    let err = parse_user_edits("[[item]\n").unwrap_err();
    assert!(err.starts_with("Malformed TOML: "));
}

#[test]
fn edit_key_joins_item_and_stat() {
    assert_eq!(edit_key("Ring of Doom", "Block"), "Ring of Doom.Block");
}

#[test]
fn merge_keeps_gap_values_and_flags_them() {
    let new_items = vec![make_item("Ring", &[(Stat::Block, 0), (Stat::Parry, 7)])];
    let c = ctx(vec![make_item("Ring", &[(Stat::Block, 500), (Stat::Parry, 7)])], &["Ring.Parry"], true);
    let (merged, flags) = merge_stats(new_items, &c, BatchOption::AcceptAll, &[]);
    assert_eq!(merged[0].stats.get(Stat::Block), 500);
    assert_eq!(merged[0].stats.get(Stat::Parry), 7);
    let mut flags = flags;
    flags.sort();
    assert_eq!(flags, vec!["Ring.Block".to_string(), "Ring.Parry".to_string()]);
}

#[test]
fn merge_batch_choices_settle_questions() {
    let old = vec![make_item("Ring", &[(Stat::Block, 500), (Stat::Evade, 10)])];
    let new_items = vec![make_item("Ring", &[(Stat::Block, 600), (Stat::Evade, 20)])];
    let c = ctx(old, &[], false);
    let (kept, kept_flags) = merge_stats(new_items.clone(), &c, BatchOption::KeepAll, &[]);
    assert_eq!(kept[0].stats.get(Stat::Block), 500);
    assert_eq!(kept[0].stats.get(Stat::Evade), 10);
    assert_eq!(kept_flags.len(), 2);
    let (taken, taken_flags) = merge_stats(new_items, &c, BatchOption::AcceptAll, &[]);
    assert_eq!(taken[0].stats.get(Stat::Block), 600);
    assert_eq!(taken[0].stats.get(Stat::Evade), 20);
    assert!(taken_flags.is_empty());
}

#[test]
fn merge_prompt_each_follows_answers_in_question_order() {
    let old = vec![make_item("Ring", &[(Stat::Block, 500), (Stat::Evade, 10)]), make_item("Helm", &[(Stat::Armor, 3)])];
    let new_items = vec![
        make_item("Helm", &[(Stat::Armor, 4)]),
        make_item("Ring", &[(Stat::Block, 600), (Stat::Evade, 20)]),
        make_item("New", &[(Stat::Block, 1)]),
    ];
    let c = ctx(old, &[], false);
    let questions = prompt_fields(&new_items, &c);
    let asked: Vec<(&str, &str, i64, i64)> = questions
        .iter()
        .map(|q| (q.item_name.as_str(), q.stat_key.as_str(), q.old_value, q.new_value))
        .collect();
    assert_eq!(asked, vec![("Helm", "Armor", 3, 4), ("Ring", "Block", 500, 600), ("Ring", "Evade", 10, 20)]);
    assert_eq!(count_prompts(&new_items, &c.old_items, &c.user_edits, false), 3);
    let (merged, flags) = merge_stats(new_items, &c, BatchOption::PromptEach, &[false, true, false]);
    assert_eq!(merged[0].stats.get(Stat::Armor), 4);
    assert_eq!(merged[1].stats.get(Stat::Block), 500);
    assert_eq!(merged[1].stats.get(Stat::Evade), 20);
    assert_eq!(merged[2].stats.get(Stat::Block), 1);
    assert_eq!(flags, vec!["Ring.Block".to_string()]);
}

#[test]
fn merge_uses_last_old_item_of_a_name() {
    let old = vec![make_item("Ring", &[(Stat::Block, 1)]), make_item("Ring", &[(Stat::Block, 9)])];
    let c = ctx(old, &[], true);
    let (merged, _) = merge_stats(vec![make_item("Ring", &[(Stat::Block, 0)])], &c, BatchOption::PromptEach, &[]);
    assert_eq!(merged[0].stats.get(Stat::Block), 9);
}

#[test]
fn batch_and_field_replies_are_read_loosely() {
    assert_eq!(parse_batch_option(" Accept-All \n"), BatchOption::AcceptAll);
    assert_eq!(parse_batch_option("K"), BatchOption::KeepAll);
    assert_eq!(parse_batch_option(""), BatchOption::PromptEach);
    assert_eq!(parse_batch_option("maybe"), BatchOption::PromptEach);
    assert!(!parse_keep_answer(" NO\n"));
    assert!(!parse_keep_answer("n"));
    assert!(parse_keep_answer(""));
    assert!(parse_keep_answer("yes"));
}

#[test]
fn cache_len_grows_only_for_new_names() {
    let mut cache = lgo::cache::Cache::empty("c.json");
    cache.insert(make_item("A", &[]));
    assert_eq!(cache.len(), 1);
    cache.insert(make_item("A", &[(Stat::Might, 3)]));
    assert_eq!(cache.len(), 1);
    cache.insert(make_item("B", &[]));
    assert_eq!(cache.len(), 2);
}
