//! Text and HTML report formatting.
use lgo::gear::{GearItem, GearSet, Slot};
use lgo::optimizer::OptimizeResult;
use lgo::report::{
    format_base_stats_report, format_number, format_optimize_report, format_optimize_report_html,
    format_scrap_gear_report, hand_or_item_label, html_escape, report_inputs_printable, truncate,
};
use lgo::scrap::ScrapUnusedItem;
use lgo::stat::{tracked_stats, Stat, StatGoal, StatMap};

#[test]
fn test_format_number() {
    assert_eq!(format_number(0), "0");
    assert_eq!(format_number(999), "999");
    assert_eq!(format_number(1000), "1,000");
    assert_eq!(format_number(1234567), "1,234,567");
    assert_eq!(format_number(-6140), "-6,140");
}

#[test]
fn test_truncate() {
    assert_eq!(truncate("Short", 20), "Short");
    assert_eq!(truncate("Umbari Robe of Beasts of the Nameless Deeps and More", 20), "Umbari Robe of Beas…");
}

#[test]
fn base_stats_report_lists_raw_and_derived_sections() {
    let innate_base = StatMap::from_pairs(&[
        (Stat::Might, 5300),
        (Stat::Agility, 2650),
        (Stat::Vitality, 10200),
        (Stat::Will, 7950),
        (Stat::Fate, 4000),
    ]);
    let derived =
        StatMap::from_pairs(&[(Stat::Morale, 45900), (Stat::TacticalMastery, 39750), (Stat::CriticalRating, 21200)]);

    let report =
        format_base_stats_report("Thalya", "Lore-master", "lgo_Thalya_gearReady.toml", &innate_base, &derived);

    assert!(report.contains("Character : Thalya (Lore-master)"));
    assert!(report.contains("Stats file: lgo_Thalya_gearReady.toml"));
    assert!(report.contains("derivation inputs only"));
    for (name, value) in
        [("Might", "5,300"), ("Agility", "2,650"), ("Vitality", "10,200"), ("Will", "7,950"), ("Fate", "4,000")]
    {
        assert!(report.contains(name) && report.contains(value), "raw section must list {} = {}", name, value);
    }
    assert!(report.contains("already included in optimize totals"));
    assert!(report.contains("45,900"));
    assert!(report.contains("39,750"));
    assert!(report.contains("21,200"));
    for stat in tracked_stats() {
        assert!(
            report.contains(stat.display_name()),
            "derived section must list tracked stat {}",
            stat.display_name()
        );
    }
}

#[test]
fn optimize_report_lists_timestamp_and_all_projected_stats() {
    let report = format_optimize_report(
        &sample_optimize_result(),
        &[StatGoal { stat: Stat::Morale, minimum: 1000 }],
        "Thalya",
        "Lore-master",
        "lgo_Thalya_gearReady.toml",
        "2026-08-31 08:00:00 +00:00",
        &StatMap::from_pairs(&[
            (Stat::Might, 5300),
            (Stat::Agility, 2650),
            (Stat::Vitality, 10200),
            (Stat::Will, 7950),
            (Stat::Fate, 4000),
        ]),
    );

    assert!(report.contains("Run time  : 2026-08-31 08:00:00 +00:00"));
    assert!(report.contains("Projected tracked stats"));
    assert!(report.contains("Projected raw Base stats"));
    for stat in tracked_stats() {
        assert!(
            report.contains(stat.display_name()),
            "projected section must list tracked stat {}",
            stat.display_name()
        );
    }
    assert!(report.contains("Block") && report.contains("0"));
}

#[test]
fn html_report_escapes_item_names() {
    let report = format_optimize_report_html(
        &sample_optimize_result_with_name("Shield <&> \"Quote\" 'Single'"),
        &[StatGoal { stat: Stat::Morale, minimum: 1000 }],
        "Thalya",
        "Lore-master",
        "lgo_Thalya_gearReady.toml",
        "2026-08-31 08:00:00 +00:00",
        &StatMap::new(),
    );

    assert!(report.contains("&lt;&amp;&gt;"));
    assert!(report.contains("&quot;Quote&quot;"));
    assert!(report.contains("&#39;Single&#39;"));
    assert!(report.contains("<meta charset=\"utf-8\">"));
}

#[test]
fn off_hand_label_shows_two_handed_marker_when_main_is_two_handed() {
    let mut gear_set = GearSet::new(StatMap::new());
    gear_set.insert(Slot::MainHand, item("Greatsword", Slot::MainHand, true));
    gear_set.insert(Slot::OffHand, item("[empty Off-hand]", Slot::OffHand, false));

    assert_eq!(hand_or_item_label(&gear_set, Slot::MainHand, true), "Greatsword");
    assert_eq!(hand_or_item_label(&gear_set, Slot::OffHand, true), "(2-handed item)");
}

#[test]
fn empty_pool_placeholder_renders_as_no_items() {
    let mut gear_set = GearSet::new(StatMap::new());
    gear_set.insert(Slot::Head, item("[empty Head]", Slot::Head, false));

    assert_eq!(hand_or_item_label(&gear_set, Slot::Head, false), "NO ITEMS");
    assert_eq!(hand_or_item_label(&gear_set, Slot::Chest, false), "NO ITEMS");
}

#[test]
fn normal_off_hand_shows_item_name_when_main_is_one_handed() {
    let mut gear_set = GearSet::new(StatMap::new());
    gear_set.insert(Slot::MainHand, item("Sword", Slot::MainHand, false));
    gear_set.insert(Slot::OffHand, item("Shield", Slot::OffHand, false));

    assert_eq!(hand_or_item_label(&gear_set, Slot::OffHand, false), "Shield");
}

#[test]
fn html_escape_replaces_each_special_character() {
    assert_eq!(html_escape("a&b<c>d\"e'f"), "a&amp;b&lt;c&gt;d&quot;e&#39;f");
    assert_eq!(html_escape("plain"), "plain");
}

#[test]
fn text_report_shows_infeasible_banner_with_shortfalls() {
    let mut result = sample_optimize_result();
    result.feasible = false;
    result.failed_minima = vec![(Stat::Morale, 5000, 1250)];
    let report = format_optimize_report(
        &result,
        &[StatGoal { stat: Stat::Morale, minimum: 5000 }],
        "Thalya",
        "Lore-master",
        "gear.toml",
        "now",
        &StatMap::new(),
    );
    assert!(report.contains("INFEASIBLE"));
    assert!(report.contains("needed    5,000  achieved    1,250  short by    3,750"));
    assert!(report.contains("✗ ⚠"));
    assert!(!report.contains("All stat minima met."));
}

fn sample_optimize_result() -> OptimizeResult {
    sample_optimize_result_with_name("Simple Helm")
}

fn sample_optimize_result_with_name(name: &str) -> OptimizeResult {
    let mut innate_stats = StatMap::new();
    innate_stats.set(Stat::Morale, 1000);
    let mut gear_set = GearSet::new(innate_stats);
    gear_set.insert(
        Slot::Head,
        GearItem {
            name: name.to_string(),
            slot: Slot::Head,
            two_handed: false,
            either_hand: false,
            stats: StatMap::from_pairs(&[(Stat::Morale, 250), (Stat::Armor, 300)]),
        },
    );

    OptimizeResult { gear_set, feasible: true, failed_minima: Vec::new(), warnings: Vec::new() }
}

fn item(name: &str, slot: Slot, two_handed: bool) -> GearItem {
    GearItem { name: name.to_string(), slot, two_handed, either_hand: false, stats: StatMap::new() }
}

#[test]
fn scrap_gear_report_lists_builds_and_unused_items() {
    let builds = vec![(
        "Healer".to_string(),
        vec![StatGoal { stat: Stat::CriticalRating, minimum: 2 }, StatGoal { stat: Stat::Morale, minimum: 0 }],
    )];
    let unused = vec![ScrapUnusedItem {
        slot: Slot::Wrist2,
        name: "Old Bracelet".to_string(),
        owned_count: 3,
        max_used_count: 1,
    }];
    let text = format_scrap_gear_report("Alice", "Minstrel", "gear.toml", "2024-01-02 03:04:05 +00:00", &builds, &unused);
    assert_eq!(
        text,
        "\n  LGO — Scrap Gear\n  Character : Alice (Minstrel)\n  Stats file: gear.toml\n  Generated : 2024-01-02 03:04:05 +00:00\n\n  Saved builds evaluated:\n    Healer: cr:2 ml:0\n\n  Items not used by any saved build:\n    Wrist        Old Bracelet (owned 3, most used by one build 1)\n"
    );
}

#[test]
fn scrap_gear_report_says_when_every_item_is_used() {
    let builds = vec![("Tank".to_string(), vec![StatGoal { stat: Stat::Morale, minimum: 100 }])];
    let text = format_scrap_gear_report("Bob", "Guardian", "g.toml", "now", &builds, &Vec::new());
    assert!(text.ends_with("    Tank: ml:100\n\n  Every owned item is used by at least one saved build.\n"));
}

#[test]
fn report_inputs_are_printable_unless_a_number_hits_the_i64_edge() {
    let result = sample_optimize_result();
    assert_eq!(result.gear_set.total_wide(&Stat::Morale), 1250);
    assert!(report_inputs_printable(&result, &StatMap::new()));

    let mut projected = StatMap::new();
    projected.set(Stat::Will, i64::MIN);
    assert!(!report_inputs_printable(&result, &projected));

    let mut short = sample_optimize_result();
    short.failed_minima.push((Stat::Morale, i64::MAX, -1));
    assert!(!report_inputs_printable(&short, &StatMap::new()));

    let mut huge = sample_optimize_result();
    huge.gear_set.innate_stats.set(Stat::Armor, i64::MAX);
    assert!(!report_inputs_printable(&huge, &StatMap::new()));
}
