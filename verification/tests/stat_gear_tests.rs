//! Stat names, abbreviations and the canonical stat list; slot display names
//! and gear-set totals.
use lgo::gear::{parse_slot_display, GearItem, GearSet, Slot};
use lgo::stat::{abbreviation_for, stat_key, tracked_stats, Stat, StatGoal, StatMap};

#[test]
fn parses_morale_and_power_abbreviations() {
    assert_eq!("ml".parse::<Stat>().unwrap(), Stat::Morale);
    assert_eq!("pw".parse::<Stat>().unwrap(), Stat::Power);
}

#[test]
fn parses_morale_and_power_full_names() {
    assert_eq!("Morale".parse::<Stat>().unwrap(), Stat::Morale);
    assert_eq!("Power".parse::<Stat>().unwrap(), Stat::Power);
}

#[test]
fn tracked_stats_are_the_canonical_sixteen_in_order() {
    let actual: Vec<&str> = tracked_stats().iter().map(|stat| stat_key(*stat)).collect();
    assert_eq!(
        actual,
        vec![
            "Morale",
            "Power",
            "Armor",
            "CriticalRating",
            "Finesse",
            "PhysicalMastery",
            "TacticalMastery",
            "OutgoingHealing",
            "Resistance",
            "CriticalDefense",
            "IncomingHealing",
            "Block",
            "Parry",
            "Evade",
            "PhysicalMitigation",
            "TacticalMitigation",
        ]
    );
}

#[test]
fn tracked_stats_have_abbreviations_in_canonical_order() {
    let actual: Vec<&str> = tracked_stats().iter().map(|stat| abbreviation_for(*stat).unwrap()).collect();

    assert_eq!(
        actual,
        vec!["ml", "pw", "am", "cr", "fn", "pm", "tm", "oh", "rs", "cd", "ih", "bl", "pa", "ev", "pt", "tt",]
    );
}

#[test]
fn abbreviation_for_internal_stats_is_none() {
    assert_eq!(abbreviation_for(Stat::Might), None);
    assert_eq!(abbreviation_for(Stat::Agility), None);
    assert_eq!(abbreviation_for(Stat::Vitality), None);
    assert_eq!(abbreviation_for(Stat::Will), None);
    assert_eq!(abbreviation_for(Stat::Fate), None);
    assert_eq!(abbreviation_for(Stat::DevRating), None);
    assert_eq!(abbreviation_for(Stat::OffensiveOverpower), None);
    assert_eq!(abbreviation_for(Stat::IncMitigations), None);
}

#[test]
fn parses_morale_and_power_normalized_spellings() {
    assert_eq!("morale".parse::<Stat>().unwrap(), Stat::Morale);
    assert_eq!("power".parse::<Stat>().unwrap(), Stat::Power);
}

#[test]
fn display_string_round_trips_to_family_first_variant_for_all_slots() {
    for slot in Slot::all() {
        let expected = match slot {
            Slot::Wrist2 => Slot::Wrist1,
            Slot::Finger2 => Slot::Finger1,
            Slot::Ear2 => Slot::Ear1,
            other => other,
        };
        let parsed = parse_slot_display(slot.display_name()).unwrap_or_else(|| {
            panic!("parse_slot_display rejected display_name of {:?} ({:?})", slot, slot.display_name())
        });
        assert_eq!(parsed, expected, "{:?} must round-trip to its family's first variant", slot);
    }
}

#[test]
fn display_string_uses_unnumbered_pooled_families() {
    assert_eq!(Slot::Wrist1.display_name(), "Wrist");
    assert_eq!(Slot::Wrist2.display_name(), "Wrist");
    assert_eq!(Slot::Finger1.display_name(), "Finger");
    assert_eq!(Slot::Finger2.display_name(), "Finger");
    assert_eq!(Slot::Ear1.display_name(), "Ear");
    assert_eq!(Slot::Ear2.display_name(), "Ear");
}

/// Defensive: anything not in the external slot table must be rejected,
/// not silently accepted as a near-match.
#[test]
fn parse_slot_display_rejects_unknown_inputs() {
    assert!(parse_slot_display("").is_none());
    assert!(parse_slot_display("MainHand").is_none());
    assert!(parse_slot_display("OffHand").is_none());
    assert!(parse_slot_display("ClassItem").is_none());
    assert!(parse_slot_display("Wrist1").is_none());
    assert!(parse_slot_display("CraftItem").is_none());
    assert!(parse_slot_display("Bridle").is_none());
    assert!(parse_slot_display("Unknown").is_none());
    assert!(parse_slot_display("head").is_none());
    assert!(parse_slot_display("WRIST").is_none());
    assert!(parse_slot_display("Wrist (1)").is_none());
    assert!(parse_slot_display("Wrist3").is_none());
}

#[test]
fn total_counts_innate_stats_once() {
    let mut innate = StatMap::new();
    innate.set(Stat::CriticalRating, 100);
    let mut gear_set = GearSet::new(innate);
    gear_set.insert(
        Slot::Head,
        GearItem {
            name: "Test Helm".to_string(),
            slot: Slot::Head,
            two_handed: false,
            either_hand: false,
            stats: StatMap::from_pairs(&[(Stat::CriticalRating, 25)]),
        },
    );

    assert_eq!(gear_set.total(&Stat::CriticalRating), 125);
}

#[test]
fn goal_parses_stat_and_minimum() {
    let g: StatGoal = "tm:450000".parse().unwrap();
    assert_eq!(g, StatGoal { stat: Stat::TacticalMastery, minimum: 450000 });
    let bare: StatGoal = "Critical Rating".parse().unwrap();
    assert_eq!(bare, StatGoal { stat: Stat::CriticalRating, minimum: 0 });
    assert_eq!("xx:1".parse::<StatGoal>().unwrap_err(), "Unknown stat: 'xx'");
    assert_eq!("tm:abc".parse::<StatGoal>().unwrap_err(), "Invalid minimum 'abc' in goal 'tm:abc'");
}

#[test]
fn stat_map_is_printable_unless_a_value_is_i64_min() {
    let mut m = StatMap::new();
    m.set(Stat::Fate, -5);
    assert!(m.all_printable());
    m.set(Stat::Will, i64::MIN);
    assert!(!m.all_printable());
}
