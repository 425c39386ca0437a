//! Owned gear that no saved build uses.
use lgo::gear::{GearItem, GearSet, Slot};
use lgo::scrap::{equipped_count, is_empty_placeholder, scrap_unused_items, ScrapUnusedItem};
use lgo::stat::StatMap;

fn item(name: &str, slot: Slot) -> GearItem {
    GearItem { name: name.to_string(), slot, two_handed: false, either_hand: false, stats: StatMap::new() }
}

fn set(items: &[(Slot, &str)]) -> GearSet {
    let mut g = GearSet::new(StatMap::new());
    for (slot, name) in items {
        g.insert(*slot, item(name, *slot));
    }
    g
}

#[test]
fn placeholders_are_recognised() {
    assert!(is_empty_placeholder("[empty Head]"));
    assert!(is_empty_placeholder("[empty"));
    assert!(is_empty_placeholder("NO ITEMS"));
    assert!(is_empty_placeholder("(2-handed item)"));
    assert!(!is_empty_placeholder("Helm of [empty"));
    assert!(!is_empty_placeholder("no items"));
}

#[test]
fn equipped_count_skips_placeholders_and_counts_copies() {
    let g = set(&[(Slot::Finger1, "Ring"), (Slot::Finger2, "Ring"), (Slot::Head, "[empty Head]"), (Slot::Chest, "Coat")]);
    assert_eq!(equipped_count(&g, "Ring"), 2);
    assert_eq!(equipped_count(&g, "Coat"), 1);
    assert_eq!(equipped_count(&g, "[empty Head]"), 0);
    assert_eq!(equipped_count(&g, "Boots"), 0);
}

#[test]
fn items_owned_beyond_every_build_are_scrap() {
    let owned = vec![
        item("Ring", Slot::Finger2),
        item("Coat", Slot::Chest),
        item("Ring", Slot::Finger1),
        item("Old Helm", Slot::Head),
        item("Ring", Slot::Finger2),
        item("Coat", Slot::Chest),
    ];
    let builds = vec![
        set(&[(Slot::Finger1, "Ring"), (Slot::Finger2, "Ring"), (Slot::Chest, "Coat")]),
        set(&[(Slot::Finger1, "Ring"), (Slot::Chest, "Coat")]),
    ];
    let unused = scrap_unused_items(&owned, &builds);
    assert_eq!(
        unused,
        vec![
            ScrapUnusedItem { slot: Slot::Finger1, name: "Ring".to_string(), owned_count: 3, max_used_count: 2 },
            ScrapUnusedItem { slot: Slot::Chest, name: "Coat".to_string(), owned_count: 2, max_used_count: 1 },
            ScrapUnusedItem { slot: Slot::Head, name: "Old Helm".to_string(), owned_count: 1, max_used_count: 0 },
        ]
    );
}

#[test]
fn nothing_is_scrap_when_every_copy_is_used_somewhere() {
    let owned = vec![item("Ring", Slot::Finger1), item("Ring", Slot::Finger2), item("Coat", Slot::Chest)];
    let builds = vec![
        set(&[(Slot::Chest, "Coat")]),
        set(&[(Slot::Finger1, "Ring"), (Slot::Finger2, "Ring")]),
    ];
    assert!(scrap_unused_items(&owned, &builds).is_empty());
}

#[test]
fn with_no_builds_everything_owned_is_scrap() {
    let owned = vec![item("Ring", Slot::Finger1), item("Ring", Slot::Finger2)];
    let unused = scrap_unused_items(&owned, &Vec::new());
    assert_eq!(
        unused,
        vec![ScrapUnusedItem { slot: Slot::Finger1, name: "Ring".to_string(), owned_count: 2, max_used_count: 0 }]
    );
}
