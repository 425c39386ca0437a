use lgo::build_db::{index_items, load_items, parse_slot_key, XmlEvent};
use lgo::gear::Slot;

fn load(xml: &str) -> lgo::build_db::ItemIndex {
    load_items(xml, "test.xml").expect("load_items should succeed")
}

#[test]
fn highest_level_entry_wins() {
    let xml = r#"<items>
        <item name="Wilful Bracer of the Bear in Winter" level="122" slot="WRIST"></item>
        <item name="Wilful Bracer of the Bear in Winter" level="160" slot="NECK"></item>
    </items>"#;
    let out = load(xml);
    assert_eq!(out.get("Wilful Bracer of the Bear in Winter").unwrap().slot, Slot::Neck);
}

#[test]
fn lower_level_entry_does_not_overwrite_higher() {
    let xml = r#"<items>
        <item name="Test Item" level="160" slot="NECK"></item>
        <item name="Test Item" level="122" slot="WRIST"></item>
    </items>"#;
    assert_eq!(load(xml).get("Test Item").unwrap().slot, Slot::Neck);
}

#[test]
fn mixed_paired_and_self_closing_forms_highest_level_wins() {
    let a = r#"<items>
        <item name="Mixed Form Item" level="122" slot="WRIST"></item>
        <item name="Mixed Form Item" level="160" slot="NECK"/>
    </items>"#;
    assert_eq!(load(a).get("Mixed Form Item").unwrap().slot, Slot::Neck);
    let b = r#"<items>
        <item name="Mixed Form Item" level="160" slot="NECK"/>
        <item name="Mixed Form Item" level="122" slot="WRIST"></item>
    </items>"#;
    assert_eq!(load(b).get("Mixed Form Item").unwrap().slot, Slot::Neck);
}

#[test]
fn self_closing_two_handed_item_sets_flag() {
    let xml = r#"<items>
        <item name="Compact Greatsword" level="160" slot="MAIN_HAND" precludedSlots="OFF_HAND"/>
        <item name="Compact Dagger" level="160" slot="MAIN_HAND"/>
    </items>"#;
    let out = load(xml);
    let sword = out.get("Compact Greatsword").unwrap();
    assert_eq!(sword.slot, Slot::MainHand);
    assert!(sword.two_handed);
    assert!(!out.get("Compact Dagger").unwrap().two_handed);
    assert_eq!(out.len(), 2);
}

#[test]
fn self_closing_legendary_weapon_is_skipped() {
    let xml = r#"<items>
        <item name="Compact Legendary" level="160" slot="MAIN_HAND" category="LEGENDARY_WEAPON"/>
        <item name="Paired Legendary" level="160" slot="MAIN_HAND" category="LEGENDARY_WEAPON"></item>
    </items>"#;
    let out = load(xml);
    assert!(out.get("Compact Legendary").is_none());
    assert!(out.get("Paired Legendary").is_none());
    assert_eq!(out.len(), 0);
}

#[test]
fn either_hand_item_maps_to_off_hand_with_flag() {
    let xml = r#"<items>
        <item name="Either Blade" level="150" slot="EITHER_HAND"></item>
        <item name="Plain Shield" level="150" slot="OFF_HAND"></item>
    </items>"#;
    let out = load(xml);
    let blade = out.get("Either Blade").unwrap();
    assert_eq!(blade.slot, Slot::OffHand);
    assert!(blade.either_hand);
    let shield = out.get("Plain Shield").unwrap();
    assert_eq!(shield.slot, Slot::OffHand);
    assert!(!shield.either_hand);
}

#[test]
fn unknown_slot_and_nameless_items_are_not_indexed() {
    let xml = r#"<items><item name="Mount" slot="BRIDLE"/><item slot="HEAD"/><item name="Hat" slot="HEAD" level="x"/></items>"#;
    let out = load(xml);
    assert_eq!(out.len(), 1);
    assert_eq!(out.get("Hat").unwrap().slot, Slot::Head);
}

#[test]
fn malformed_xml_is_reported() {
    let err = match load_items("<items><item name=\"A\" slot=\"HEAD\"></items>", "bad.xml") {
        Err(e) => e,
        Ok(_) => panic!("expected an error"),
    };
    assert!(err.starts_with("XML error in 'bad.xml': "));
}

#[test]
fn events_are_indexed_without_a_reader() {
    let attrs = |pairs: &[(&str, &str)]| pairs.iter().map(|(k, v)| (k.to_string(), v.to_string())).collect::<Vec<_>>();
    let events = vec![
        XmlEvent::Start { tag: "item".to_string(), attrs: attrs(&[("name", "Cloak"), ("slot", "BACK"), ("level", "5")]) },
        XmlEvent::Other,
        XmlEvent::End { tag: "item".to_string() },
        XmlEvent::Empty { tag: "item".to_string(), attrs: attrs(&[("name", "Cloak"), ("slot", "CHEST"), ("level", "4")]) },
        XmlEvent::Empty { tag: "thing".to_string(), attrs: attrs(&[("name", "Nope"), ("slot", "HEAD")]) },
    ];
    let out = index_items(&events);
    assert_eq!(out.len(), 1);
    assert_eq!(out.get("Cloak").unwrap().slot, Slot::Back);
}

#[test]
fn slot_keys_map_paired_and_hand_slots() {
    assert_eq!(parse_slot_key("LEFT_EAR"), Some(Slot::Ear1));
    assert_eq!(parse_slot_key("EITHER_HAND"), Some(Slot::OffHand));
    assert_eq!(parse_slot_key("CLASS_SLOT"), Some(Slot::ClassItem));
    assert_eq!(parse_slot_key("head"), None);
}

#[test]
fn empty_database_text_gives_an_empty_index() {
    let idx = load_items("", "empty.xml").expect("empty text loads");
    assert_eq!(idx.len(), 0);
}
