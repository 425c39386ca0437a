use lgo::gear::Slot;
use lgo::gearstats::{find_bookmarklet_output, find_canonical_gear_file, read_stats_str, select_char_file};
use lgo::stat::Stat;

#[test]
fn read_stats_file_silently_skips_unknown_slot() {
    let toml = "[[item]]\nslot = \"Head\"\nname = \"Good Helm\"\n\n[[item]]\nslot = \"Unknown\"\nname = \"Mystery Item\"\n";
    let doc = read_stats_str(toml, "test.toml").expect("must return Ok");
    assert_eq!(doc.items.len(), 1);
    assert!(doc.skipped.is_empty());
}

#[test]
fn read_stats_file_skips_bridle_slot_with_warning() {
    let toml = "[[item]]\nslot = \"Bridle\"\nname = \"A Bridle\"\n\n[[item]]\nslot = \"Back\"\nname = \"Cloak\"\n";
    let doc = read_stats_str(toml, "test.toml").expect("must return Ok");
    assert_eq!(doc.items.len(), 1);
    assert_eq!(doc.items[0].slot, Slot::Back);
    assert_eq!(doc.skipped, vec![("A Bridle".to_string(), "Bridle".to_string())]);
}

#[test]
fn read_stats_file_parses_all_19_canonical_slots() {
    let mut toml = String::new();
    for slot in Slot::all() {
        let name = slot.display_name();
        toml.push_str(&format!("\n[[item]]\nslot = \"{}\"\nname = \"Item for {}\"\n", name, name));
    }
    toml.push_str("\n[[item]]\nslot = \"Unknown\"\nname = \"Mystery\"\n");
    toml.push_str("\n[[item]]\nslot = \"Bridle\"\nname = \"A Bridle\"\n");
    let doc = read_stats_str(&toml, "test.toml").expect("must return Ok");
    assert_eq!(doc.items.len(), Slot::all().len());
}

#[test]
fn read_stats_file_errors_on_missing_name() {
    let err = read_stats_str("[[item]]\nslot = \"Head\"\n", "test.toml").unwrap_err();
    assert!(err.contains("missing 'name'"));
    assert_eq!(err, "[[item]] #1 missing 'name'");
}

#[test]
fn read_stats_file_extracts_character_and_class() {
    let toml = "character = \"Thalya\"\nclass = \"Lore-master\"\n\n[[item]]\nslot = \"Head\"\nname = \"Helm\"\n";
    let doc = read_stats_str(toml, "test.toml").unwrap();
    assert_eq!(doc.character.as_deref(), Some("Thalya"));
    assert_eq!(doc.class.as_deref(), Some("Lore-master"));
}

#[test]
fn read_stats_file_returns_none_for_absent_metadata() {
    let doc = read_stats_str("[[item]]\nslot = \"Head\"\nname = \"Helm\"\n", "test.toml").unwrap();
    assert!(doc.character.is_none());
    assert!(doc.class.is_none());
}

#[test]
fn read_stats_file_extracts_innate_stats_with_morale_and_power() {
    let toml = "[InnateStats]\nMorale = 100\nPower = 50\nCriticalRating = 25\nMight = 999\n\n[[item]]\nslot = \"Head\"\nname = \"Test Helm\"\n";
    let doc = read_stats_str(toml, "test.toml").unwrap();
    assert_eq!(doc.innate_stats.get(Stat::Morale), 100);
    assert_eq!(doc.innate_stats.get(Stat::Power), 50);
    assert_eq!(doc.innate_stats.get(Stat::CriticalRating), 25);
    assert_eq!(doc.innate_stats.get(Stat::Might), 0);
}

#[test]
fn read_stats_file_merges_full_essence_totals() {
    let toml = "[[item]]\nslot = \"Head\"\nname = \"Essenced Helm\"\nCriticalRating = 100\nFinesse = 10\n[item.EssenceTotals]\nCriticalRating = 25\nFinesse = 5\n";
    let doc = read_stats_str(toml, "test.toml").unwrap();
    assert_eq!(doc.items[0].stat(&Stat::CriticalRating), 125);
    assert_eq!(doc.items[0].stat(&Stat::Finesse), 15);
}

#[test]
fn read_stats_file_treats_missing_essence_totals_as_zero() {
    let toml = "[[item]]\nslot = \"Head\"\nname = \"Plain Helm\"\nCriticalRating = 100\n";
    let doc = read_stats_str(toml, "test.toml").unwrap();
    assert_eq!(doc.items[0].stat(&Stat::CriticalRating), 100);
    assert_eq!(doc.items[0].stat(&Stat::Finesse), 0);
}

#[test]
fn read_stats_file_errors_on_unknown_essence_key() {
    let toml = "[[item]]\nslot = \"Head\"\nname = \"Typo Helm\"\n[item.EssenceTotals]\nCritcalRating = 25\n";
    let err = read_stats_str(toml, "test.toml").expect_err("unknown essence key must fail");
    assert!(err.contains("CritcalRating"));
    assert!(err.contains("EssenceTotals"));
    assert!(err.contains("Typo Helm"));
}

#[test]
fn read_stats_file_errors_on_unknown_base_item_key() {
    let toml = "[[item]]\nslot = \"Head\"\nname = \"Typo Helm\"\nCritcalRating = 25\n";
    let err = read_stats_str(toml, "test.toml").expect_err("unknown base key must fail");
    assert_eq!(err, "Unknown stat key `CritcalRating` in `item` for item `Typo Helm`.");
}

#[test]
fn two_handed_flag_is_read() {
    let toml = "[[item]]\nslot = \"Main-hand\"\nname = \"Greatsword\"\ntwo_handed = true\nArmor = 3\n";
    let doc = read_stats_str(toml, "test.toml").unwrap();
    assert!(doc.items[0].two_handed);
    assert_eq!(doc.items[0].stat(&Stat::Armor), 3);
}

#[test]
fn malformed_or_itemless_files_are_reported() {
    assert!(read_stats_str("[[item]\n", "x.toml").unwrap_err().starts_with("Malformed TOML in x.toml: "));
    assert_eq!(read_stats_str("character = \"A\"\n", "x.toml").unwrap_err(), "No [[item]] entries found in x.toml");
    assert_eq!(read_stats_str("item = [1]\n", "x.toml").unwrap_err(), "[[item]] #1 must be a TOML table");
    assert_eq!(
        read_stats_str("[[item]]\nslot = \"Head\"\nname = \"H\"\nEssenceTotals = 3\n", "x.toml").unwrap_err(),
        "`EssenceTotals` for item `H` must be a TOML table"
    );
}

#[test]
fn overflowing_totals_are_refused() {
    let toml = "[[item]]\nslot = \"Head\"\nname = \"H\"\nBlock = 9223372036854775807\n[item.EssenceTotals]\nBlock = 1\n";
    assert_eq!(read_stats_str(toml, "x.toml").unwrap_err(), "Stat totals out of range in x.toml");
}

fn names(list: &[&str]) -> Vec<String> {
    list.iter().map(|s| s.to_string()).collect()
}

#[test]
fn find_bookmarklet_output_returns_exact_filename() {
    let mut dir = names(&["lgo_stats_Thalya_20260101_000000.toml"]);
    assert!(
        find_bookmarklet_output(&dir, "Thalya").expect("no error").is_none(),
        "decoy timestamped file must not be picked up"
    );
    dir.push("lgo_Thalya_gearStats.toml".to_string());
    assert_eq!(
        find_bookmarklet_output(&dir, "Thalya").expect("no error"),
        Some("lgo_Thalya_gearStats.toml".to_string())
    );
}

#[test]
fn find_canonical_gear_file_case_insensitive_lowercase() {
    let dir = names(&["lgo_thalya_gearReady.toml"]);
    let found = find_canonical_gear_file(&dir, "Thalya").expect("no error").expect("must find file");
    assert_eq!(found, "lgo_thalya_gearReady.toml");
}

#[test]
fn find_canonical_gear_file_case_insensitive_uppercase() {
    let dir = names(&["lgo_THALYA_gearReady.toml"]);
    let found = find_canonical_gear_file(&dir, "thalya").expect("no error").expect("must find file");
    assert_eq!(found, "lgo_THALYA_gearReady.toml");
}

#[test]
fn find_bookmarklet_output_finds_lowercase_stats_file_for_mixed_case_query() {
    let dir = names(&["lgo_thalya_gearStats.toml"]);
    let found = find_bookmarklet_output(&dir, "Thalya").expect("no error").expect("must find file");
    assert_eq!(found, "lgo_thalya_gearStats.toml");
}

#[test]
fn find_bookmarklet_output_finds_mixed_case_stats_file_for_lowercase_query() {
    let dir = names(&["lgo_Thalya_gearStats.toml"]);
    let found = find_bookmarklet_output(&dir, "thalya").expect("no error").expect("must find file");
    assert_eq!(found, "lgo_Thalya_gearStats.toml");
}

#[test]
fn several_matching_files_are_an_error_listing_them_sorted() {
    let dir = names(&["lgo_thalya_gearReady.toml", "other.txt", "LGO_Thalya_GEARREADY.TOML"]);
    assert_eq!(
        find_canonical_gear_file(&dir, "Thalya"),
        Err("ambiguous character-name files found: LGO_Thalya_GEARREADY.TOML, lgo_thalya_gearReady.toml — please delete one"
            .to_string())
    );
}

#[test]
fn char_file_needs_the_whole_character_segment() {
    let dir = names(&["lgo_Thal_gearReady.toml", "lgo_Thalyas_gearReady.toml", "lgo__gearReady.toml", "lgo_gearReady.toml"]);
    assert_eq!(find_canonical_gear_file(&dir, "Thalya"), Ok(None));
    assert_eq!(select_char_file(&dir, "lgo_", "", "_gearReady.toml"), Ok(Some("lgo__gearReady.toml".to_string())));
}

#[test]
fn export_items_reads_names_slots_stats_and_essence() {
    let src = "[[item]]\nname = \"Helm\"\nslot = \"Head\"\nMorale = 120\nFinesse = \"x\"\nMight = 9\n[item.EssenceTotals]\nMorale = 5\n\n[[item]]\nname = \"Ring\"\n";
    let root = lgo::toml_doc::parse_toml(src).expect("toml");
    let items = lgo::gearstats::export_items(&root).expect("items");
    assert_eq!(items.len(), 2);
    assert_eq!(items[0].name.as_deref(), Some("Helm"));
    assert_eq!(items[0].slot.as_deref(), Some("Head"));
    assert_eq!(items[0].stats.get(Stat::Morale), 120);
    assert_eq!(items[0].stats.get(Stat::Finesse), 0);
    assert_eq!(items[0].stats.get(Stat::Might), 0);
    assert_eq!(items[0].essence.get(Stat::Morale), 5);
    assert_eq!(items[1].slot, None);
    assert_eq!(items[1].essence.get(Stat::Morale), 0);
}

#[test]
fn export_items_needs_an_item_array_of_tables() {
    let none = lgo::toml_doc::parse_toml("character = \"Thalya\"\n").expect("toml");
    assert!(lgo::gearstats::export_items(&none).is_none());
    let scalars = lgo::toml_doc::parse_toml("item = [1, 2]\n").expect("toml");
    assert!(lgo::gearstats::export_items(&scalars).is_none());
}
