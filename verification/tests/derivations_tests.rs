//! The shape check of base-stat derivation data.
use lgo::derivations::{check_derivations_text, DerivationError};

const CLASSES: [&str; 12] = [
    "Beorning", "Brawler", "Burglar", "Captain", "Champion", "Guardian", "Hunter", "Lore-master", "Mariner",
    "Minstrel", "Rune-keeper", "Warden",
];

const EMPTY_ROWS: &str = r#"{ "Might": {}, "Agility": {}, "Vitality": {}, "Will": {}, "Fate": {} }"#;

/// Every expected class with empty base-stat rows, except `class`, whose
/// object text is `body`.
fn data_with(class: &str, body: &str) -> String {
    let entries: Vec<String> = CLASSES
        .iter()
        .map(|c| format!("\"{}\": {}", c, if *c == class { body } else { EMPTY_ROWS }))
        .collect();
    format!("{{ {} }}", entries.join(", "))
}

#[test]
fn unknown_stat_name_is_reported() {
    let src = data_with(
        "Lore-master",
        r#"{ "Might": { "Bogus": 1.0 }, "Agility": {}, "Vitality": {}, "Will": {}, "Fate": {} }"#,
    );
    let err = check_derivations_text(&src, "<test>").expect_err("unknown stat should fail");
    assert!(matches!(err, DerivationError::UnknownStat { .. }));
    assert_eq!(err.message(), "derivation data contains unknown stat 'Bogus'");
}

#[test]
fn missing_expected_class_is_reported() {
    let err = check_derivations_text("{}", "<test>").expect_err("missing class should fail");
    assert!(matches!(err, DerivationError::MissingClass { .. }));
    assert_eq!(err.message(), "derivation data missing expected class 'Beorning'");
}

#[test]
fn well_formed_derivation_data_is_accepted() {
    let src = data_with(
        "Lore-master",
        r#"{ "Might": { "CriticalRating": 1.5, "Morale": 2 }, "Agility": {}, "Vitality": {}, "Will": {}, "Fate": {} }"#,
    );
    assert!(check_derivations_text(&src, "<test>").is_ok());
}

#[test]
fn malformed_json_and_non_object_top_level_are_refused() {
    let err = check_derivations_text("{", "data/x.json").expect_err("not JSON");
    assert!(matches!(&err, DerivationError::ParseJson { path, .. } if path == "data/x.json"));
    assert!(err.message().starts_with("Cannot parse derivation data 'data/x.json': "));
    let err = check_derivations_text("[1, 2]", "<test>").expect_err("array top level");
    assert!(matches!(err, DerivationError::TopLevelNotObject));
    assert_eq!(err.message(), "derivation data top level must be an object");
}

#[test]
fn class_that_is_not_an_object_is_refused() {
    let err = check_derivations_text(&data_with("Warden", "3"), "<test>").expect_err("class not object");
    assert!(matches!(&err, DerivationError::ClassNotObject { class_name } if class_name == "Warden"));
    assert_eq!(err.message(), "derivation data for class 'Warden' must be an object");
}

#[test]
fn missing_base_stat_row_is_refused() {
    let src = data_with("Hunter", r#"{ "Might": {}, "Agility": {}, "Vitality": {}, "Will": {} }"#);
    let err = check_derivations_text(&src, "<test>").expect_err("missing Fate");
    assert_eq!(err.message(), "derivation data for class 'Hunter' missing base-stat row 'Fate'");
}

#[test]
fn non_base_stat_row_is_refused() {
    let src = data_with(
        "Captain",
        r#"{ "Might": {}, "Agility": {}, "Vitality": {}, "Will": {}, "Fate": {}, "Morale": {} }"#,
    );
    let err = check_derivations_text(&src, "<test>").expect_err("Morale row");
    assert!(matches!(err, DerivationError::NonBaseStatRow { .. }));
    assert_eq!(err.message(), "derivation data for class 'Captain' has non-base stat row 'Morale'");
}

#[test]
fn row_that_is_not_an_object_is_refused() {
    let src = data_with("Burglar", r#"{ "Might": [], "Agility": {}, "Vitality": {}, "Will": {}, "Fate": {} }"#);
    let err = check_derivations_text(&src, "<test>").expect_err("row not object");
    assert_eq!(err.message(), "derivation row 'Burglar.Might' must be an object");
}

#[test]
fn coefficient_that_is_not_a_number_is_refused() {
    let src = data_with(
        "Mariner",
        r#"{ "Might": {}, "Agility": { "Evade": "x" }, "Vitality": {}, "Will": {}, "Fate": {} }"#,
    );
    let err = check_derivations_text(&src, "<test>").expect_err("coefficient not number");
    assert!(matches!(err, DerivationError::CoefficientNotNumber { .. }));
    assert_eq!(err.message(), "derivation coefficient 'Mariner.Agility.Evade' must be numeric");
}
