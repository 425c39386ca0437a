use lgo::plugindata::{
    base_stat_literals, number_field, parse_plugindata, parse_plugindata_checked, parse_value, parse_value_checked,
    string_array_entries, table_get, text_field, LuaKey, LuaValue,
};

fn parse(s: &str) -> LuaValue {
    let (v, rest) = parse_value(s, 0).expect("parse failed");
    assert!(rest.trim().is_empty(), "leftover input: {:?}", rest);
    v
}

fn table(v: LuaValue) -> Vec<(LuaKey, LuaValue)> {
    match v {
        LuaValue::Table(t) => t,
        other => panic!("expected a table, got {:?}", other),
    }
}

#[test]
fn test_string() {
    match parse(r#""hello world""#) {
        LuaValue::Str(s) => assert_eq!(s, "hello world"),
        other => panic!("expected Str, got {:?}", other),
    }
}

#[test]
fn test_string_escape() {
    match parse(r#""line1\nline2""#) {
        LuaValue::Str(s) => assert_eq!(s, "line1\nline2"),
        other => panic!("{:?}", other),
    }
}

#[test]
fn test_number_float() {
    match parse("12.000000") {
        LuaValue::Num(n) => {
            let x: f64 = n.parse().unwrap();
            assert!((x - 12.0).abs() < 1e-9);
        }
        other => panic!("{:?}", other),
    }
}

#[test]
fn test_bool() {
    assert!(matches!(parse("true"), LuaValue::Bool(true)));
    assert!(matches!(parse("false"), LuaValue::Bool(false)));
}

#[test]
fn test_simple_table() {
    let src = r#"{ ["name"] = "Umbari Robe of Beasts", ["slot"] = 2.000000 }"#;
    let tbl = match parse(src) {
        LuaValue::Table(t) => t,
        other => panic!("{:?}", other),
    };
    assert_eq!(tbl.len(), 2);
}

#[test]
fn test_nested_table() {
    let src = r#"{
            ["character"] = "Thalya",
            ["items"] = {
                [1.000000] = { ["slot"] = 2.000000, ["name"] = "Robe" },
            },
        }"#;
    let tbl = match parse(src) {
        LuaValue::Table(t) => t,
        other => panic!("{:?}", other),
    };
    assert_eq!(tbl.len(), 2);
}

#[test]
fn nil_and_rest_of_text() {
    let (v, rest) = parse_value("nil, more", 0).unwrap();
    assert!(matches!(v, LuaValue::Nil));
    assert_eq!(rest, ", more");
}

#[test]
fn comments_and_semicolons_are_skipped() {
    let src = "-- header\n{ a = 1; -- note\n b = \"x\" }";
    let tbl = table(parse(src));
    assert_eq!(tbl.len(), 2);
    assert!(matches!(&tbl[0].0, LuaKey::Str(k) if k == "a"));
    assert!(matches!(&tbl[0].1, LuaValue::Num(n) if n == "1"));
    assert!(matches!(&tbl[1].1, LuaValue::Str(s) if s == "x"));
}

#[test]
fn unknown_escape_keeps_backslash() {
    match parse(r#""a\qb""#) {
        LuaValue::Str(s) => assert_eq!(s, "a\\qb"),
        other => panic!("{:?}", other),
    }
}

#[test]
fn unterminated_string_is_an_error() {
    assert_eq!(parse_value("\"abc", 0).unwrap_err(), "Unterminated string literal");
    assert_eq!(parse_value("\"abc\\", 0).unwrap_err(), "Unterminated escape sequence");
}

#[test]
fn unterminated_table_is_an_error() {
    assert_eq!(parse_value("{ a = 1", 0).unwrap_err(), "Unexpected end of input inside table");
}

#[test]
fn missing_equals_shows_the_text() {
    assert_eq!(parse_value("{ a 1 }", 0).unwrap_err(), "Expected '=' after key, found: \"1 }\"");
}

#[test]
fn bad_number_literal_is_an_error() {
    assert_eq!(parse_value("1.2.3", 0).unwrap_err(), "Invalid number literal: '1.2.3'");
    assert_eq!(parse_value("x", 0).unwrap_err(), "Expected number, found: \"x\"");
}

#[test]
fn bad_keys_are_errors() {
    assert_eq!(parse_value("{ [\"a\" = 1 }", 0).unwrap_err(), "Expected ']' after string key");
    assert_eq!(parse_value("{ [1 = 1 }", 0).unwrap_err(), "Expected ']' after numeric key");
    assert_eq!(parse_value("{ = 1 }", 0).unwrap_err(), "Expected key, found: \"= 1 }\"");
}

#[test]
fn depth_limit_is_an_error() {
    assert_eq!(parse_value("1", 65).unwrap_err(), "Table nesting depth exceeded");
    assert!(parse_value("1", 64).is_ok());
    let deep = format!("{}{}", "{ a = ".repeat(70), "1");
    assert_eq!(parse_value(&deep, 0).unwrap_err(), "Table nesting depth exceeded");
}

#[test]
fn error_text_is_cut_at_thirty_bytes() {
    let src = format!("{{ a {}", "b".repeat(40));
    let err = parse_value(&src, 0).unwrap_err();
    assert_eq!(err, format!("Expected '=' after key, found: \"{}\"", "b".repeat(30)));
}

#[test]
fn error_text_that_would_split_a_character_is_refused() {
    // Byte 30 falls inside the two-byte 'é'.
    assert!(parse_value_checked("{ a =", 0).is_some());
    let bad = format!("x{}é", "y".repeat(28));
    assert!(parse_value_checked(&bad, 0).is_none());
    assert!(parse_value_checked("\"ok\"", 0).is_some());
}

#[test]
fn plugindata_file_with_return() {
    let src = "  return {\n [\"character\"] = \"Thalya\" }\n";
    let v = parse_plugindata(src).unwrap();
    let tbl = table(v);
    assert_eq!(text_field(&tbl, "character"), "Thalya");
    assert_eq!(text_field(&tbl, "class"), "Unknown");
    assert!(parse_plugindata_checked(src).unwrap().is_ok());
    assert!(parse_plugindata("return").is_err());
}

#[test]
fn table_get_takes_the_first_string_key() {
    let tbl = table(parse(r#"{ [1.000000] = "n", ["k"] = "first", ["k"] = "second" }"#));
    assert!(matches!(table_get(&tbl, "k"), Some(LuaValue::Str(s)) if s == "first"));
    assert!(table_get(&tbl, "1.000000").is_none());
    assert!(table_get(&tbl, "missing").is_none());
}

#[test]
fn number_fields_and_arrays() {
    let src = r#"{
            ["level"] = 160.000000,
            ["class"] = 3,
            ["equipped"] = {
                [2.000000] = "Second Item",
                [1.000000] = "First Item",
                ["x"] = "skipped",
                [3.000000] = 7,
            },
        }"#;
    let tbl = table(parse(src));
    assert_eq!(number_field(&tbl, "level"), Some("160.000000".to_string()));
    assert_eq!(number_field(&tbl, "equipped"), None);
    assert_eq!(text_field(&tbl, "class"), "Unknown");
    assert_eq!(
        string_array_entries(&tbl, "equipped"),
        vec![
            ("2.000000".to_string(), "Second Item".to_string()),
            ("1.000000".to_string(), "First Item".to_string()),
        ]
    );
    assert!(string_array_entries(&tbl, "level").is_empty());
    assert!(string_array_entries(&tbl, "none").is_empty());
}

#[test]
fn base_stats_in_fixed_order() {
    let src = r#"{
            ["baseStats"] = {
                ["GetBaseFate"] = 4000.000000,
                ["GetBaseMight"] = 5300.000000,
                ["GetBaseWill"] = "n/a",
            },
        }"#;
    let tbl = table(parse(src));
    assert_eq!(
        base_stat_literals(&tbl),
        vec![
            ("Might".to_string(), "5300.000000".to_string()),
            ("Fate".to_string(), "4000.000000".to_string()),
        ]
    );
    let empty = table(parse("{}"));
    assert!(base_stat_literals(&empty).is_empty());
}
