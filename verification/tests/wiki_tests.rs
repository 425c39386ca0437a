use lgo::gear::Slot;
use lgo::stat::Stat;
use lgo::wiki::{
    extract_json_string, extract_template, extract_wikitext, parse_attrib_fragment, parse_slot, parse_wiki_response,
    parse_wiki_stat_name, template_field, url_encode,
};

#[test]
fn test_parse_attrib_fragment_simple() {
    let (stat, val) = parse_attrib_fragment("+1,713 Vitality").unwrap();
    assert_eq!(stat, Stat::Vitality);
    assert_eq!(val, 1713);
}

#[test]
fn test_parse_attrib_fragment_no_comma() {
    let (stat, val) = parse_attrib_fragment("+6140 Tactical Mitigation").unwrap();
    assert_eq!(stat, Stat::TacticalMitigation);
    assert_eq!(val, 6140);
}

#[test]
fn test_parse_attrib_fragment_will() {
    let (stat, val) = parse_attrib_fragment("+1,050 Will").unwrap();
    assert_eq!(stat, Stat::Will);
    assert_eq!(val, 1050);
}

#[test]
fn test_parse_slot() {
    assert_eq!(parse_slot("Chest"), Some(Slot::Chest));
    assert_eq!(parse_slot("Head"), Some(Slot::Head));
    assert_eq!(parse_slot("Pocket"), Some(Slot::Pocket));
    assert_eq!(parse_slot("Unknown"), None);
}

#[test]
fn test_template_field() {
    let template = "{{Item Tooltip\n| slot = Chest\n| attrib = +100 Vitality\n}}";
    assert_eq!(template_field(template, "slot"), Some("Chest".to_string()));
    assert_eq!(template_field(template, "attrib"), Some("+100 Vitality".to_string()));
    assert_eq!(template_field(template, "missing"), None);
}

#[test]
fn test_url_encode() {
    assert_eq!(url_encode("Item:Umbari Robe of Beasts"), "Item:Umbari+Robe+of+Beasts");
}

#[test]
fn negative_attrib_fragment_keeps_its_sign() {
    assert_eq!(parse_attrib_fragment("  -2,000 Critical Defence Rating "), Some((Stat::CriticalDefense, -2000)));
}

#[test]
fn attrib_fragment_without_number_or_known_stat_is_rejected() {
    assert_eq!(parse_attrib_fragment("Vitality"), None);
    assert_eq!(parse_attrib_fragment("+,,, Vitality"), None);
    assert_eq!(parse_attrib_fragment("+100 Sparkle"), None);
}

#[test]
fn wiki_stat_names_ignore_case_spaces_and_hyphens() {
    assert_eq!(parse_wiki_stat_name("Incoming-Healing"), Some(Stat::IncomingHealing));
    assert_eq!(parse_wiki_stat_name("FINESSE RATING"), Some(Stat::Finesse));
    assert_eq!(parse_wiki_stat_name("Armour"), None);
}

#[test]
fn slot_aliases_and_padding_are_accepted() {
    assert_eq!(parse_slot("  Off-Hand "), Some(Slot::OffHand));
    assert_eq!(parse_slot("RING"), Some(Slot::Finger1));
}

#[test]
fn template_field_stops_at_pipe_line_without_equals() {
    let template = "{{X\n| broken\n| slot = Chest\n}}";
    assert_eq!(template_field(template, "slot"), None);
    let crlf = "{{X\r\n|  SLOT =  Legs \r\n}}";
    assert_eq!(template_field(crlf, "slot"), Some("Legs".to_string()));
}

#[test]
fn url_encode_escapes_reserved_and_non_ascii_bytes() {
    assert_eq!(url_encode("a&b=é"), "a%26b%3D%C3%A9");
}

#[test]
fn json_strings_are_found_and_unescaped() {
    let json = r#"{"parse":{"title":"Item:X","wikitext":{"*":"line1\nline2 \"q\" a\/b \u00e9"}}}"#;
    assert_eq!(extract_json_string(json, "title"), Some("Item:X".to_string()));
    assert_eq!(extract_json_string(json, "*"), Some("line1\nline2 \"q\" a/b \\u00e9".to_string()));
    assert_eq!(extract_json_string(json, "missing"), None);
    assert_eq!(extract_json_string(r#"{"a": 5}"#, "a"), None);
    assert_eq!(extract_json_string(r#"{"a":   "x"}"#, "a"), Some("x".to_string()));
    assert_eq!(extract_json_string(r#"{"a": "unterminated"#, "a"), None);
    assert_eq!(extract_json_string(r#"{"a"}"#, "a"), None);
}

#[test]
fn wikitext_is_read_under_either_star_key() {
    assert_eq!(extract_wikitext(r#"{"wikitext":{"*":"text"}}"#), Some("text".to_string()));
    assert_eq!(extract_wikitext(r#"{"wikitext":{"\*":"other"}}"#), Some("other".to_string()));
    assert_eq!(extract_wikitext(r#"{"wikitext":{}}"#), None);
}

#[test]
fn templates_are_cut_at_their_matching_braces() {
    let text = "intro {{item tooltip\n| slot = Chest\n| note = {{nested}} x\n}} after }}";
    assert_eq!(
        extract_template(text, "Item Tooltip"),
        Some("{{item tooltip\n| slot = Chest\n| note = {{nested}} x\n}}".to_string())
    );
    assert_eq!(extract_template("{{Item Tooltip| slot = Head", "Item Tooltip"), Some("{{Item Tooltip| slot = Head".to_string()));
    assert_eq!(extract_template("no template here", "Item Tooltip"), None);
}

fn response(wikitext: &str) -> String {
    format!(r#"{{"parse":{{"title":"Item:Robe","wikitext":{{"*":"{}"}}}}}}"#, wikitext)
}

#[test]
fn wiki_response_gives_slot_and_summed_stats() {
    let json = response(
        r"{{Item Tooltip\n| slot = Chest\n| attrib = +1,713 Vitality<br> +1,050 Will<br>  <br>+200 Will<br>junk\n| armour = 10,742\n}}",
    );
    let item = parse_wiki_response("Robe", &json).expect("parses");
    assert_eq!(item.name, "Robe");
    assert_eq!(item.slot, Slot::Chest);
    assert_eq!(item.stats.get(Stat::Vitality), 1713);
    assert_eq!(item.stats.get(Stat::Will), 1250);
    assert_eq!(item.stats.get(Stat::Armor), 10742);
}

#[test]
fn wiki_response_errors_say_what_is_missing() {
    let err = |json: &str| parse_wiki_response("Robe", json).err().expect("error");
    assert_eq!(
        err(r#"{"error":{"code":"missingtitle","info":"The page you specified doesn't exist."}}"#),
        "Wiki API error: The page you specified doesn't exist."
    );
    assert_eq!(err(r#"{"error":{"code":"x"}}"#), "Wiki API error: unknown API error");
    assert_eq!(err(r#"{"parse":{}}"#), "No wikitext found in response for 'Robe'");
    assert_eq!(err(&response("plain text")), "No {{Item Tooltip}} template found for 'Robe'");
    assert_eq!(err(&response(r"{{Item Tooltip\n| attrib = +1 Will\n}}")), "No 'slot' field in template for 'Robe'");
    assert_eq!(err(&response(r"{{Item Tooltip\n| slot = Saddle\n}}")), "Unrecognised slot 'Saddle' for 'Robe'");
}
