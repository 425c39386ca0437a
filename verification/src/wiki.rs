//! Item data from lotro-wiki.com, read through the MediaWiki `action=parse`
//! API. The response holds wikitext with an `{{Item Tooltip}}` template, from
//! which the slot, the `<br>`-separated stat lines of `attrib`, and the
//! separate `armour` value are read. Fetching is left to the caller; this
//! module parses what came back and builds the request URL.
use vstd::prelude::*;

use vstd::string::StringSliceAdditionalSpecFns;
use vstd::utf8::{decode_utf8, encode_utf8, is_char_boundary};

use crate::cache::CachedItem;
use crate::gear::Slot;
use crate::stat::{in_i64_range, Stat, StatMap};
use crate::stat::{find_char, first_index_of, slice_chars};
use crate::text::{
    all_digits, chars_of, concat2, concat3, eq_lit, is_digit, lemma_decimal_value_nonneg, parse_i64, parse_i64_spec,
    push_char, remove_chars, skip_whitespace, str_eq, string_from_chars, to_lowercase, trim,
    trim_chars, trim_spec, trim_start_spec, unicode_lowercase, without_chars, line_len, lemma_line_len,
};

verus! {

/// The slot a trimmed, lowercased wiki slot name denotes.
pub open spec fn wiki_slot_named(n: Seq<char>) -> Option<Slot> {
    if n == "head"@ {
        Some(Slot::Head)
    } else if n == "chest"@ {
        Some(Slot::Chest)
    } else if n == "legs"@ {
        Some(Slot::Legs)
    } else if n == "hands"@ || n == "gloves"@ {
        Some(Slot::Hands)
    } else if n == "feet"@ || n == "boots"@ {
        Some(Slot::Feet)
    } else if n == "shoulders"@ {
        Some(Slot::Shoulders)
    } else if n == "back"@ || n == "cloak"@ {
        Some(Slot::Back)
    } else if n == "wrist"@ || n == "wrist1"@ || n == "bracelet"@ {
        Some(Slot::Wrist1)
    } else if n == "neck"@ || n == "necklace"@ {
        Some(Slot::Neck)
    } else if n == "finger"@ || n == "ring"@ {
        Some(Slot::Finger1)
    } else if n == "ear"@ || n == "earring"@ {
        Some(Slot::Ear1)
    } else if n == "pocket"@ {
        Some(Slot::Pocket)
    } else if n == "off-hand"@ || n == "offhand"@ {
        Some(Slot::OffHand)
    } else if n == "ranged"@ {
        Some(Slot::Ranged)
    } else {
        None
    }
}

fn wiki_slot_from(n: &[char]) -> (r: Option<Slot>)
    ensures
        r == wiki_slot_named(n@),
{
    if eq_lit(n, "head") {
        Some(Slot::Head)
    } else if eq_lit(n, "chest") {
        Some(Slot::Chest)
    } else if eq_lit(n, "legs") {
        Some(Slot::Legs)
    } else if eq_lit(n, "hands") || eq_lit(n, "gloves") {
        Some(Slot::Hands)
    } else if eq_lit(n, "feet") || eq_lit(n, "boots") {
        Some(Slot::Feet)
    } else if eq_lit(n, "shoulders") {
        Some(Slot::Shoulders)
    } else if eq_lit(n, "back") || eq_lit(n, "cloak") {
        Some(Slot::Back)
    } else if eq_lit(n, "wrist") || eq_lit(n, "wrist1") || eq_lit(n, "bracelet") {
        Some(Slot::Wrist1)
    } else if eq_lit(n, "neck") || eq_lit(n, "necklace") {
        Some(Slot::Neck)
    } else if eq_lit(n, "finger") || eq_lit(n, "ring") {
        Some(Slot::Finger1)
    } else if eq_lit(n, "ear") || eq_lit(n, "earring") {
        Some(Slot::Ear1)
    } else if eq_lit(n, "pocket") {
        Some(Slot::Pocket)
    } else if eq_lit(n, "off-hand") || eq_lit(n, "offhand") {
        Some(Slot::OffHand)
    } else if eq_lit(n, "ranged") {
        Some(Slot::Ranged)
    } else {
        None
    }
}

/// Maps a wiki slot string (`"Chest"`, `"Ring"`, ...) to a slot, ignoring
/// surrounding whitespace and case.
pub fn parse_slot(s: &str) -> (r: Option<Slot>)
    ensures
        r == wiki_slot_named(unicode_lowercase(trim_spec(s@))),
        (forall|i: int| 0 <= i < trim_spec(s@).len() ==> (#[trigger] trim_spec(s@)[i] as int) < 128) ==> r
            == wiki_slot_named(crate::text::ascii_lower(trim_spec(s@))),
{
    let t = trim(s);
    let lower = to_lowercase(t.as_str());
    let lc = chars_of(lower.as_str());
    wiki_slot_from(lc.as_slice())
}

/// The separators dropped from a wiki stat name before it is looked up.
pub open spec fn wiki_stat_separators() -> Seq<char> {
    seq![' ', '-']
}

/// The stat a lowercased wiki stat name without spaces and hyphens denotes.
/// Armour is read from its own template field, not from stat lines.
pub open spec fn wiki_stat_named(n: Seq<char>) -> Option<Stat> {
    if n == "vitality"@ {
        Some(Stat::Vitality)
    } else if n == "will"@ {
        Some(Stat::Will)
    } else if n == "might"@ {
        Some(Stat::Might)
    } else if n == "agility"@ {
        Some(Stat::Agility)
    } else if n == "fate"@ {
        Some(Stat::Fate)
    } else if n == "morale"@ {
        Some(Stat::Morale)
    } else if n == "power"@ {
        Some(Stat::Power)
    } else if n == "criticalrating"@ || n == "critrating"@ {
        Some(Stat::CriticalRating)
    } else if n == "devastatingcriticalrating"@ || n == "devrating"@ {
        Some(Stat::DevRating)
    } else if n == "finesserating"@ || n == "finesse"@ {
        Some(Stat::Finesse)
    } else if n == "tacticalmastery"@ {
        Some(Stat::TacticalMastery)
    } else if n == "physicalmastery"@ {
        Some(Stat::PhysicalMastery)
    } else if n == "offensiveoverpower"@ {
        Some(Stat::OffensiveOverpower)
    } else if n == "resistance"@ {
        Some(Stat::Resistance)
    } else if n == "criticaldefencerating"@ || n == "criticaldefense"@ || n == "critdefence"@ {
        Some(Stat::CriticalDefense)
    } else if n == "tacticalmitigation"@ {
        Some(Stat::TacticalMitigation)
    } else if n == "physicalmitigation"@ {
        Some(Stat::PhysicalMitigation)
    } else if n == "incominghealing"@ {
        Some(Stat::IncomingHealing)
    } else if n == "outgoinghealing"@ {
        Some(Stat::OutgoingHealing)
    } else if n == "incomingmitigations"@ || n == "incomitigations"@ || n == "incmitigations"@ {
        Some(Stat::IncMitigations)
    } else {
        None
    }
}

fn wiki_stat_from(n: &[char]) -> (r: Option<Stat>)
    ensures
        r == wiki_stat_named(n@),
{
    if eq_lit(n, "vitality") {
        Some(Stat::Vitality)
    } else if eq_lit(n, "will") {
        Some(Stat::Will)
    } else if eq_lit(n, "might") {
        Some(Stat::Might)
    } else if eq_lit(n, "agility") {
        Some(Stat::Agility)
    } else if eq_lit(n, "fate") {
        Some(Stat::Fate)
    } else if eq_lit(n, "morale") {
        Some(Stat::Morale)
    } else if eq_lit(n, "power") {
        Some(Stat::Power)
    } else if eq_lit(n, "criticalrating") || eq_lit(n, "critrating") {
        Some(Stat::CriticalRating)
    } else if eq_lit(n, "devastatingcriticalrating") || eq_lit(n, "devrating") {
        Some(Stat::DevRating)
    } else if eq_lit(n, "finesserating") || eq_lit(n, "finesse") {
        Some(Stat::Finesse)
    } else if eq_lit(n, "tacticalmastery") {
        Some(Stat::TacticalMastery)
    } else if eq_lit(n, "physicalmastery") {
        Some(Stat::PhysicalMastery)
    } else if eq_lit(n, "offensiveoverpower") {
        Some(Stat::OffensiveOverpower)
    } else if eq_lit(n, "resistance") {
        Some(Stat::Resistance)
    } else if eq_lit(n, "criticaldefencerating") || eq_lit(n, "criticaldefense") || eq_lit(
        n,
        "critdefence",
    ) {
        Some(Stat::CriticalDefense)
    } else if eq_lit(n, "tacticalmitigation") {
        Some(Stat::TacticalMitigation)
    } else if eq_lit(n, "physicalmitigation") {
        Some(Stat::PhysicalMitigation)
    } else if eq_lit(n, "incominghealing") {
        Some(Stat::IncomingHealing)
    } else if eq_lit(n, "outgoinghealing") {
        Some(Stat::OutgoingHealing)
    } else if eq_lit(n, "incomingmitigations") || eq_lit(n, "incomitigations") || eq_lit(
        n,
        "incmitigations",
    ) {
        Some(Stat::IncMitigations)
    } else {
        None
    }
}

/// The stat a wiki stat name denotes, compared in lowercase with spaces and
/// hyphens removed (`"Tactical Mitigation"`, `"Critical Rating"`, ...).
pub fn parse_wiki_stat_name(s: &str) -> (r: Option<Stat>)
    ensures
        r == wiki_stat_named(without_chars(unicode_lowercase(s@), wiki_stat_separators())),
        (forall|i: int| 0 <= i < s@.len() ==> (#[trigger] s@[i] as int) < 128) ==> r == wiki_stat_named(
            without_chars(crate::text::ascii_lower(s@), wiki_stat_separators()),
        ),
{
    let lower = to_lowercase(s);
    let lc = chars_of(lower.as_str());
    let seps = vec![' ', '-'];
    assert(seps@ =~= wiki_stat_separators());
    let norm = remove_chars(lc.as_slice(), seps.as_slice());
    wiki_stat_from(norm.as_slice())
}

/// The uppercase hexadecimal digit for `d` (below 16).
pub open spec fn hex_digit(d: int) -> char {
    seq!['0', '1', '2', '3', '4', '5', '6', '7', '8', '9', 'A', 'B', 'C', 'D', 'E', 'F'][d]
}

/// Whether a byte is written as itself in a URL query parameter.
pub open spec fn url_safe_byte(b: u8) -> bool {
    (65 <= b <= 90) || (97 <= b <= 122) || (48 <= b <= 57) || b == 45 || b == 95 || b == 46 || b == 126
        || b == 58 || b == 47
}

/// How one byte is written: itself when safe, `+` for a space, else `%XY`.
pub open spec fn url_byte(b: u8) -> Seq<char> {
    if url_safe_byte(b) {
        seq![b as char]
    } else if b == 32 {
        seq!['+']
    } else {
        seq!['%', hex_digit((b / 16) as int), hex_digit((b % 16) as int)]
    }
}

/// The percent-encoding of a byte string, byte by byte.
pub open spec fn url_encode_spec(bytes: Seq<u8>) -> Seq<char>
    decreases bytes.len(),
{
    if bytes.len() == 0 {
        Seq::empty()
    } else {
        url_encode_spec(bytes.drop_last()) + url_byte(bytes.last())
    }
}

/// Percent-encodes the UTF-8 bytes of `s` for a URL query parameter: letters,
/// digits and `-_.~:/` stay, a space becomes `+`, every other byte `%XY`.
pub fn url_encode(s: &str) -> (r: String)
    ensures
        r@ == url_encode_spec(s.spec_bytes()),
{
    let bytes = s.as_bytes();
    let hex = ['0', '1', '2', '3', '4', '5', '6', '7', '8', '9', 'A', 'B', 'C', 'D', 'E', 'F'];
    assert(hex@ =~= seq!['0', '1', '2', '3', '4', '5', '6', '7', '8', '9', 'A', 'B', 'C', 'D', 'E', 'F']);
    let mut out = String::new();
    let mut i: usize = 0;
    while i < bytes.len()
        invariant
            i <= bytes@.len(),
            bytes@ == s.spec_bytes(),
            hex@ == seq!['0', '1', '2', '3', '4', '5', '6', '7', '8', '9', 'A', 'B', 'C', 'D', 'E', 'F'],
            out@ == url_encode_spec(bytes@.subrange(0, i as int)),
        decreases bytes@.len() - i,
    {
        let b = bytes[i];
        let ghost before = out@;
        if (65 <= b && b <= 90) || (97 <= b && b <= 122) || (48 <= b && b <= 57) || b == 45 || b == 95 || b
            == 46 || b == 126 || b == 58 || b == 47 {
            push_char(&mut out, b as char);
        } else if b == 32 {
            push_char(&mut out, '+');
        } else {
            push_char(&mut out, '%');
            push_char(&mut out, hex[(b / 16) as usize]);
            push_char(&mut out, hex[(b % 16) as usize]);
        }
        assert(out@ =~= before + url_byte(b));
        assert(bytes@.subrange(0, i + 1).drop_last() =~= bytes@.subrange(0, i as int));
        i += 1;
    }
    assert(bytes@.subrange(0, bytes@.len() as int) =~= bytes@);
    out
}

/// `s` without its leading run of `c`.
pub open spec fn strip_leading(s: Seq<char>, c: char) -> Seq<char>
    decreases s.len(),
{
    if s.len() > 0 && s[0] == c {
        strip_leading(s.drop_first(), c)
    } else {
        s
    }
}

/// Whether `c` may appear in the number of a stat line: a digit or a comma.
pub open spec fn is_number_char(c: char) -> bool {
    is_digit(c) || c == ','
}

/// The length of the leading run of digits and commas of `s`.
pub open spec fn number_prefix_len(s: Seq<char>) -> nat
    decreases s.len(),
{
    if s.len() > 0 && is_number_char(s[0]) {
        1 + number_prefix_len(s.drop_first())
    } else {
        0
    }
}

/// What a stat line of the `attrib` field gives: an optional sign (`-` makes
/// it negative, any `+` and `-` are skipped), a number with optional thousands
/// commas, then the stat's wiki name.
pub open spec fn attrib_fragment_spec(s: Seq<char>) -> Option<(Stat, i64)> {
    let t = trim_spec(s);
    let neg = t.len() > 0 && t[0] == '-';
    let u = trim_start_spec(strip_leading(strip_leading(t, '+'), '-'));
    let e = number_prefix_len(u) as int;
    if e == 0 {
        None
    } else {
        match parse_i64_spec(without_chars(u.subrange(0, e), seq![','])) {
            None => None,
            Some(v) => match wiki_stat_named(
                without_chars(
                    unicode_lowercase(trim_spec(u.subrange(e, u.len() as int))),
                    wiki_stat_separators(),
                ),
            ) {
                None => None,
                Some(st) => Some(
                    (
                        st,
                        if neg {
                            (-v) as i64
                        } else {
                            v
                        },
                    ),
                ),
            },
        }
    }
}

proof fn lemma_number_prefix_len(s: Seq<char>)
    ensures
        number_prefix_len(s) <= s.len(),
        forall|i: int| 0 <= i < number_prefix_len(s) ==> is_number_char(#[trigger] s[i]),
        number_prefix_len(s) < s.len() ==> !is_number_char(s[number_prefix_len(s) as int]),
    decreases s.len(),
{
    if s.len() > 0 && is_number_char(s[0]) {
        lemma_number_prefix_len(s.drop_first());
        assert forall|i: int| 0 <= i < number_prefix_len(s) implies is_number_char(#[trigger] s[i]) by {
            if i > 0 {
                assert(s[i] == s.drop_first()[i - 1]);
            }
        }
    }
}

proof fn lemma_digits_without_commas(s: Seq<char>)
    requires
        forall|i: int| 0 <= i < s.len() ==> is_number_char(#[trigger] s[i]),
    ensures
        all_digits(without_chars(s, seq![','])),
    decreases s.len(),
{
    if s.len() > 0 {
        let p = s.drop_last();
        assert forall|i: int| 0 <= i < p.len() implies is_number_char(#[trigger] p[i]) by {
            assert(p[i] == s[i]);
        }
        lemma_digits_without_commas(p);
        let c = s.last();
        assert(is_number_char(s[s.len() - 1]));
        assert(seq![','].contains(c) <==> c == ',') by {
            if c == ',' {
                assert(seq![','][0] == c);
            }
        }
        let w = without_chars(p, seq![',']);
        assert(s =~= p.push(c));
        p.lemma_filter_push(c, |x: char| !seq![','].contains(x));
        if c != ',' {
            assert(without_chars(s, seq![',']) =~= w.push(c));
        } else {
            assert(without_chars(s, seq![',']) =~= w);
        }
    }
}

/// Where the number of a trimmed stat line starts: after any `+` signs, then
/// any `-` signs, then whitespace.
fn number_start(tc: &[char]) -> (k: usize)
    ensures
        k <= tc@.len(),
        tc@.subrange(k as int, tc@.len() as int) == trim_start_spec(strip_leading(strip_leading(tc@, '+'), '-')),
{
    let n = tc.len();
    let ghost ts = tc@;
    assert(ts.subrange(0, n as int) =~= ts);
    let mut i: usize = 0;
    while i < n && tc[i] == '+'
        invariant
            n == ts.len(),
            ts == tc@,
            i <= n,
            strip_leading(ts, '+') == strip_leading(ts.subrange(i as int, n as int), '+'),
        decreases n - i,
    {
        assert(ts.subrange(i as int, n as int).drop_first() =~= ts.subrange(i + 1, n as int));
        i += 1;
    }
    let mut j: usize = i;
    while j < n && tc[j] == '-'
        invariant
            n == ts.len(),
            ts == tc@,
            i <= j <= n,
            strip_leading(ts.subrange(i as int, n as int), '-') == strip_leading(
                ts.subrange(j as int, n as int),
                '-',
            ),
        decreases n - j,
    {
        assert(ts.subrange(j as int, n as int).drop_first() =~= ts.subrange(j + 1, n as int));
        j += 1;
    }
    let k = skip_whitespace(tc, j);
    proof {
        assert(strip_leading(ts, '+') == ts.subrange(i as int, n as int));
        assert(strip_leading(strip_leading(ts, '+'), '-') == ts.subrange(j as int, n as int));
        assert(trim_start_spec(ts.subrange(j as int, n as int)) =~= ts.subrange(k as int, n as int));
    }
    k
}

/// Where the run of digits and commas starting at `k` ends.
fn number_end(tc: &[char], k: usize) -> (e: usize)
    requires
        k <= tc@.len(),
    ensures
        k <= e <= tc@.len(),
        e - k == number_prefix_len(tc@.subrange(k as int, tc@.len() as int)),
{
    let n = tc.len();
    let ghost u = tc@.subrange(k as int, n as int);
    let mut e: usize = k;
    while e < n && (('0' <= tc[e] && tc[e] <= '9') || tc[e] == ',')
        invariant
            n == tc@.len(),
            k <= e <= n,
            u == tc@.subrange(k as int, n as int),
            number_prefix_len(u) == (e - k) + number_prefix_len(tc@.subrange(e as int, n as int)),
        decreases n - e,
    {
        assert(tc@.subrange(e as int, n as int).drop_first() =~= tc@.subrange(e + 1, n as int));
        e += 1;
    }
    assert(number_prefix_len(tc@.subrange(e as int, n as int)) == 0);
    e
}

/// The value of a run of digits and commas, commas ignored; never negative.
fn number_value(num: &[char]) -> (r: Option<i64>)
    requires
        forall|i: int| 0 <= i < num@.len() ==> is_number_char(#[trigger] num@[i]),
    ensures
        r == parse_i64_spec(without_chars(num@, seq![','])),
        r matches Some(v) ==> v >= 0,
{
    let commas = vec![','];
    assert(commas@ =~= seq![',']);
    let digits = remove_chars(num, commas.as_slice());
    proof {
        lemma_digits_without_commas(num@);
        let d = digits@;
        if d.len() > 0 {
            assert(is_digit(d[0]));
        }
        lemma_decimal_value_nonneg(d);
    }
    parse_i64(digits.as_slice())
}

/// Parses one stat line of the `attrib` field, such as `"+1,713 Vitality"`;
/// `None` when the number or the stat name is not recognised.
pub fn parse_attrib_fragment(s: &str) -> (r: Option<(Stat, i64)>)
    ensures
        r == attrib_fragment_spec(s@),
{
    let t = trim(s);
    let tc = chars_of(t.as_str());
    let n = tc.len();
    let neg = n > 0 && tc[0] == '-';
    let k = number_start(tc.as_slice());
    let ghost u = tc@.subrange(k as int, n as int);
    let e = number_end(tc.as_slice(), k);
    if e == k {
        return None;
    }
    let num = slice_chars(tc.as_slice(), k, e);
    proof {
        lemma_number_prefix_len(u);
        assert(num@ =~= u.subrange(0, (e - k) as int));
        assert forall|x: int| 0 <= x < num@.len() implies is_number_char(#[trigger] num@[x]) by {
            assert(num@[x] == u[x]);
        }
    }
    let value = match number_value(num.as_slice()) {
        Some(v) => v,
        None => return None,
    };
    let rest = slice_chars(tc.as_slice(), e, n);
    assert(rest@ =~= u.subrange((e - k) as int, u.len() as int));
    let name = trim_chars(rest.as_slice());
    let name_str = string_from_chars(name.as_slice());
    match parse_wiki_stat_name(name_str.as_str()) {
        Some(st) => {
            if neg {
                Some((st, -value))
            } else {
                Some((st, value))
            }
        },
        None => None,
    }
}

/// What one line of a template says about the field being looked for.
pub enum LineField {
    /// The line is not `| key = value`, or names another key.
    Skip,
    /// The line starts with `|` but has no `=`: the search stops.
    Abort,
    /// The line sets the field to this (trimmed) value.
    Found(Seq<char>),
}

/// Reads one template line for the field whose lowercased name is `field_lower`.
pub open spec fn line_field(line: Seq<char>, field_lower: Seq<char>) -> LineField {
    let lt = trim_spec(line);
    if lt.len() == 0 || lt[0] != '|' {
        LineField::Skip
    } else {
        let rest = trim_start_spec(lt.drop_first());
        match first_index_of(rest, '=') {
            None => LineField::Abort,
            Some(q) => if unicode_lowercase(trim_spec(rest.subrange(0, q))) == field_lower {
                LineField::Found(trim_spec(rest.subrange(q + 1, rest.len() as int)))
            } else {
                LineField::Skip
            },
        }
    }
}

/// The value of a template field: the first line, scanning down, that sets
/// it; `None` when no line does or a `|` line without `=` comes first.
pub open spec fn template_field_spec(s: Seq<char>, field_lower: Seq<char>) -> Option<Seq<char>>
    decreases s.len(),
{
    let e = line_len(s) as int;
    match line_field(s.subrange(0, e), field_lower) {
        LineField::Skip => if e < s.len() {
            template_field_spec(s.subrange(e + 1, s.len() as int), field_lower)
        } else {
            None
        },
        LineField::Abort => None,
        LineField::Found(v) => Some(v),
    }
}

/// Reads one template line: `Err` for a `|` line without `=`, `Ok(None)` when
/// the line sets another key or none, `Ok(Some(value))` when it sets this one.
fn read_line_field(line: &[char], field_lower: &str) -> (r: Result<Option<Vec<char>>, ()>)
    ensures
        match line_field(line@, field_lower@) {
            LineField::Skip => r == Ok::<Option<Vec<char>>, ()>(None),
            LineField::Abort => r is Err,
            LineField::Found(v) => r matches Ok(Some(x)) && x@ == v,
        },
{
    let lt = trim_chars(line);
    let n = lt.len();
    if n == 0 || lt[0] != '|' {
        return Ok(None);
    }
    let k = skip_whitespace(lt.as_slice(), 1);
    let rest = slice_chars(lt.as_slice(), k, n);
    proof {
        assert(lt@.drop_first() =~= lt@.subrange(1, n as int));
        assert(trim_start_spec(lt@.drop_first()) =~= rest@);
    }
    match find_char(rest.as_slice(), '=') {
        None => Err(()),
        Some(q) => {
            let key_chars = slice_chars(rest.as_slice(), 0, q);
            let key = trim_chars(key_chars.as_slice());
            let key_str = string_from_chars(key.as_slice());
            let key_lower = to_lowercase(key_str.as_str());
            if str_eq(key_lower.as_str(), field_lower) {
                let value_chars = slice_chars(rest.as_slice(), q + 1, rest.len());
                Ok(Some(trim_chars(value_chars.as_slice())))
            } else {
                Ok(None)
            }
        },
    }
}

/// The value of the template field `field` (matched case-insensitively, with
/// whitespace around the key and value ignored), read line by line.
#[verifier::rlimit(40)]
pub fn template_field(template: &str, field: &str) -> (r: Option<String>)
    ensures
        match template_field_spec(template@, unicode_lowercase(field@)) {
            Some(v) => r matches Some(x) && x@ == v,
            None => r is None,
        },
{
    let field_lower = to_lowercase(field);
    let v = chars_of(template);
    let n = v.len();
    let mut pos: usize = 0;
    assert(v@.subrange(0, n as int) =~= template@);
    loop
        invariant
            n == v@.len(),
            v@ == template@,
            field_lower@ == unicode_lowercase(field@),
            pos <= n,
            template_field_spec(template@, field_lower@) == template_field_spec(
                v@.subrange(pos as int, n as int),
                field_lower@,
            ),
        decreases n - pos,
    {
        let ghost sub = v@.subrange(pos as int, n as int);
        let mut j = pos;
        while j < n && v[j] != '\n'
            invariant
                n == v@.len(),
                pos <= j <= n,
                forall|x: int| pos <= x < j ==> v@[x] != '\n',
            decreases n - j,
        {
            j += 1;
        }
        proof {
            assert forall|x: int| 0 <= x < j - pos implies sub[x] != '\n' by {
                assert(sub[x] == v@[pos + x]);
            }
            lemma_line_len(sub, j - pos);
            assert(sub.subrange(0, j - pos) =~= v@.subrange(pos as int, j as int));
        }
        let line = slice_chars(v.as_slice(), pos, j);
        match read_line_field(line.as_slice(), field_lower.as_str()) {
            Err(()) => {
                return None;
            },
            Ok(Some(x)) => {
                return Some(string_from_chars(x.as_slice()));
            },
            Ok(None) => {
                if j < n {
                    assert(sub.subrange(j - pos + 1, sub.len() as int) =~= v@.subrange(j + 1, n as int));
                    pos = j + 1;
                } else {
                    return None;
                }
            },
        }
    }
}

// ── JSON string values ───────────────────────────────────────────────────────

/// The first position at or after `i` where `pat` occurs in `s`.
pub open spec fn find_from<T>(s: Seq<T>, pat: Seq<T>, i: int) -> Option<int>
    decreases s.len() + 1 - i,
{
    if i < 0 || i + pat.len() > s.len() {
        None
    } else if s.subrange(i, i + pat.len()) == pat {
        Some(i)
    } else {
        find_from(s, pat, i + 1)
    }
}

/// What one escape `\c` in a JSON string stands for: the usual single
/// characters, and the backslash kept for any other `c`.
pub open spec fn json_escape(c: char) -> Seq<char> {
    if c == 'n' {
        seq!['\n']
    } else if c == 'r' {
        seq!['\r']
    } else if c == 't' {
        seq!['\t']
    } else if c == '"' {
        seq!['"']
    } else if c == '\\' {
        seq!['\\']
    } else if c == '/' {
        seq!['/']
    } else {
        seq!['\\', c]
    }
}

/// The decoded body of a JSON string whose opening quote has been read: the
/// characters up to the closing quote, escapes decoded; `None` when the text
/// ends first.
#[verifier::opaque]
pub open spec fn json_body(content: Seq<char>) -> Option<Seq<char>>
    decreases content.len(),
{
    if content.len() == 0 {
        None
    } else if content[0] == '"' {
        Some(Seq::empty())
    } else if content[0] == '\\' {
        if content.len() < 2 {
            None
        } else {
            match json_body(content.subrange(2, content.len() as int)) {
                Some(rest) => Some(json_escape(content[1]) + rest),
                None => None,
            }
        }
    } else {
        match json_body(content.drop_first()) {
            Some(rest) => Some(seq![content[0]] + rest),
            None => None,
        }
    }
}

/// The string value that follows a key: after the first `:`, then
/// whitespace, a quoted string.
pub open spec fn json_value_after(after_key: Seq<char>) -> Option<Seq<char>> {
    match find_from(after_key, seq![':'], 0) {
        None => None,
        Some(cp) => {
            quoted_after(after_key.subrange(cp + 1, after_key.len() as int))
        },
    }
}

/// The string value of the first `"key"` in a JSON text, read by searching
/// the text: after the key, the first `:`, then whitespace, then a quoted
/// string.
pub open spec fn json_string_spec(json: Seq<char>, key: Seq<char>) -> Option<Seq<char>> {
    let needle = seq!['"'] + key + seq!['"'];
    match find_from(json, needle, 0) {
        None => None,
        Some(st) => json_value_after(json.subrange(st + needle.len(), json.len() as int)),
    }
}

/// What a successful search finds: an occurrence, at or after the start.
proof fn lemma_find_from<T>(s: Seq<T>, pat: Seq<T>, i: int)
    ensures
        match find_from(s, pat, i) {
            Some(j) => i <= j && 0 <= j && j + pat.len() <= s.len() && s.subrange(j, j + pat.len()) == pat,
            None => true,
        },
    decreases s.len() + 1 - i,
{
    if i < 0 || i + pat.len() > s.len() {
    } else if s.subrange(i, i + pat.len()) == pat {
    } else {
        lemma_find_from(s, pat, i + 1);
    }
}

/// Whether `pat` occurs in `v` at `i`.
fn matches_at(v: &[char], pat: &[char], i: usize) -> (r: bool)
    requires
        i + pat@.len() <= v@.len(),
    ensures
        r == (v@.subrange(i as int, i + pat@.len()) == pat@),
{
    let m = pat.len();
    let n = v.len();
    let mut j: usize = 0;
    while j < m
        invariant
            j <= m,
            m == pat@.len(),
            n == v@.len(),
            i + m <= n,
            forall|k: int| 0 <= k < j ==> v@[i + k] == pat@[k],
        decreases m - j,
    {
        if v[i + j] != pat[j] {
            assert(v@.subrange(i as int, i + m)[j as int] != pat@[j as int]);
            return false;
        }
        j += 1;
    }
    assert(v@.subrange(i as int, i + m) =~= pat@);
    true
}

/// The first position at or after `from` where `pat` occurs in `v`.
fn find_chars(v: &[char], pat: &[char], from: usize) -> (r: Option<usize>)
    requires
        from <= v@.len(),
    ensures
        match r {
            Some(k) => find_from(v@, pat@, from as int) == Some(k as int),
            None => find_from(v@, pat@, from as int) is None,
        },
{
    let n = v.len();
    let m = pat.len();
    if m == 0 {
        assert(v@.subrange(from as int, from as int) =~= pat@);
        return Some(from);
    }
    if m > n {
        return None;
    }
    let mut i = from;
    while i <= n - m
        invariant
            from <= i <= n,
            1 <= m <= n,
            n == v@.len(),
            m == pat@.len(),
            find_from(v@, pat@, from as int) == find_from(v@, pat@, i as int),
        decreases n - i,
    {
        if matches_at(v, pat, i) {
            return Some(i);
        }
        i += 1;
    }
    None
}

/// The decoded JSON string starting at `v[from]` (just after its opening
/// quote).
fn json_body_at(v: &[char], from: usize) -> (r: Option<String>)
    requires
        from <= v@.len(),
    ensures
        match json_body(v@.subrange(from as int, v@.len() as int)) {
            Some(b) => r matches Some(x) && x@ == b,
            None => r is None,
        },
{
    reveal(json_body);
    let n = v.len();
    let mut out = String::new();
    let mut i = from;
    while i < n
        invariant
            from <= i <= n,
            n == v@.len(),
            json_body(v@.subrange(from as int, n as int)) == match json_body(v@.subrange(i as int, n as int)) {
                Some(rest) => Some(out@ + rest),
                None => None::<Seq<char>>,
            },
        decreases n - i,
    {
        reveal(json_body);
        let ghost tail = v@.subrange(i as int, n as int);
        let c = v[i];
        assert(tail[0] == c);
        if c == '"' {
            assert(out@ + Seq::<char>::empty() =~= out@);
            return Some(out);
        }
        if c == '\\' {
            if i + 1 >= n {
                return None;
            }
            let e = v[i + 1];
            assert(tail[1] == e);
            assert(tail.subrange(2, tail.len() as int) =~= v@.subrange(i + 2, n as int));
            let ghost before = out@;
            if e == 'n' {
                push_char(&mut out, '\n');
            } else if e == 'r' {
                push_char(&mut out, '\r');
            } else if e == 't' {
                push_char(&mut out, '\t');
            } else if e == '"' {
                push_char(&mut out, '"');
            } else if e == '\\' {
                push_char(&mut out, '\\');
            } else if e == '/' {
                push_char(&mut out, '/');
            } else {
                push_char(&mut out, '\\');
                push_char(&mut out, e);
            }
            assert(out@ =~= before + json_escape(e));
            proof {
                let rest = json_body(v@.subrange(i + 2, n as int));
                if let Some(rr) = rest {
                    assert(before + (json_escape(e) + rr) =~= out@ + rr);
                }
            }
            i += 2;
        } else {
            assert(tail.drop_first() =~= v@.subrange(i + 1, n as int));
            let ghost before = out@;
            push_char(&mut out, c);
            proof {
                let rest = json_body(v@.subrange(i + 1, n as int));
                if let Some(rr) = rest {
                    assert(before + (seq![c] + rr) =~= out@ + rr);
                }
            }
            i += 1;
        }
    }
    None
}

/// `"key"` as characters.
fn quoted_key(key: &str) -> (r: Vec<char>)
    ensures
        r@ == seq!['"'] + key@ + seq!['"'],
{
    let mut needle: Vec<char> = Vec::new();
    needle.push('"');
    let kv = chars_of(key);
    let mut k: usize = 0;
    while k < kv.len()
        invariant
            k <= kv@.len(),
            needle@ == seq!['"'] + kv@.subrange(0, k as int),
        decreases kv@.len() - k,
    {
        needle.push(kv[k]);
        k += 1;
        assert(needle@ =~= seq!['"'] + kv@.subrange(0, k as int));
    }
    needle.push('"');
    assert(kv@.subrange(0, kv@.len() as int) =~= kv@);
    assert(needle@ =~= seq!['"'] + key@ + seq!['"']);
    needle
}

/// The quoted string that `rest` starts with after whitespace.
#[verifier::opaque]
pub open spec fn quoted_after(rest: Seq<char>) -> Option<Seq<char>> {
    let after = trim_start_spec(rest);
    if after.len() == 0 || after[0] != '"' {
        None
    } else {
        json_body(after.drop_first())
    }
}

#[verifier::spinoff_prover]
#[verifier::rlimit(30)]
proof fn lemma_quoted_after_at(v: Seq<char>, from: int, q: int)
    requires
        0 <= from <= q <= v.len(),
        q - from == crate::text::trim_start_index(v.subrange(from, v.len() as int)),
    ensures
        quoted_after(v.subrange(from, v.len() as int)) == if q >= v.len() || v[q] != '"' {
            None
        } else {
            json_body(v.subrange(q + 1, v.len() as int))
        },
{
    reveal(quoted_after);
    let rest = v.subrange(from, v.len() as int);
    let after = v.subrange(q, v.len() as int);
    assert(trim_start_spec(rest) == after) by {
        assert(rest.subrange(q - from, rest.len() as int) =~= after);
    }
    if q < v.len() {
        assert(after[0] == v[q]);
        assert(after.drop_first() =~= v.subrange(q + 1, v.len() as int));
    }
}

fn quoted_at(v: &[char], from: usize) -> (r: Option<String>)
    requires
        from <= v@.len(),
    ensures
        match quoted_after(v@.subrange(from as int, v@.len() as int)) {
            Some(x) => r matches Some(s) && s@ == x,
            None => r is None,
        },
{
    let n = v.len();
    let q = skip_whitespace(v, from);
    proof {
        lemma_quoted_after_at(v@, from as int, q as int);
    }
    if q >= n || v[q] != '"' {
        return None;
    }
    json_body_at(v, q + 1)
}

/// The string value following a key that ends at `v[ak]`.
fn value_after_key(v: &[char], ak: usize) -> (r: Option<String>)
    requires
        ak <= v@.len(),
    ensures
        match json_value_after(v@.subrange(ak as int, v@.len() as int)) {
            Some(x) => r matches Some(s) && s@ == x,
            None => r is None,
        },
{
    let n = v.len();
    let ghost after_key = v@.subrange(ak as int, v@.len() as int);
    let colon: Vec<char> = vec![':'];
    assert(colon@ =~= seq![':']);
    proof {
        lemma_find_shift(v@, seq![':'], ak as int, 0);
        lemma_find_from(after_key, seq![':'], 0);
        lemma_find_from(v@, seq![':'], ak as int);
    }
    let cp = match find_chars(v, colon.as_slice(), ak) {
        Some(c) => c,
        None => {
            return None;
        },
    };
    assert(cp + 1 <= v@.len());
    proof {
        if find_from(after_key, seq![':'], 0) is None {
            assert(false);
        }
        let j = find_from(after_key, seq![':'], 0)->Some_0;
        assert(cp == ak + j);
        assert(v@.subrange(cp + 1, v@.len() as int) =~= after_key.subrange(j + 1, after_key.len() as int));
    }
    quoted_at(v, cp + 1)
}

/// The string value of the first `"key"` in a JSON text (see
/// `json_string_spec`).
pub fn extract_json_string(json: &str, key: &str) -> (r: Option<String>)
    ensures
        match json_string_spec(json@, key@) {
            Some(v) => r matches Some(x) && x@ == v,
            None => r is None,
        },
{
    let v = chars_of(json);
    let vn = v.len();
    let needle = quoted_key(key);
    proof {
        lemma_find_from(v@, needle@, 0);
    }
    let st = match find_chars(v.as_slice(), needle.as_slice(), 0) {
        Some(st) => st,
        None => {
            return None;
        },
    };
    proof {
        let fi = find_from(v@, needle@, 0)->Some_0;
        assert(0 <= fi && fi + needle@.len() <= v@.len());
    }
    value_after_key(v.as_slice(), st + needle.len())
}

/// Searching `s` from `base + i` is searching its suffix from `base` at `i`.
proof fn lemma_find_shift(s: Seq<char>, pat: Seq<char>, base: int, i: int)
    requires
        0 <= base <= s.len(),
        0 <= i,
    ensures
        match find_from(s.subrange(base, s.len() as int), pat, i) {
            Some(j) => find_from(s, pat, base + i) == Some(base + j),
            None => find_from(s, pat, base + i) is None,
        },
    decreases s.len() + 1 - base - i,
{
    let t = s.subrange(base, s.len() as int);
    if i + pat.len() > t.len() {
    } else {
        assert(t.subrange(i, i + pat.len()) =~= s.subrange(base + i, base + i + pat.len()));
        if t.subrange(i, i + pat.len()) != pat {
            lemma_find_shift(s, pat, base, i + 1);
        }
    }
}

/// The page wikitext of a MediaWiki `action=parse` response: the string
/// under the `*` key (written `\*` or `*`).
pub open spec fn wikitext_spec(json: Seq<char>) -> Option<Seq<char>> {
    match json_string_spec(json, seq!['\\', '*']) {
        Some(w) => Some(w),
        None => json_string_spec(json, seq!['*']),
    }
}

/// The page wikitext of a MediaWiki `action=parse` response.
pub fn extract_wikitext(json: &str) -> (r: Option<String>)
    ensures
        match wikitext_spec(json@) {
            Some(w) => r matches Some(x) && x@ == w,
            None => r is None,
        },
{
    proof {
        reveal_strlit("\\*");
        reveal_strlit("*");
        assert("\\*"@ =~= seq!['\\', '*']);
        assert("*"@ =~= seq!['*']);
    }
    match extract_json_string(json, "\\*") {
        Some(w) => Some(w),
        None => extract_json_string(json, "*"),
    }
}

// ── Templates ────────────────────────────────────────────────────────────────

/// Whether `pat` occurs in `v` at `i`.
fn bytes_match_at(v: &[u8], pat: &[u8], i: usize) -> (r: bool)
    requires
        i + pat@.len() <= v@.len(),
    ensures
        r == (v@.subrange(i as int, i + pat@.len()) == pat@),
{
    let m = pat.len();
    let n = v.len();
    let mut j: usize = 0;
    while j < m
        invariant
            j <= m,
            m == pat@.len(),
            n == v@.len(),
            i + m <= n,
            forall|k: int| 0 <= k < j ==> v@[i + k] == pat@[k],
        decreases m - j,
    {
        if v[i + j] != pat[j] {
            assert(v@.subrange(i as int, i + m)[j as int] != pat@[j as int]);
            return false;
        }
        j += 1;
    }
    assert(v@.subrange(i as int, i + m) =~= pat@);
    true
}

/// The first position where `pat` occurs in `v`.
fn find_bytes(v: &[u8], pat: &[u8]) -> (r: Option<usize>)
    ensures
        match r {
            Some(k) => find_from(v@, pat@, 0) == Some(k as int),
            None => find_from(v@, pat@, 0) is None,
        },
{
    let n = v.len();
    let m = pat.len();
    if m == 0 {
        assert(v@.subrange(0, 0) =~= pat@);
        return Some(0);
    }
    if m > n {
        return None;
    }
    let mut i: usize = 0;
    while i <= n - m
        invariant
            i <= n,
            1 <= m <= n,
            n == v@.len(),
            m == pat@.len(),
            find_from(v@, pat@, 0) == find_from(v@, pat@, i as int),
        decreases n - i,
    {
        if bytes_match_at(v, pat, i) {
            return Some(i);
        }
        i += 1;
    }
    None
}

/// Scanning `cs` from `i` with `depth` braces open: the position just past
/// the `}}` that closes the first `{{`, the length when none does, and
/// `None` when a `}}` comes with no `{{` open.
pub open spec fn brace_end(cs: Seq<char>, i: int, depth: nat) -> Option<int>
    decreases cs.len() - i,
{
    if i < 0 || i >= cs.len() {
        Some(cs.len() as int)
    } else if cs[i] == '{' && i + 1 < cs.len() && cs[i + 1] == '{' {
        brace_end(cs, i + 2, depth + 1)
    } else if cs[i] == '}' && i + 1 < cs.len() && cs[i + 1] == '}' {
        if depth == 0 {
            None
        } else if depth == 1 {
            Some(i + 2)
        } else {
            brace_end(cs, i + 2, (depth - 1) as nat)
        }
    } else {
        brace_end(cs, i + 1, depth)
    }
}

/// Where the `{{<name>` template starts, as a byte position in `text`: the
/// first match of `{{` and the lowercased name in the lowercased text.
pub open spec fn template_start(text: Seq<char>, name: Seq<char>) -> Option<int> {
    find_from(encode_utf8(unicode_lowercase(text)), encode_utf8(seq!['{', '{'] + unicode_lowercase(name)), 0)
}

/// The characters of `text` from byte position `st` on.
pub open spec fn chars_from_byte(text: Seq<char>, st: int) -> Seq<char> {
    decode_utf8(encode_utf8(text).subrange(st, encode_utf8(text).len() as int))
}

/// Whether the template search completes: the start it finds is a character
/// boundary of `text`, and every `}}` it meets closes an open `{{`.
pub open spec fn template_search_ok(text: Seq<char>, name: Seq<char>) -> bool {
    match template_start(text, name) {
        None => true,
        Some(st) => is_char_boundary(encode_utf8(text), st) && brace_end(chars_from_byte(text, st), 0, 0) is Some,
    }
}

/// The text of the `{{<name> ... }}` template: from its start to just past
/// its closing `}}`, or to the end of the text when it is not closed.
pub open spec fn template_text(text: Seq<char>, st: int) -> Seq<char> {
    let cs = chars_from_byte(text, st);
    cs.subrange(0, brace_end(cs, 0, 0)->Some_0)
}

/// The position just past the `}}` that closes the `{{` that `s` starts
/// with, or its length.
fn closing_braces(s: &str) -> (r: usize)
    requires
        brace_end(s@, 0, 0) is Some,
    ensures
        Some(r as int) == brace_end(s@, 0, 0),
{
    let n = s.unicode_len();
    let mut i: usize = 0;
    let mut depth: usize = 0;
    while i < n
        invariant
            n == s@.len(),
            i <= n,
            depth <= i,
            brace_end(s@, 0, 0) == brace_end(s@, i as int, depth as nat),
            brace_end(s@, 0, 0) is Some,
        decreases n - i,
    {
        let c = s.get_char(i);
        if c == '{' && i + 1 < n && s.get_char(i + 1) == '{' {
            depth += 1;
            i += 2;
        } else if c == '}' && i + 1 < n && s.get_char(i + 1) == '}' {
            if depth == 1 {
                return i + 2;
            }
            depth -= 1;
            i += 2;
        } else {
            i += 1;
        }
    }
    n
}

/// The `{{<name> ... }}` template of a page's wikitext, the name matched
/// without regard to case.
pub fn extract_template(wikitext: &str, name: &str) -> (r: Option<String>)
    requires
        template_search_ok(wikitext@, name@),
    ensures
        match template_start(wikitext@, name@) {
            None => r is None,
            Some(st) => r matches Some(t) && t@ == template_text(wikitext@, st),
        },
{
    let lower = to_lowercase(wikitext);
    let lname = to_lowercase(name);
    let key = concat2("{{", lname.as_str());
    proof {
        reveal_strlit("{{");
        assert("{{"@ =~= seq!['{', '{']);
    }
    let hay = lower.as_str().as_bytes();
    let pat = key.as_str().as_bytes();
    let st = match find_bytes(hay, pat) {
        Some(st) => st,
        None => {
            return None;
        },
    };
    proof {
        vstd::utf8::encode_utf8_valid_utf8(wikitext@);
    }
    let (_, slice) = wikitext.split_at(st);
    proof {
        vstd::utf8::encode_utf8_decode_utf8(slice@);
        assert(slice@ == chars_from_byte(wikitext@, st as int));
    }
    let end = closing_braces(slice);
    proof {
        assert(end <= slice@.len()) by {
            lemma_brace_end_bound(slice@, 0, 0);
        }
    }
    Some(crate::text::substring(slice, 0, end))
}

/// Where the scan stops lies within the text.
proof fn lemma_brace_end_bound(cs: Seq<char>, i: int, depth: nat)
    ensures
        brace_end(cs, i, depth) matches Some(e) ==> e <= cs.len(),
    decreases cs.len() - i,
{
    if i < 0 || i >= cs.len() {
    } else if cs[i] == '{' && i + 1 < cs.len() && cs[i + 1] == '{' {
        lemma_brace_end_bound(cs, i + 2, depth + 1);
    } else if cs[i] == '}' && i + 1 < cs.len() && cs[i + 1] == '}' {
        if depth > 1 {
            lemma_brace_end_bound(cs, i + 2, (depth - 1) as nat);
        }
    } else {
        lemma_brace_end_bound(cs, i + 1, depth);
    }
}

// ── Item responses ───────────────────────────────────────────────────────────

/// The separator of the `attrib` field's stat lines.
pub open spec fn br_tag() -> Seq<char> {
    seq!['<', 'b', 'r', '>']
}

/// The `<br>`-separated pieces of `s`, as `str::split` gives them.
pub open spec fn br_pieces(s: Seq<char>) -> Seq<Seq<char>>
    decreases s.len(),
{
    match find_from(s, br_tag(), 0) {
        Some(i) => if 0 <= i && i + 4 <= s.len() {
            seq![s.subrange(0, i)] + br_pieces(s.subrange(i + 4, s.len() as int))
        } else {
            seq![s]
        },
        None => seq![s],
    }
}

/// The stat and value one `attrib` piece adds, when it is not blank and
/// parses.
pub open spec fn piece_stat(p: Seq<char>) -> Option<(Stat, i64)> {
    let t = trim_spec(p);
    if t.len() == 0 {
        None
    } else {
        attrib_fragment_spec(t)
    }
}

/// The total for `s` over the first `n` pieces.
pub open spec fn pieces_total(ps: Seq<Seq<char>>, n: int, s: Stat) -> int
    decreases n,
{
    if n <= 0 {
        0
    } else {
        pieces_total(ps, n - 1, s) + match piece_stat(ps[n - 1]) {
            Some(sv) => if sv.0 == s {
                sv.1 as int
            } else {
                0
            },
            None => 0,
        }
    }
}

/// The stat-line pieces of a tooltip's `attrib` field (none without one).
pub open spec fn attrib_pieces(t: Seq<char>) -> Seq<Seq<char>> {
    match template_field_spec(t, unicode_lowercase("attrib"@)) {
        Some(a) => br_pieces(a),
        None => Seq::empty(),
    }
}

/// A tooltip's `armour` value, when it is a number once thousands separators
/// are dropped.
pub open spec fn armour_value(t: Seq<char>) -> Option<i64> {
    match template_field_spec(t, unicode_lowercase("armour"@)) {
        Some(a) => parse_i64_spec(trim_spec(without_chars(a, seq![',']))),
        None => None,
    }
}

/// A tooltip's value for `s`: the sum of its `attrib` lines for `s`, plus
/// the `armour` value for Armor.
pub open spec fn tooltip_stat(t: Seq<char>, s: Stat) -> int {
    pieces_total(attrib_pieces(t), attrib_pieces(t).len() as int, s) + if s == Stat::Armor {
        match armour_value(t) {
            Some(v) => v as int,
            None => 0,
        }
    } else {
        0
    }
}

/// Whether every running total formed reading a tooltip is an `i64`.
pub open spec fn tooltip_fits(t: Seq<char>) -> bool {
    &&& forall|n: int, s: Stat|
        0 <= n <= attrib_pieces(t).len() ==> in_i64_range(#[trigger] pieces_total(attrib_pieces(t), n, s))
    &&& forall|s: Stat| in_i64_range(#[trigger] tooltip_stat(t, s))
}

/// The marker of a MediaWiki API error.
pub open spec fn api_error_marker() -> Seq<char> {
    seq!['"', 'e', 'r', 'r', 'o', 'r', '"']
}

/// The name of the item template.
pub open spec fn tooltip_name() -> Seq<char> {
    "Item Tooltip"@
}

/// The tooltip template of a response, when it has wikitext and a tooltip.
pub open spec fn response_tooltip(json: Seq<char>) -> Option<Seq<char>> {
    match wikitext_spec(json) {
        Some(w) => match template_start(w, tooltip_name()) {
            Some(st) => Some(template_text(w, st)),
            None => None,
        },
        None => None,
    }
}

/// Whether reading a response completes: the tooltip search runs through and
/// no stat total leaves `i64`.
pub open spec fn response_ok(json: Seq<char>) -> bool {
    find_from(json, api_error_marker(), 0) is None ==> match wikitext_spec(json) {
        Some(w) => template_search_ok(w, tooltip_name()) && match template_start(w, tooltip_name()) {
            Some(st) => tooltip_fits(template_text(w, st)),
            None => true,
        },
        None => true,
    }
}

/// What a response for item `name` gives: its slot and tooltip, or the
/// error message.
pub open spec fn wiki_item_spec(name: Seq<char>, json: Seq<char>) -> Result<(Slot, Seq<char>), Seq<char>> {
    if find_from(json, api_error_marker(), 0) is Some {
        Err(
            "Wiki API error: "@ + match json_string_spec(json, "info"@) {
                Some(i) => i,
                None => "unknown API error"@,
            },
        )
    } else {
        match wikitext_spec(json) {
            None => Err("No wikitext found in response for '"@ + name + "'"@),
            Some(w) => match template_start(w, tooltip_name()) {
                None => Err("No {{Item Tooltip}} template found for '"@ + name + "'"@),
                Some(st) => {
                    let t = template_text(w, st);
                    match template_field_spec(t, unicode_lowercase("slot"@)) {
                        None => Err("No 'slot' field in template for '"@ + name + "'"@),
                        Some(ss) => match wiki_slot_named(unicode_lowercase(trim_spec(ss))) {
                            None => Err("Unrecognised slot '"@ + ss + "' for '"@ + name + "'"@),
                            Some(slot) => Ok((slot, t)),
                        },
                    }
                },
            },
        }
    }
}

/// The pieces of `a` from `pos` on are the pieces of its suffix.
proof fn lemma_pieces_step(a: Seq<char>, pos: int)
    requires
        0 <= pos <= a.len(),
    ensures
        ({
            let rest = a.subrange(pos, a.len() as int);
            match find_from(a, br_tag(), pos) {
                Some(i) => pos <= i && i + 4 <= a.len() && br_pieces(rest) == seq![a.subrange(pos, i)] + br_pieces(
                    a.subrange(i + 4, a.len() as int),
                ),
                None => br_pieces(rest) == seq![rest],
            }
        }),
{
    let rest = a.subrange(pos, a.len() as int);
    lemma_find_shift(a, br_tag(), pos, 0);
    lemma_find_from(rest, br_tag(), 0);
    lemma_find_from(a, br_tag(), pos);
    match find_from(rest, br_tag(), 0) {
        Some(j) => {
            assert(rest.subrange(0, j) =~= a.subrange(pos, pos + j));
            assert(rest.subrange(j + 4, rest.len() as int) =~= a.subrange(pos + j + 4, a.len() as int));
        },
        None => {},
    }
}

/// Adds what one `attrib` piece gives to the totals.
fn add_piece(stats: &mut StatMap, piece: &[char], Ghost(done): Ghost<Seq<Seq<char>>>, Ghost(all): Ghost<Seq<Seq<char>>>)
    requires
        all.len() >= done.len() + 1,
        all.subrange(0, done.len() as int) == done,
        all[done.len() as int] == piece@,
        forall|s: Stat| #[trigger] old(stats).value(s) == pieces_total(all, done.len() as int, s),
        forall|s: Stat| in_i64_range(#[trigger] pieces_total(all, done.len() + 1int, s)),
    ensures
        forall|s: Stat| #[trigger] final(stats).value(s) == pieces_total(all, done.len() + 1int, s),
{
    let t = trim_chars(piece);
    if t.len() == 0 {
        return;
    }
    let ts = string_from_chars(t.as_slice());
    match parse_attrib_fragment(ts.as_str()) {
        Some((st, v)) => {
            assert(in_i64_range(pieces_total(all, done.len() + 1int, st)));
            let cur = stats.get(st);
            stats.set(st, cur + v);
        },
        None => {},
    }
}

/// The stats of an item tooltip: its `attrib` lines summed per stat, plus
/// its `armour` value for Armor.
fn tooltip_stats(t: &str) -> (r: StatMap)
    requires
        tooltip_fits(t@),
    ensures
        forall|s: Stat| #[trigger] r.value(s) == tooltip_stat(t@, s),
{
    let mut stats = StatMap::new();
    let ghost all = attrib_pieces(t@);
    match template_field(t, "attrib") {
        Some(a) => {
            let av = chars_of(a.as_str());
            let n = av.len();
            let br: Vec<char> = vec!['<', 'b', 'r', '>'];
            assert(br@ =~= br_tag());
            let mut pos: usize = 0;
            let ghost mut done: Seq<Seq<char>> = Seq::empty();
            assert(av@.subrange(0, n as int) =~= av@);
            loop
                invariant_except_break
                    pos <= n,
                    n == av@.len(),
                    br@ == br_tag(),
                    all == br_pieces(av@),
                    all == done + br_pieces(av@.subrange(pos as int, n as int)),
                    forall|s: Stat| #[trigger] stats.value(s) == pieces_total(all, done.len() as int, s),
                    tooltip_fits(t@),
                    all == attrib_pieces(t@),
                ensures
                    forall|s: Stat| #[trigger] stats.value(s) == pieces_total(all, all.len() as int, s),
                decreases n - pos,
            {
                proof {
                    lemma_pieces_step(av@, pos as int);
                }
                let ghost rest = br_pieces(av@.subrange(pos as int, n as int));
                match find_chars(av.as_slice(), br.as_slice(), pos) {
                    Some(i) => {
                        let piece = slice_chars(av.as_slice(), pos, i);
                        proof {
                            assert(all.subrange(0, done.len() as int) =~= done);
                            assert(all[done.len() as int] == rest[0]);
                            assert(in_i64_range(pieces_total(all, done.len() + 1int, Stat::Armor)));
                        }
                        add_piece(&mut stats, piece.as_slice(), Ghost(done), Ghost(all));
                        proof {
                            let next = br_pieces(av@.subrange(i + 4, n as int));
                            assert(rest == seq![piece@] + next);
                            assert(done.push(piece@) + next =~= done + rest);
                            done = done.push(piece@);
                        }
                        pos = i + 4;
                    },
                    None => {
                        let piece = slice_chars(av.as_slice(), pos, n);
                        proof {
                            assert(all.subrange(0, done.len() as int) =~= done);
                            assert(rest == seq![piece@]);
                            assert(all[done.len() as int] == piece@);
                        }
                        add_piece(&mut stats, piece.as_slice(), Ghost(done), Ghost(all));
                        proof {
                            assert(all.len() == done.len() + 1);
                        }
                        break;
                    },
                }
            }
        },
        None => {
            assert(all.len() == 0);
        },
    }
    match template_field(t, "armour") {
        Some(a) => {
            let ac = chars_of(a.as_str());
            let commas: Vec<char> = vec![','];
            assert(commas@ =~= seq![',']);
            let nc = remove_chars(ac.as_slice(), commas.as_slice());
            let tc = trim_chars(nc.as_slice());
            match parse_i64(tc.as_slice()) {
                Some(v) => {
                    assert(in_i64_range(tooltip_stat(t@, Stat::Armor)));
                    let cur = stats.get(Stat::Armor);
                    stats.set(Stat::Armor, cur + v);
                },
                None => {},
            }
        },
        None => {},
    }
    stats
}

/// Reads a MediaWiki `action=parse` response for item `name`: an API error,
/// a missing wikitext, tooltip or slot, or an unknown slot is an error;
/// otherwise the item with its slot and tooltip stats.
pub fn parse_wiki_response(name: &str, json: &str) -> (r: Result<CachedItem, String>)
    requires
        response_ok(json@),
    ensures
        match wiki_item_spec(name@, json@) {
            Err(m) => r matches Err(e) && e@ == m,
            Ok(st) => r matches Ok(item) && item.name@ == name@ && item.slot == st.0 && forall|s: Stat|
                #[trigger] item.stats.value(s) == tooltip_stat(st.1, s),
        },
{
    proof {
        reveal_strlit("Item Tooltip");
    }
    let jv = chars_of(json);
    let marker: Vec<char> = vec!['"', 'e', 'r', 'r', 'o', 'r', '"'];
    assert(marker@ =~= api_error_marker());
    if find_chars(jv.as_slice(), marker.as_slice(), 0).is_some() {
        let mut e = "Wiki API error: ".to_owned();
        match extract_json_string(json, "info") {
            Some(i) => e.append(i.as_str()),
            None => e.append("unknown API error"),
        }
        return Err(e);
    }
    let w = match extract_wikitext(json) {
        Some(w) => w,
        None => {
            return Err(concat3("No wikitext found in response for '", name, "'"));
        },
    };
    assert("Item Tooltip"@ == tooltip_name());
    let t = match extract_template(w.as_str(), "Item Tooltip") {
        Some(t) => t,
        None => {
            return Err(concat3("No {{Item Tooltip}} template found for '", name, "'"));
        },
    };
    let ss = match template_field(t.as_str(), "slot") {
        Some(x) => x,
        None => {
            return Err(concat3("No 'slot' field in template for '", name, "'"));
        },
    };
    let slot = match parse_slot(ss.as_str()) {
        Some(sl) => sl,
        None => {
            let mut e = "Unrecognised slot '".to_owned();
            e.append(ss.as_str());
            e.append("' for '");
            e.append(name);
            e.append("'");
            return Err(e);
        },
    };
    let stats = tooltip_stats(t.as_str());
    Ok(CachedItem { name: name.to_owned(), slot, stats })
}

} // verus!
