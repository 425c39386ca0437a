//! The offline item database builder: reads the LotroCompanion item database
//! (`data/items.xml`) and indexes every equippable item by name with its
//! canonical slot and hand flags. Item stats are not taken from here; they
//! come from the bookmarklet. Reading and writing the files is left to the
//! caller.
use quick_xml::events::{BytesStart, Event};
use quick_xml::Reader;
use vstd::prelude::*;

use crate::gear::{slot_display_spec, Slot};
use crate::text::{chars_of, eq_lit, parse_i64, parse_i64_spec, str_eq};

verus! {

/// An XML event as the builder reads it: element starts, ends and
/// self-closing elements with their attributes in document order.
#[derive(Debug, Clone)]
pub enum XmlEvent {
    Start { tag: String, attrs: Vec<(String, String)> },
    End { tag: String },
    Empty { tag: String, attrs: Vec<(String, String)> },
    /// Text, comments, declarations and the like.
    Other,
    /// The end of the document.
    Eof,
    /// The reader's error text.
    Failed(String),
}

/// The value of attribute `key`: the last one given under that key.
pub open spec fn attr_value(attrs: Seq<(String, String)>, key: Seq<char>) -> Option<Seq<char>>
    decreases attrs.len(),
{
    if attrs.len() == 0 {
        None
    } else if attrs.last().0@ == key {
        Some(attrs.last().1@)
    } else {
        attr_value(attrs.drop_last(), key)
    }
}

fn find_attr(attrs: &Vec<(String, String)>, key: &str) -> (r: Option<usize>)
    ensures
        match attr_value(attrs@, key@) {
            None => r is None,
            Some(v) => r matches Some(i) && i < attrs@.len() && attrs@[i as int].1@ == v,
        },
{
    let mut k = attrs.len();
    assert(attrs@.take(k as int) =~= attrs@);
    while k > 0
        invariant
            k <= attrs@.len(),
            attr_value(attrs@, key@) == attr_value(attrs@.take(k as int), key@),
        decreases k,
    {
        let ghost t = attrs@.take(k as int);
        assert(t.last() == attrs@[k - 1]);
        assert(t.drop_last() =~= attrs@.take(k - 1));
        if str_eq(attrs[k - 1].0.as_str(), key) {
            return Some(k - 1);
        }
        k -= 1;
    }
    None
}

/// The slot an item database `slot` key names; paired slots map to their
/// first member and `EITHER_HAND` to the off-hand.
pub open spec fn xml_slot_named(s: Seq<char>) -> Option<Slot> {
    if s == "HEAD"@ {
        Some(Slot::Head)
    } else if s == "CHEST"@ {
        Some(Slot::Chest)
    } else if s == "LEGS"@ {
        Some(Slot::Legs)
    } else if s == "HAND"@ {
        Some(Slot::Hands)
    } else if s == "FEET"@ {
        Some(Slot::Feet)
    } else if s == "SHOULDER"@ {
        Some(Slot::Shoulders)
    } else if s == "BACK"@ {
        Some(Slot::Back)
    } else if s == "WRIST"@ || s == "LEFT_WRIST"@ || s == "RIGHT_WRIST"@ {
        Some(Slot::Wrist1)
    } else if s == "NECK"@ {
        Some(Slot::Neck)
    } else if s == "FINGER"@ || s == "LEFT_FINGER"@ || s == "RIGHT_FINGER"@ {
        Some(Slot::Finger1)
    } else if s == "EAR"@ || s == "LEFT_EAR"@ || s == "RIGHT_EAR"@ {
        Some(Slot::Ear1)
    } else if s == "POCKET"@ {
        Some(Slot::Pocket)
    } else if s == "MAIN_HAND"@ {
        Some(Slot::MainHand)
    } else if s == "EITHER_HAND"@ || s == "OFF_HAND"@ {
        Some(Slot::OffHand)
    } else if s == "RANGED_ITEM"@ {
        Some(Slot::Ranged)
    } else if s == "CLASS_SLOT"@ {
        Some(Slot::ClassItem)
    } else {
        None
    }
}

/// The keys that name one member of a paired family, or either hand, and
/// read as the key they stand beside.
pub open spec fn xml_alias_of(k: Seq<char>) -> Option<Seq<char>> {
    if k == "LEFT_WRIST"@ || k == "RIGHT_WRIST"@ {
        Some("WRIST"@)
    } else if k == "LEFT_FINGER"@ || k == "RIGHT_FINGER"@ {
        Some("FINGER"@)
    } else if k == "LEFT_EAR"@ || k == "RIGHT_EAR"@ {
        Some("EAR"@)
    } else if k == "EITHER_HAND"@ {
        Some("OFF_HAND"@)
    } else {
        None
    }
}

proof fn lemma_alias_keys()
    ensures
        xml_slot_named("WRIST"@) == Some(Slot::Wrist1),
        xml_slot_named("FINGER"@) == Some(Slot::Finger1),
        xml_slot_named("EAR"@) == Some(Slot::Ear1),
        xml_slot_named("OFF_HAND"@) == Some(Slot::OffHand),
        xml_slot_named("LEFT_WRIST"@) == Some(Slot::Wrist1),
        xml_slot_named("RIGHT_WRIST"@) == Some(Slot::Wrist1),
        xml_slot_named("LEFT_FINGER"@) == Some(Slot::Finger1),
        xml_slot_named("RIGHT_FINGER"@) == Some(Slot::Finger1),
        xml_slot_named("LEFT_EAR"@) == Some(Slot::Ear1),
        xml_slot_named("RIGHT_EAR"@) == Some(Slot::Ear1),
        xml_slot_named("EITHER_HAND"@) == Some(Slot::OffHand),
{
    reveal_strlit("EAR");
    reveal_strlit("HEAD");
    reveal_strlit("HAND");
    reveal_strlit("BACK");
    reveal_strlit("NECK");
    reveal_strlit("LEGS");
    reveal_strlit("FEET");
    reveal_strlit("CHEST");
    reveal_strlit("WRIST");
    reveal_strlit("FINGER");
    reveal_strlit("POCKET");
    reveal_strlit("OFF_HAND");
    reveal_strlit("LEFT_EAR");
    reveal_strlit("SHOULDER");
    reveal_strlit("MAIN_HAND");
    reveal_strlit("RIGHT_EAR");
    reveal_strlit("CLASS_SLOT");
    reveal_strlit("LEFT_WRIST");
    reveal_strlit("EITHER_HAND");
    reveal_strlit("RANGED_ITEM");
    reveal_strlit("LEFT_FINGER");
    reveal_strlit("RIGHT_WRIST");
    reveal_strlit("RIGHT_FINGER");
    assert("EAR"@.len() == 3);
    assert("HEAD"@.len() == 4);
    assert("HAND"@.len() == 4);
    assert("BACK"@.len() == 4);
    assert("NECK"@.len() == 4);
    assert("LEGS"@.len() == 4);
    assert("FEET"@.len() == 4);
    assert("CHEST"@.len() == 5);
    assert("WRIST"@.len() == 5);
    assert("FINGER"@.len() == 6);
    assert("POCKET"@.len() == 6);
    assert("OFF_HAND"@.len() == 8);
    assert("LEFT_EAR"@.len() == 8);
    assert("SHOULDER"@.len() == 8);
    assert("MAIN_HAND"@.len() == 9);
    assert("RIGHT_EAR"@.len() == 9);
    assert("CLASS_SLOT"@.len() == 10);
    assert("LEFT_WRIST"@.len() == 10);
    assert("EITHER_HAND"@.len() == 11);
    assert("RANGED_ITEM"@.len() == 11);
    assert("LEFT_FINGER"@.len() == 11);
    assert("RIGHT_WRIST"@.len() == 11);
    assert("RIGHT_FINGER"@.len() == 12);
    assert("EITHER_HAND"@[0] != "LEFT_FINGER"@[0]);
    assert("EITHER_HAND"@[0] != "RIGHT_WRIST"@[0]);
    assert("LEFT_EAR"@[0] != "SHOULDER"@[0]);
    assert("LEFT_FINGER"@[0] != "RIGHT_WRIST"@[0]);
    assert("OFF_HAND"@[0] != "LEFT_EAR"@[0]);
    assert("OFF_HAND"@[0] != "SHOULDER"@[0]);
    assert("WRIST"@[0] != "CHEST"@[0]);
}

/// Every item-database slot key reads as the slot it names:
/// - a key that stands for another reads as that key does (`LEFT_WRIST` as
///   `WRIST`, `EITHER_HAND` as `OFF_HAND`, ...);
/// - every other key begins, without regard to case, with the first three
///   letters of its slot's display name (`SHOULDER` reads as `Shoulders`,
///   `BACK` as `Back`, `RANGED_ITEM` as `Ranged`);
/// - a key reads as the first slot of its family;
/// - two keys that read as the same slot are the same key, but for the
///   paired families and the off-hand, which keep their aliases.
pub proof fn lemma_xml_slot_keys_name_their_slots(k: Seq<char>, k2: Seq<char>)
    ensures
        xml_alias_of(k) matches Some(base) ==> xml_slot_named(k) == xml_slot_named(base) && xml_slot_named(base) is Some,
        xml_slot_named(k) matches Some(s) ==> crate::optimizer::canonical_slot_spec(s) == s,
        (xml_slot_named(k) is Some && xml_alias_of(k) is None) ==> k.len() >= 3 && forall|i: int|
            0 <= i < 3 ==> crate::text::ascii_lower_char(#[trigger] k[i]) == crate::text::ascii_lower_char(
                slot_display_spec(xml_slot_named(k)->0)[i],
            ),
        (xml_slot_named(k) is Some && xml_slot_named(k2) == xml_slot_named(k) && xml_alias_of(k) is None
            && xml_alias_of(k2) is None) ==> k == k2,
{
    reveal_strlit("EAR");
    reveal_strlit("Ear");
    reveal_strlit("HEAD");
    reveal_strlit("HAND");
    reveal_strlit("BACK");
    reveal_strlit("NECK");
    reveal_strlit("LEGS");
    reveal_strlit("FEET");
    reveal_strlit("Head");
    reveal_strlit("Back");
    reveal_strlit("Neck");
    reveal_strlit("Legs");
    reveal_strlit("Feet");
    reveal_strlit("CHEST");
    reveal_strlit("WRIST");
    reveal_strlit("Hands");
    reveal_strlit("Chest");
    reveal_strlit("Wrist");
    reveal_strlit("FINGER");
    reveal_strlit("POCKET");
    reveal_strlit("Ranged");
    reveal_strlit("Finger");
    reveal_strlit("Pocket");
    reveal_strlit("OFF_HAND");
    reveal_strlit("LEFT_EAR");
    reveal_strlit("SHOULDER");
    reveal_strlit("Off-hand");
    reveal_strlit("MAIN_HAND");
    reveal_strlit("RIGHT_EAR");
    reveal_strlit("Main-hand");
    reveal_strlit("Shoulders");
    reveal_strlit("CLASS_SLOT");
    reveal_strlit("LEFT_WRIST");
    reveal_strlit("Class Item");
    reveal_strlit("EITHER_HAND");
    reveal_strlit("RANGED_ITEM");
    reveal_strlit("LEFT_FINGER");
    reveal_strlit("RIGHT_WRIST");
    reveal_strlit("RIGHT_FINGER");
    assert("LEGS"@[0] != "HAND"@[0]);
    assert("HEAD"@[0] != "BACK"@[0]);
    assert("HAND"@[0] != "BACK"@[0]);
    assert("LEGS"@[0] != "BACK"@[0]);
    assert("FEET"@[0] != "BACK"@[0]);
    assert("HEAD"@[0] != "NECK"@[0]);
    assert("HAND"@[0] != "NECK"@[0]);
    assert("BACK"@[0] != "NECK"@[0]);
    assert("LEGS"@[0] != "NECK"@[0]);
    assert("FEET"@[0] != "NECK"@[0]);
    assert("HEAD"@[0] != "LEGS"@[0]);
    assert("HEAD"@[0] != "FEET"@[0]);
    assert("HAND"@[0] != "FEET"@[0]);
    assert("LEGS"@[0] != "FEET"@[0]);
    assert("HEAD"@[1] != "HAND"@[1]);
    assert("CHEST"@[0] != "WRIST"@[0]);
    assert("FINGER"@[0] != "POCKET"@[0]);
    assert("LEFT_EAR"@[0] != "OFF_HAND"@[0]);
    assert("SHOULDER"@[0] != "OFF_HAND"@[0]);
    assert("SHOULDER"@[0] != "LEFT_EAR"@[0]);
    assert("RIGHT_EAR"@[0] != "MAIN_HAND"@[0]);
    assert("LEFT_WRIST"@[0] != "CLASS_SLOT"@[0]);
    assert("LEFT_FINGER"@[0] != "EITHER_HAND"@[0]);
    assert("RIGHT_WRIST"@[0] != "EITHER_HAND"@[0]);
    assert("EITHER_HAND"@[0] != "RANGED_ITEM"@[0]);
    assert("LEFT_FINGER"@[0] != "RANGED_ITEM"@[0]);
    assert("RIGHT_WRIST"@[0] != "LEFT_FINGER"@[0]);
    assert("RIGHT_WRIST"@[1] != "RANGED_ITEM"@[1]);
    lemma_alias_keys();
    if k == "LEFT_WRIST"@ || k == "RIGHT_WRIST"@ {
        assert(xml_slot_named(k) == Some(Slot::Wrist1));
    } else if k == "LEFT_FINGER"@ || k == "RIGHT_FINGER"@ {
        assert(xml_slot_named(k) == Some(Slot::Finger1));
    } else if k == "LEFT_EAR"@ || k == "RIGHT_EAR"@ {
        assert(xml_slot_named(k) == Some(Slot::Ear1));
    } else if k == "EITHER_HAND"@ {
        assert(xml_slot_named(k) == Some(Slot::OffHand));
    }
}

/// Maps an item database `slot` key to a slot.
pub fn parse_slot_key(s: &str) -> (r: Option<Slot>)
    ensures
        r == xml_slot_named(s@),
{
    let v = chars_of(s);
    let n = v.as_slice();
    if eq_lit(n, "HEAD") {
        Some(Slot::Head)
    } else if eq_lit(n, "CHEST") {
        Some(Slot::Chest)
    } else if eq_lit(n, "LEGS") {
        Some(Slot::Legs)
    } else if eq_lit(n, "HAND") {
        Some(Slot::Hands)
    } else if eq_lit(n, "FEET") {
        Some(Slot::Feet)
    } else if eq_lit(n, "SHOULDER") {
        Some(Slot::Shoulders)
    } else if eq_lit(n, "BACK") {
        Some(Slot::Back)
    } else if eq_lit(n, "WRIST") || eq_lit(n, "LEFT_WRIST") || eq_lit(n, "RIGHT_WRIST") {
        Some(Slot::Wrist1)
    } else if eq_lit(n, "NECK") {
        Some(Slot::Neck)
    } else if eq_lit(n, "FINGER") || eq_lit(n, "LEFT_FINGER") || eq_lit(n, "RIGHT_FINGER") {
        Some(Slot::Finger1)
    } else if eq_lit(n, "EAR") || eq_lit(n, "LEFT_EAR") || eq_lit(n, "RIGHT_EAR") {
        Some(Slot::Ear1)
    } else if eq_lit(n, "POCKET") {
        Some(Slot::Pocket)
    } else if eq_lit(n, "MAIN_HAND") {
        Some(Slot::MainHand)
    } else if eq_lit(n, "EITHER_HAND") || eq_lit(n, "OFF_HAND") {
        Some(Slot::OffHand)
    } else if eq_lit(n, "RANGED_ITEM") {
        Some(Slot::Ranged)
    } else if eq_lit(n, "CLASS_SLOT") {
        Some(Slot::ClassItem)
    } else {
        None
    }
}

/// Whether `pat` occurs in `s`.
pub open spec fn contains_text(s: Seq<char>, pat: Seq<char>) -> bool {
    exists|i: int| 0 <= i && i + pat.len() <= s.len() && #[trigger] s.subrange(i, i + pat.len()) == pat
}

/// Whether `pat` occurs in `s`.
pub fn text_contains(s: &str, pat: &str) -> (r: bool)
    ensures
        r == contains_text(s@, pat@),
{
    let v = chars_of(s);
    let p = chars_of(pat);
    let n = v.len();
    let m = p.len();
    if m > n {
        proof {
            assert forall|i: int| 0 <= i && i + m <= n implies #[trigger] s@.subrange(i, i + m) != pat@ by {}
        }
        return false;
    }
    let mut i: usize = 0;
    while i <= n - m
        invariant
            v@ == s@,
            p@ == pat@,
            n == v@.len(),
            m == p@.len(),
            m <= n,
            i <= n - m + 1,
            forall|x: int| 0 <= x < i && x + m <= n ==> #[trigger] s@.subrange(x, x + m) != pat@,
        decreases n - m + 1 - i,
    {
        let mut j: usize = 0;
        let mut same = true;
        while j < m
            invariant
                v@ == s@,
                p@ == pat@,
                n == v@.len(),
                m == p@.len(),
                i + m <= n,
                j <= m,
                same == (forall|y: int| 0 <= y < j ==> v@[i + y] == p@[y]),
                i <= n - m,
            decreases m - j,
        {
            if v[i + j] != p[j] {
                same = false;
            }
            j += 1;
        }
        if same {
            assert(s@.subrange(i as int, i + m) =~= pat@);
            return true;
        }
        assert(s@.subrange(i as int, i + m) != pat@) by {
            let y = choose|y: int| 0 <= y < m && v@[i + y] != p@[y];
            assert(s@.subrange(i as int, i + m)[y] != pat@[y]);
        }
        i += 1;
    }
    false
}

/// What `i32::from_str` makes of `s`.
pub open spec fn parse_i32_spec(s: Seq<char>) -> Option<i32> {
    match parse_i64_spec(s) {
        Some(v) => if i32::MIN <= v <= i32::MAX {
            Some(v as i32)
        } else {
            None
        },
        None => None,
    }
}

/// The attributes an `item` element is indexed by.
pub struct ItemAttrs {
    pub name: Option<Seq<char>>,
    pub slot: Option<Slot>,
    pub level: Option<i32>,
    pub two_handed: bool,
    pub either_hand: bool,
    pub legendary: bool,
}

/// How an `item` element's attributes read: `name`; the slot from `slot`;
/// `level` as an `i32`; two-handed when a main-hand item's `precludedSlots`
/// mentions `OFF_HAND`; either-hand when its `slot` is `EITHER_HAND`; and
/// whether its `category` is `LEGENDARY_WEAPON` (such items are skipped).
pub open spec fn item_attrs(attrs: Seq<(String, String)>) -> ItemAttrs {
    let slot = match attr_value(attrs, "slot"@) {
        Some(s) => xml_slot_named(s),
        None => None,
    };
    ItemAttrs {
        name: attr_value(attrs, "name"@),
        slot,
        level: match attr_value(attrs, "level"@) {
            Some(l) => parse_i32_spec(l),
            None => None,
        },
        two_handed: slot == Some(Slot::MainHand) && match attr_value(attrs, "precludedSlots"@) {
            Some(p) => contains_text(p, "OFF_HAND"@),
            None => false,
        },
        either_hand: attr_value(attrs, "slot"@) == Some("EITHER_HAND"@),
        legendary: attr_value(attrs, "category"@) == Some("LEGENDARY_WEAPON"@),
    }
}

/// One indexed item.
#[derive(Debug, Clone, PartialEq, Eq)]
pub struct DbEntry {
    pub name: String,
    pub slot: Slot,
    /// A two-handed main-hand weapon.
    pub two_handed: bool,
    /// An off-hand item that may also be wielded in the main hand.
    pub either_hand: bool,
}

/// What the index keeps per name: slot, two-handed, either-hand, and the
/// item level it came from.
pub type IndexRecord = (Slot, bool, bool, i32);

/// The index after recording an item: it replaces the entry of the same name
/// only when its level (0 when absent) is higher than the one kept (an entry
/// not yet there counts as level -1).
pub open spec fn record_item(
    out: Map<Seq<char>, IndexRecord>,
    name: Seq<char>,
    slot: Slot,
    level: Option<i32>,
    two_handed: bool,
    either_hand: bool,
) -> Map<Seq<char>, IndexRecord> {
    let new_level: i32 = match level {
        Some(l) => l,
        None => 0,
    };
    let best: int = if out.dom().contains(name) {
        out[name].3 as int
    } else {
        -1
    };
    if new_level > best {
        out.insert(name, (slot, two_handed, either_hand, new_level))
    } else {
        out
    }
}

/// The builder's state between events: the open `item` element's attributes
/// and the index so far.
pub struct IndexState {
    pub cur_name: Option<Seq<char>>,
    pub cur_slot: Option<Slot>,
    pub cur_level: Option<i32>,
    pub cur_two_handed: bool,
    pub cur_either_hand: bool,
    pub out: Map<Seq<char>, IndexRecord>,
}

/// The state after one event. An `<item>` start remembers its attributes (a
/// legendary weapon clears them); the matching end records the item when it
/// has a name and a known slot; a self-closing `<item/>` is recorded at once.
pub open spec fn index_step(st: IndexState, e: XmlEvent) -> IndexState {
    match e {
        XmlEvent::Start { tag, attrs } => if tag@ == "item"@ {
            let a = item_attrs(attrs@);
            if a.legendary {
                IndexState { cur_name: None, cur_slot: None, cur_level: None, cur_two_handed: false, cur_either_hand: false, ..st }
            } else {
                IndexState {
                    cur_name: a.name,
                    cur_slot: a.slot,
                    cur_level: a.level,
                    cur_two_handed: a.two_handed,
                    cur_either_hand: a.either_hand,
                    ..st
                }
            }
        } else {
            st
        },
        XmlEvent::End { tag } => if tag@ == "item"@ {
            let out = match (st.cur_name, st.cur_slot) {
                (Some(n), Some(s)) => record_item(st.out, n, s, st.cur_level, st.cur_two_handed, st.cur_either_hand),
                _ => st.out,
            };
            IndexState { cur_name: None, cur_slot: None, cur_level: None, cur_two_handed: false, cur_either_hand: false, out }
        } else {
            st
        },
        XmlEvent::Empty { tag, attrs } => if tag@ == "item"@ {
            let a = item_attrs(attrs@);
            if a.legendary {
                st
            } else {
                match (a.name, a.slot) {
                    (Some(n), Some(s)) => IndexState {
                        out: record_item(st.out, n, s, a.level, a.two_handed, a.either_hand),
                        ..st
                    },
                    _ => st,
                }
            }
        } else {
            st
        },
        _ => st,
    }
}

/// The state after the first `n` events.
pub open spec fn index_upto(events: Seq<XmlEvent>, n: int) -> IndexState
    decreases n,
{
    if n <= 0 {
        IndexState {
            cur_name: None,
            cur_slot: None,
            cur_level: None,
            cur_two_handed: false,
            cur_either_hand: false,
            out: Map::empty(),
        }
    } else {
        index_step(index_upto(events, n - 1), events[n - 1])
    }
}

/// The item index of a list of events.
pub open spec fn index_spec(events: Seq<XmlEvent>) -> Map<Seq<char>, IndexRecord> {
    index_upto(events, events.len() as int).out
}

/// The attributes of an `item` element, read.
pub struct ParsedAttrs {
    pub name: Option<String>,
    pub slot: Option<Slot>,
    pub level: Option<i32>,
    pub two_handed: bool,
    pub either_hand: bool,
    pub legendary: bool,
}

fn read_item_attrs(attrs: &Vec<(String, String)>) -> (r: ParsedAttrs)
    ensures
        ({
            let a = item_attrs(attrs@);
            &&& match r.name {
                Some(n) => a.name == Some(n@),
                None => a.name is None,
            }
            &&& r.slot == a.slot
            &&& r.level == a.level
            &&& r.two_handed == a.two_handed
            &&& r.either_hand == a.either_hand
            &&& r.legendary == a.legendary
        }),
{
    let name = match find_attr(attrs, "name") {
        Some(i) => Some(attrs[i].1.clone()),
        None => None,
    };
    let slot_at = find_attr(attrs, "slot");
    let slot = match slot_at {
        Some(i) => parse_slot_key(attrs[i].1.as_str()),
        None => None,
    };
    let level = match find_attr(attrs, "level") {
        Some(i) => {
            let v = chars_of(attrs[i].1.as_str());
            match parse_i64(v.as_slice()) {
                Some(x) => if -2147483648 <= x && x <= 2147483647 {
                    Some(x as i32)
                } else {
                    None
                },
                None => None,
            }
        },
        None => None,
    };
    let two_handed = match slot {
        Some(Slot::MainHand) => match find_attr(attrs, "precludedSlots") {
            Some(i) => text_contains(attrs[i].1.as_str(), "OFF_HAND"),
            None => false,
        },
        _ => false,
    };
    let either_hand = match slot_at {
        Some(i) => str_eq(attrs[i].1.as_str(), "EITHER_HAND"),
        None => false,
    };
    let legendary = match find_attr(attrs, "category") {
        Some(i) => str_eq(attrs[i].1.as_str(), "LEGENDARY_WEAPON"),
        None => false,
    };
    ParsedAttrs { name, slot, level, two_handed, either_hand, legendary }
}

/// Whether `e` is the index's entry for its name.
pub open spec fn is_indexed(index: Map<Seq<char>, IndexRecord>, e: DbEntry) -> bool {
    index.dom().contains(e.name@) && index[e.name@].0 == e.slot && index[e.name@].1 == e.two_handed && index[e.name@].2
        == e.either_hand
}

/// The item index, as the builder keeps it: one entry per name with the
/// level it came from.
pub struct ItemIndex {
    entries: Vec<(DbEntry, i32)>,
}

impl ItemIndex {
    #[verifier::type_invariant]
    spec fn names_unique(&self) -> bool {
        forall|i: int, j: int| 0 <= i < j < self.entries@.len() ==> self.entries@[i].0.name@ != self.entries@[j].0.name@
    }

    /// The index by name.
    pub closed spec fn view(&self) -> Map<Seq<char>, IndexRecord> {
        Map::new(
            |k: Seq<char>| exists|i: int| 0 <= i < self.entries@.len() && #[trigger] self.entries@[i].0.name@ == k,
            |k: Seq<char>|
                {
                    let i = choose|i: int| 0 <= i < self.entries@.len() && #[trigger] self.entries@[i].0.name@ == k;
                    let e = self.entries@[i];
                    (e.0.slot, e.0.two_handed, e.0.either_hand, e.1)
                },
        )
    }

    /// An empty index.
    pub fn new() -> (r: ItemIndex)
        ensures
            r@ == Map::<Seq<char>, IndexRecord>::empty(),
    {
        let r = ItemIndex { entries: Vec::new() };
        assert(r@ =~= Map::<Seq<char>, IndexRecord>::empty());
        r
    }

    /// The number of indexed items.
    pub fn len(&self) -> (r: usize)
        ensures
            r == self@.len(),
    {
        proof {
            use_type_invariant(self);
            self.lemma_len();
        }
        self.entries.len()
    }

    proof fn lemma_len(&self)
        requires
            self.names_unique(),
        ensures
            self@.len() == self.entries@.len(),
    {
        let names = self.entries@.map_values(|e: (DbEntry, i32)| e.0.name@);
        assert(names.no_duplicates()) by {
            assert forall|i: int, j: int| 0 <= i < names.len() && 0 <= j < names.len() && i != j implies names[i] != names[j] by {
                if i < j {
                } else {
                }
            }
        }
        names.unique_seq_to_set();
        assert(self@.dom() =~= names.to_set()) by {
            assert forall|k: Seq<char>| self@.dom().contains(k) <==> names.to_set().contains(k) by {
                if self@.dom().contains(k) {
                    let i = choose|i: int| 0 <= i < self.entries@.len() && #[trigger] self.entries@[i].0.name@ == k;
                    assert(names[i] == k);
                }
                if names.to_set().contains(k) {
                    let i = choose|i: int| 0 <= i < names.len() && names[i] == k;
                    assert(self.entries@[i].0.name@ == k);
                }
            }
        }
    }

    /// The indexed items.
    pub fn entries(&self) -> (r: Vec<DbEntry>)
        ensures
            r@.len() == self@.len(),
            forall|i: int| 0 <= i < r@.len() ==> is_indexed(self@, #[trigger] r@[i]),
            forall|i: int, j: int| 0 <= i < j < r@.len() ==> r@[i].name@ != r@[j].name@,
    {
        proof {
            use_type_invariant(self);
            self.lemma_len();
        }
        let mut r: Vec<DbEntry> = Vec::new();
        let mut i: usize = 0;
        while i < self.entries.len()
            invariant
                i <= self.entries@.len(),
                self.names_unique(),
                r@.len() == i,
                forall|a: int| 0 <= a < i ==> r@[a] == #[trigger] self.entries@[a].0,
            decreases self.entries@.len() - i,
        {
            let e = &self.entries[i].0;
            let d = DbEntry { name: e.name.clone(), slot: e.slot, two_handed: e.two_handed, either_hand: e.either_hand };
            assert(d == *e);
            r.push(d);
            i += 1;
        }
        proof {
            assert forall|a: int, b: int| 0 <= a < b < r@.len() implies r@[a].name@ != r@[b].name@ by {
                assert(r@[a] == self.entries@[a].0);
                assert(r@[b] == self.entries@[b].0);
            }
            assert forall|a: int| 0 <= a < r@.len() implies is_indexed(self@, #[trigger] r@[a]) by {
                assert(r@[a] == self.entries@[a].0);
                assert(self.entries@[a].0.name@ == r@[a].name@);
                let c = choose|c: int| 0 <= c < self.entries@.len() && #[trigger] self.entries@[c].0.name@ == r@[a].name@;
                assert(c == a) by {
                    if c < a {
                        assert(self.entries@[c].0.name@ != self.entries@[a].0.name@);
                    } else if c > a {
                        assert(self.entries@[a].0.name@ != self.entries@[c].0.name@);
                    }
                }
            }
        }
        r
    }

    fn position(&self, name: &str) -> (r: Option<usize>)
        ensures
            r matches Some(i) ==> i < self.entries@.len() && self.entries@[i as int].0.name@ == name@,
            r is None ==> forall|i: int| 0 <= i < self.entries@.len() ==> #[trigger] self.entries@[i].0.name@ != name@,
    {
        let mut k: usize = 0;
        while k < self.entries.len()
            invariant
                k <= self.entries@.len(),
                forall|j: int| 0 <= j < k ==> #[trigger] self.entries@[j].0.name@ != name@,
            decreases self.entries@.len() - k,
        {
            if str_eq(self.entries[k].0.name.as_str(), name) {
                return Some(k);
            }
            k += 1;
        }
        None
    }

    /// The entry indexed under `name`, if any.
    pub fn get(&self, name: &str) -> (r: Option<DbEntry>)
        ensures
            r is Some <==> self@.dom().contains(name@),
            r matches Some(e) ==> e.name@ == name@ && is_indexed(self@, e),
    {
        proof {
            use_type_invariant(self);
        }
        match self.position(name) {
            Some(i) => {
                let e = &self.entries[i].0;
                let d = DbEntry { name: e.name.clone(), slot: e.slot, two_handed: e.two_handed, either_hand: e.either_hand };
                proof {
                    let c = choose|c: int| 0 <= c < self.entries@.len() && #[trigger] self.entries@[c].0.name@ == name@;
                    assert(c == i as int) by {
                        if c < i {
                            assert(self.entries@[c].0.name@ != self.entries@[i as int].0.name@);
                        } else if c > i {
                            assert(self.entries@[i as int].0.name@ != self.entries@[c].0.name@);
                        }
                    }
                }
                Some(d)
            },
            None => {
                proof {
                    if self@.dom().contains(name@) {
                        let c = choose|c: int| 0 <= c < self.entries@.len() && #[trigger] self.entries@[c].0.name@ == name@;
                    }
                }
                None
            },
        }
    }

    /// Records an item, keeping per name the entry with the highest level.
    pub fn record(&mut self, name: String, slot: Slot, level: Option<i32>, two_handed: bool, either_hand: bool)
        ensures
            final(self)@ == record_item(old(self)@, name@, slot, level, two_handed, either_hand),
    {
        proof {
            use_type_invariant(&*self);
        }
        let new_level: i32 = match level {
            Some(l) => l,
            None => 0,
        };
        let ghost before = self@;
        match self.position(name.as_str()) {
            Some(i) => {
                proof {
                    let c = choose|c: int| 0 <= c < self.entries@.len() && #[trigger] self.entries@[c].0.name@ == name@;
                    assert(c == i as int) by {
                        if c < i {
                            assert(self.entries@[c].0.name@ != self.entries@[i as int].0.name@);
                        } else if c > i {
                            assert(self.entries@[i as int].0.name@ != self.entries@[c].0.name@);
                        }
                    }
                    assert(before.dom().contains(name@));
                }
                if new_level > self.entries[i].1 {
                    let ghost old_entries = self.entries@;
                    let entry = (DbEntry { name, slot, two_handed, either_hand }, new_level);
                    let mut entries = Vec::new();
                    std::mem::swap(&mut entries, &mut self.entries);
                    entries.set(i, entry);
                    self.entries = entries;
                    proof {
                        assert(self.entries@ == old_entries.update(i as int, (DbEntry { name, slot, two_handed, either_hand }, new_level)));
                        assert(self.entries@[i as int].0.name@ == name@);
                        assert(old_entries[i as int].0.name@ == name@);
                        assert forall|k: Seq<char>| #![trigger self@.dom().contains(k)]
                            self@.dom().contains(k) <==> before.insert(name@, (slot, two_handed, either_hand, new_level)).dom().contains(k) by {
                            if before.dom().contains(k) {
                                let c = choose|c: int| 0 <= c < old_entries.len() && #[trigger] old_entries[c].0.name@ == k;
                                if c != i {
                                    assert(self.entries@[c].0.name@ == k);
                                }
                            }
                            if self@.dom().contains(k) {
                                let c = choose|c: int| 0 <= c < self.entries@.len() && #[trigger] self.entries@[c].0.name@ == k;
                                if c != i {
                                    assert(old_entries[c].0.name@ == k);
                                }
                            }
                        }
                        assert forall|k: Seq<char>| self@.dom().contains(k) implies #[trigger] self@[k] == before.insert(name@, (slot, two_handed, either_hand, new_level))[k] by {
                            let c = choose|c: int| 0 <= c < self.entries@.len() && #[trigger] self.entries@[c].0.name@ == k;
                            if k == name@ {
                                assert(c == i as int) by {
                                    if c != i {
                                        assert(old_entries[c].0.name@ == old_entries[i as int].0.name@);
                                    }
                                }
                            } else {
                                assert(c != i);
                                assert(old_entries[c].0.name@ == k);
                                let d = choose|d: int| 0 <= d < old_entries.len() && #[trigger] old_entries[d].0.name@ == k;
                                assert(d == c) by {
                                    if d != c {
                                        assert(old_entries[d].0.name@ == old_entries[c].0.name@);
                                    }
                                }
                            }
                        }
                        assert(self@ =~= before.insert(name@, (slot, two_handed, either_hand, new_level)));
                    }
                }
            },
            None => {
                proof {
                    assert(!before.dom().contains(name@)) by {
                        if before.dom().contains(name@) {
                            let c = choose|c: int| 0 <= c < self.entries@.len() && #[trigger] self.entries@[c].0.name@ == name@;
                        }
                    }
                }
                if new_level > -1 {
                    let ghost old_entries = self.entries@;
                    let entry = (DbEntry { name, slot, two_handed, either_hand }, new_level);
                    let mut entries = Vec::new();
                    std::mem::swap(&mut entries, &mut self.entries);
                    entries.push(entry);
                    self.entries = entries;
                    proof {
                        assert(self.entries@ == old_entries.push((DbEntry { name, slot, two_handed, either_hand }, new_level)));
                        let n = old_entries.len() as int;
                        assert forall|k: Seq<char>| #![trigger self@.dom().contains(k)]
                            self@.dom().contains(k) <==> before.insert(name@, (slot, two_handed, either_hand, new_level)).dom().contains(k) by {
                            if before.dom().contains(k) {
                                let c = choose|c: int| 0 <= c < old_entries.len() && #[trigger] old_entries[c].0.name@ == k;
                                assert(self.entries@[c].0.name@ == k);
                            }
                            if k == name@ {
                                assert(self.entries@[n].0.name@ == k);
                            }
                            if self@.dom().contains(k) {
                                let c = choose|c: int| 0 <= c < self.entries@.len() && #[trigger] self.entries@[c].0.name@ == k;
                                if c < n {
                                    assert(old_entries[c].0.name@ == k);
                                }
                            }
                        }
                        assert forall|k: Seq<char>| self@.dom().contains(k) implies #[trigger] self@[k] == before.insert(name@, (slot, two_handed, either_hand, new_level))[k] by {
                            let c = choose|c: int| 0 <= c < self.entries@.len() && #[trigger] self.entries@[c].0.name@ == k;
                            if k == name@ {
                                assert(c == n) by {
                                    if c < n {
                                        assert(old_entries[c].0.name@ == name@);
                                    }
                                }
                            } else {
                                assert(c < n);
                                assert(old_entries[c].0.name@ == k);
                                let d = choose|d: int| 0 <= d < old_entries.len() && #[trigger] old_entries[d].0.name@ == k;
                                assert(d == c) by {
                                    if d != c {
                                        assert(old_entries[d].0.name@ == old_entries[c].0.name@);
                                    }
                                }
                            }
                        }
                        assert(self@ =~= before.insert(name@, (slot, two_handed, either_hand, new_level)));
                    }
                }
            },
        }
    }
}

/// The builder's working state between events.
struct OpenItem {
    name: Option<String>,
    slot: Option<Slot>,
    level: Option<i32>,
    two_handed: bool,
    either_hand: bool,
}

/// The text of an optional string.
pub open spec fn opt_text(s: Option<String>) -> Option<Seq<char>> {
    match s {
        Some(x) => Some(x@),
        None => None,
    }
}

/// Whether the open item and index hold state `st`.
spec fn holds_state(cur: OpenItem, idx: ItemIndex, st: IndexState) -> bool {
    &&& opt_text(cur.name) == st.cur_name
    &&& cur.slot == st.cur_slot
    &&& cur.level == st.cur_level
    &&& cur.two_handed == st.cur_two_handed
    &&& cur.either_hand == st.cur_either_hand
    &&& idx@ == st.out
}

/// Indexes the items of an XML event stream: every equippable, non-legendary
/// `item` element with a name and a known slot, keeping per name the one
/// with the highest level.
pub fn index_items(events: &[XmlEvent]) -> (r: ItemIndex)
    ensures
        r@ == index_spec(events@),
{
    let mut idx = ItemIndex::new();
    let mut cur = OpenItem { name: None, slot: None, level: None, two_handed: false, either_hand: false };
    let mut i: usize = 0;
    while i < events.len()
        invariant
            i <= events@.len(),
            holds_state(cur, idx, index_upto(events@, i as int)),
        decreases events@.len() - i,
    {
        let ghost st = index_upto(events@, i as int);
        match &events[i] {
            XmlEvent::Start { tag, attrs } => {
                if str_eq(tag.as_str(), "item") {
                    let a = read_item_attrs(attrs);
                    if a.legendary {
                        cur = OpenItem { name: None, slot: None, level: None, two_handed: false, either_hand: false };
                    } else {
                        cur = OpenItem {
                            name: a.name,
                            slot: a.slot,
                            level: a.level,
                            two_handed: a.two_handed,
                            either_hand: a.either_hand,
                        };
                    }
                }
            },
            XmlEvent::End { tag } => {
                if str_eq(tag.as_str(), "item") {
                    let done = OpenItem { name: None, slot: None, level: None, two_handed: false, either_hand: false };
                    let mut open = done;
                    std::mem::swap(&mut open, &mut cur);
                    match (open.name, open.slot) {
                        (Some(n), Some(sl)) => {
                            idx.record(n, sl, open.level, open.two_handed, open.either_hand);
                        },
                        _ => {},
                    }
                }
            },
            XmlEvent::Empty { tag, attrs } => {
                if str_eq(tag.as_str(), "item") {
                    let a = read_item_attrs(attrs);
                    if !a.legendary {
                        match (a.name, a.slot) {
                            (Some(n), Some(sl)) => {
                                idx.record(n, sl, a.level, a.two_handed, a.either_hand);
                            },
                            _ => {},
                        }
                    }
                }
            },
            _ => {},
        }
        assert(holds_state(cur, idx, index_step(st, events@[i as int])));
        i += 1;
    }
    idx
}

/// The `quick_xml` start-tag type, carried through opaquely.
#[verifier::external_type_specification]
#[verifier::external_body]
pub struct ExBytesStart<'a>(BytesStart<'a>);

/// A name as text with `str::from_utf8`; empty when the bytes are not UTF-8.
#[verifier::external_body]
fn utf8_text(b: &[u8]) -> String {
    std::str::from_utf8(b).unwrap_or("").to_string()
}

/// The attributes of a start tag with `BytesStart::attributes`, in order:
/// the well-formed ones, each value unescaped (empty when unescaping fails).
#[verifier::external_body]
fn tag_attributes(e: &BytesStart) -> Vec<(String, String)> {
    e.attributes().flatten().map(|a| (utf8_text(a.key.as_ref()), a.unescape_value().map(|v| v.into_owned()).unwrap_or_default())).collect()
}

/// The events that `quick_xml::Reader::read_event` gives on `xml`, read by a
/// `Reader::from_str` that trims the whitespace around text, as plain values:
/// every event before `Eof`, or the text of the first error. What the reader
/// gives is a function of the text alone.
pub uninterp spec fn xml_events(xml: Seq<char>) -> Result<Seq<XmlEvent>, Seq<char>>;

/// Reads all of `xml` with `quick_xml::Reader::read_event` until `Eof` or
/// the first error, each event converted to an `XmlEvent`.
#[verifier::external_body]
fn read_xml_events(xml: &str) -> (r: Result<Vec<XmlEvent>, String>)
    ensures
        match xml_events(xml@) {
            Ok(evs) => r matches Ok(v) && v@ == evs,
            Err(e) => r matches Err(m) && m@ == e,
        },
{
    let mut reader = Reader::from_str(xml);
    reader.config_mut().trim_text(true);
    let mut out = Vec::new();
    loop {
        out.push(match reader.read_event() {
            Ok(Event::Start(e)) => XmlEvent::Start { tag: utf8_text(e.name().as_ref()), attrs: tag_attributes(&e) },
            Ok(Event::End(e)) => XmlEvent::End { tag: utf8_text(e.name().as_ref()) },
            Ok(Event::Empty(e)) => XmlEvent::Empty { tag: utf8_text(e.name().as_ref()), attrs: tag_attributes(&e) },
            Ok(Event::Eof) => return Ok(out),
            Ok(_) => XmlEvent::Other,
            Err(err) => return Err(err.to_string()),
        });
    }
}

/// Reads the item database text and indexes its items. `path` names the file
/// in the error raised when the XML is malformed.
pub fn load_items(xml: &str, path: &str) -> (r: Result<ItemIndex, String>)
    ensures
        match xml_events(xml@) {
            Ok(evs) => r matches Ok(idx) && idx@ == index_spec(evs),
            Err(e) => r matches Err(m) && m@ == "XML error in '"@ + path@ + "': "@ + e,
        },
{
    match read_xml_events(xml) {
        Ok(events) => Ok(index_items(events.as_slice())),
        Err(e) => {
            let mut m = "XML error in '".to_owned();
            m.append(path);
            m.append("': ");
            m.append(e.as_str());
            Err(m)
        },
    }
}

} // verus!
