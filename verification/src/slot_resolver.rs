//! Slot resolution and the canonical gear file.
//!
//! `ItemsDb` maps item names to canonical slots (from `data/lgo_items.json`).
//! The resolver rewrites each item's slot from the DB, groups items by slot
//! family in canonical order with divider comments, and merges a fresh export
//! into the canonical `gearReady.toml` without losing hand edits. This module
//! holds the decisions and the text rules; the comment-preserving TOML
//! document editing is left to the caller, which follows them.
use vstd::prelude::*;

use crate::gear::{all_slots_spec, parse_slot_display, parse_slot_display_spec, Slot};
use crate::stat::{slice_chars, tracked_stats, tracked_stats_spec};
use crate::install::{join_path, join_path_spec};
use crate::text::{chars_of, concat3, eq_lit, lemma_line_len, line_len, str_eq, string_from_chars, trim_chars, trim_spec};

verus! {

// ── Slot families ────────────────────────────────────────────────────────────

/// The family of a slot: paired slots collapse to their first member
/// (`Wrist2` to `Wrist1`, `Finger2` to `Finger1`, `Ear2` to `Ear1`).
pub open spec fn family_of(s: Slot) -> Slot {
    match s {
        Slot::Wrist2 => Slot::Wrist1,
        Slot::Finger2 => Slot::Finger1,
        Slot::Ear2 => Slot::Ear1,
        other => other,
    }
}

/// The family of a slot.
pub fn slot_family(s: Slot) -> (r: Slot)
    ensures
        r == family_of(s),
{
    match s {
        Slot::Wrist2 => Slot::Wrist1,
        Slot::Finger2 => Slot::Finger1,
        Slot::Ear2 => Slot::Ear1,
        other => other,
    }
}

/// The divider label of a slot family.
pub open spec fn family_label_spec(family: Slot) -> Seq<char> {
    match family {
        Slot::Wrist1 => "Wrist"@,
        Slot::Finger1 => "Finger"@,
        Slot::Ear1 => "Ear"@,
        Slot::Head => "Head"@,
        Slot::Chest => "Chest"@,
        Slot::Legs => "Legs"@,
        Slot::Hands => "Hands"@,
        Slot::Feet => "Feet"@,
        Slot::Shoulders => "Shoulders"@,
        Slot::Back => "Back"@,
        Slot::Neck => "Neck"@,
        Slot::Pocket => "Pocket"@,
        Slot::MainHand => "Main-hand"@,
        Slot::OffHand => "Off-hand"@,
        Slot::Ranged => "Ranged"@,
        Slot::ClassItem => "Class Item"@,
        Slot::Wrist2 | Slot::Finger2 | Slot::Ear2 => "Unknown"@,
    }
}

/// The divider label of a slot family (second members of a pair, which are
/// never families, read `Unknown`).
pub fn slot_family_label(family: Slot) -> (r: &'static str)
    ensures
        r@ == family_label_spec(family),
{
    match family {
        Slot::Wrist1 => "Wrist",
        Slot::Finger1 => "Finger",
        Slot::Ear1 => "Ear",
        Slot::Head => "Head",
        Slot::Chest => "Chest",
        Slot::Legs => "Legs",
        Slot::Hands => "Hands",
        Slot::Feet => "Feet",
        Slot::Shoulders => "Shoulders",
        Slot::Back => "Back",
        Slot::Neck => "Neck",
        Slot::Pocket => "Pocket",
        Slot::MainHand => "Main-hand",
        Slot::OffHand => "Off-hand",
        Slot::Ranged => "Ranged",
        Slot::ClassItem => "Class Item",
        Slot::Wrist2 | Slot::Finger2 | Slot::Ear2 => "Unknown",
    }
}

/// The families of the slots `s`, each once, in order of first appearance.
pub open spec fn families_in_order(s: Seq<Slot>) -> Seq<Slot>
    decreases s.len(),
{
    if s.len() == 0 {
        Seq::empty()
    } else {
        let earlier = families_in_order(s.drop_last());
        if earlier.contains(family_of(s.last())) {
            earlier
        } else {
            earlier.push(family_of(s.last()))
        }
    }
}

proof fn lemma_families_len(s: Seq<Slot>)
    ensures
        families_in_order(s).len() <= s.len(),
    decreases s.len(),
{
    if s.len() > 0 {
        lemma_families_len(s.drop_last());
    }
}

/// The order in which slot families appear in the canonical gear file: the
/// canonical slot order with paired slots collapsed.
pub open spec fn family_order_spec() -> Seq<Slot> {
    families_in_order(all_slots_spec())
}

/// The slot families in canonical order.
pub fn slot_family_order() -> (r: Vec<Slot>)
    ensures
        r@ == family_order_spec(),
{
    let all = Slot::all();
    let mut seen: Vec<Slot> = Vec::new();
    let mut i: usize = 0;
    assert(all@.take(0) =~= Seq::<Slot>::empty());
    while i < all.len()
        invariant
            i <= all@.len(),
            all@ == all_slots_spec(),
            seen@ == families_in_order(all@.take(i as int)),
        decreases all@.len() - i,
    {
        let f = slot_family(all[i]);
        let mut found = false;
        let mut k: usize = 0;
        while k < seen.len()
            invariant
                k <= seen@.len(),
                found == (exists|j: int| 0 <= j < k && seen@[j] == f),
            decreases seen@.len() - k,
        {
            if seen[k] == f {
                found = true;
            }
            k += 1;
        }
        assert(all@.take(i + 1).drop_last() =~= all@.take(i as int));
        assert(found == seen@.contains(f));
        if !found {
            seen.push(f);
        }
        i += 1;
    }
    assert(all@.take(all@.len() as int) =~= all@);
    seen
}

// ── Prefix text ──────────────────────────────────────────────────────────────

/// `s` without its leading blank lines (lines holding only whitespace, each
/// ended by a newline); the first line with text and everything after stay.
pub open spec fn strip_blank_lines_spec(s: Seq<char>) -> Seq<char>
    decreases s.len(),
{
    let e = line_len(s) as int;
    if e >= s.len() || trim_spec(s.subrange(0, e)).len() != 0 {
        s
    } else {
        strip_blank_lines_spec(s.subrange(e + 1, s.len() as int))
    }
}

/// The position of the first newline of `v` at or after `from` (the length
/// if none): `from` plus the length of the line starting there.
pub fn line_end(v: &[char], from: usize) -> (e: usize)
    requires
        from <= v@.len(),
    ensures
        from <= e <= v@.len(),
        e - from == line_len(v@.subrange(from as int, v@.len() as int)),
{
    let n = v.len();
    let mut j = from;
    while j < n && v[j] != '\n'
        invariant
            n == v@.len(),
            from <= j <= n,
            forall|x: int| from <= x < j ==> v@[x] != '\n',
        decreases n - j,
    {
        j += 1;
    }
    proof {
        let sub = v@.subrange(from as int, n as int);
        assert forall|x: int| 0 <= x < j - from implies sub[x] != '\n' by {
            assert(sub[x] == v@[from + x]);
        }
        lemma_line_len(sub, j - from);
    }
    j
}

/// Removes the leading blank lines of a decor prefix.
pub fn strip_leading_blank_lines(prefix: &str) -> (r: String)
    ensures
        r@ == strip_blank_lines_spec(prefix@),
{
    let v = chars_of(prefix);
    let n = v.len();
    let mut pos: usize = 0;
    assert(v@.subrange(0, n as int) =~= prefix@);
    loop
        invariant
            n == v@.len(),
            v@ == prefix@,
            pos <= n,
            strip_blank_lines_spec(prefix@) == strip_blank_lines_spec(v@.subrange(pos as int, n as int)),
        decreases n - pos,
    {
        let e = line_end(v.as_slice(), pos);
        let ghost r = v@.subrange(pos as int, n as int);
        let line = slice_chars(v.as_slice(), pos, e);
        assert(line@ =~= r.subrange(0, (e - pos) as int));
        if e >= n {
            return string_from_chars(slice_chars(v.as_slice(), pos, n).as_slice());
        }
        let t = trim_chars(line.as_slice());
        if t.len() != 0 {
            return string_from_chars(slice_chars(v.as_slice(), pos, n).as_slice());
        }
        assert(r.subrange(e - pos + 1, r.len() as int) =~= v@.subrange(e + 1, n as int));
        pos = e + 1;
    }
}

// ── Items DB ─────────────────────────────────────────────────────────────────

/// The slot a DB `slot` string names: a slot's variant name (`Wrist1`,
/// `MainHand`, `ClassItem`, ...) or its canonical display string (`Wrist`,
/// `Main-hand`, `Class Item`, ...). Excluded slots such as `CraftItem` name
/// none.
pub open spec fn db_slot_named(s: Seq<char>) -> Option<Slot> {
    if s == "Wrist1"@ {
        Some(Slot::Wrist1)
    } else if s == "Wrist2"@ {
        Some(Slot::Wrist2)
    } else if s == "Finger1"@ {
        Some(Slot::Finger1)
    } else if s == "Finger2"@ {
        Some(Slot::Finger2)
    } else if s == "Ear1"@ {
        Some(Slot::Ear1)
    } else if s == "Ear2"@ {
        Some(Slot::Ear2)
    } else if s == "MainHand"@ {
        Some(Slot::MainHand)
    } else if s == "OffHand"@ {
        Some(Slot::OffHand)
    } else if s == "ClassItem"@ {
        Some(Slot::ClassItem)
    } else {
        parse_slot_display_spec(s)
    }
}

/// Reads a DB `slot` string.
pub fn parse_db_slot(s: &str) -> (r: Option<Slot>)
    ensures
        r == db_slot_named(s@),
{
    let v = chars_of(s);
    if eq_lit(v.as_slice(), "Wrist1") {
        Some(Slot::Wrist1)
    } else if eq_lit(v.as_slice(), "Wrist2") {
        Some(Slot::Wrist2)
    } else if eq_lit(v.as_slice(), "Finger1") {
        Some(Slot::Finger1)
    } else if eq_lit(v.as_slice(), "Finger2") {
        Some(Slot::Finger2)
    } else if eq_lit(v.as_slice(), "Ear1") {
        Some(Slot::Ear1)
    } else if eq_lit(v.as_slice(), "Ear2") {
        Some(Slot::Ear2)
    } else if eq_lit(v.as_slice(), "MainHand") {
        Some(Slot::MainHand)
    } else if eq_lit(v.as_slice(), "OffHand") {
        Some(Slot::OffHand)
    } else if eq_lit(v.as_slice(), "ClassItem") {
        Some(Slot::ClassItem)
    } else {
        parse_slot_display(s)
    }
}

/// One entry of the items DB file as read: the item's name, its `slot`
/// string, and whether it is a two-handed main-hand weapon.
#[derive(Debug, Clone)]
pub struct RawDbEntry {
    pub name: String,
    pub slot: String,
    pub two_handed: bool,
}

/// A resolved DB entry: an item name, its canonical slot, and whether it is
/// a two-handed `MainHand` weapon.
#[derive(Debug, Clone, PartialEq, Eq)]
pub struct DbItem {
    pub name: String,
    pub slot: Slot,
    pub two_handed: bool,
}

/// Why the items DB could not be loaded.
#[derive(Debug, Clone, PartialEq, Eq)]
pub enum ItemsDbError {
    /// The file could not be read.
    Io { path: String, message: String },
    /// The file is not JSON of the expected shape.
    ParseJson { path: String, message: String },
    /// An entry's `slot` names no slot.
    UnknownSlot { item_name: String, slot_string: String },
}

/// The text of an items-DB error.
pub open spec fn items_db_error_text(e: ItemsDbError) -> Seq<char> {
    match e {
        ItemsDbError::Io { path, message } => "Cannot read items DB '"@ + path@ + "': "@ + message@,
        ItemsDbError::ParseJson { path, message } => "Cannot parse items DB '"@ + path@ + "': "@ + message@,
        ItemsDbError::UnknownSlot { item_name, slot_string } => "Items DB entry for item '"@ + item_name@
            + "' has unrecognised slot '"@ + slot_string@ + "'"@,
    }
}

impl ItemsDbError {
    /// The error's text.
    pub fn message(&self) -> (r: String)
        ensures
            r@ == items_db_error_text(*self),
    {
        match self {
            ItemsDbError::Io { path, message } => {
                let mut r = "Cannot read items DB '".to_owned();
                r.append(path.as_str());
                r.append("': ");
                r.append(message.as_str());
                r
            },
            ItemsDbError::ParseJson { path, message } => {
                let mut r = "Cannot parse items DB '".to_owned();
                r.append(path.as_str());
                r.append("': ");
                r.append(message.as_str());
                r
            },
            ItemsDbError::UnknownSlot { item_name, slot_string } => {
                let mut r = "Items DB entry for item '".to_owned();
                r.append(item_name.as_str());
                r.append("' has unrecognised slot '");
                r.append(slot_string.as_str());
                r.append("'");
                r
            },
        }
    }
}

/// The position of the first entry named `name`.
pub open spec fn first_named(items: Seq<DbItem>, name: Seq<char>) -> Option<int> {
    if exists|i: int| 0 <= i < items.len() && #[trigger] items[i].name@ == name {
        Some(choose|i: int| 0 <= i < items.len() && items[i].name@ == name && forall|j: int| 0 <= j < i ==> #[trigger] items[j].name@ != name)
    } else {
        None
    }
}

/// The position of the first raw entry whose slot names no slot.
pub open spec fn first_bad_slot(entries: Seq<RawDbEntry>) -> Option<int> {
    if exists|i: int| 0 <= i < entries.len() && #[trigger] db_slot_named(entries[i].slot@) is None {
        Some(choose|i: int| 0 <= i < entries.len() && db_slot_named(entries[i].slot@) is None && forall|j: int| 0 <= j < i ==> #[trigger] db_slot_named(entries[j].slot@) is Some)
    } else {
        None
    }
}

/// Whether some item is named `x`.
pub open spec fn has_item_named(items: Seq<DbItem>, x: Seq<char>) -> bool {
    exists|a: int| 0 <= a < items.len() && #[trigger] items[a].name@ == x
}

/// Whether one of the first `k` raw entries is named `x`.
pub open spec fn has_entry_named(entries: Seq<RawDbEntry>, k: int, x: Seq<char>) -> bool {
    exists|j: int| 0 <= j < k && #[trigger] entries[j].name@ == x
}

/// Whether item `it` is the resolved form of the first raw entry of its
/// name, among the first `k` entries.
pub open spec fn from_first_entry(it: DbItem, entries: Seq<RawDbEntry>, k: int) -> bool {
    exists|j: int|
        0 <= j < k && #[trigger] entries[j].name@ == it.name@ && it == db_item_of(entries[j]) && (forall|m: int|
            0 <= m < j ==> #[trigger] entries[m].name@ != entries[j].name@)
}

/// The resolved form of a raw entry whose slot is known.
pub open spec fn db_item_of(e: RawDbEntry) -> DbItem {
    DbItem { name: e.name, slot: db_slot_named(e.slot@).unwrap(), two_handed: e.two_handed }
}

/// The in-memory items DB: item name to canonical slot. Where several entries
/// share a name, the first wins.
#[derive(Debug)]
pub struct ItemsDb {
    items: Vec<DbItem>,
}

impl ItemsDb {
    #[verifier::type_invariant]
    spec fn names_unique(&self) -> bool {
        forall|i: int, j: int| 0 <= i < j < self.items@.len() ==> self.items@[i].name@ != self.items@[j].name@
    }

    /// The DB entries, one per name.
    pub closed spec fn view(&self) -> Map<Seq<char>, DbItem> {
        Map::new(
            |k: Seq<char>| first_named(self.items@, k) is Some,
            |k: Seq<char>| self.items@[first_named(self.items@, k).unwrap()],
        )
    }

    /// The number of distinct names.
    pub closed spec fn size(&self) -> nat {
        self.items@.len()
    }

    /// Builds the DB from raw entries, in order. The first entry whose slot
    /// names no slot is an error; otherwise each name maps to its first
    /// entry.
    #[verifier::rlimit(80)]
    pub fn from_entries(entries: Vec<RawDbEntry>) -> (r: Result<ItemsDb, ItemsDbError>)
        ensures
            match first_bad_slot(entries@) {
                Some(b) => r == Err::<ItemsDb, ItemsDbError>(
                    ItemsDbError::UnknownSlot { item_name: entries@[b].name, slot_string: entries@[b].slot },
                ),
                None => r matches Ok(db) && (forall|k: Seq<char>|
                    #![trigger db@.dom().contains(k)]
                    db@.dom().contains(k) <==> exists|i: int| 0 <= i < entries@.len() && #[trigger] entries@[i].name@ == k) && (
                forall|i: int|
                    0 <= i < entries@.len() && (forall|j: int| 0 <= j < i ==> #[trigger] entries@[j].name@ != entries@[i].name@)
                        ==> #[trigger] db@[entries@[i].name@] == db_item_of(entries@[i])),
            },
    {
        let mut i: usize = 0;
        while i < entries.len()
            invariant
                i <= entries@.len(),
                forall|j: int| 0 <= j < i ==> #[trigger] db_slot_named(entries@[j].slot@) is Some,
            decreases entries@.len() - i,
        {
            if parse_db_slot(entries[i].slot.as_str()).is_none() {
                proof {
                    let c = choose|x: int| 0 <= x < entries@.len() && db_slot_named(entries@[x].slot@) is None && forall|j: int| 0 <= j < x ==> #[trigger] db_slot_named(entries@[j].slot@) is Some;
                    if c < i {
                    } else if c > i {
                        assert(db_slot_named(entries@[i as int].slot@) is Some);
                    }
                }
                return Err(ItemsDbError::UnknownSlot {
                    item_name: entries[i].name.clone(),
                    slot_string: entries[i].slot.clone(),
                });
            }
            i += 1;
        }
        let mut items: Vec<DbItem> = Vec::new();
        let mut k: usize = 0;
        while k < entries.len()
            invariant
                k <= entries@.len(),
                forall|j: int| 0 <= j < entries@.len() ==> #[trigger] db_slot_named(entries@[j].slot@) is Some,
                forall|a: int, b: int| 0 <= a < b < items@.len() ==> items@[a].name@ != items@[b].name@,
                forall|x: Seq<char>| #[trigger] has_item_named(items@, x) <==> has_entry_named(entries@, k as int, x),
                forall|a: int| 0 <= a < items@.len() ==> from_first_entry(#[trigger] items@[a], entries@, k as int),
            decreases entries@.len() - k,
        {
            let mut seen = false;
            let mut a: usize = 0;
            while a < items.len()
                invariant
                    a <= items@.len(),
                    k < entries@.len(),
                    seen == (exists|x: int| 0 <= x < a && #[trigger] items@[x].name@ == entries@[k as int].name@),
                decreases items@.len() - a,
            {
                if str_eq(items[a].name.as_str(), entries[k].name.as_str()) {
                    seen = true;
                }
                a += 1;
            }
            if !seen {
                let slot = match parse_db_slot(entries[k].slot.as_str()) {
                    Some(s) => s,
                    None => {
                        assert(db_slot_named(entries@[k as int].slot@) is Some);
                        Slot::Head
                    },
                };
                let item = DbItem { name: entries[k].name.clone(), slot, two_handed: entries[k].two_handed };
                assert(item == db_item_of(entries@[k as int]));
                let ghost before = items@;
                items.push(item);
                proof {
                    assert forall|m: int| 0 <= m < k implies #[trigger] entries@[m].name@ != entries@[k as int].name@ by {
                        if entries@[m].name@ == entries@[k as int].name@ {
                            assert(has_entry_named(entries@, k as int, entries@[m].name@));
                            assert(has_item_named(before, entries@[m].name@));
                        }
                    }
                    assert forall|x: Seq<char>| #[trigger] has_item_named(items@, x) <==> has_entry_named(entries@, k + 1, x) by {
                        assert(has_item_named(before, x) == has_entry_named(entries@, k as int, x));
                        if has_item_named(items@, x) {
                            let a = choose|a: int| 0 <= a < items@.len() && #[trigger] items@[a].name@ == x;
                            if a < before.len() {
                                assert(before[a].name@ == x);
                                assert(has_item_named(before, x));
                                let j = choose|j: int| 0 <= j < k && #[trigger] entries@[j].name@ == x;
                                assert(entries@[j].name@ == x);
                            } else {
                                assert(entries@[k as int].name@ == x);
                            }
                        }
                        if has_entry_named(entries@, k + 1, x) {
                            let j = choose|j: int| 0 <= j < k + 1 && #[trigger] entries@[j].name@ == x;
                            if j < k {
                                assert(has_entry_named(entries@, k as int, x));
                                let a = choose|a: int| 0 <= a < before.len() && #[trigger] before[a].name@ == x;
                                assert(items@[a].name@ == x);
                            } else {
                                assert(items@[before.len() as int].name@ == x);
                            }
                        }
                    }
                    assert forall|a: int| 0 <= a < items@.len() implies from_first_entry(#[trigger] items@[a], entries@, k + 1) by {
                        if a < before.len() {
                            assert(items@[a] == before[a]);
                            assert(from_first_entry(before[a], entries@, k as int));
                            let j = choose|j: int|
                                0 <= j < k && #[trigger] entries@[j].name@ == before[a].name@ && before[a] == db_item_of(entries@[j]) && (forall|m: int|
                                    0 <= m < j ==> #[trigger] entries@[m].name@ != entries@[j].name@);
                            assert(0 <= j < k + 1);
                        } else {
                            assert(entries@[k as int].name@ == items@[a].name@);
                        }
                    }
                }
            } else {
                proof {
                    let kn = entries@[k as int].name@;
                    let a0 = choose|x: int| 0 <= x < items@.len() && #[trigger] items@[x].name@ == kn;
                    assert(items@[a0].name@ == kn);
                    assert forall|x: Seq<char>| #[trigger] has_item_named(items@, x) <==> has_entry_named(entries@, k + 1, x) by {
                        if has_entry_named(entries@, k + 1, x) {
                            let j = choose|j: int| 0 <= j < k + 1 && #[trigger] entries@[j].name@ == x;
                            if j < k {
                                assert(has_entry_named(entries@, k as int, x));
                            } else {
                                assert(has_item_named(items@, kn));
                            }
                        }
                        if has_item_named(items@, x) {
                            assert(has_entry_named(entries@, k as int, x));
                            let j = choose|j: int| 0 <= j < k && #[trigger] entries@[j].name@ == x;
                            assert(entries@[j].name@ == x);
                        }
                    }
                    assert forall|a: int| 0 <= a < items@.len() implies from_first_entry(#[trigger] items@[a], entries@, k + 1) by {
                        assert(from_first_entry(items@[a], entries@, k as int));
                        let j = choose|j: int|
                            0 <= j < k && #[trigger] entries@[j].name@ == items@[a].name@ && items@[a] == db_item_of(entries@[j]) && (forall|m: int|
                                0 <= m < j ==> #[trigger] entries@[m].name@ != entries@[j].name@);
                        assert(0 <= j < k + 1);
                    }
                }
            }
            k += 1;
        }
        let db = ItemsDb { items };
        proof {
            let its = db.items@;
            let n = entries@.len() as int;
            assert forall|x: Seq<char>| #![trigger db@.dom().contains(x)]
                db@.dom().contains(x) <==> exists|i: int| 0 <= i < entries@.len() && #[trigger] entries@[i].name@ == x by {
                assert(has_item_named(its, x) == has_entry_named(entries@, n, x));
                if has_item_named(its, x) {
                    let a = choose|a: int| 0 <= a < its.len() && #[trigger] its[a].name@ == x;
                    assert(its[a].name@ == x);
                    assert(first_named(its, x) is Some);
                }
                if first_named(its, x) is Some {
                    let f = first_named(its, x).unwrap();
                    assert(its[f].name@ == x);
                    assert(has_item_named(its, x));
                }
            }
            assert forall|i: int|
                0 <= i < entries@.len() && (forall|j: int| 0 <= j < i ==> #[trigger] entries@[j].name@ != entries@[i].name@)
                    implies #[trigger] db@[entries@[i].name@] == db_item_of(entries@[i]) by {
                let x = entries@[i].name@;
                assert(has_entry_named(entries@, n, x));
                assert(has_item_named(its, x));
                let a = choose|a: int| 0 <= a < its.len() && #[trigger] its[a].name@ == x;
                assert(its[a].name@ == x);
                let f = first_named(its, x).unwrap();
                assert(its[f].name@ == x);
                assert(f == a) by {
                    if f < a {
                        assert(its[f].name@ != its[a].name@);
                    } else if f > a {
                        assert(its[a].name@ != its[f].name@);
                    }
                }
                assert(from_first_entry(its[a], entries@, n));
                let j = choose|j: int|
                    0 <= j < n && #[trigger] entries@[j].name@ == its[a].name@ && its[a] == db_item_of(entries@[j])
                        && (forall|m: int| 0 <= m < j ==> #[trigger] entries@[m].name@ != entries@[j].name@);
                assert(j == i) by {
                    if j < i {
                        assert(entries@[j].name@ == entries@[i].name@);
                    } else if j > i {
                        assert(entries@[i].name@ == entries@[j].name@);
                    }
                }
            }
        }
        Ok(db)
    }

    fn position(&self, name: &str) -> (r: Option<usize>)
        ensures
            r matches Some(i) ==> i < self.items@.len() && first_named(self.items@, name@) == Some(i as int),
            r is None ==> first_named(self.items@, name@) is None,
    {
        let mut k: usize = 0;
        while k < self.items.len()
            invariant
                k <= self.items@.len(),
                forall|j: int| 0 <= j < k ==> #[trigger] self.items@[j].name@ != name@,
            decreases self.items@.len() - k,
        {
            if str_eq(self.items[k].name.as_str(), name) {
                proof {
                    let c = choose|i: int| 0 <= i < self.items@.len() && self.items@[i].name@ == name@ && forall|j: int| 0 <= j < i ==> #[trigger] self.items@[j].name@ != name@;
                    if c > k {
                        assert(self.items@[k as int].name@ == name@);
                    }
                }
                return Some(k);
            }
            k += 1;
        }
        None
    }

    /// The number of distinct item names.
    pub fn len(&self) -> (r: usize)
        ensures
            r == self.size(),
    {
        self.items.len()
    }

    /// Whether the DB holds no items.
    pub fn is_empty(&self) -> (r: bool)
        ensures
            r == (self.size() == 0),
    {
        self.items.len() == 0
    }

    /// The canonical slot of an item, if the DB knows its name (matched
    /// exactly, case-sensitively).
    pub fn lookup(&self, name: &str) -> (r: Option<Slot>)
        ensures
            self@.dom().contains(name@) ==> r == Some(self@[name@].slot),
            !self@.dom().contains(name@) ==> r is None,
    {
        match self.position(name) {
            Some(i) => Some(self.items[i].slot),
            None => None,
        }
    }

    /// Whether the DB knows the item as a two-handed main-hand weapon; false
    /// for unknown names.
    pub fn lookup_two_handed(&self, name: &str) -> (r: bool)
        ensures
            r == (self@.dom().contains(name@) && self@[name@].two_handed),
    {
        match self.position(name) {
            Some(i) => self.items[i].two_handed,
            None => false,
        }
    }
}

// ── Grouping by slot family ──────────────────────────────────────────────────

/// The label of the group of items whose slot is not known.
pub open spec fn unknown_group_label() -> Seq<char> {
    "Unknown (not in items DB)"@
}

/// The group of an item with slot `k`: its slot's family, or the unknown
/// group (`None`).
pub open spec fn group_key(k: Option<Slot>) -> Option<Slot> {
    match k {
        Some(s) => Some(family_of(s)),
        None => None,
    }
}

/// The positions below `n` of the items in group `g`, in order.
pub open spec fn members_upto(keys: Seq<Option<Slot>>, g: Option<Slot>, n: int) -> Seq<int>
    decreases n,
{
    if n <= 0 {
        Seq::empty()
    } else if group_key(keys[n - 1]) == g {
        members_upto(keys, g, n - 1).push(n - 1)
    } else {
        members_upto(keys, g, n - 1)
    }
}

/// The groups in output order: the slot families in canonical order, then
/// the unknown group.
pub open spec fn group_order() -> Seq<Option<Slot>> {
    family_order_spec().map_values(|f: Slot| Some(f)).push(None)
}

/// The divider label of a group.
pub open spec fn group_label(g: Option<Slot>) -> Seq<char> {
    match g {
        Some(f) => family_label_spec(f),
        None => unknown_group_label(),
    }
}

/// The non-empty groups among the first `t` in output order: each group's
/// label and its members' positions.
pub open spec fn groups_upto(keys: Seq<Option<Slot>>, t: int) -> Seq<(Seq<char>, Seq<int>)>
    decreases t,
{
    if t <= 0 {
        Seq::empty()
    } else {
        let g = group_order()[t - 1];
        let m = members_upto(keys, g, keys.len() as int);
        if m.len() == 0 {
            groups_upto(keys, t - 1)
        } else {
            groups_upto(keys, t - 1).push((group_label(g), m))
        }
    }
}

/// How items with slots `keys` (`None` for unknown) are laid out: one group
/// per slot family in canonical order, then the unknown items; empty groups
/// are left out and each group keeps its items in their original order.
pub open spec fn groups_spec(keys: Seq<Option<Slot>>) -> Seq<(Seq<char>, Seq<int>)> {
    groups_upto(keys, group_order().len() as int)
}

/// A group of items under one divider.
#[derive(Debug, Clone, PartialEq, Eq)]
pub struct SlotGroup {
    pub label: String,
    /// Positions of the group's items in the input, in order.
    pub members: Vec<usize>,
}

/// The plain form of a group.
pub open spec fn group_view(g: SlotGroup) -> (Seq<char>, Seq<int>) {
    (g.label@, g.members@.map_values(|i: usize| i as int))
}

/// The plain forms of a list of groups.
pub open spec fn group_views(gs: Seq<SlotGroup>) -> Seq<(Seq<char>, Seq<int>)> {
    gs.map_values(|g: SlotGroup| group_view(g))
}

fn group_members(keys: &[Option<Slot>], g: Option<Slot>) -> (r: Vec<usize>)
    ensures
        r@.map_values(|i: usize| i as int) == members_upto(keys@, g, keys@.len() as int),
{
    let mut r: Vec<usize> = Vec::new();
    let mut i: usize = 0;
    while i < keys.len()
        invariant
            i <= keys@.len(),
            r@.map_values(|x: usize| x as int) == members_upto(keys@, g, i as int),
        decreases keys@.len() - i,
    {
        let k = match keys[i] {
            Some(s) => Some(slot_family(s)),
            None => None,
        };
        if k == g {
            let ghost before = r@;
            r.push(i);
            assert(r@.map_values(|x: usize| x as int) =~= before.map_values(|x: usize| x as int).push(i as int));
        }
        i += 1;
    }
    r
}

/// Lays out items with slots `keys` (`None` for unknown) in groups: one per
/// slot family in canonical order, then the unknown items under
/// `Unknown (not in items DB)`; empty groups are left out.
pub fn group_by_family(keys: &[Option<Slot>]) -> (r: Vec<SlotGroup>)
    ensures
        group_views(r@) == groups_spec(keys@),
{
    let order = slot_family_order();
    let mut out: Vec<SlotGroup> = Vec::new();
    let mut t: usize = 0;
    proof {
        assert(group_order().len() == order@.len() + 1);
        lemma_families_len(all_slots_spec());
    }
    while t <= order.len()
        invariant
            t <= order@.len() + 1,
            order@.len() <= 19,
            order@ == family_order_spec(),
            group_order().len() == order@.len() + 1,
            group_views(out@) == groups_upto(keys@, t as int),
        decreases order@.len() + 1 - t,
    {
        let g = if t < order.len() {
            Some(order[t])
        } else {
            None
        };
        assert(g == group_order()[t as int]);
        let members = group_members(keys, g);
        if members.len() > 0 {
            let label = match g {
                Some(f) => slot_family_label(f).to_owned(),
                None => "Unknown (not in items DB)".to_owned(),
            };
            let ghost before = out@;
            out.push(SlotGroup { label, members });
            assert(group_views(out@) =~= group_views(before).push(group_view(out@[before.len() as int])));
        } else {
            assert(members@.map_values(|i: usize| i as int).len() == 0);
        }
        t += 1;
    }
    out
}

// ── Resolving slots ──────────────────────────────────────────────────────────

/// Why an item could not be resolved.
#[derive(Debug, Clone, Copy, PartialEq, Eq, Structural)]
pub enum UnknownReason {
    /// The items DB does not know the name: typically legendary or renamed
    /// items, or items newer than the DB.
    NotInDb,
}

/// What resolution did to one item.
#[derive(Debug, Clone, PartialEq, Eq)]
pub enum ResolutionOutcome {
    /// The name is in the DB; the slot was rewritten.
    Resolved {
        name: String,
        /// The item's `slot` string before, if it had one.
        from_slot: Option<String>,
        /// The canonical slot written.
        to_slot: Slot,
    },
    /// The name is not in the DB; the slot was left as it was.
    Unknown { name: String, original_slot: Option<String>, reason: UnknownReason },
}

/// The fields of one `[[item]]` table that resolving and merging read.
#[derive(Debug, Clone)]
pub struct ItemFields {
    /// The `name` string, if the table has one.
    pub name: Option<String>,
    /// The `slot` string, if the table has one.
    pub slot: Option<String>,
    /// The tracked stats (an absent or non-integer key reads 0).
    pub stats: crate::stat::StatMap,
    /// The tracked stats of the `EssenceTotals` sub-table (absent reads 0).
    pub essence: crate::stat::StatMap,
}

/// The text of an optional string.
pub open spec fn opt_text(s: Option<String>) -> Option<Seq<char>> {
    match s {
        Some(x) => Some(x@),
        None => None,
    }
}

/// The name an item is looked up by: its `name`, or the empty string.
pub open spec fn lookup_name(it: ItemFields) -> Seq<char> {
    match it.name {
        Some(n) => n@,
        None => Seq::empty(),
    }
}

/// Whether `o` is the outcome of resolving `it` against `db`.
pub open spec fn is_outcome(o: ResolutionOutcome, it: ItemFields, db: Map<Seq<char>, DbItem>) -> bool {
    let n = lookup_name(it);
    if db.dom().contains(n) {
        o matches ResolutionOutcome::Resolved { name, from_slot, to_slot } && name@ == n && opt_text(from_slot) == opt_text(
            it.slot,
        ) && to_slot == db[n].slot
    } else {
        o matches ResolutionOutcome::Unknown { name, original_slot, reason } && name@ == n && opt_text(original_slot)
            == opt_text(it.slot) && reason == UnknownReason::NotInDb
    }
}

fn clone_opt(s: &Option<String>) -> (r: Option<String>)
    ensures
        opt_text(r) == opt_text(*s),
{
    match s {
        Some(x) => Some(x.clone()),
        None => None,
    }
}

/// Resolves the items of an export against the DB: each item's outcome and
/// the slot it gets (`None` when unknown, which keeps its own slot string).
pub fn resolve_items(items: &[ItemFields], db: &ItemsDb) -> (r: (Vec<ResolutionOutcome>, Vec<Option<Slot>>))
    ensures
        r.0@.len() == items@.len(),
        r.1@.len() == items@.len(),
        forall|i: int| 0 <= i < items@.len() ==> is_outcome(#[trigger] r.0@[i], items@[i], db@),
        forall|i: int|
            0 <= i < items@.len() ==> #[trigger] r.1@[i] == if db@.dom().contains(lookup_name(items@[i])) {
                Some(db@[lookup_name(items@[i])].slot)
            } else {
                None
            },
{
    let mut outcomes: Vec<ResolutionOutcome> = Vec::new();
    let mut slots: Vec<Option<Slot>> = Vec::new();
    let mut i: usize = 0;
    while i < items.len()
        invariant
            i <= items@.len(),
            outcomes@.len() == i,
            slots@.len() == i,
            forall|a: int| 0 <= a < i ==> is_outcome(#[trigger] outcomes@[a], items@[a], db@),
            forall|a: int|
                0 <= a < i ==> #[trigger] slots@[a] == if db@.dom().contains(lookup_name(items@[a])) {
                    Some(db@[lookup_name(items@[a])].slot)
                } else {
                    None
                },
        decreases items@.len() - i,
    {
        let it = &items[i];
        let name = match &it.name {
            Some(n) => n.clone(),
            None => String::new(),
        };
        assert(name@ == lookup_name(*it));
        let found = db.lookup(name.as_str());
        let o = match found {
            Some(slot) => ResolutionOutcome::Resolved { name, from_slot: clone_opt(&it.slot), to_slot: slot },
            None => ResolutionOutcome::Unknown { name, original_slot: clone_opt(&it.slot), reason: UnknownReason::NotInDb },
        };
        outcomes.push(o);
        slots.push(found);
        i += 1;
    }
    (outcomes, slots)
}

// ── Merging into the canonical file ──────────────────────────────────────────

/// Whether two item tables hold the same data: the same `name` and `slot`
/// strings and the same tracked stats and essence totals. Comments, layout
/// and the generated `two_handed` flag do not count.
pub open spec fn same_data(a: ItemFields, b: ItemFields) -> bool {
    &&& opt_text(a.name) == opt_text(b.name)
    &&& opt_text(a.slot) == opt_text(b.slot)
    &&& forall|j: int| 0 <= j < 16 ==> #[trigger] stat_agrees(a, b, j)
}

/// Whether two items agree on tracked stat `j` and its essence total.
pub open spec fn stat_agrees(a: ItemFields, b: ItemFields, j: int) -> bool {
    let s = tracked_stats_spec()[j];
    a.stats.value(s) == b.stats.value(s) && a.essence.value(s) == b.essence.value(s)
}

fn opt_str_eq(a: &Option<String>, b: &Option<String>) -> (r: bool)
    ensures
        r == (opt_text(*a) == opt_text(*b)),
{
    match (a, b) {
        (Some(x), Some(y)) => str_eq(x.as_str(), y.as_str()),
        (None, None) => true,
        _ => false,
    }
}

/// Whether two item tables hold the same data.
pub fn item_data_equal(a: &ItemFields, b: &ItemFields) -> (r: bool)
    ensures
        r == same_data(*a, *b),
{
    if !opt_str_eq(&a.name, &b.name) || !opt_str_eq(&a.slot, &b.slot) {
        return false;
    }
    let listed = tracked_stats();
    let mut j: usize = 0;
    while j < 16
        invariant
            j <= 16,
            listed@ == tracked_stats_spec(),
            forall|x: int| 0 <= x < j ==> #[trigger] stat_agrees(*a, *b, x),
        decreases 16 - j,
    {
        let s = listed[j];
        assert(s == tracked_stats_spec()[j as int]);
        if a.stats.get(s) != b.stats.get(s) || a.essence.get(s) != b.essence.get(s) {
            assert(!stat_agrees(*a, *b, j as int));
            return false;
        }
        assert(stat_agrees(*a, *b, j as int));
        j += 1;
    }
    true
}

/// The kind of destructive change a forced merge asks about.
#[derive(Debug, Clone, Copy, PartialEq, Eq, Structural)]
pub enum PromptCategory {
    /// The item is in both files with different data: overwrite the old block?
    Overwrite,
    /// The item is gone from the export: remove it?
    Remove,
}

/// The user's answer to a merge question.
#[derive(Debug, Clone, Copy, PartialEq, Eq, Structural)]
pub enum PromptAnswer {
    /// Apply this change.
    Yes,
    /// Skip this change.
    No,
    /// Apply this change and every later one of the same category unasked.
    YesToAll,
}

/// Where a table of the merged file comes from.
#[derive(Debug, Clone, Copy, PartialEq, Eq, Structural)]
pub enum MergeSource {
    /// The previous canonical file's table at this position.
    Previous(usize),
    /// The new export's table at this position.
    Incoming(usize),
}

/// The state of a merge after some of the previous file's items.
#[verifier::ext_equal]
pub struct MergeState {
    /// Which export tables have been claimed.
    pub taken: Seq<bool>,
    pub yes_overwrite: bool,
    pub yes_remove: bool,
    /// How many answers have been used.
    pub used: int,
    pub tables: Seq<MergeSource>,
    pub added: Seq<Seq<char>>,
    pub preserved: Seq<Seq<char>>,
    pub overwritten: Seq<Seq<char>>,
    pub removed: Seq<Seq<char>>,
    /// The question the merge is waiting on, if it ran out of answers.
    pub pending: Option<(PromptCategory, Seq<char>)>,
}

/// Whether export table `k` is unclaimed and named `name`.
pub open spec fn is_candidate(incoming: Seq<ItemFields>, taken: Seq<bool>, name: Seq<char>, k: int) -> bool {
    !taken[k] && opt_text(incoming[k].name) == Some(name)
}

/// The first unclaimed export table named `name`.
pub open spec fn first_candidate(incoming: Seq<ItemFields>, taken: Seq<bool>, name: Seq<char>) -> Option<int> {
    if exists|k: int| 0 <= k < incoming.len() && #[trigger] is_candidate(incoming, taken, name, k) {
        Some(choose|k: int| 0 <= k < incoming.len() && is_candidate(incoming, taken, name, k) && forall|j: int| 0 <= j < k ==> !#[trigger] is_candidate(incoming, taken, name, j))
    } else {
        None
    }
}

/// Whether export table `k` is unclaimed, named `name` and holds `p`'s data.
pub open spec fn is_equal_candidate(incoming: Seq<ItemFields>, taken: Seq<bool>, name: Seq<char>, p: ItemFields, k: int) -> bool {
    is_candidate(incoming, taken, name, k) && same_data(p, incoming[k])
}

/// The export table a previous item named `name` is matched with: the first
/// unclaimed one of that name with the same data, else the first unclaimed
/// one of that name.
pub open spec fn match_for(incoming: Seq<ItemFields>, taken: Seq<bool>, name: Seq<char>, p: ItemFields) -> Option<int> {
    if exists|k: int| 0 <= k < incoming.len() && #[trigger] is_equal_candidate(incoming, taken, name, p, k) {
        Some(choose|k: int| 0 <= k < incoming.len() && is_equal_candidate(incoming, taken, name, p, k) && forall|j: int| 0 <= j < k ==> !#[trigger] is_equal_candidate(incoming, taken, name, p, j))
    } else {
        first_candidate(incoming, taken, name)
    }
}

/// The state before any previous item.
pub open spec fn initial_state(n_incoming: int) -> MergeState {
    MergeState {
        taken: Seq::new(n_incoming as nat, |k: int| false),
        yes_overwrite: false,
        yes_remove: false,
        used: 0,
        tables: Seq::empty(),
        added: Seq::empty(),
        preserved: Seq::empty(),
        overwritten: Seq::empty(),
        removed: Seq::empty(),
        pending: None,
    }
}

/// The state after keeping previous item `i` and counting it as preserved.
pub open spec fn keep_previous(st: MergeState, i: int, name: Seq<char>) -> MergeState {
    MergeState { preserved: st.preserved.push(name), tables: st.tables.push(MergeSource::Previous(i as usize)), ..st }
}

/// The state after taking export table `k` over a previous item.
pub open spec fn take_incoming(st: MergeState, k: int, name: Seq<char>) -> MergeState {
    MergeState { overwritten: st.overwritten.push(name), tables: st.tables.push(MergeSource::Incoming(k as usize)), ..st }
}

/// The state after previous item `i` of `prev` (the previous file's items)
/// is merged. Without `force`, a matched item keeps its old block and an
/// unmatched one is removed. With `force`, a matched item with different data
/// and an unmatched item each need an answer, unless `YesToAll` was given in
/// that category before; the merge stops at the first question it has no
/// answer for.
#[verifier::opaque]
pub open spec fn merge_step(prev: Seq<ItemFields>, incoming: Seq<ItemFields>, force: bool, answers: Seq<PromptAnswer>, st: MergeState, i: int) -> MergeState {
    if st.pending is Some {
        st
    } else {
        match prev[i].name {
            None => MergeState { tables: st.tables.push(MergeSource::Previous(i as usize)), ..st },
            Some(nm) => {
                let name = nm@;
                match match_for(incoming, st.taken, name, prev[i]) {
                    Some(k) => {
                        let s1 = MergeState { taken: st.taken.update(k, true), ..st };
                        if !force || same_data(prev[i], incoming[k]) {
                            keep_previous(s1, i, name)
                        } else if s1.yes_overwrite {
                            take_incoming(s1, k, name)
                        } else if s1.used >= answers.len() {
                            MergeState { pending: Some((PromptCategory::Overwrite, name)), ..s1 }
                        } else {
                            let s2 = MergeState { used: s1.used + 1, ..s1 };
                            match answers[s1.used] {
                                PromptAnswer::YesToAll => take_incoming(MergeState { yes_overwrite: true, ..s2 }, k, name),
                                PromptAnswer::Yes => take_incoming(s2, k, name),
                                PromptAnswer::No => keep_previous(s2, i, name),
                            }
                        }
                    },
                    None => {
                        if !force || st.yes_remove {
                            MergeState { removed: st.removed.push(name), ..st }
                        } else if st.used >= answers.len() {
                            MergeState { pending: Some((PromptCategory::Remove, name)), ..st }
                        } else {
                            let s2 = MergeState { used: st.used + 1, ..st };
                            match answers[st.used] {
                                PromptAnswer::YesToAll => MergeState { yes_remove: true, removed: s2.removed.push(name), ..s2 },
                                PromptAnswer::Yes => MergeState { removed: s2.removed.push(name), ..s2 },
                                PromptAnswer::No => keep_previous(s2, i, name),
                            }
                        }
                    },
                }
            },
        }
    }
}

/// The state after the first `n` previous items.
pub open spec fn merge_prev(prev: Seq<ItemFields>, incoming: Seq<ItemFields>, force: bool, answers: Seq<PromptAnswer>, n: int) -> MergeState
    decreases n,
{
    if n <= 0 {
        initial_state(incoming.len() as int)
    } else {
        merge_step(prev, incoming, force, answers, merge_prev(prev, incoming, force, answers, n - 1), n - 1)
    }
}

/// The state after the unclaimed export tables among the first `m` are
/// added: for each named table in order, the first unclaimed table of its
/// name.
pub open spec fn merge_added(incoming: Seq<ItemFields>, st: MergeState, m: int) -> MergeState
    decreases m,
{
    if m <= 0 {
        st
    } else {
        let s0 = merge_added(incoming, st, m - 1);
        match incoming[m - 1].name {
            None => s0,
            Some(nm) => match first_candidate(incoming, s0.taken, nm@) {
                None => s0,
                Some(k) => MergeState {
                    taken: s0.taken.update(k, true),
                    added: s0.added.push(nm@),
                    tables: s0.tables.push(MergeSource::Incoming(k as usize)),
                    ..s0
                },
            },
        }
    }
}

/// The whole merge: the previous items in order, then the unclaimed export
/// tables; or the first question it has no answer for.
pub open spec fn merge_spec(prev: Seq<ItemFields>, incoming: Seq<ItemFields>, force: bool, answers: Seq<PromptAnswer>) -> MergeState {
    let s = merge_prev(prev, incoming, force, answers, prev.len() as int);
    if s.pending is Some {
        s
    } else {
        merge_added(incoming, s, incoming.len() as int)
    }
}

/// The texts of a list of strings.
pub open spec fn strings_view(v: Seq<String>) -> Seq<Seq<char>> {
    v.map_values(|x: String| x@)
}

/// What a finished merge does: the merged file's tables in order (before
/// regrouping), and the names of the items added, kept, overwritten and
/// removed.
#[derive(Debug)]
pub struct MergePlan {
    pub tables: Vec<MergeSource>,
    pub added: Vec<String>,
    pub preserved: Vec<String>,
    pub overwritten: Vec<String>,
    pub removed: Vec<String>,
}

/// The next step of an interactive merge: finished, or a question to answer
/// before it can go on.
#[derive(Debug)]
pub enum PlanStep {
    Done(MergePlan),
    Ask { category: PromptCategory, name: String },
}

/// Whether `p` is the plan of the finished merge state `s`.
pub open spec fn plan_matches(p: MergePlan, s: MergeState) -> bool {
    &&& p.tables@ == s.tables
    &&& strings_view(p.added@) == s.added
    &&& strings_view(p.preserved@) == s.preserved
    &&& strings_view(p.overwritten@) == s.overwritten
    &&& strings_view(p.removed@) == s.removed
}

fn find_candidate(incoming: &[ItemFields], taken: &Vec<bool>, name: &str) -> (r: Option<usize>)
    requires
        taken@.len() == incoming@.len(),
    ensures
        r is None ==> first_candidate(incoming@, taken@, name@) is None,
        r matches Some(k) ==> first_candidate(incoming@, taken@, name@) == Some(k as int) && k < incoming@.len(),
{
    let mut k: usize = 0;
    while k < incoming.len()
        invariant
            k <= incoming@.len(),
            taken@.len() == incoming@.len(),
            forall|j: int| 0 <= j < k ==> !#[trigger] is_candidate(incoming@, taken@, name@, j),
        decreases incoming@.len() - k,
    {
        let named = match &incoming[k].name {
            Some(n) => str_eq(n.as_str(), name),
            None => false,
        };
        if !taken[k] && named {
            proof {
                assert(is_candidate(incoming@, taken@, name@, k as int));
                let c = choose|x: int| 0 <= x < incoming@.len() && is_candidate(incoming@, taken@, name@, x) && forall|j: int| 0 <= j < x ==> !#[trigger] is_candidate(incoming@, taken@, name@, j);
                if c < k {
                } else if c > k {
                    assert(!is_candidate(incoming@, taken@, name@, k as int));
                }
            }
            return Some(k);
        }
        assert(!is_candidate(incoming@, taken@, name@, k as int));
        k += 1;
    }
    None
}

fn find_match(incoming: &[ItemFields], taken: &Vec<bool>, name: &str, p: &ItemFields) -> (r: Option<usize>)
    requires
        taken@.len() == incoming@.len(),
    ensures
        r is None ==> match_for(incoming@, taken@, name@, *p) is None,
        r matches Some(k) ==> match_for(incoming@, taken@, name@, *p) == Some(k as int) && k < incoming@.len(),
{
    let mut k: usize = 0;
    while k < incoming.len()
        invariant
            k <= incoming@.len(),
            taken@.len() == incoming@.len(),
            forall|j: int| 0 <= j < k ==> !#[trigger] is_equal_candidate(incoming@, taken@, name@, *p, j),
        decreases incoming@.len() - k,
    {
        let named = match &incoming[k].name {
            Some(n) => str_eq(n.as_str(), name),
            None => false,
        };
        if !taken[k] && named && item_data_equal(p, &incoming[k]) {
            proof {
                assert(is_equal_candidate(incoming@, taken@, name@, *p, k as int));
                let c = choose|x: int| 0 <= x < incoming@.len() && is_equal_candidate(incoming@, taken@, name@, *p, x) && forall|j: int| 0 <= j < x ==> !#[trigger] is_equal_candidate(incoming@, taken@, name@, *p, j);
                if c < k {
                } else if c > k {
                    assert(!is_equal_candidate(incoming@, taken@, name@, *p, k as int));
                }
            }
            return Some(k);
        }
        assert(!is_equal_candidate(incoming@, taken@, name@, *p, k as int));
        k += 1;
    }
    find_candidate(incoming, taken, name)
}

proof fn lemma_pending_persists(prev: Seq<ItemFields>, incoming: Seq<ItemFields>, force: bool, answers: Seq<PromptAnswer>, a: int, b: int)
    requires
        0 <= a <= b,
        merge_prev(prev, incoming, force, answers, a).pending is Some,
    ensures
        merge_prev(prev, incoming, force, answers, b) == merge_prev(prev, incoming, force, answers, a),
    decreases b - a,
{
    reveal(merge_step);
    if a < b {
        lemma_pending_persists(prev, incoming, force, answers, a, b - 1);
    }
}

/// The working variables of a merge in progress.
struct Merger {
    taken: Vec<bool>,
    yes_overwrite: bool,
    yes_remove: bool,
    used: usize,
    tables: Vec<MergeSource>,
    added: Vec<String>,
    preserved: Vec<String>,
    overwritten: Vec<String>,
    removed: Vec<String>,
}

impl Merger {
    /// The merge state the variables hold.
    spec fn state(&self) -> MergeState {
        MergeState {
            taken: self.taken@,
            yes_overwrite: self.yes_overwrite,
            yes_remove: self.yes_remove,
            used: self.used as int,
            tables: self.tables@,
            added: strings_view(self.added@),
            preserved: strings_view(self.preserved@),
            overwritten: strings_view(self.overwritten@),
            removed: strings_view(self.removed@),
            pending: None,
        }
    }

    fn keep(&mut self, i: usize, name: &String)
        ensures
            final(self).state() == keep_previous(old(self).state(), i as int, name@),
    {
        let ghost before = self.state();
        self.preserved.push(name.clone());
        self.tables.push(MergeSource::Previous(i));
        assert(self.state() =~= keep_previous(before, i as int, name@));
    }

    fn take(&mut self, k: usize, name: &String)
        ensures
            final(self).state() == take_incoming(old(self).state(), k as int, name@),
    {
        let ghost before = self.state();
        self.overwritten.push(name.clone());
        self.tables.push(MergeSource::Incoming(k));
        assert(self.state() =~= take_incoming(before, k as int, name@));
    }

    fn remove(&mut self, name: &String)
        ensures
            final(self).state() == (MergeState { removed: old(self).state().removed.push(name@), ..old(self).state() }),
    {
        let ghost before = self.state();
        self.removed.push(name.clone());
        assert(self.state() =~= (MergeState { removed: before.removed.push(name@), ..before }));
    }

    /// Merges previous item `i`; returns the question it needs when out of
    /// answers.
    #[verifier::rlimit(40)]
    fn step(&mut self, prev: &[ItemFields], incoming: &[ItemFields], force: bool, answers: &[PromptAnswer], i: usize) -> (q: Option<(PromptCategory, String)>)
        requires
            i < prev@.len(),
            old(self).taken@.len() == incoming@.len(),
            old(self).used <= answers@.len(),
        ensures
            final(self).taken@.len() == incoming@.len(),
            final(self).used <= answers@.len(),
            ({
                let next = merge_step(prev@, incoming@, force, answers@, old(self).state(), i as int);
                match q {
                    Some((c, n)) => next.pending == Some((c, n@)),
                    None => next == final(self).state(),
                }
            }),
    {
        let ghost st = self.state();
        proof {
            reveal(merge_step);
        }
        let p = &prev[i];
        assert(prev@[i as int] == *p);
        match &p.name {
            None => {
                self.tables.push(MergeSource::Previous(i));
                assert(self.state() =~= merge_step(prev@, incoming@, force, answers@, st, i as int));
                None
            },
            Some(nm) => {
                match find_match(incoming, &self.taken, nm.as_str(), p) {
                    Some(k) => {
                        assert(match_for(incoming@, st.taken, nm@, *p) == Some(k as int));
                        self.taken.set(k, true);
                        let ghost s1 = MergeState { taken: st.taken.update(k as int, true), ..st };
                        assert(self.state() =~= s1);
                        if !force || item_data_equal(p, &incoming[k]) {
                            self.keep(i, nm);
                            assert(self.state() == merge_step(prev@, incoming@, force, answers@, st, i as int));
                            None
                        } else if self.yes_overwrite {
                            self.take(k, nm);
                            assert(self.state() == merge_step(prev@, incoming@, force, answers@, st, i as int));
                            None
                        } else if self.used >= answers.len() {
                            assert(merge_step(prev@, incoming@, force, answers@, st, i as int).pending == Some((PromptCategory::Overwrite, nm@)));
                            Some((PromptCategory::Overwrite, nm.clone()))
                        } else {
                            let a = answers[self.used];
                            assert(a == answers@[s1.used]);
                            self.used = self.used + 1;
                            let ghost s2 = MergeState { used: s1.used + 1, ..s1 };
                            assert(self.state() =~= s2);
                            match a {
                                PromptAnswer::YesToAll => {
                                    self.yes_overwrite = true;
                                    assert(self.state() =~= MergeState { yes_overwrite: true, ..s2 });
                                    self.take(k, nm);
                                },
                                PromptAnswer::Yes => {
                                    self.take(k, nm);
                                },
                                PromptAnswer::No => {
                                    self.keep(i, nm);
                                },
                            }
                            assert(self.state() == merge_step(prev@, incoming@, force, answers@, st, i as int));
                            None
                        }
                    },
                    None => {
                        assert(match_for(incoming@, st.taken, nm@, *p) is None);
                        if !force || self.yes_remove {
                            self.remove(nm);
                            assert(self.state() == merge_step(prev@, incoming@, force, answers@, st, i as int));
                            None
                        } else if self.used >= answers.len() {
                            assert(merge_step(prev@, incoming@, force, answers@, st, i as int).pending == Some((PromptCategory::Remove, nm@)));
                            Some((PromptCategory::Remove, nm.clone()))
                        } else {
                            let a = answers[self.used];
                            assert(a == answers@[st.used]);
                            self.used = self.used + 1;
                            let ghost s2 = MergeState { used: st.used + 1, ..st };
                            assert(self.state() =~= s2);
                            match a {
                                PromptAnswer::YesToAll => {
                                    self.yes_remove = true;
                                    assert(self.state() =~= MergeState { yes_remove: true, ..s2 });
                                    self.remove(nm);
                                },
                                PromptAnswer::Yes => {
                                    self.remove(nm);
                                },
                                PromptAnswer::No => {
                                    self.keep(i, nm);
                                },
                            }
                            assert(self.state() == merge_step(prev@, incoming@, force, answers@, st, i as int));
                            None
                        }
                    },
                }
            },
        }
    }

    /// Adds the first unclaimed export table named like table `j`, if any.
    fn add_unclaimed(&mut self, incoming: &[ItemFields], j: usize)
        requires
            j < incoming@.len(),
            old(self).taken@.len() == incoming@.len(),
        ensures
            final(self).taken@.len() == incoming@.len(),
            final(self).state() == ({
                let s0 = old(self).state();
                match incoming@[j as int].name {
                    None => s0,
                    Some(nm) => match first_candidate(incoming@, s0.taken, nm@) {
                        None => s0,
                        Some(k) => MergeState {
                            taken: s0.taken.update(k, true),
                            added: s0.added.push(nm@),
                            tables: s0.tables.push(MergeSource::Incoming(k as usize)),
                            ..s0
                        },
                    },
                }
            }),
    {
        let ghost s0 = self.state();
        match &incoming[j].name {
            None => {},
            Some(nm) => {
                match find_candidate(incoming, &self.taken, nm.as_str()) {
                    None => {},
                    Some(k) => {
                        self.taken.set(k, true);
                        self.added.push(nm.clone());
                        self.tables.push(MergeSource::Incoming(k));
                        assert(self.state() =~= MergeState {
                            taken: s0.taken.update(k as int, true),
                            added: s0.added.push(nm@),
                            tables: s0.tables.push(MergeSource::Incoming(k)),
                            ..s0
                        });
                    },
                }
            },
        }
    }
}

/// Runs the merge of the previous file's items `prev` with the export's
/// `incoming`, using `answers` for the questions a forced merge asks, in
/// order. Returns the plan, or the first question left unanswered; asking it
/// and calling again with its answer appended continues the merge.
#[verifier::rlimit(40)]
pub fn plan_merge(prev: &[ItemFields], incoming: &[ItemFields], force: bool, answers: &[PromptAnswer]) -> (r: PlanStep)
    ensures
        ({
            let s = merge_spec(prev@, incoming@, force, answers@);
            match s.pending {
                Some((c, n)) => r matches PlanStep::Ask { category, name } && category == c && name@ == n,
                None => r matches PlanStep::Done(p) && plan_matches(p, s),
            }
        }),
{
    let mut taken: Vec<bool> = Vec::new();
    let mut z: usize = 0;
    while z < incoming.len()
        invariant
            z <= incoming@.len(),
            taken@ == Seq::new(z as nat, |k: int| false),
        decreases incoming@.len() - z,
    {
        taken.push(false);
        z += 1;
        assert(taken@ =~= Seq::new(z as nat, |k: int| false));
    }
    let mut m = Merger {
        taken,
        yes_overwrite: false,
        yes_remove: false,
        used: 0,
        tables: Vec::new(),
        added: Vec::new(),
        preserved: Vec::new(),
        overwritten: Vec::new(),
        removed: Vec::new(),
    };
    assert(m.state() =~= merge_prev(prev@, incoming@, force, answers@, 0));
    let mut i: usize = 0;
    while i < prev.len()
        invariant
            i <= prev@.len(),
            m.taken@.len() == incoming@.len(),
            m.used <= answers@.len(),
            m.state() == merge_prev(prev@, incoming@, force, answers@, i as int),
        decreases prev@.len() - i,
    {
        match m.step(prev, incoming, force, answers, i) {
            Some((category, name)) => {
                proof {
                    lemma_pending_persists(prev@, incoming@, force, answers@, i + 1, prev@.len() as int);
                }
                return PlanStep::Ask { category, name };
            },
            None => {},
        }
        i += 1;
    }
    let ghost s_prev = merge_prev(prev@, incoming@, force, answers@, prev@.len() as int);
    let mut j: usize = 0;
    while j < incoming.len()
        invariant
            j <= incoming@.len(),
            m.taken@.len() == incoming@.len(),
            s_prev == merge_prev(prev@, incoming@, force, answers@, prev@.len() as int),
            s_prev.pending is None,
            m.state() == merge_added(incoming@, s_prev, j as int),
        decreases incoming@.len() - j,
    {
        m.add_unclaimed(incoming, j);
        j += 1;
    }
    PlanStep::Done(MergePlan {
        tables: m.tables,
        added: m.added,
        preserved: m.preserved,
        overwritten: m.overwritten,
        removed: m.removed,
    })
}

// ── Divider and header comments ──────────────────────────────────────────────

/// `s` without its trailing newlines.
pub open spec fn strip_trailing_newlines(s: Seq<char>) -> Seq<char>
    decreases s.len(),
{
    if s.len() > 0 && s.last() == '\n' {
        strip_trailing_newlines(s.drop_last())
    } else {
        s
    }
}

/// The decor prefix of a group's first table: its own prefix without
/// trailing newlines (when any is left), a blank line, the divider comment
/// `# --- <label> ---` and a blank line.
pub open spec fn divider_prefix_spec(existing: Seq<char>, label: Seq<char>) -> Seq<char> {
    let base = strip_trailing_newlines(existing);
    if base.len() == 0 {
        "\n# --- "@ + label + " ---\n\n"@
    } else {
        base + "\n\n# --- "@ + label + " ---\n\n"@
    }
}

/// The decor prefix that puts a group's divider comment before its first
/// table, after whatever comments the table already had.
pub fn group_divider_prefix(existing: &str, label: &str) -> (r: String)
    ensures
        r@ == divider_prefix_spec(existing@, label@),
{
    let v = chars_of(existing);
    let mut n = v.len();
    assert(v@.subrange(0, n as int) =~= existing@);
    while n > 0 && v[n - 1] == '\n'
        invariant
            n <= v@.len(),
            v@ == existing@,
            strip_trailing_newlines(existing@) == strip_trailing_newlines(v@.subrange(0, n as int)),
        decreases n,
    {
        assert(v@.subrange(0, n as int).drop_last() =~= v@.subrange(0, n - 1));
        n -= 1;
    }
    let base = slice_chars(v.as_slice(), 0, n);
    assert(strip_trailing_newlines(existing@) == base@);
    if n == 0 {
        let mut r = "\n# --- ".to_owned();
        r.append(label);
        r.append(" ---\n\n");
        r
    } else {
        let mut r = string_from_chars(base.as_slice());
        r.append("\n\n# --- ");
        r.append(label);
        r.append(" ---\n\n");
        r
    }
}

/// The first line of `s` with its newline, if it has one.
pub open spec fn first_line_inclusive(s: Seq<char>) -> Seq<char> {
    let e = line_len(s) as int;
    if e < s.len() {
        s.subrange(0, e + 1)
    } else {
        s
    }
}

/// Whether a trimmed line is a group divider comment: it starts with `# ---`
/// and ends with `---`.
pub open spec fn is_divider_line(t: Seq<char>) -> bool {
    t.len() >= 5 && t.subrange(0, 5) == "# ---"@ && t.subrange(t.len() - 3, t.len() as int) == "---"@
}

/// `s` without its group divider comment lines (lines kept with their
/// newlines).
pub open spec fn strip_dividers_spec(s: Seq<char>) -> Seq<char>
    decreases s.len(),
{
    if s.len() == 0 {
        s
    } else {
        let line = first_line_inclusive(s);
        let rest = s.subrange(line.len() as int, s.len() as int);
        if is_divider_line(trim_spec(line)) {
            strip_dividers_spec(rest)
        } else {
            line + strip_dividers_spec(rest)
        }
    }
}

proof fn lemma_first_line(s: Seq<char>)
    requires
        s.len() > 0,
    ensures
        0 < first_line_inclusive(s).len() <= s.len(),
        first_line_inclusive(s) == s.subrange(0, first_line_inclusive(s).len() as int),
{
    lemma_line_len_bound(s);
}

proof fn lemma_line_len_bound(s: Seq<char>)
    ensures
        line_len(s) <= s.len(),
        line_len(s) < s.len() ==> s[line_len(s) as int] == '\n',
    decreases s.len(),
{
    if s.len() > 0 && s[0] != '\n' {
        lemma_line_len_bound(s.drop_first());
        if line_len(s) < s.len() {
            assert(s.drop_first()[line_len(s.drop_first()) as int] == s[line_len(s) as int]);
        }
    }
}

fn is_divider(t: &[char]) -> (r: bool)
    ensures
        r == is_divider_line(t@),
{
    let n = t.len();
    if n < 5 {
        return false;
    }
    let head = slice_chars(t, 0, 5);
    let tail = slice_chars(t, n - 3, n);
    eq_lit(head.as_slice(), "# ---") && eq_lit(tail.as_slice(), "---")
}

/// Removes the group divider comment lines from a decor prefix, so that
/// dividers do not pile up when a file is regrouped again.
pub fn strip_family_dividers(prefix: &str) -> (r: String)
    ensures
        r@ == strip_dividers_spec(prefix@),
{
    let v = chars_of(prefix);
    let n = v.len();
    let mut out: Vec<char> = Vec::new();
    let mut pos: usize = 0;
    assert(v@.subrange(0, n as int) =~= prefix@);
    while pos < n
        invariant
            n == v@.len(),
            v@ == prefix@,
            pos <= n,
            out@ + strip_dividers_spec(v@.subrange(pos as int, n as int)) == strip_dividers_spec(prefix@),
        decreases n - pos,
    {
        let ghost r = v@.subrange(pos as int, n as int);
        let e = line_end(v.as_slice(), pos);
        let end = if e < n {
            e + 1
        } else {
            e
        };
        let line = slice_chars(v.as_slice(), pos, end);
        proof {
            lemma_first_line(r);
            assert(line@ =~= first_line_inclusive(r));
            assert(r.subrange(line@.len() as int, r.len() as int) =~= v@.subrange(end as int, n as int));
        }
        let t = trim_chars(line.as_slice());
        if !is_divider(t.as_slice()) {
            let ghost before = out@;
            let mut k: usize = 0;
            while k < line.len()
                invariant
                    k <= line@.len(),
                    out@ == before + line@.subrange(0, k as int),
                decreases line@.len() - k,
            {
                out.push(line[k]);
                k += 1;
                assert(out@ =~= before + line@.subrange(0, k as int));
            }
            assert(line@.subrange(0, line@.len() as int) =~= line@);
            assert(out@ + strip_dividers_spec(v@.subrange(end as int, n as int)) =~= before + strip_dividers_spec(r));
        }
        pos = end;
    }
    assert(strip_dividers_spec(v@.subrange(n as int, n as int)) =~= Seq::<char>::empty());
    assert(out@ + Seq::<char>::empty() =~= out@);
    string_from_chars(out.as_slice())
}

/// The author comment line that files written by older versions carry at
/// the top; it is dropped with the generated header.
pub open spec fn author_line() -> Seq<char> {
    "# LGO 2026, by Thalya"@
}

/// The start of the comment line that records when the file was written.
pub open spec fn timestamp_prefix() -> Seq<char> {
    "# gearReady.toml updated:"@
}

/// `s` without its trailing carriage returns and newlines.
pub open spec fn strip_line_end(s: Seq<char>) -> Seq<char>
    decreases s.len(),
{
    if s.len() > 0 && (s.last() == '\n' || s.last() == '\r') {
        strip_line_end(s.drop_last())
    } else {
        s
    }
}

/// Whether a line (without its line end) is a generated header comment:
/// the author line, or a line starting with the timestamp prefix.
pub open spec fn is_generated_header(t: Seq<char>) -> bool {
    t == author_line() || (t.len() >= timestamp_prefix().len() && t.subrange(0, timestamp_prefix().len() as int)
        == timestamp_prefix())
}

/// `s` without its generated header comment lines.
pub open spec fn strip_header_spec(s: Seq<char>) -> Seq<char>
    decreases s.len(),
{
    if s.len() == 0 {
        s
    } else {
        let line = first_line_inclusive(s);
        let rest = s.subrange(line.len() as int, s.len() as int);
        if is_generated_header(strip_line_end(line)) {
            strip_header_spec(rest)
        } else {
            line + strip_header_spec(rest)
        }
    }
}

fn generated_header(line: &[char]) -> (r: bool)
    ensures
        r == is_generated_header(strip_line_end(line@)),
{
    let mut n = line.len();
    assert(line@.subrange(0, n as int) =~= line@);
    while n > 0 && (line[n - 1] == '\n' || line[n - 1] == '\r')
        invariant
            n <= line@.len(),
            strip_line_end(line@) == strip_line_end(line@.subrange(0, n as int)),
        decreases n,
    {
        assert(line@.subrange(0, n as int).drop_last() =~= line@.subrange(0, n - 1));
        n -= 1;
    }
    let t = slice_chars(line, 0, n);
    assert(strip_line_end(line@) == t@);
    let t_str = string_from_chars(t.as_slice());
    str_eq(t_str.as_str(), "# LGO 2026, by Thalya") || crate::text::starts_with(t_str.as_str(), "# gearReady.toml updated:")
}

/// Removes the generated header comments (author and timestamp lines) from
/// a gear file's text.
pub fn strip_generated_header(src: &str) -> (r: String)
    ensures
        r@ == strip_header_spec(src@),
{
    let v = chars_of(src);
    let n = v.len();
    let mut out: Vec<char> = Vec::new();
    let mut pos: usize = 0;
    assert(v@.subrange(0, n as int) =~= src@);
    while pos < n
        invariant
            n == v@.len(),
            v@ == src@,
            pos <= n,
            out@ + strip_header_spec(v@.subrange(pos as int, n as int)) == strip_header_spec(src@),
        decreases n - pos,
    {
        let ghost r = v@.subrange(pos as int, n as int);
        let e = line_end(v.as_slice(), pos);
        let end = if e < n {
            e + 1
        } else {
            e
        };
        let line = slice_chars(v.as_slice(), pos, end);
        proof {
            lemma_first_line(r);
            assert(line@ =~= first_line_inclusive(r));
            assert(r.subrange(line@.len() as int, r.len() as int) =~= v@.subrange(end as int, n as int));
        }
        if !generated_header(line.as_slice()) {
            let ghost before = out@;
            let mut k: usize = 0;
            while k < line.len()
                invariant
                    k <= line@.len(),
                    out@ == before + line@.subrange(0, k as int),
                decreases line@.len() - k,
            {
                out.push(line[k]);
                k += 1;
                assert(out@ =~= before + line@.subrange(0, k as int));
            }
            assert(line@.subrange(0, line@.len() as int) =~= line@);
            assert(out@ + strip_header_spec(v@.subrange(end as int, n as int)) =~= before + strip_header_spec(r));
        }
        pos = end;
    }
    assert(strip_header_spec(v@.subrange(n as int, n as int)) =~= Seq::<char>::empty());
    assert(out@ + Seq::<char>::empty() =~= out@);
    string_from_chars(out.as_slice())
}

/// The gear file text with a fresh generated header: the timestamp line
/// `# gearReady.toml updated: <stamp>`, then the text without its old header
/// lines (an author line that older files carry is dropped with them).
pub open spec fn with_header_spec(src: Seq<char>, stamp: Seq<char>) -> Seq<char> {
    timestamp_prefix() + " "@ + stamp + "\n"@ + strip_header_spec(src)
}

/// Whether no line of `s` is a generated header line.
pub open spec fn no_header_lines(s: Seq<char>) -> bool
    decreases s.len(),
{
    if s.len() == 0 {
        true
    } else {
        let line = first_line_inclusive(s);
        if line.len() == 0 {
            true
        } else {
            !is_generated_header(strip_line_end(line)) && no_header_lines(s.subrange(line.len() as int, s.len() as int))
        }
    }
}

/// Stamping a text that has no generated header lines puts the timestamp
/// line in front of it and leaves the text itself unchanged.
pub proof fn lemma_header_keeps_plain_text(src: Seq<char>, stamp: Seq<char>)
    requires
        no_header_lines(src),
    ensures
        with_header_spec(src, stamp) == timestamp_prefix() + " "@ + stamp + "\n"@ + src,
    decreases src.len(),
{
    lemma_strip_plain(src);
}

proof fn lemma_strip_plain(s: Seq<char>)
    requires
        no_header_lines(s),
    ensures
        strip_header_spec(s) == s,
    decreases s.len(),
{
    if s.len() > 0 {
        lemma_first_line(s);
        let line = first_line_inclusive(s);
        let rest = s.subrange(line.len() as int, s.len() as int);
        lemma_strip_plain(rest);
        assert(line + rest =~= s);
    }
}

/// Replaces a gear file's generated header with one stamped `stamp`.
pub fn apply_generated_header(src: &str, stamp: &str) -> (r: String)
    ensures
        r@ == with_header_spec(src@, stamp@),
{
    let kept = strip_generated_header(src);
    let mut r = "# gearReady.toml updated:".to_owned();
    r.append(" ");
    r.append(stamp);
    r.append("\n");
    r.append(kept.as_str());
    r
}

/// The names of the named items, in order.
pub open spec fn named_items(items: Seq<ItemFields>) -> Seq<Seq<char>>
    decreases items.len(),
{
    if items.len() == 0 {
        Seq::empty()
    } else {
        match items.last().name {
            Some(n) => named_items(items.drop_last()).push(n@),
            None => named_items(items.drop_last()),
        }
    }
}

/// The names of the named items whose `slot` is the literal `Unknown`.
pub open spec fn unknown_slot_items(items: Seq<ItemFields>) -> Seq<Seq<char>>
    decreases items.len(),
{
    if items.len() == 0 {
        Seq::empty()
    } else {
        match (items.last().name, items.last().slot) {
            (Some(n), Some(sl)) => if sl@ == "Unknown"@ {
                unknown_slot_items(items.drop_last()).push(n@)
            } else {
                unknown_slot_items(items.drop_last())
            },
            _ => unknown_slot_items(items.drop_last()),
        }
    }
}

/// The names of the named items, in order.
pub fn item_names(items: &[ItemFields]) -> (r: Vec<String>)
    ensures
        strings_view(r@) == named_items(items@),
{
    let mut r: Vec<String> = Vec::new();
    let mut i: usize = 0;
    assert(items@.take(0) =~= Seq::<ItemFields>::empty());
    while i < items.len()
        invariant
            i <= items@.len(),
            strings_view(r@) == named_items(items@.take(i as int)),
        decreases items@.len() - i,
    {
        assert(items@.take(i + 1).drop_last() =~= items@.take(i as int));
        match &items[i].name {
            Some(n) => {
                r.push(n.clone());
                assert(strings_view(r@) =~= named_items(items@.take(i as int)).push(n@));
            },
            None => {},
        }
        i += 1;
    }
    assert(items@.take(items@.len() as int) =~= items@);
    r
}

/// The names of the items whose slot is still `Unknown` after resolution:
/// candidates for editing by hand.
pub fn unknown_slot_names(items: &[ItemFields]) -> (r: Vec<String>)
    ensures
        strings_view(r@) == unknown_slot_items(items@),
{
    let mut r: Vec<String> = Vec::new();
    let mut i: usize = 0;
    assert(items@.take(0) =~= Seq::<ItemFields>::empty());
    while i < items.len()
        invariant
            i <= items@.len(),
            strings_view(r@) == unknown_slot_items(items@.take(i as int)),
        decreases items@.len() - i,
    {
        assert(items@.take(i + 1).drop_last() =~= items@.take(i as int));
        match (&items[i].name, &items[i].slot) {
            (Some(n), Some(sl)) => {
                if str_eq(sl.as_str(), "Unknown") {
                    r.push(n.clone());
                    assert(strings_view(r@) =~= unknown_slot_items(items@.take(i as int)).push(n@));
                }
            },
            _ => {},
        }
        i += 1;
    }
    assert(items@.take(items@.len() as int) =~= items@);
    r
}

// ── Laws of the merge ────────────────────────────────────────────────────────

proof fn lemma_unforced_never_pending(prev: Seq<ItemFields>, incoming: Seq<ItemFields>, answers: Seq<PromptAnswer>, n: int)
    requires
        0 <= n <= prev.len(),
    ensures
        merge_prev(prev, incoming, false, answers, n).pending is None,
    decreases n,
{
    reveal(merge_step);
    if n > 0 {
        lemma_unforced_never_pending(prev, incoming, answers, n - 1);
    }
}

/// A merge without `--force` never asks anything: whatever the answers, it
/// finishes.
pub proof fn lemma_unforced_merge_asks_nothing(prev: Seq<ItemFields>, incoming: Seq<ItemFields>, answers: Seq<PromptAnswer>)
    ensures
        merge_spec(prev, incoming, false, answers).pending is None,
{
    lemma_unforced_never_pending(prev, incoming, answers, prev.len() as int);
    let s = merge_prev(prev, incoming, false, answers, prev.len() as int);
    lemma_added_keeps_counts(incoming, s, incoming.len() as int);
}

/// The number of named items among the first `n` of `items`.
pub open spec fn named_count(items: Seq<ItemFields>, n: int) -> nat
    decreases n,
{
    if n <= 0 {
        0
    } else {
        named_count(items, n - 1) + if items[n - 1].name is Some {
            1nat
        } else {
            0nat
        }
    }
}

proof fn lemma_accounted(prev: Seq<ItemFields>, incoming: Seq<ItemFields>, force: bool, answers: Seq<PromptAnswer>, n: int)
    requires
        0 <= n <= prev.len(),
        merge_prev(prev, incoming, force, answers, n).pending is None,
    ensures
        ({
            let s = merge_prev(prev, incoming, force, answers, n);
            s.preserved.len() + s.overwritten.len() + s.removed.len() == named_count(prev, n) && s.added.len() == 0
        }),
    decreases n,
{
    reveal(merge_step);
    if n > 0 {
        let s0 = merge_prev(prev, incoming, force, answers, n - 1);
        if s0.pending is Some {
            lemma_pending_persists(prev, incoming, force, answers, n - 1, n);
        } else {
            lemma_accounted(prev, incoming, force, answers, n - 1);
        }
    }
}

proof fn lemma_added_keeps_counts(incoming: Seq<ItemFields>, st: MergeState, m: int)
    requires
        0 <= m <= incoming.len(),
    ensures
        merge_added(incoming, st, m).preserved == st.preserved,
        merge_added(incoming, st, m).overwritten == st.overwritten,
        merge_added(incoming, st, m).removed == st.removed,
        merge_added(incoming, st, m).pending == st.pending,
    decreases m,
{
    if m > 0 {
        lemma_added_keeps_counts(incoming, st, m - 1);
    }
}

/// Every named item of the previous file is accounted for exactly once by a
/// finished merge: kept, overwritten, or removed.
pub proof fn lemma_merge_accounts_for_previous(prev: Seq<ItemFields>, incoming: Seq<ItemFields>, force: bool, answers: Seq<PromptAnswer>)
    requires
        merge_spec(prev, incoming, force, answers).pending is None,
    ensures
        ({
            let s = merge_spec(prev, incoming, force, answers);
            s.preserved.len() + s.overwritten.len() + s.removed.len() == named_count(prev, prev.len() as int)
        }),
{
    let n = prev.len() as int;
    lemma_accounted(prev, incoming, force, answers, n);
    let s = merge_prev(prev, incoming, force, answers, n);
    lemma_added_keeps_counts(incoming, s, incoming.len() as int);
}

/// The state of re-merging an unchanged export after its first `i` items:
/// each named item has claimed its own copy and been kept.
pub open spec fn unchanged_state(items: Seq<ItemFields>, i: int) -> MergeState {
    MergeState {
        taken: Seq::new(items.len(), |k: int| k < i && items[k].name is Some),
        yes_overwrite: false,
        yes_remove: false,
        used: 0,
        tables: Seq::new(i as nat, |k: int| MergeSource::Previous(k as usize)),
        added: Seq::empty(),
        preserved: named_items(items.take(i)),
        overwritten: Seq::empty(),
        removed: Seq::empty(),
        pending: None,
    }
}

proof fn lemma_unchanged_prefix(items: Seq<ItemFields>, force: bool, i: int)
    requires
        0 <= i <= items.len(),
        items.len() <= usize::MAX,
    ensures
        merge_prev(items, items, force, Seq::empty(), i) == unchanged_state(items, i),
    decreases i,
{
    reveal(merge_step);
    if i == 0 {
        assert(items.take(0) =~= Seq::<ItemFields>::empty());
        assert(merge_prev(items, items, force, Seq::empty(), 0) =~= unchanged_state(items, 0));
    } else {
        let j = i - 1;
        lemma_unchanged_prefix(items, force, j);
        let st = unchanged_state(items, j);
        assert(items.take(i).drop_last() =~= items.take(j));
        match items[j].name {
            None => {
                assert(merge_step(items, items, force, Seq::empty(), st, j) =~= unchanged_state(items, i));
            },
            Some(nm) => {
                let name = nm@;
                let p = items[j];
                assert(same_data(p, p)) by {
                    assert forall|x: int| 0 <= x < 16 implies #[trigger] stat_agrees(p, p, x) by {}
                }
                assert(is_equal_candidate(items, st.taken, name, p, j));
                let k = match_for(items, st.taken, name, p).unwrap();
                assert(k == j) by {
                    let c = choose|x: int| 0 <= x < items.len() && is_equal_candidate(items, st.taken, name, p, x) && forall|y: int| 0 <= y < x ==> !#[trigger] is_equal_candidate(items, st.taken, name, p, y);
                    if c < j {
                        assert(st.taken[c]);
                    } else if c > j {
                        assert(!is_equal_candidate(items, st.taken, name, p, j));
                    }
                }
                assert(merge_step(items, items, force, Seq::empty(), st, j) =~= unchanged_state(items, i));
            },
        }
    }
}

proof fn lemma_unchanged_adds_nothing(items: Seq<ItemFields>, st: MergeState, m: int)
    requires
        0 <= m <= items.len(),
        st.taken.len() == items.len(),
        forall|k: int| 0 <= k < items.len() && items[k].name is Some ==> st.taken[k],
    ensures
        merge_added(items, st, m) == st,
    decreases m,
{
    if m > 0 {
        lemma_unchanged_adds_nothing(items, st, m - 1);
        match items[m - 1].name {
            None => {},
            Some(nm) => {
                assert(first_candidate(items, st.taken, nm@) is None) by {
                    if exists|k: int| 0 <= k < items.len() && #[trigger] is_candidate(items, st.taken, nm@, k) {
                        let k = choose|k: int| 0 <= k < items.len() && #[trigger] is_candidate(items, st.taken, nm@, k);
                        assert(st.taken[k]);
                    }
                }
            },
        }
    }
}

/// Re-merging an export into a file that already holds exactly its items
/// changes nothing, with or without `--force`: no question is asked, every
/// named item is kept in its place, and nothing is added, overwritten or
/// removed.
pub proof fn lemma_merge_unchanged_export_is_identity(items: Seq<ItemFields>, force: bool)
    requires
        items.len() <= usize::MAX,
    ensures
        ({
            let s = merge_spec(items, items, force, Seq::empty());
            &&& s.pending is None
            &&& s.tables == Seq::new(items.len(), |k: int| MergeSource::Previous(k as usize))
            &&& s.preserved == named_items(items)
            &&& s.added.len() == 0
            &&& s.overwritten.len() == 0
            &&& s.removed.len() == 0
        }),
{
    let n = items.len() as int;
    lemma_unchanged_prefix(items, force, n);
    let st = unchanged_state(items, n);
    lemma_unchanged_adds_nothing(items, st, n);
    assert(items.take(n) =~= items);
}

/// The file the bookmarklet writes: `<dir>/lgo_<character>_gearStats.toml`.
pub fn bookmarklet_stats_path(dir: &str, character: &str) -> (r: String)
    ensures
        r@ == join_path_spec(dir@, "lgo_"@ + character@ + "_gearStats.toml"@),
{
    let name = concat3("lgo_", character, "_gearStats.toml");
    join_path(dir, name.as_str())
}

/// The canonical merged gear file: `<dir>/lgo_<character>_gearReady.toml`.
pub fn canonical_gear_path(dir: &str, character: &str) -> (r: String)
    ensures
        r@ == join_path_spec(dir@, "lgo_"@ + character@ + "_gearReady.toml"@),
{
    let name = concat3("lgo_", character, "_gearReady.toml");
    join_path(dir, name.as_str())
}

// ── Merge summaries ─────────────────────────────────────────────────────────

/// What a merge did, for the caller to report, with the merged text it
/// should write.
#[derive(Debug)]
pub struct MergeOutcome {
    pub added: Vec<String>,
    pub preserved: Vec<String>,
    pub overwritten: Vec<String>,
    pub removed: Vec<String>,
    /// Incoming items whose slot is still unknown after slot resolution.
    pub unknown_slot: Vec<String>,
    /// The merged TOML text.
    pub merged_text: String,
}

impl MergeOutcome {
    /// The outcome of a first run, with no canonical file before it: every
    /// incoming item is added.
    pub fn first_run(incoming: &[ItemFields], merged_text: String) -> (r: MergeOutcome)
        ensures
            strings_view(r.added@) == named_items(incoming@),
            r.preserved@.len() == 0,
            r.overwritten@.len() == 0,
            r.removed@.len() == 0,
            strings_view(r.unknown_slot@) == unknown_slot_items(incoming@),
            r.merged_text@ == merged_text@,
    {
        MergeOutcome {
            added: item_names(incoming),
            preserved: Vec::new(),
            overwritten: Vec::new(),
            removed: Vec::new(),
            unknown_slot: unknown_slot_names(incoming),
            merged_text,
        }
    }

    /// The outcome of a finished merge plan over the items `incoming`.
    pub fn from_plan(plan: MergePlan, incoming: &[ItemFields], merged_text: String) -> (r: MergeOutcome)
        ensures
            r.added@ == plan.added@,
            r.preserved@ == plan.preserved@,
            r.overwritten@ == plan.overwritten@,
            r.removed@ == plan.removed@,
            strings_view(r.unknown_slot@) == unknown_slot_items(incoming@),
            r.merged_text@ == merged_text@,
    {
        MergeOutcome {
            added: plan.added,
            preserved: plan.preserved,
            overwritten: plan.overwritten,
            removed: plan.removed,
            unknown_slot: unknown_slot_names(incoming),
            merged_text,
        }
    }

    /// The outcome of a run that merged nothing.
    pub fn empty() -> (r: MergeOutcome)
        ensures
            r.added@.len() == 0,
            r.preserved@.len() == 0,
            r.overwritten@.len() == 0,
            r.removed@.len() == 0,
            r.unknown_slot@.len() == 0,
            r.merged_text@.len() == 0,
    {
        MergeOutcome {
            added: Vec::new(),
            preserved: Vec::new(),
            overwritten: Vec::new(),
            removed: Vec::new(),
            unknown_slot: Vec::new(),
            merged_text: String::new(),
        }
    }
}

/// What one resolve run did, for the caller to display.
#[derive(Debug)]
pub struct Report {
    pub outcome: MergeOutcome,
    /// The export that drove the merge; `None` when there was none and the
    /// canonical file is unchanged.
    pub bookmarklet_path: Option<String>,
    /// The canonical merged file.
    pub canonical_path: String,
    /// Whether a canonical file existed before the run.
    pub previous_existed: bool,
    /// Whether there was no export and the canonical file was left alone.
    pub no_new_export: bool,
}

/// Why a resolve run cannot start from the files of a directory.
#[derive(Debug, PartialEq, Eq)]
pub enum MissingInput {
    /// Neither the export nor the canonical file is there.
    NoInputFiles,
}

impl MissingInput {
    /// The message shown for the error, naming the directory and character.
    pub fn message(&self, dir: &str, character: &str) -> (r: String)
        ensures
            r@ == "No lgo_"@ + character@ + "_gearStats.toml or lgo_"@ + character@ + "_gearReady.toml found in "@ + dir@,
    {
        let mut m = concat3("No lgo_", character, "_gearStats.toml or lgo_");
        let rest = concat3(character, "_gearReady.toml found in ", dir);
        m.append(rest.as_str());
        m
    }
}

/// The report of a run that found no export: the canonical file is left as
/// it is, and it is an error when there is none either.
pub fn report_without_export(canonical_path: String, canonical_existed: bool) -> (r: Result<Report, MissingInput>)
    ensures
        canonical_existed <==> r is Ok,
        r matches Ok(rep) ==> {
            &&& rep.bookmarklet_path is None
            &&& rep.canonical_path@ == canonical_path@
            &&& rep.previous_existed
            &&& rep.no_new_export
            &&& rep.outcome.added@.len() == 0
            &&& rep.outcome.preserved@.len() == 0
            &&& rep.outcome.overwritten@.len() == 0
            &&& rep.outcome.removed@.len() == 0
            &&& rep.outcome.unknown_slot@.len() == 0
            &&& rep.outcome.merged_text@.len() == 0
        },
{
    if !canonical_existed {
        return Err(MissingInput::NoInputFiles);
    }
    Ok(Report {
        outcome: MergeOutcome::empty(),
        bookmarklet_path: None,
        canonical_path,
        previous_existed: true,
        no_new_export: true,
    })
}

// ── Plugin exports ──────────────────────────────────────────────────────────

/// Whether a file name is a plugin export of `character`, ignoring ASCII case:
/// `lgo_<character>_` first, `_gearnames_` somewhere, `.plugindata` last.
pub open spec fn is_plugindata_name(name: Seq<char>, character: Seq<char>) -> bool {
    let lower = crate::text::ascii_lower(name);
    let prefix = "lgo_"@ + crate::text::ascii_lower(character) + "_"@;
    &&& prefix.len() <= lower.len()
    &&& lower.subrange(0, prefix.len() as int) == prefix
    &&& crate::build_db::contains_text(lower, "_gearnames_"@)
    &&& ".plugindata"@.len() <= lower.len()
    &&& lower.subrange(lower.len() - ".plugindata"@.len(), lower.len() as int) == ".plugindata"@
}

/// Whether `name` is a plugin export of `character`.
fn plugindata_name_matches(name: &str, character: &str) -> (r: bool)
    ensures
        r == is_plugindata_name(name@, character@),
{
    let lower = crate::text::to_ascii_lowercase(name);
    let ch = crate::text::to_ascii_lowercase(character);
    let prefix = concat3("lgo_", ch.as_str(), "_");
    proof {
        reveal_strlit("lgo_");
        reveal_strlit("_");
    }
    crate::text::starts_with(lower.as_str(), prefix.as_str()) && crate::build_db::text_contains(lower.as_str(), "_gearnames_")
        && crate::text::ends_with(lower.as_str(), ".plugindata")
}

/// The newest plugin export of `character` among the file names of a
/// directory: of those that match, the greatest in string order (the names
/// end in a timestamp). `None` when none matches.
pub fn latest_plugindata_name(names: &Vec<String>, character: &str) -> (r: Option<String>)
    ensures
        match r {
            None => forall|i: int| 0 <= i < names@.len() ==> !is_plugindata_name(#[trigger] names@[i]@, character@),
            Some(x) => {
                &&& exists|i: int| 0 <= i < names@.len() && #[trigger] names@[i]@ == x@
                &&& is_plugindata_name(x@, character@)
                &&& forall|i: int|
                    0 <= i < names@.len() && is_plugindata_name(#[trigger] names@[i]@, character@)
                        ==> crate::order::str_order(names@[i]@, x@) <= 0
            },
        },
{
    let n = names.len();
    let mut best: Option<usize> = None;
    let mut i: usize = 0;
    while i < n
        invariant
            i <= n,
            n == names@.len(),
            match best {
                None => forall|k: int| 0 <= k < i ==> !is_plugindata_name(#[trigger] names@[k]@, character@),
                Some(b) => {
                    &&& b < i
                    &&& is_plugindata_name(names@[b as int]@, character@)
                    &&& forall|k: int|
                        0 <= k < i && is_plugindata_name(#[trigger] names@[k]@, character@)
                            ==> crate::order::str_order(names@[k]@, names@[b as int]@) <= 0
                },
            },
        decreases n - i,
    {
        if plugindata_name_matches(names[i].as_str(), character) {
            match best {
                None => {
                    proof {
                        crate::order::lemma_str_order_zero(names@[i as int]@, names@[i as int]@);
                    }
                    best = Some(i);
                },
                Some(b) => {
                    let c = crate::order::compare_str(names[b].as_str(), names[i].as_str());
                    if c == crate::order::Rel::Less {
                        proof {
                            crate::order::lemma_str_order_zero(names@[i as int]@, names@[i as int]@);
                            assert forall|k: int|
                                0 <= k <= i && is_plugindata_name(#[trigger] names@[k]@, character@)
                                    implies crate::order::str_order(names@[k]@, names@[i as int]@) <= 0 by {
                                if k < i {
                                    crate::order::lemma_str_order_antisym(names@[b as int]@, names@[i as int]@);
                                    crate::order::lemma_str_order_trans(names@[k]@, names@[b as int]@, names@[i as int]@);
                                }
                            }
                        }
                        best = Some(i);
                    } else {
                        proof {
                            crate::order::lemma_str_order_antisym(names@[b as int]@, names@[i as int]@);
                        }
                    }
                },
            }
        }
        i += 1;
    }
    match best {
        None => None,
        Some(b) => Some(names[b].clone()),
    }
}

} // verus!
