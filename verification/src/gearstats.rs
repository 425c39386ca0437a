//! Reading a gear stats file (`lgo_<character>_gearReady.toml`): top-level
//! `character`, `class`, `[InnateStats]` (tracked and raw Base stats) and
//! `[Virtues]`, and one `[[item]]` table per
//! owned item with its slot, name, tracked stats and essence totals.
use vstd::prelude::*;

use crate::gear::{parse_slot_display, parse_slot_display_spec, GearItem, Slot};
use crate::slot_resolver::ItemFields;
use crate::stat::{base_stats, base_stats_spec, stat_key, stat_key_spec, tracked_stats, tracked_stats_spec, Stat, StatMap};
use crate::virtues::{slot_views, SelectedVirtues};
use crate::build_profiles::{join_spec, join_strings};
use crate::order::string_views;
use crate::sorting::{isort, sort_strings, str_gt};
use crate::text::{
    ascii_lower, decimal_chars, decimal_string, ends_with, starts_with, str_eq, string_from_chars, substring, to_ascii_lowercase,
};
use crate::toml_doc::{
    entry_index, find_key, lemma_array_view, lemma_table_view, lemma_view_shape, parse_toml, toml_entries, toml_items,
    toml_parsed, toml_view, TomlValue, TomlView,
};

verus! {

/// The value under `key` in a table (its first entry of that key).
pub open spec fn table_get(t: Seq<(Seq<char>, TomlView)>, key: Seq<char>) -> Option<TomlView> {
    match entry_index(t, key) {
        Some(i) => Some(t[i].1),
        None => None,
    }
}

/// The value under `key` at the top of a document (none unless it is a
/// table).
pub open spec fn root_get(root: TomlView, key: Seq<char>) -> Option<TomlView> {
    match root {
        TomlView::Table(t) => table_get(t, key),
        _ => None,
    }
}

/// The integer under `key`, or 0 when absent or not an integer.
#[verifier::opaque]
pub open spec fn int_or_zero(t: Seq<(Seq<char>, TomlView)>, key: Seq<char>) -> int {
    match table_get(t, key) {
        Some(TomlView::Integer(v)) => v as int,
        _ => 0,
    }
}

/// Whether `k` is the key of a tracked stat.
pub open spec fn is_tracked_key(k: Seq<char>) -> bool {
    exists|j: int| 0 <= j < 16 && #[trigger] stat_key_spec(tracked_stats_spec()[j]) == k
}

/// Whether `k` may appear in an `[[item]]` table.
pub open spec fn item_key_allowed(k: Seq<char>) -> bool {
    k == "slot"@ || k == "name"@ || k == "EssenceTotals"@ || k == "two_handed"@ || is_tracked_key(k)
}

/// The position of the first entry of `t` whose key is not allowed in an
/// item (`essence` false) or in its `EssenceTotals` (`essence` true).
pub open spec fn first_bad_key(t: Seq<(Seq<char>, TomlView)>, essence: bool) -> Option<int> {
    let ok = |k: Seq<char>| if essence { is_tracked_key(k) } else { item_key_allowed(k) };
    if exists|i: int| 0 <= i < t.len() && !ok(#[trigger] t[i].0) {
        Some(choose|i: int| 0 <= i < t.len() && !ok(t[i].0) && forall|j: int| 0 <= j < i ==> ok(#[trigger] t[j].0))
    } else {
        None
    }
}

/// The error for a key that does not belong in table `where_`.
pub open spec fn unknown_key_message(key: Seq<char>, where_: Seq<char>, item: Seq<char>) -> Seq<char> {
    "Unknown stat key `"@ + key + "` in `"@ + where_ + "` for item `"@ + item + "`."@
}

/// The `EssenceTotals` table of an item table, if it has one.
#[verifier::opaque]
pub open spec fn essence_table(t: Seq<(Seq<char>, TomlView)>) -> Option<Seq<(Seq<char>, TomlView)>> {
    match table_get(t, "EssenceTotals"@) {
        Some(TomlView::Table(es)) => Some(es),
        _ => None,
    }
}

/// The value of stat `s` on an item table: its own value plus its essence
/// total, for tracked stats; 0 for others.
#[verifier::opaque]
pub open spec fn item_stat_total(t: Seq<(Seq<char>, TomlView)>, s: Stat) -> int {
    if tracked_pos(s) >= 0 {
        int_or_zero(t, stat_key_spec(s)) + match essence_table(t) {
            Some(es) => int_or_zero(es, stat_key_spec(s)),
            None => 0,
        }
    } else {
        0
    }
}

/// The position of a stat among the tracked stats, or -1.
pub open spec fn tracked_pos(s: Stat) -> int {
    match s {
        Stat::Morale => 0,
        Stat::Power => 1,
        Stat::Armor => 2,
        Stat::CriticalRating => 3,
        Stat::Finesse => 4,
        Stat::PhysicalMastery => 5,
        Stat::TacticalMastery => 6,
        Stat::OutgoingHealing => 7,
        Stat::Resistance => 8,
        Stat::CriticalDefense => 9,
        Stat::IncomingHealing => 10,
        Stat::Block => 11,
        Stat::Parry => 12,
        Stat::Evade => 13,
        Stat::PhysicalMitigation => 14,
        Stat::TacticalMitigation => 15,
        _ => -1,
    }
}

proof fn lemma_tracked_pos(j: int)
    requires
        0 <= j < 16,
    ensures
        tracked_pos(tracked_stats_spec()[j]) == j,
{
    if j == 0 {} else if j == 1 {} else if j == 2 {} else if j == 3 {} else if j == 4 {} else if j == 5 {} else if j == 6 {}
    else if j == 7 {} else if j == 8 {} else if j == 9 {} else if j == 10 {} else if j == 11 {} else if j == 12 {}
    else if j == 13 {} else if j == 14 {} else {}
}

/// What reading one `[[item]]` entry gives.
pub enum ItemRead {
    /// The entry is malformed: the error text.
    Failed(Seq<char>),
    /// The slot is not one the optimizer uses; the item is skipped.
    Skipped { name: Seq<char>, slot: Seq<char> },
    /// The item, with its table.
    Kept { name: Seq<char>, slot: Slot, two_handed: bool, table: Seq<(Seq<char>, TomlView)> },
}

/// The `[[item]]` prefix of an error about entry number `n` (1-based).
pub open spec fn entry_label(n: nat) -> Seq<char> {
    "[[item]] #"@ + decimal_string(n)
}

/// Reads an item table that has a slot and a name: unknown keys fail; an
/// unrecognised slot skips it; otherwise its essence totals are checked.
pub open spec fn read_named_spec(t: Seq<(Seq<char>, TomlView)>, name: Seq<char>, slot: Seq<char>) -> ItemRead {
    match first_bad_key(t, false) {
        Some(b) => ItemRead::Failed(unknown_key_message(t[b].0, "item"@, name)),
        None => match parse_slot_display_spec(slot) {
            None => ItemRead::Skipped { name, slot },
            Some(sl) => read_kept_spec(t, name, sl),
        },
    }
}

/// Reads an item table with a known slot: an `EssenceTotals` value must be a
/// table of tracked stats; `two_handed = true` marks a two-handed weapon.
pub open spec fn read_kept_spec(t: Seq<(Seq<char>, TomlView)>, name: Seq<char>, sl: Slot) -> ItemRead {
    let two_handed = table_get(t, "two_handed"@) == Some(TomlView::Boolean(true));
    match table_get(t, "EssenceTotals"@) {
        Some(TomlView::Table(es)) => match first_bad_key(es, true) {
            Some(b) => ItemRead::Failed(unknown_key_message(es[b].0, "EssenceTotals"@, name)),
            None => ItemRead::Kept { name, slot: sl, two_handed, table: t },
        },
        Some(_) => ItemRead::Failed("`EssenceTotals` for item `"@ + name + "` must be a TOML table"@),
        None => ItemRead::Kept { name, slot: sl, two_handed, table: t },
    }
}

/// Reads entry number `n` (1-based) of the item array. It must be a table
/// with a `slot` and a `name` string (checked in that order) and only known
/// keys; an unrecognised slot skips it; an `EssenceTotals` value must be a
/// table of tracked stats.
#[verifier::opaque]
pub open spec fn read_item_spec(e: TomlView, n: nat) -> ItemRead {
    match e {
        TomlView::Table(t) => match table_get(t, "slot"@) {
            Some(TomlView::String(slot)) => match table_get(t, "name"@) {
                Some(TomlView::String(name)) => read_named_spec(t, name, slot),
                _ => ItemRead::Failed(entry_label(n) + " missing 'name'"@),
            },
            _ => ItemRead::Failed(entry_label(n) + " missing 'slot'"@),
        },
        _ => ItemRead::Failed(entry_label(n) + " must be a TOML table"@),
    }
}

/// Whether every tracked stat total of an item table fits in an `i64`.
pub open spec fn item_totals_fit(e: TomlView) -> bool {
    match e {
        TomlView::Table(t) => forall|s: Stat| #[trigger] total_fits(t, s),
        _ => true,
    }
}

/// Whether the total of stat `s` on an item table fits in an `i64`.
pub open spec fn total_fits(t: Seq<(Seq<char>, TomlView)>, s: Stat) -> bool {
    i64::MIN <= item_stat_total(t, s) && item_stat_total(t, s) <= i64::MAX
}

/// `it` is the item read from table `t`.
pub open spec fn is_item_of(it: GearItem, name: Seq<char>, slot: Slot, two_handed: bool, t: Seq<(Seq<char>, TomlView)>) -> bool {
    &&& it.name@ == name
    &&& it.slot == slot
    &&& it.two_handed == two_handed
    &&& !it.either_hand
    &&& forall|s: Stat| #[trigger] it.stats.value(s) == item_stat_total(t, s)
}

/// The outcome of reading one item entry.
pub enum ItemOutcome {
    Failed(String),
    Skipped { name: String, slot: String },
    Kept(GearItem),
}

/// `o` is the outcome `r` describes.
pub open spec fn outcome_is(o: ItemOutcome, r: ItemRead) -> bool {
    match r {
        ItemRead::Failed(m) => o matches ItemOutcome::Failed(x) && x@ == m,
        ItemRead::Skipped { name, slot } => o matches ItemOutcome::Skipped { name: a, slot: b } && a@ == name && b@ == slot,
        ItemRead::Kept { name, slot, two_handed, table } => o matches ItemOutcome::Kept(it) && is_item_of(
            it,
            name,
            slot,
            two_handed,
            table,
        ),
    }
}

fn get_entry<'a>(t: &'a Vec<(String, TomlValue)>, key: &str) -> (r: Option<&'a TomlValue>)
    ensures
        match table_get(toml_entries(t@), key@) {
            None => r is None,
            Some(v) => r matches Some(x) && toml_view(*x) == v,
        },
{
    match find_key(t, key) {
        Some(i) => {
            assert(toml_entries(t@)[i as int].1 == toml_view(t@[i as int].1));
            Some(&t[i].1)
        },
        None => None,
    }
}

proof fn lemma_scalar_views(v: TomlValue)
    ensures
        v matches TomlValue::Integer(i) ==> toml_view(v) == TomlView::Integer(i),
        toml_view(v) matches TomlView::Integer(i) ==> v == TomlValue::Integer(i),
        v matches TomlValue::Boolean(b) ==> toml_view(v) == TomlView::Boolean(b),
        toml_view(v) matches TomlView::Boolean(b) ==> v == TomlValue::Boolean(b),
        toml_view(v) matches TomlView::String(s) ==> v matches TomlValue::String(x) && x@ == s,
{
    reveal(toml_view);
}

fn int_at(t: &Vec<(String, TomlValue)>, key: &str) -> (r: i64)
    ensures
        r as int == int_or_zero(toml_entries(t@), key@),
{
    proof {
        reveal(int_or_zero);
    }
    match get_entry(t, key) {
        Some(v) => {
            proof {
                lemma_scalar_views(*v);
            }
            match v {
                TomlValue::Integer(i) => *i,
                _ => 0,
            }
        },
        None => 0,
    }
}

fn tracked_key(k: &str) -> (r: bool)
    ensures
        r == is_tracked_key(k@),
{
    let listed = tracked_stats();
    let mut j: usize = 0;
    while j < 16
        invariant
            j <= 16,
            listed@ == tracked_stats_spec(),
            forall|x: int| 0 <= x < j ==> #[trigger] stat_key_spec(tracked_stats_spec()[x]) != k@,
        decreases 16 - j,
    {
        if str_eq(stat_key(listed[j]), k) {
            return true;
        }
        j += 1;
    }
    false
}

fn find_bad_key(t: &Vec<(String, TomlValue)>, essence: bool) -> (r: Option<usize>)
    ensures
        r matches Some(i) ==> i < t@.len() && first_bad_key(toml_entries(t@), essence) == Some(i as int),
        r is None ==> first_bad_key(toml_entries(t@), essence) is None,
{
    let ghost tv = toml_entries(t@);
    let ghost ok = |k: Seq<char>| if essence { is_tracked_key(k) } else { item_key_allowed(k) };
    let mut i: usize = 0;
    while i < t.len()
        invariant
            i <= t@.len(),
            tv == toml_entries(t@),
            ok == (|k: Seq<char>| if essence { is_tracked_key(k) } else { item_key_allowed(k) }),
            forall|j: int| 0 <= j < i ==> ok(#[trigger] tv[j].0),
        decreases t@.len() - i,
    {
        let k = t[i].0.as_str();
        assert(tv[i as int].0 == k@);
        let good = if essence {
            tracked_key(k)
        } else {
            str_eq(k, "slot") || str_eq(k, "name") || str_eq(k, "EssenceTotals") || str_eq(k, "two_handed") || tracked_key(k)
        };
        if !good {
            proof {
                assert(!ok(tv[i as int].0));
                let c = choose|x: int| 0 <= x < tv.len() && !ok(tv[x].0) && forall|j: int| 0 <= j < x ==> ok(#[trigger] tv[j].0);
                if c < i {
                } else if c > i {
                    assert(ok(tv[i as int].0));
                }
            }
            return Some(i);
        }
        i += 1;
    }
    None
}

fn unknown_key_error(key: &str, where_: &str, item: &str) -> (r: String)
    ensures
        r@ == unknown_key_message(key@, where_@, item@),
{
    let mut m = "Unknown stat key `".to_owned();
    m.append(key);
    m.append("` in `");
    m.append(where_);
    m.append("` for item `");
    m.append(item);
    m.append("`.");
    m
}

fn entry_error(n: usize, what: &str) -> (r: String)
    ensures
        r@ == entry_label(n as nat) + what@,
{
    let digits = decimal_chars(n as u64);
    let mut m = "[[item]] #".to_owned();
    let d = string_from_chars(digits.as_slice());
    m.append(d.as_str());
    m.append(what);
    m
}

proof fn lemma_item_stat_total(t: Seq<(Seq<char>, TomlView)>, j: int)
    requires
        0 <= j < 16,
    ensures
        item_stat_total(t, tracked_stats_spec()[j]) == int_or_zero(t, stat_key_spec(tracked_stats_spec()[j]))
            + match essence_table(t) {
            Some(es) => int_or_zero(es, stat_key_spec(tracked_stats_spec()[j])),
            None => 0,
        },
{
    reveal(item_stat_total);
    lemma_tracked_pos(j);
}

proof fn lemma_untracked_total(t: Seq<(Seq<char>, TomlView)>, s: Stat)
    requires
        tracked_pos(s) < 0,
    ensures
        item_stat_total(t, s) == 0,
{
    reveal(item_stat_total);
}

/// The tracked stat totals of an item table.
fn item_stats(t: &Vec<(String, TomlValue)>, essence: Option<&Vec<(String, TomlValue)>>) -> (r: StatMap)
    requires
        forall|s: Stat| #[trigger] total_fits(toml_entries(t@), s),
        match essence_table(toml_entries(t@)) {
            Some(es) => essence matches Some(e) && toml_entries(e@) == es,
            None => essence is None,
        },
    ensures
        forall|s: Stat| #[trigger] r.value(s) == item_stat_total(toml_entries(t@), s),
{
    let listed = tracked_stats();
    let mut m = StatMap::new();
    let mut j: usize = 0;
    let ghost tv = toml_entries(t@);
    while j < 16
        invariant
            j <= 16,
            listed@ == tracked_stats_spec(),
            tv == toml_entries(t@),
            forall|s: Stat| #[trigger] total_fits(tv, s),
            match essence_table(tv) {
                Some(es) => essence matches Some(e) && toml_entries(e@) == es,
                None => essence is None,
            },
            forall|u: Stat| #[trigger] m.value(u) == if 0 <= tracked_pos(u) < j {
                item_stat_total(tv, u)
            } else {
                0
            },
        decreases 16 - j,
    {
        let s = listed[j];
        let own = int_at(t, stat_key(s));
        let ess = match essence {
            Some(e) => int_at(e, stat_key(s)),
            None => 0,
        };
        proof {
            lemma_item_stat_total(tv, j as int);
            lemma_tracked_pos(j as int);
            assert(item_stat_total(tv, s) == own + ess);
            assert(total_fits(tv, s));
        }
        m.set(s, own + ess);
        j += 1;
    }
    proof {
        assert forall|u: Stat| #[trigger] m.value(u) == item_stat_total(tv, u) by {
            if tracked_pos(u) < 0 {
                lemma_untracked_total(tv, u);
            }
        }
    }
    m
}

fn read_kept(t: &Vec<(String, TomlValue)>, name: &String, sl: Slot) -> (r: ItemOutcome)
    requires
        forall|s: Stat| #[trigger] total_fits(toml_entries(t@), s),
    ensures
        outcome_is(r, read_kept_spec(toml_entries(t@), name@, sl)),
{
    let two_handed = match get_entry(t, "two_handed") {
        Some(v) => {
            proof {
                lemma_scalar_views(*v);
            }
            match v {
                TomlValue::Boolean(b) => *b,
                _ => false,
            }
        },
        None => false,
    };
    let essence = match get_entry(t, "EssenceTotals") {
        Some(v) => {
            proof {
                lemma_view_shape(*v);
            }
            match v {
                TomlValue::Table(es) => {
                    proof {
                        lemma_table_view(*es);
                    }
                    if let Some(b) = find_bad_key(es, true) {
                        assert(toml_entries(es@)[b as int].0 == es@[b as int].0@);
                        return ItemOutcome::Failed(unknown_key_error(es[b].0.as_str(), "EssenceTotals", name.as_str()));
                    }
                    Some(es)
                },
                _ => {
                    let mut m = "`EssenceTotals` for item `".to_owned();
                    m.append(name.as_str());
                    m.append("` must be a TOML table");
                    return ItemOutcome::Failed(m);
                },
            }
        },
        None => None,
    };
    proof {
        reveal(essence_table);
    }
    let stats = item_stats(t, essence);
    ItemOutcome::Kept(GearItem { name: name.clone(), slot: sl, two_handed, either_hand: false, stats })
}

fn read_named(t: &Vec<(String, TomlValue)>, name: &String, slot: &String) -> (r: ItemOutcome)
    requires
        forall|s: Stat| #[trigger] total_fits(toml_entries(t@), s),
    ensures
        outcome_is(r, read_named_spec(toml_entries(t@), name@, slot@)),
{
    if let Some(b) = find_bad_key(t, false) {
        assert(toml_entries(t@)[b as int].0 == t@[b as int].0@);
        return ItemOutcome::Failed(unknown_key_error(t[b].0.as_str(), "item", name.as_str()));
    }
    match parse_slot_display(slot.as_str()) {
        Some(sl) => read_kept(t, name, sl),
        None => ItemOutcome::Skipped { name: name.clone(), slot: slot.clone() },
    }
}

/// Reads entry number `n` (1-based) of the item array.
pub fn read_item(e: &TomlValue, n: usize) -> (r: ItemOutcome)
    requires
        item_totals_fit(toml_view(*e)),
    ensures
        outcome_is(r, read_item_spec(toml_view(*e), n as nat)),
{
    proof {
        lemma_view_shape(*e);
        reveal(read_item_spec);
    }
    let t = match e {
        TomlValue::Table(t) => t,
        _ => return ItemOutcome::Failed(entry_error(n, " must be a TOML table")),
    };
    proof {
        lemma_table_view(*t);
    }
    let slot = match get_entry(t, "slot") {
        Some(TomlValue::String(s)) => s,
        other => {
            proof {
                if let Some(v) = other {
                    lemma_scalar_views(*v);
                    lemma_view_shape(*v);
                }
            }
            return ItemOutcome::Failed(entry_error(n, " missing 'slot'"));
        },
    };
    proof {
        lemma_view_shape(TomlValue::String(*slot));
    }
    let name = match get_entry(t, "name") {
        Some(TomlValue::String(s)) => s,
        other => {
            proof {
                if let Some(v) = other {
                    lemma_scalar_views(*v);
                    lemma_view_shape(*v);
                }
            }
            return ItemOutcome::Failed(entry_error(n, " missing 'name'"));
        },
    };
    proof {
        lemma_view_shape(TomlValue::String(*name));
    }
    read_named(t, name, slot)
}

/// What reading the first `n` entries of the item array gives: the items
/// kept and the items skipped for a slot other than `Unknown` (reported to
/// the user), or the first entry's error.
pub open spec fn read_items_spec(arr: Seq<TomlView>, n: int) -> Result<(Seq<ItemRead>, Seq<(Seq<char>, Seq<char>)>), Seq<char>>
    decreases n,
{
    if n <= 0 {
        Ok((Seq::empty(), Seq::empty()))
    } else {
        match read_items_spec(arr, n - 1) {
            Err(e) => Err(e),
            Ok((kept, skipped)) => match read_item_spec(arr[n - 1], n as nat) {
                ItemRead::Failed(m) => Err(m),
                ItemRead::Skipped { name, slot } => Ok(
                    (
                        kept,
                        if slot == "Unknown"@ {
                            skipped
                        } else {
                            skipped.push((name, slot))
                        },
                    ),
                ),
                r => Ok((kept.push(r), skipped)),
            },
        }
    }
}

proof fn lemma_items_err_persists(arr: Seq<TomlView>, a: int, b: int)
    requires
        0 <= a <= b,
        read_items_spec(arr, a) is Err,
    ensures
        read_items_spec(arr, b) == read_items_spec(arr, a),
    decreases b - a,
{
    if a < b {
        lemma_items_err_persists(arr, a, b - 1);
    }
}

/// Whether every item table of the document has stat totals that fit in an
/// `i64`.
pub open spec fn doc_totals_fit(root: TomlView) -> bool {
    match root_get(root, "item"@) {
        Some(TomlView::Array(arr)) => forall|i: int| 0 <= i < arr.len() ==> item_totals_fit(#[trigger] arr[i]),
        _ => true,
    }
}

/// The innate value of stat `s`: a tracked stat's integer in `[InnateStats]`.
pub open spec fn innate_value(root: TomlView, s: Stat) -> int {
    if tracked_pos(s) >= 0 {
        match root_get(root, "InnateStats"@) {
            Some(TomlView::Table(t)) => int_or_zero(t, stat_key_spec(s)),
            _ => 0,
        }
    } else {
        0
    }
}

/// The raw Base stat `s` in `[InnateStats]`: its integer there, for each of
/// the five Base stats; 0 for every other stat.
pub open spec fn innate_base_value(root: TomlView, s: Stat) -> int {
    if base_stats_spec().contains(s) {
        match root_get(root, "InnateStats"@) {
            Some(TomlView::Table(t)) => int_or_zero(t, stat_key_spec(s)),
            _ => 0,
        }
    } else {
        0
    }
}

/// The keys of the five slots of `[Virtues]`.
pub open spec fn virtue_field_keys() -> Seq<Seq<char>> {
    seq!["Virtue1"@, "Virtue2"@, "Virtue3"@, "Virtue4"@, "Virtue5"@]
}

/// The string under `key` in a table, where it is a string.
#[verifier::opaque]
pub open spec fn string_field(t: Seq<(Seq<char>, TomlView)>, key: Seq<char>) -> Option<Seq<char>> {
    match table_get(t, key) {
        Some(TomlView::String(name)) => Some(name),
        _ => None,
    }
}

/// The name selected in slot `i` of `[Virtues]`: the string under its key,
/// where there is one.
pub open spec fn virtue_slot(root: TomlView, i: int) -> Option<Seq<char>> {
    match root_get(root, "Virtues"@) {
        Some(TomlView::Table(t)) => string_field(t, virtue_field_keys()[i]),
        _ => None,
    }
}

/// The names selected in the five slots of `[Virtues]`.
pub open spec fn virtue_slots(root: TomlView) -> Seq<Option<Seq<char>>> {
    Seq::new(5, |i: int| virtue_slot(root, i))
}

/// A top-level string value.
pub open spec fn root_string(root: TomlView, key: Seq<char>) -> Option<Seq<char>> {
    match root_get(root, key) {
        Some(TomlView::String(s)) => Some(s),
        _ => None,
    }
}

/// A gear stats file as read.
#[derive(Debug)]
pub struct GearDoc {
    /// The top-level `character` string, if any.
    pub character: Option<String>,
    /// The top-level `class` string, if any.
    pub class: Option<String>,
    /// The tracked stats of `[InnateStats]`.
    pub innate_stats: StatMap,
    /// The raw Base stats of `[InnateStats]` (Might, Agility, Vitality,
    /// Will, Fate); every other stat is 0.
    pub innate_base_stats: StatMap,
    /// The names in the five slots of `[Virtues]`, as written.
    pub selected_virtues: SelectedVirtues,
    /// The items, in file order.
    pub items: Vec<GearItem>,
    /// Items skipped because their slot is not one the optimizer uses (other
    /// than `Unknown`): their names and slot strings, to warn about.
    pub skipped: Vec<(String, String)>,
}

impl GearDoc {
    /// The projected raw Base stats: the innate Base stats, with any applied
    /// virtues. Items in a gear file carry tracked stats only (an export's
    /// item Base stats are turned into tracked stats when it is resolved), so
    /// gear adds nothing here. Every other stat is 0.
    pub fn projected_base_stats(&self) -> (r: StatMap)
        ensures
            forall|s: Stat| #[trigger] r.value(s) == if base_stats_spec().contains(s) {
                self.innate_base_stats.value(s)
            } else {
                0
            },
    {
        let listed = base_stats();
        let mut m = StatMap::new();
        let mut j: usize = 0;
        while j < 5
            invariant
                j <= 5,
                listed@ == base_stats_spec(),
                forall|u: Stat| #[trigger] m.value(u) == if base_stats_spec().take(j as int).contains(u) {
                    self.innate_base_stats.value(u)
                } else {
                    0
                },
            decreases 5 - j,
        {
            let s = listed[j];
            let ghost before = m;
            m.set(s, self.innate_base_stats.get(s));
            proof {
                assert(base_stats_spec().take(j + 1) =~= base_stats_spec().take(j as int).push(s));
                assert forall|u: Stat| #[trigger] m.value(u) == if base_stats_spec().take(j + 1).contains(u) {
                    self.innate_base_stats.value(u)
                } else {
                    0
                } by {
                    if u != s {
                        assert(base_stats_spec().take(j + 1).contains(u) == base_stats_spec().take(j as int).contains(u));
                        assert(m.value(u) == before.value(u));
                    } else {
                        assert(base_stats_spec().take(j + 1)[j as int] == s);
                    }
                }
            }
            j += 1;
        }
        assert(base_stats_spec().take(5) =~= base_stats_spec());
        m
    }
}

/// The text of an optional string.
pub open spec fn opt_text(s: Option<String>) -> Option<Seq<char>> {
    match s {
        Some(x) => Some(x@),
        None => None,
    }
}

/// `it` is the item a kept entry reads as.
pub open spec fn kept_item(it: GearItem, r: ItemRead) -> bool {
    match r {
        ItemRead::Kept { name, slot, two_handed, table } => is_item_of(it, name, slot, two_handed, table),
        _ => false,
    }
}

/// `d` is the document read from `root`, whose items read as `kept` and
/// `skipped`.
pub open spec fn doc_matches(d: GearDoc, root: TomlView, kept: Seq<ItemRead>, skipped: Seq<(Seq<char>, Seq<char>)>) -> bool {
    &&& opt_text(d.character) == root_string(root, "character"@)
    &&& opt_text(d.class) == root_string(root, "class"@)
    &&& forall|s: Stat| #[trigger] d.innate_stats.value(s) == innate_value(root, s)
    &&& forall|s: Stat| #[trigger] d.innate_base_stats.value(s) == innate_base_value(root, s)
    &&& slot_views(d.selected_virtues.slots@) == virtue_slots(root)
    &&& d.items@.len() == kept.len()
    &&& forall|i: int|
        0 <= i < kept.len() ==> kept_item(d.items@[i], #[trigger] kept[i])
    &&& pairs_view(d.skipped@) == skipped
}

/// The texts of a list of string pairs.
pub open spec fn pairs_view(v: Seq<(String, String)>) -> Seq<(Seq<char>, Seq<char>)> {
    v.map_values(|p: (String, String)| (p.0@, p.1@))
}

/// What reading a parsed gear stats document gives; `path` names the file in
/// errors.
pub open spec fn gear_doc_spec(root: TomlView, path: Seq<char>) -> Result<(Seq<ItemRead>, Seq<(Seq<char>, Seq<char>)>), Seq<char>> {
    match root_get(root, "item"@) {
        Some(TomlView::Array(arr)) => read_items_spec(arr, arr.len() as int),
        _ => Err("No [[item]] entries found in "@ + path),
    }
}

fn root_entry<'a>(root: &'a TomlValue, key: &str) -> (r: Option<&'a TomlValue>)
    ensures
        match root_get(toml_view(*root), key@) {
            None => r is None,
            Some(v) => r matches Some(x) && toml_view(*x) == v,
        },
{
    proof {
        lemma_view_shape(*root);
    }
    match root {
        TomlValue::Table(t) => {
            proof {
                lemma_table_view(*t);
            }
            get_entry(t, key)
        },
        _ => None,
    }
}

fn root_str(root: &TomlValue, key: &str) -> (r: Option<String>)
    ensures
        opt_text(r) == root_string(toml_view(*root), key@),
{
    match root_entry(root, key) {
        Some(v) => {
            proof {
                lemma_view_shape(*v);
                lemma_scalar_views(*v);
            }
            match v {
                TomlValue::String(s) => Some(s.clone()),
                _ => None,
            }
        },
        None => None,
    }
}

fn innate_stats(root: &TomlValue) -> (r: StatMap)
    ensures
        forall|s: Stat| #[trigger] r.value(s) == innate_value(toml_view(*root), s),
{
    let listed = tracked_stats();
    let mut m = StatMap::new();
    let table = match root_entry(root, "InnateStats") {
        Some(v) => {
            proof {
                lemma_view_shape(*v);
            }
            match v {
                TomlValue::Table(t) => {
                    proof {
                        lemma_table_view(*t);
                    }
                    t
                },
                _ => return m,
            }
        },
        None => return m,
    };
    let mut j: usize = 0;
    while j < 16
        invariant
            j <= 16,
            listed@ == tracked_stats_spec(),
            root_get(toml_view(*root), "InnateStats"@) == Some(TomlView::Table(toml_entries(table@))),
            forall|u: Stat| #[trigger] m.value(u) == if 0 <= tracked_pos(u) < j {
                innate_value(toml_view(*root), u)
            } else {
                0
            },
        decreases 16 - j,
    {
        let s = listed[j];
        let v = int_at(table, stat_key(s));
        proof {
            lemma_tracked_pos(j as int);
        }
        m.set(s, v);
        j += 1;
    }
    m
}

fn innate_base_stats(root: &TomlValue) -> (r: StatMap)
    ensures
        forall|s: Stat| #[trigger] r.value(s) == innate_base_value(toml_view(*root), s),
{
    let listed = base_stats();
    let mut m = StatMap::new();
    let table = match root_entry(root, "InnateStats") {
        Some(v) => {
            proof {
                lemma_view_shape(*v);
            }
            match v {
                TomlValue::Table(t) => {
                    proof {
                        lemma_table_view(*t);
                    }
                    t
                },
                _ => return m,
            }
        },
        None => return m,
    };
    let mut j: usize = 0;
    while j < 5
        invariant
            j <= 5,
            listed@ == base_stats_spec(),
            root_get(toml_view(*root), "InnateStats"@) == Some(TomlView::Table(toml_entries(table@))),
            forall|u: Stat| #[trigger] m.value(u) == if base_stats_spec().take(j as int).contains(u) {
                innate_base_value(toml_view(*root), u)
            } else {
                0
            },
        decreases 5 - j,
    {
        let s = listed[j];
        let v = int_at(table, stat_key(s));
        let ghost before = m;
        m.set(s, v);
        proof {
            assert(base_stats_spec().take(j + 1) =~= base_stats_spec().take(j as int).push(s));
            assert(base_stats_spec().contains(s)) by {
                assert(base_stats_spec()[j as int] == s);
            }
            assert forall|u: Stat| #[trigger] m.value(u) == if base_stats_spec().take(j + 1).contains(u) {
                innate_base_value(toml_view(*root), u)
            } else {
                0
            } by {
                if u != s {
                    assert(base_stats_spec().take(j + 1).contains(u) == base_stats_spec().take(j as int).contains(u));
                    assert(m.value(u) == before.value(u));
                } else {
                    assert(base_stats_spec().take(j + 1)[j as int] == s);
                }
            }
        }
        j += 1;
    }
    assert(base_stats_spec().take(5) =~= base_stats_spec());
    m
}

fn virtue_field(t: &Vec<(String, TomlValue)>, key: &str) -> (r: Option<String>)
    ensures
        opt_text(r) == string_field(toml_entries(t@), key@),
{
    proof {
        reveal(string_field);
    }
    match get_entry(t, key) {
        Some(v) => {
            proof {
                lemma_view_shape(*v);
                lemma_scalar_views(*v);
            }
            match v {
                TomlValue::String(name) => Some(name.clone()),
                _ => None,
            }
        },
        None => None,
    }
}

fn virtues_of_table(t: &Vec<(String, TomlValue)>) -> (r: SelectedVirtues)
    ensures
        slot_views(r.slots@) == Seq::new(5, |i: int| string_field(toml_entries(t@), virtue_field_keys()[i])),
{
    let a = virtue_field(t, "Virtue1");
    let b = virtue_field(t, "Virtue2");
    let c = virtue_field(t, "Virtue3");
    let d = virtue_field(t, "Virtue4");
    let e = virtue_field(t, "Virtue5");
    let r = SelectedVirtues { slots: [a, b, c, d, e] };
    proof {
        let ks = virtue_field_keys();
        assert(ks[0] == "Virtue1"@ && ks[1] == "Virtue2"@ && ks[2] == "Virtue3"@ && ks[3] == "Virtue4"@ && ks[4]
            == "Virtue5"@);
        assert(r.slots@ == seq![a, b, c, d, e]);
    }
    assert(slot_views(r.slots@) =~= Seq::new(5, |i: int| string_field(toml_entries(t@), virtue_field_keys()[i])));
    r
}

fn selected_virtues(root: &TomlValue) -> (r: SelectedVirtues)
    ensures
        slot_views(r.slots@) == virtue_slots(toml_view(*root)),
{
    let none = SelectedVirtues { slots: [None, None, None, None, None] };
    assert(slot_views(none.slots@) =~= Seq::new(5, |i: int| None::<Seq<char>>));
    match root_entry(root, "Virtues") {
        Some(v) => {
            proof {
                lemma_view_shape(*v);
            }
            match v {
                TomlValue::Table(t) => {
                    proof {
                        lemma_table_view(*t);
                    }
                    let r = virtues_of_table(t);
                    assert(slot_views(r.slots@) =~= virtue_slots(toml_view(*root)));
                    r
                },
                _ => {
                    assert(slot_views(none.slots@) =~= virtue_slots(toml_view(*root)));
                    none
                },
            }
        },
        None => {
            assert(slot_views(none.slots@) =~= virtue_slots(toml_view(*root)));
            none
        },
    }
}

/// Reads the items and metadata of a parsed gear stats document. Every item
/// table's stat totals (own value plus essence total) must fit in an `i64`.
#[verifier::rlimit(40)]
pub fn read_gear_doc(root: &TomlValue, path: &str) -> (r: Result<GearDoc, String>)
    requires
        doc_totals_fit(toml_view(*root)),
    ensures
        match gear_doc_spec(toml_view(*root), path@) {
            Err(m) => r matches Err(x) && x@ == m,
            Ok((kept, skipped)) => r matches Ok(d) && doc_matches(d, toml_view(*root), kept, skipped),
        },
{
    let arr = match root_entry(root, "item") {
        Some(v) => {
            proof {
                lemma_view_shape(*v);
            }
            match v {
                TomlValue::Array(a) => {
                    proof {
                        lemma_array_view(*a);
                    }
                    a
                },
                _ => return Err(crate::text::concat2("No [[item]] entries found in ", path)),
            }
        },
        None => return Err(crate::text::concat2("No [[item]] entries found in ", path)),
    };
    let ghost av = toml_items(arr@);
    let mut items: Vec<GearItem> = Vec::new();
    let mut skipped: Vec<(String, String)> = Vec::new();
    let ghost mut kept: Seq<ItemRead> = Seq::empty();
    let ghost mut sk: Seq<(Seq<char>, Seq<char>)> = Seq::empty();
    assert(pairs_view(skipped@) =~= sk);
    let mut i: usize = 0;
    while i < arr.len()
        invariant
            i <= arr@.len(),
            av == toml_items(arr@),
            root_get(toml_view(*root), "item"@) == Some(TomlView::Array(av)),
            forall|x: int| 0 <= x < av.len() ==> item_totals_fit(#[trigger] av[x]),
            read_items_spec(av, i as int) == Ok::<(Seq<ItemRead>, Seq<(Seq<char>, Seq<char>)>), Seq<char>>((kept, sk)),
            items@.len() == kept.len(),
            forall|x: int|
                0 <= x < kept.len() ==> kept_item(items@[x], #[trigger] kept[x]),
            pairs_view(skipped@) == sk,
        decreases arr@.len() - i,
    {
        assert(av[i as int] == toml_view(arr@[i as int]));
        let ghost rd = read_item_spec(av[i as int], (i + 1) as nat);
        match read_item(&arr[i], i + 1) {
            ItemOutcome::Failed(m) => {
                proof {
                    lemma_items_err_persists(av, i + 1, av.len() as int);
                }
                return Err(m);
            },
            ItemOutcome::Skipped { name, slot } => {
                assert(rd is Skipped);
                assert(name@ == rd->Skipped_name && slot@ == rd->Skipped_slot);
                if !str_eq(slot.as_str(), "Unknown") {
                    let ghost before = skipped@;
                    let ghost sk0 = sk;
                    skipped.push((name, slot));
                    proof {
                        sk = sk.push((rd->Skipped_name, rd->Skipped_slot));
                        assert(pairs_view(skipped@) =~= pairs_view(before).push((rd->Skipped_name, rd->Skipped_slot)));
                    }
                }
            },
            ItemOutcome::Kept(it) => {
                items.push(it);
                proof {
                    kept = kept.push(rd);
                }
            },
        }
        i += 1;
    }
    let character = root_str(root, "character");
    let class = root_str(root, "class");
    let innate = innate_stats(root);
    let innate_base = innate_base_stats(root);
    let virtues = selected_virtues(root);
    Ok(GearDoc { character, class, innate_stats: innate, innate_base_stats: innate_base, selected_virtues: virtues, items, skipped })
}

proof fn lemma_fit_elim(t: Seq<(Seq<char>, TomlView)>, s: Stat)
    requires
        item_totals_fit(TomlView::Table(t)),
    ensures
        total_fits(t, s),
{
    let v = TomlView::Table(t);
    assert(v->Table_0 == t);
    assert(forall|u: Stat| #[trigger] total_fits(v->Table_0, u));
    assert(total_fits(v->Table_0, s));
}

proof fn lemma_doc_fit_elim(root: TomlView, av: Seq<TomlView>, i: int)
    requires
        root_get(root, "item"@) == Some(TomlView::Array(av)),
        doc_totals_fit(root),
        0 <= i < av.len(),
    ensures
        item_totals_fit(av[i]),
{
    let g = root_get(root, "item"@);
    assert(g->Some_0 == TomlView::Array(av));
    assert(g->Some_0->Array_0 == av);
    assert(forall|x: int| 0 <= x < av.len() ==> item_totals_fit(#[trigger] g->Some_0->Array_0[x]));
}

fn item_fits(e: &TomlValue) -> (r: bool)
    ensures
        r == item_totals_fit(toml_view(*e)),
{
    proof {
        lemma_view_shape(*e);
    }
    let t = match e {
        TomlValue::Table(t) => t,
        _ => return true,
    };
    proof {
        lemma_table_view(*t);
        reveal(essence_table);
    }
    let ghost tv = toml_entries(t@);
    let essence = match get_entry(t, "EssenceTotals") {
        Some(v) => {
            proof {
                lemma_view_shape(*v);
            }
            match v {
                TomlValue::Table(es) => {
                    proof {
                        lemma_table_view(*es);
                    }
                    Some(es)
                },
                _ => None,
            }
        },
        None => None,
    };
    assert(match essence_table(tv) {
        Some(es) => essence matches Some(x) && toml_entries(x@) == es,
        None => essence is None,
    });
    let listed = tracked_stats();
    let mut j: usize = 0;
    while j < 16
        invariant
            j <= 16,
            listed@ == tracked_stats_spec(),
            tv == toml_entries(t@),
            toml_view(*e) == TomlView::Table(tv),
            match essence_table(tv) {
                Some(es) => essence matches Some(x) && toml_entries(x@) == es,
                None => essence is None,
            },
            forall|u: Stat| 0 <= tracked_pos(u) < j ==> #[trigger] total_fits(tv, u),
        decreases 16 - j,
    {
        let s = listed[j];
        let own = int_at(t, stat_key(s));
        let ess = match essence {
            Some(x) => int_at(x, stat_key(s)),
            None => 0,
        };
        proof {
            lemma_item_stat_total(tv, j as int);
            lemma_tracked_pos(j as int);
        }
        let total: i128 = own as i128 + ess as i128;
        if total < -9223372036854775808 || total > 9223372036854775807 {
            assert(!total_fits(tv, s));
            proof {
                if item_totals_fit(TomlView::Table(tv)) {
                    lemma_fit_elim(tv, s);
                }
            }
            assert(!item_totals_fit(toml_view(*e)));
            return false;
        }
        j += 1;
    }
    proof {
        assert forall|u: Stat| #[trigger] total_fits(tv, u) by {
            if tracked_pos(u) < 0 {
                lemma_untracked_total(tv, u);
            }
        }
    }
    true
}

fn doc_fits(root: &TomlValue) -> (r: bool)
    ensures
        r == doc_totals_fit(toml_view(*root)),
{
    match root_entry(root, "item") {
        Some(v) => {
            proof {
                lemma_view_shape(*v);
            }
            match v {
                TomlValue::Array(a) => {
                    proof {
                        lemma_array_view(*a);
                    }
                    let ghost av = toml_items(a@);
                    let mut i: usize = 0;
                    while i < a.len()
                        invariant
                            i <= a@.len(),
                            av == toml_items(a@),
                            root_get(toml_view(*root), "item"@) == Some(TomlView::Array(av)),
                            forall|x: int| 0 <= x < i ==> item_totals_fit(#[trigger] av[x]),
                        decreases a@.len() - i,
                    {
                        assert(av[i as int] == toml_view(a@[i as int]));
                        if !item_fits(&a[i]) {
                            assert(!item_totals_fit(av[i as int]));
                            proof {
                                if doc_totals_fit(toml_view(*root)) {
                                    lemma_doc_fit_elim(toml_view(*root), av, i as int);
                                }
                            }
                            assert(!doc_totals_fit(toml_view(*root)));
                            return false;
                        }
                        i += 1;
                    }
                    true
                },
                _ => true,
            }
        },
        None => true,
    }
}

/// The error for a document whose item stat totals do not fit in an `i64`.
pub open spec fn totals_out_of_range_message(path: Seq<char>) -> Seq<char> {
    "Stat totals out of range in "@ + path
}

/// What reading a gear stats file's text gives; `path` names the file in
/// errors.
pub open spec fn stats_file_spec(src: Seq<char>, path: Seq<char>) -> Result<(TomlView, Seq<ItemRead>, Seq<(Seq<char>, Seq<char>)>), Seq<char>> {
    match toml_parsed(src) {
        Err(e) => Err("Malformed TOML in "@ + path + ": "@ + e),
        Ok(root) => if !doc_totals_fit(root) {
            Err(totals_out_of_range_message(path))
        } else {
            match gear_doc_spec(root, path) {
                Err(m) => Err(m),
                Ok((kept, skipped)) => Ok((root, kept, skipped)),
            }
        },
    }
}

/// Reads a gear stats file's text: top-level metadata and the items, only
/// the tracked stats of each (own value plus essence total). Items with a
/// slot the optimizer does not use are skipped, and listed unless their slot
/// is `Unknown`. A file whose stat totals do not fit in an `i64` is refused.
pub fn read_stats_str(src: &str, path: &str) -> (r: Result<GearDoc, String>)
    ensures
        match stats_file_spec(src@, path@) {
            Err(m) => r matches Err(x) && x@ == m,
            Ok((root, kept, skipped)) => r matches Ok(d) && doc_matches(d, root, kept, skipped),
        },
{
    let root = match parse_toml(src) {
        Ok(v) => v,
        Err(e) => {
            let mut m = crate::text::concat3("Malformed TOML in ", path, ": ");
            m.append(e.as_str());
            return Err(m);
        },
    };
    if !doc_fits(&root) {
        return Err(crate::text::concat2("Stat totals out of range in ", path));
    }
    read_gear_doc(&root, path)
}

// ── Item fields for slot resolution ──────────────────────────────────────────

/// The string under `key` in a table.
pub open spec fn table_string(t: Seq<(Seq<char>, TomlView)>, key: Seq<char>) -> Option<Seq<char>> {
    match table_get(t, key) {
        Some(TomlView::String(s)) => Some(s),
        _ => None,
    }
}

/// The value a table gives tracked stat `s`: the integer under its key, or 0
/// when absent or not an integer; 0 for a stat that is not tracked.
pub open spec fn tracked_value(t: Seq<(Seq<char>, TomlView)>, s: Stat) -> int {
    if tracked_pos(s) >= 0 {
        int_or_zero(t, stat_key_spec(s))
    } else {
        0
    }
}

/// Whether `f` holds what resolving and merging read from the item table `t`.
#[verifier::opaque]
pub open spec fn fields_of(f: ItemFields, t: Seq<(Seq<char>, TomlView)>) -> bool {
    &&& crate::slot_resolver::opt_text(f.name) == table_string(t, "name"@)
    &&& crate::slot_resolver::opt_text(f.slot) == table_string(t, "slot"@)
    &&& forall|s: Stat| #[trigger] f.stats.value(s) == tracked_value(t, s)
    &&& forall|s: Stat| #[trigger] f.essence.value(s) == match essence_table(t) {
        Some(es) => tracked_value(es, s),
        None => 0,
    }
}

fn table_str(t: &Vec<(String, TomlValue)>, key: &str) -> (r: Option<String>)
    ensures
        crate::slot_resolver::opt_text(r) == table_string(toml_entries(t@), key@),
{
    match get_entry(t, key) {
        Some(v) => {
            proof {
                lemma_view_shape(*v);
                lemma_scalar_views(*v);
            }
            match v {
                TomlValue::String(x) => Some(x.clone()),
                _ => None,
            }
        },
        None => None,
    }
}

fn tracked_values(t: &Vec<(String, TomlValue)>) -> (r: StatMap)
    ensures
        forall|s: Stat| #[trigger] r.value(s) == tracked_value(toml_entries(t@), s),
{
    let listed = tracked_stats();
    let mut m = StatMap::new();
    let mut j: usize = 0;
    let ghost tv = toml_entries(t@);
    while j < 16
        invariant
            j <= 16,
            listed@ == tracked_stats_spec(),
            tv == toml_entries(t@),
            forall|u: Stat| #[trigger] m.value(u) == if 0 <= tracked_pos(u) < j {
                tracked_value(tv, u)
            } else {
                0
            },
        decreases 16 - j,
    {
        let s = listed[j];
        let v = int_at(t, stat_key(s));
        proof {
            lemma_tracked_pos(j as int);
        }
        m.set(s, v);
        j += 1;
    }
    m
}

/// The fields resolving and merging read from an `[[item]]` table.
pub fn item_fields(t: &Vec<(String, TomlValue)>) -> (r: ItemFields)
    ensures
        fields_of(r, toml_entries(t@)),
{
    let name = table_str(t, "name");
    let slot = table_str(t, "slot");
    let stats = tracked_values(t);
    let essence = match get_entry(t, "EssenceTotals") {
        Some(v) => {
            proof {
                lemma_view_shape(*v);
            }
            match v {
                TomlValue::Table(es) => {
                    proof {
                        lemma_table_view(*es);
                    }
                    tracked_values(es)
                },
                _ => StatMap::new(),
            }
        },
        None => StatMap::new(),
    };
    proof {
        reveal(essence_table);
        reveal(fields_of);
    }
    ItemFields { name, slot, stats, essence }
}

/// The `item` entries of a document when they are all tables.
pub open spec fn item_tables(root: TomlView) -> Option<Seq<TomlView>> {
    match root_get(root, "item"@) {
        Some(TomlView::Array(a)) => if forall|i: int| 0 <= i < a.len() ==> #[trigger] a[i] is Table {
            Some(a)
        } else {
            None
        },
        _ => None,
    }
}

/// The fields of each `[[item]]` table of a document, in order; `None` when
/// the document has no `item` array of tables.
pub fn export_items(root: &TomlValue) -> (r: Option<Vec<ItemFields>>)
    ensures
        match item_tables(toml_view(*root)) {
            None => r is None,
            Some(a) => r matches Some(v) && v@.len() == a.len() && forall|i: int|
                0 <= i < a.len() ==> fields_of(#[trigger] v@[i], a[i]->Table_0),
        },
{
    let arr = match root_entry(root, "item") {
        Some(v) => {
            proof {
                lemma_view_shape(*v);
            }
            match v {
                TomlValue::Array(a) => a,
                _ => {
                    return None;
                },
            }
        },
        None => {
            return None;
        },
    };
    proof {
        lemma_array_view(*arr);
    }
    let ghost av = toml_items(arr@);
    let mut out: Vec<ItemFields> = Vec::new();
    let mut i: usize = 0;
    while i < arr.len()
        invariant
            i <= arr@.len(),
            av == toml_items(arr@),
            root_get(toml_view(*root), "item"@) == Some(TomlView::Array(av)),
            forall|k: int| 0 <= k < i ==> #[trigger] av[k] is Table,
            out@.len() == i,
            forall|k: int| 0 <= k < i ==> fields_of(#[trigger] out@[k], av[k]->Table_0),
        decreases arr@.len() - i,
    {
        proof {
            lemma_view_shape(arr@[i as int]);
        }
        match &arr[i] {
            TomlValue::Table(t) => {
                proof {
                    lemma_table_view(*t);
                }
                let f = item_fields(t);
                out.push(f);
            },
            _ => {
                assert(!(av[i as int] is Table));
                return None;
            },
        }
        i += 1;
    }
    Some(out)
}

// ── Finding a character's files ──────────────────────────────────────────────

/// Whether the file name `name` is `<prefix><character><suffix>`, compared
/// without regard to ASCII case.
pub open spec fn is_char_file(name: Seq<char>, prefix: Seq<char>, character: Seq<char>, suffix: Seq<char>) -> bool {
    let n = ascii_lower(name);
    let p = ascii_lower(prefix);
    let x = ascii_lower(suffix);
    &&& p.len() + x.len() <= n.len()
    &&& n.subrange(0, p.len() as int) == p
    &&& n.subrange(n.len() - x.len(), n.len() as int) == x
    &&& n.subrange(p.len() as int, n.len() - x.len()) == ascii_lower(character)
}

/// The names among `names` that are `<prefix><character><suffix>`, in order.
pub open spec fn char_file_matches(names: Seq<Seq<char>>, prefix: Seq<char>, character: Seq<char>, suffix: Seq<char>) -> Seq<
    Seq<char>,
>
    decreases names.len(),
{
    if names.len() == 0 {
        Seq::empty()
    } else {
        let rest = char_file_matches(names.drop_last(), prefix, character, suffix);
        if is_char_file(names.last(), prefix, character, suffix) {
            rest.push(names.last())
        } else {
            rest
        }
    }
}

/// The error when several files name the same character: the names, sorted
/// and joined with `, `.
pub open spec fn ambiguous_files_message(sorted: Seq<Seq<char>>) -> Seq<char> {
    "ambiguous character-name files found: "@ + join_spec(sorted, ", "@) + " — please delete one"@
}

/// Whether `name` is `<prefix><character><suffix>` without regard to ASCII
/// case.
fn char_file_named(name: &str, prefix: &str, character: &str, suffix: &str) -> (r: bool)
    ensures
        r == is_char_file(name@, prefix@, character@, suffix@),
{
    let n = to_ascii_lowercase(name);
    let p = to_ascii_lowercase(prefix);
    let x = to_ascii_lowercase(suffix);
    let c = to_ascii_lowercase(character);
    if !starts_with(n.as_str(), p.as_str()) || !ends_with(n.as_str(), x.as_str()) {
        return false;
    }
    let nl = n.unicode_len();
    let pl = p.unicode_len();
    let xl = x.unicode_len();
    if pl > nl - xl {
        return false;
    }
    let mid = substring(n.as_str(), pl, nl - xl);
    str_eq(mid.as_str(), c.as_str())
}

/// The one directory entry named `<prefix><character><suffix>` (compared
/// without regard to ASCII case), `None` when there is none, and an error
/// naming them all when there are several.
pub fn select_char_file(names: &[String], prefix: &str, character: &str, suffix: &str) -> (r: Result<Option<String>, String>)
    ensures
        ({
            let m = char_file_matches(string_views(names@), prefix@, character@, suffix@);
            if m.len() == 0 {
                r == Ok::<Option<String>, String>(None)
            } else if m.len() == 1 {
                r matches Ok(Some(x)) && x@ == m[0]
            } else {
                r matches Err(e) && e@ == ambiguous_files_message(isort(m, str_gt()))
            }
        }),
{
    let mut found: Vec<String> = Vec::new();
    let mut i: usize = 0;
    while i < names.len()
        invariant
            i <= names@.len(),
            string_views(found@) == char_file_matches(string_views(names@.subrange(0, i as int)), prefix@, character@, suffix@),
        decreases names@.len() - i,
    {
        let ghost before = string_views(names@.subrange(0, i as int));
        let hit = char_file_named(names[i].as_str(), prefix, character, suffix);
        if hit {
            found.push(names[i].clone());
        }
        i += 1;
        proof {
            let now = string_views(names@.subrange(0, i as int));
            assert(now.drop_last() =~= before);
            assert(now.last() == names@[i - 1]@);
            assert(string_views(found@) =~= char_file_matches(now, prefix@, character@, suffix@));
        }
    }
    assert(names@.subrange(0, names@.len() as int) =~= names@);
    if found.len() == 0 {
        Ok(None)
    } else if found.len() == 1 {
        assert(string_views(found@)[0] == found@[0]@);
        Ok(Some(found[0].clone()))
    } else {
        let sorted = sort_strings(found.as_slice());
        let joined = join_strings(&sorted, ", ");
        let mut e = "ambiguous character-name files found: ".to_owned();
        e.append(joined.as_str());
        e.append(" — please delete one");
        Err(e)
    }
}

/// The canonical gear file `lgo_<character>_gearReady.toml` among a
/// directory's entries, the character matched without regard to ASCII case.
pub fn find_canonical_gear_file(names: &[String], character: &str) -> (r: Result<Option<String>, String>)
    ensures
        ({
            let m = char_file_matches(string_views(names@), "lgo_"@, character@, "_gearReady.toml"@);
            if m.len() == 0 {
                r == Ok::<Option<String>, String>(None)
            } else if m.len() == 1 {
                r matches Ok(Some(x)) && x@ == m[0]
            } else {
                r matches Err(e) && e@ == ambiguous_files_message(isort(m, str_gt()))
            }
        }),
{
    select_char_file(names, "lgo_", character, "_gearReady.toml")
}

/// The bookmarklet output `lgo_<character>_gearStats.toml` among a
/// directory's entries, matched without regard to ASCII case.
pub fn find_bookmarklet_output(names: &[String], character: &str) -> (r: Result<Option<String>, String>)
    ensures
        ({
            let m = char_file_matches(string_views(names@), "lgo_"@, character@, "_gearStats.toml"@);
            if m.len() == 0 {
                r == Ok::<Option<String>, String>(None)
            } else if m.len() == 1 {
                r matches Ok(Some(x)) && x@ == m[0]
            } else {
                r matches Err(e) && e@ == ambiguous_files_message(isort(m, str_gt()))
            }
        }),
{
    select_char_file(names, "lgo_", character, "_gearStats.toml")
}

} // verus!
