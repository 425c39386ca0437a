//! Virtue selections and the fixed stats each virtue grants.
//!
//! The virtue data file maps a virtue's name to the stats it grants, keyed by
//! canonical stats-file keys. Names are matched without regard to case, so
//! two names that differ only by case cannot both appear. Reading and
//! decoding the JSON file is left to the caller, which hands over each
//! virtue's name and fields as plain values.
use vstd::prelude::*;

use crate::stat::{
    in_i64_range, base_stats, base_stats_spec, pairs_value, stat_key, stat_key_spec, tracked_stats, tracked_stats_spec, Stat, StatMap,
};
use crate::text::{str_eq, to_lowercase, trim, trim_spec, unicode_lowercase};

verus! {

broadcast use vstd::array::group_array_axioms;

/// The virtue data file, relative to the install directory.
pub const DEFAULT_VIRTUES_PATH: &'static str = "data/lgo_virtues.json";

/// The table of a gear file that lists the selected virtues.
pub const VIRTUE_TABLE_KEY: &'static str = "Virtues";

/// The five virtue slots a character can fill.
#[derive(Debug, Clone, PartialEq, Eq, Default)]
pub struct SelectedVirtues {
    pub slots: [Option<String>; 5],
}

/// The character views of the selected names, slot by slot.
pub open spec fn slot_views(slots: Seq<Option<String>>) -> Seq<Option<Seq<char>>> {
    slots.map_values(|o: Option<String>| match o {
        Some(s) => Some(s@),
        None => None,
    })
}

impl SelectedVirtues {
    /// Whether no slot holds a name.
    pub fn is_empty(&self) -> (r: bool)
        ensures
            r == (forall|i: int| 0 <= i < 5 ==> #[trigger] self.slots@[i] is None),
    {
        let mut i: usize = 0;
        while i < 5
            invariant
                i <= 5,
                self.slots@.len() == 5,
                forall|j: int| 0 <= j < i ==> #[trigger] self.slots@[j] is None,
            decreases 5 - i,
        {
            if self.slots[i].is_some() {
                return false;
            }
            i += 1;
        }
        true
    }
}

/// The stats one virtue grants: optimizer-facing stats and raw base stats
/// (Might, Agility, Vitality, Will, Fate). Stats it does not grant are 0.
#[derive(Debug, Clone, Copy)]
pub struct VirtueStats {
    pub tracked_stats: StatMap,
    pub base_stats: StatMap,
}

/// A resolved selection: each filled slot under the virtue's canonical name,
/// and the summed stats of the selected virtues.
#[derive(Debug, Clone)]
pub struct ResolvedVirtues {
    pub slots: [Option<String>; 5],
    pub tracked_stats: StatMap,
    pub base_stats: StatMap,
}

/// Why the virtue data could not be loaded, or a selection not resolved.
#[derive(Debug, Clone, PartialEq, Eq)]
pub enum VirtuesError {
    /// The data file could not be read.
    Io { path: String, message: String },
    /// The data file is not JSON.
    ParseJson { path: String, message: String },
    /// The top level of the data is not an object.
    TopLevelNotObject,
    /// A virtue's value is not an object.
    VirtueNotObject { virtue_name: String },
    /// A stat value is not an integer.
    StatValueNotInteger { virtue_name: String, stat_name: String },
    /// A stat key names no canonical stat.
    UnknownStat { virtue_name: String, stat_name: String },
    /// Two virtue names differ only by case.
    DuplicateVirtueName { first: String, second: String },
    /// A selected name matches no virtue.
    UnknownSelectedVirtue { entered_name: String },
    /// The same virtue is selected twice.
    DuplicateSelectedVirtue { virtue_name: String },
}

/// The text of a virtue error.
pub open spec fn virtues_error_text(e: VirtuesError) -> Seq<char> {
    match e {
        VirtuesError::Io { path, message } => "Cannot read virtue data '"@ + path@ + "': "@ + message@,
        VirtuesError::ParseJson { path, message } => "Cannot parse virtue data '"@ + path@ + "': "@ + message@,
        VirtuesError::TopLevelNotObject => "virtue data top level must be an object"@,
        VirtuesError::VirtueNotObject { virtue_name } => "virtue data for Virtue '"@ + virtue_name@
            + "' must be an object"@,
        VirtuesError::StatValueNotInteger { virtue_name, stat_name } => "virtue data stat '"@ + virtue_name@ + "."@
            + stat_name@ + "' must be an integer"@,
        VirtuesError::UnknownStat { virtue_name, stat_name } => "virtue data for Virtue '"@ + virtue_name@
            + "' contains unknown stat '"@ + stat_name@ + "'"@,
        VirtuesError::DuplicateVirtueName { first, second } =>
            "virtue data contains duplicate Virtue names differing only by case: '"@ + first@ + "' and '"@
                + second@ + "'"@,
        VirtuesError::UnknownSelectedVirtue { entered_name } => "Unknown Virtue '"@ + entered_name@
            + "'; check the spelling in "@ + DEFAULT_VIRTUES_PATH@ + "."@,
        VirtuesError::DuplicateSelectedVirtue { virtue_name } => "Duplicate Virtue '"@ + virtue_name@
            + "'; a character cannot select the same Virtue twice."@,
    }
}

impl VirtuesError {
    /// The error's text.
    pub fn message(&self) -> (r: String)
        ensures
            r@ == virtues_error_text(*self),
    {
        match self {
            VirtuesError::Io { path, message } => {
                let mut r = "Cannot read virtue data '".to_owned();
                r.append(path.as_str());
                r.append("': ");
                r.append(message.as_str());
                r
            },
            VirtuesError::ParseJson { path, message } => {
                let mut r = "Cannot parse virtue data '".to_owned();
                r.append(path.as_str());
                r.append("': ");
                r.append(message.as_str());
                r
            },
            VirtuesError::TopLevelNotObject => "virtue data top level must be an object".to_owned(),
            VirtuesError::VirtueNotObject { virtue_name } => {
                let mut r = "virtue data for Virtue '".to_owned();
                r.append(virtue_name.as_str());
                r.append("' must be an object");
                r
            },
            VirtuesError::StatValueNotInteger { virtue_name, stat_name } => {
                let mut r = "virtue data stat '".to_owned();
                r.append(virtue_name.as_str());
                r.append(".");
                r.append(stat_name.as_str());
                r.append("' must be an integer");
                r
            },
            VirtuesError::UnknownStat { virtue_name, stat_name } => {
                let mut r = "virtue data for Virtue '".to_owned();
                r.append(virtue_name.as_str());
                r.append("' contains unknown stat '");
                r.append(stat_name.as_str());
                r.append("'");
                r
            },
            VirtuesError::DuplicateVirtueName { first, second } => {
                let mut r = "virtue data contains duplicate Virtue names differing only by case: '".to_owned();
                r.append(first.as_str());
                r.append("' and '");
                r.append(second.as_str());
                r.append("'");
                r
            },
            VirtuesError::UnknownSelectedVirtue { entered_name } => {
                let mut r = "Unknown Virtue '".to_owned();
                r.append(entered_name.as_str());
                r.append("'; check the spelling in ");
                r.append(DEFAULT_VIRTUES_PATH);
                r.append(".");
                r
            },
            VirtuesError::DuplicateSelectedVirtue { virtue_name } => {
                let mut r = "Duplicate Virtue '".to_owned();
                r.append(virtue_name.as_str());
                r.append("'; a character cannot select the same Virtue twice.");
                r
            },
        }
    }
}

// ── Stat keys ────────────────────────────────────────────────────────────────

/// The first stat of `stats` whose canonical key is `key`.
pub open spec fn first_keyed(stats: Seq<Stat>, key: Seq<char>) -> Option<Stat>
    decreases stats.len(),
{
    if stats.len() == 0 {
        None
    } else if stat_key_spec(stats[0]) == key {
        Some(stats[0])
    } else {
        first_keyed(stats.drop_first(), key)
    }
}

/// The stat a canonical key names: a tracked stat's key, else a base stat's.
pub open spec fn canonical_stat_named(key: Seq<char>) -> Option<Stat> {
    first_keyed(tracked_stats_spec() + base_stats_spec(), key)
}

/// The first stat of `stats` whose canonical key is `key`.
fn first_keyed_in(stats: &Vec<Stat>, key: &str) -> (r: Option<Stat>)
    ensures
        r == first_keyed(stats@, key@),
{
    let n = stats.len();
    let mut i: usize = 0;
    assert(stats@.subrange(0, n as int) =~= stats@);
    while i < n
        invariant
            n == stats@.len(),
            i <= n,
            first_keyed(stats@, key@) == first_keyed(stats@.subrange(i as int, n as int), key@),
        decreases n - i,
    {
        let ghost rest = stats@.subrange(i as int, n as int);
        assert(rest.drop_first() =~= stats@.subrange(i + 1, n as int));
        assert(rest[0] == stats@[i as int]);
        if str_eq(stat_key(stats[i]), key) {
            return Some(stats[i]);
        }
        i += 1;
    }
    None
}

/// The stat a canonical stats-file key names, if any.
fn canonical_stat_key(key: &str) -> (r: Option<Stat>)
    ensures
        r == canonical_stat_named(key@),
{
    let mut all = tracked_stats();
    let mut more = base_stats();
    all.append(&mut more);
    assert(all@ =~= tracked_stats_spec() + base_stats_spec());
    first_keyed_in(&all, key)
}

// ── Loading ──────────────────────────────────────────────────────────────────

/// One virtue as read from the data file: its name and its fields, or `None`
/// when its value is not an object. A field's value is `None` when it is not
/// an integer.
#[derive(Debug, Clone)]
pub struct RawVirtue {
    pub name: String,
    pub fields: Option<Vec<(String, Option<i64>)>>,
}

/// The plain form of a virtue as read: its name and, where it is an object,
/// its entries with their integer values.
pub open spec fn raw_view(rv: RawVirtue) -> (Seq<char>, Option<Seq<(Seq<char>, Option<i64>)>>) {
    (rv.name@, match rv.fields {
        Some(f) => Some(f@.map_values(|e: (String, Option<i64>)| (e.0@, e.1))),
        None => None,
    })
}

/// The plain forms of virtues as read.
pub open spec fn raw_views(raw: Seq<RawVirtue>) -> Seq<(Seq<char>, Option<Seq<(Seq<char>, Option<i64>)>>)> {
    raw.map_values(|rv: RawVirtue| raw_view(rv))
}

/// The integer a JSON value holds, as `serde_json::Value::as_i64` reads it.
pub open spec fn json_int(v: crate::json::JsonView) -> Option<i64> {
    match v {
        crate::json::JsonView::Number(n) => n,
        _ => None,
    }
}

/// The virtues a JSON object holds, as read: each entry's name and, where its
/// value is an object, that object's entries with their integer values.
pub open spec fn json_virtues(root: Seq<(Seq<char>, crate::json::JsonView)>) -> Seq<(Seq<char>, Option<Seq<(Seq<char>, Option<i64>)>>)> {
    root.map_values(|e: (Seq<char>, crate::json::JsonView)| (e.0, match e.1 {
        crate::json::JsonView::Object(o) => Some(o.map_values(|f: (Seq<char>, crate::json::JsonView)| (f.0, json_int(f.1)))),
        _ => None,
    }))
}

fn json_int_exec(v: &crate::json::JsonValue) -> (r: Option<i64>)
    ensures
        r == json_int(crate::json::json_view(*v)),
{
    match v {
        crate::json::JsonValue::Number(n) => *n,
        _ => None,
    }
}

fn raw_fields(o: &Vec<(String, crate::json::JsonValue)>) -> (r: Vec<(String, Option<i64>)>)
    ensures
        r@.map_values(|e: (String, Option<i64>)| (e.0@, e.1)) == Seq::new(
            o@.len(),
            |i: int| (o@[i].0@, json_int(crate::json::json_view(o@[i].1))),
        ),
{
    let mut r: Vec<(String, Option<i64>)> = Vec::new();
    let mut i: usize = 0;
    while i < o.len()
        invariant
            i <= o@.len(),
            r@.map_values(|e: (String, Option<i64>)| (e.0@, e.1)) == Seq::new(
                i as nat,
                |k: int| (o@[k].0@, json_int(crate::json::json_view(o@[k].1))),
            ),
        decreases o@.len() - i,
    {
        let ghost before = r@;
        let key = o[i].0.clone();
        let val = json_int_exec(&o[i].1);
        assert(key@ == o@[i as int].0@);
        r.push((key, val));
        assert(r@ =~= before.push((key, val)));
        assert(r@.map_values(|e: (String, Option<i64>)| (e.0@, e.1)) =~= before.map_values(|e: (String, Option<i64>)| (e.0@, e.1)).push((key@, val)));
        i += 1;
        assert(r@.map_values(|e: (String, Option<i64>)| (e.0@, e.1)) =~= Seq::new(
            i as nat,
            |k: int| (o@[k].0@, json_int(crate::json::json_view(o@[k].1))),
        ));
    }
    r
}

fn raw_virtues(root: &Vec<(String, crate::json::JsonValue)>) -> (r: Vec<RawVirtue>)
    ensures
        raw_views(r@) == json_virtues(crate::json::json_view(crate::json::JsonValue::Object(*root))->Object_0),
{
    let ghost jr = crate::json::json_view(crate::json::JsonValue::Object(*root))->Object_0;
    assert(jr.len() == root@.len());
    let mut r: Vec<RawVirtue> = Vec::new();
    let mut i: usize = 0;
    while i < root.len()
        invariant
            i <= root@.len(),
            jr == crate::json::json_view(crate::json::JsonValue::Object(*root))->Object_0,
            jr.len() == root@.len(),
            raw_views(r@) == json_virtues(jr).take(i as int),
        decreases root@.len() - i,
    {
        assert(jr[i as int] == (root@[i as int].0@, crate::json::json_view(root@[i as int].1)));
        let fields = match &root[i].1 {
            crate::json::JsonValue::Object(o) => {
                let f = raw_fields(o);
                proof {
                    let ov = crate::json::json_view(root@[i as int].1)->Object_0;
                    assert(ov.map_values(|g: (Seq<char>, crate::json::JsonView)| (g.0, json_int(g.1))) =~= Seq::new(
                        o@.len(),
                        |k: int| (o@[k].0@, json_int(crate::json::json_view(o@[k].1))),
                    ));
                }
                Some(f)
            },
            _ => None,
        };
        let ghost before = r@;
        let name = root[i].0.clone();
        assert(name@ == root@[i as int].0@);
        let rv = RawVirtue { name, fields };
        let ghost rvv = raw_view(rv);
        r.push(rv);
        assert(r@ =~= before.push(rv));
        assert(raw_views(r@) =~= raw_views(before).push(rvv));
        i += 1;
        assert(json_virtues(jr).take(i as int) =~= json_virtues(jr).take(i - 1).push(json_virtues(jr)[i - 1]));
    }
    assert(json_virtues(jr).take(i as int) =~= json_virtues(jr));
    r
}

/// Reading the first `n` fields of virtue `virtue`: the first error, or the
/// non-zero values read so far as `(tracked, base)` lists of `(stat, value)`.
/// A value that is not an integer is an error; a zero value is skipped
/// whatever its key; any other value needs a canonical stat key.
pub open spec fn fields_walk(virtue: String, fields: Seq<(String, Option<i64>)>, n: nat) -> Result<
    (Seq<(Stat, i64)>, Seq<(Stat, i64)>),
    VirtuesError,
>
    decreases n,
{
    if n == 0 {
        Ok((Seq::empty(), Seq::empty()))
    } else {
        match fields_walk(virtue, fields, (n - 1) as nat) {
            Err(e) => Err(e),
            Ok(acc) => {
                let f = fields[n - 1];
                match f.1 {
                    None => Err(VirtuesError::StatValueNotInteger { virtue_name: virtue, stat_name: f.0 }),
                    Some(v) => if v == 0 {
                        Ok(acc)
                    } else {
                        match canonical_stat_named(f.0@) {
                            None => Err(VirtuesError::UnknownStat { virtue_name: virtue, stat_name: f.0 }),
                            Some(st) => if base_stats_spec().contains(st) {
                                Ok((acc.0, acc.1.push((st, v))))
                            } else {
                                Ok((acc.0.push((st, v)), acc.1))
                            },
                        }
                    },
                }
            },
        }
    }
}

/// Once reading the fields meets an error, reading more of them gives that
/// same error.
proof fn lemma_fields_err_persists(virtue: String, fields: Seq<(String, Option<i64>)>, k: nat, n: nat)
    requires
        k <= n,
        fields_walk(virtue, fields, k) is Err,
    ensures
        fields_walk(virtue, fields, n) == fields_walk(virtue, fields, k),
    decreases n - k,
{
    if k < n {
        lemma_fields_err_persists(virtue, fields, k, (n - 1) as nat);
    }
}

/// The key a virtue is found under: its name lowercased.
pub open spec fn virtue_key(name: Seq<char>) -> Seq<char> {
    unicode_lowercase(name)
}

/// One loaded virtue: its name and its `(tracked, base)` stat lists.
pub type LoadedVirtue = (String, (Seq<(Stat, i64)>, Seq<(Stat, i64)>));

/// Whether virtue `j` of `acc` has key `k`.
pub open spec fn keyed_at(acc: Seq<LoadedVirtue>, j: int, k: Seq<char>) -> bool {
    0 <= j < acc.len() && virtue_key(acc[j].0@) == k
}

/// The position of the loaded virtue with key `k`.
pub open spec fn loaded_with_key(acc: Seq<LoadedVirtue>, k: Seq<char>) -> Option<int> {
    if exists|j: int| #[trigger] keyed_at(acc, j, k) {
        Some(choose|j: int| #[trigger] keyed_at(acc, j, k))
    } else {
        None
    }
}

/// Loading the first `n` virtues: the first error, or the virtues loaded so
/// far. A value that is not an object is an error, then a name whose key an
/// earlier virtue has, then an error in the virtue's fields.
pub open spec fn virtues_walk(raw: Seq<RawVirtue>, n: nat) -> Result<Seq<LoadedVirtue>, VirtuesError>
    decreases n,
{
    if n == 0 {
        Ok(Seq::empty())
    } else {
        match virtues_walk(raw, (n - 1) as nat) {
            Err(e) => Err(e),
            Ok(acc) => {
                let rv = raw[n - 1];
                match rv.fields {
                    None => Err(VirtuesError::VirtueNotObject { virtue_name: rv.name }),
                    Some(fs) => match loaded_with_key(acc, virtue_key(rv.name@)) {
                        Some(j) => Err(VirtuesError::DuplicateVirtueName { first: acc[j].0, second: rv.name }),
                        None => match fields_walk(rv.name, fs@, fs@.len()) {
                            Err(e) => Err(e),
                            Ok(lists) => Ok(acc.push((rv.name, lists))),
                        },
                    },
                }
            },
        }
    }
}

/// Once loading meets an error, loading more virtues gives that same error.
proof fn lemma_virtues_err_persists(raw: Seq<RawVirtue>, k: nat, n: nat)
    requires
        k <= n,
        virtues_walk(raw, k) is Err,
    ensures
        virtues_walk(raw, n) == virtues_walk(raw, k),
    decreases n - k,
{
    if k < n {
        lemma_virtues_err_persists(raw, k, (n - 1) as nat);
    }
}

/// Whether `vs` holds the stats of the `(tracked, base)` lists: for each stat
/// the last value listed, and 0 when none is.
pub open spec fn stats_of_lists(vs: VirtueStats, lists: (Seq<(Stat, i64)>, Seq<(Stat, i64)>)) -> bool {
    &&& forall|s: Stat| #[trigger] vs.tracked_stats.value(s) == pairs_value(lists.0, s)
    &&& forall|s: Stat| #[trigger] vs.base_stats.value(s) == pairs_value(lists.1, s)
}

/// Whether `st` is one of the raw base stats.
pub(crate) fn is_base_stat(st: Stat) -> (r: bool)
    ensures
        r == base_stats_spec().contains(st),
{
    let base = base_stats();
    let mut b: usize = 0;
    while b < base.len()
        invariant
            base@ == base_stats_spec(),
            b <= base@.len(),
            forall|m: int| 0 <= m < b ==> base@[m] != st,
        decreases base@.len() - b,
    {
        if base[b] == st {
            assert(base_stats_spec()[b as int] == st);
            return true;
        }
        b += 1;
    }
    false
}

/// Whether the DB view holds exactly the loaded virtues, each under its key
/// with its name and stats.
pub open spec fn holds_loaded(view: Map<Seq<char>, (Seq<char>, VirtueStats)>, acc: Seq<LoadedVirtue>) -> bool {
    &&& forall|k: Seq<char>| #[trigger] view.dom().contains(k) <==> exists|j: int| #[trigger] keyed_at(acc, j, k)
    &&& forall|j: int|
        0 <= j < acc.len() ==> #[trigger] view[virtue_key(acc[j].0@)].0 == acc[j].0@ && stats_of_lists(
            view[virtue_key(acc[j].0@)].1,
            acc[j].1,
        )
}

/// Reads one virtue's fields.
fn read_fields(virtue: &String, fields: &Vec<(String, Option<i64>)>) -> (r: Result<VirtueStats, VirtuesError>)
    ensures
        match fields_walk(*virtue, fields@, fields@.len()) {
            Err(e) => r == Err::<VirtueStats, VirtuesError>(e),
            Ok(lists) => r matches Ok(vs) && stats_of_lists(vs, lists),
        },
{
    let mut vs = VirtueStats { tracked_stats: StatMap::new(), base_stats: StatMap::new() };
    let mut k: usize = 0;
    while k < fields.len()
        invariant
            k <= fields@.len(),
            fields_walk(*virtue, fields@, k as nat) matches Ok(lists) && stats_of_lists(vs, lists),
        decreases fields@.len() - k,
    {
        let ghost lists = fields_walk(*virtue, fields@, k as nat)->Ok_0;
        let f = &fields[k];
        match f.1 {
            None => {
                proof {
                    lemma_fields_err_persists(*virtue, fields@, (k + 1) as nat, fields@.len());
                }
                return Err(VirtuesError::StatValueNotInteger { virtue_name: virtue.clone(), stat_name: f.0.clone() });
            },
            Some(v) => {
                if v != 0 {
                    match canonical_stat_key(f.0.as_str()) {
                        None => {
                            proof {
                                lemma_fields_err_persists(*virtue, fields@, (k + 1) as nat, fields@.len());
                            }
                            return Err(VirtuesError::UnknownStat { virtue_name: virtue.clone(), stat_name: f.0.clone() });
                        },
                        Some(st) => {
                            if is_base_stat(st) {
                                vs.base_stats.set(st, v);
                                assert forall|s: Stat| #[trigger] vs.base_stats.value(s) == pairs_value(lists.1.push((st, v)), s) by {
                                    assert(lists.1.push((st, v)).drop_last() =~= lists.1);
                                }
                            } else {
                                vs.tracked_stats.set(st, v);
                                assert forall|s: Stat| #[trigger] vs.tracked_stats.value(s) == pairs_value(lists.0.push((st, v)), s) by {
                                    assert(lists.0.push((st, v)).drop_last() =~= lists.0);
                                }
                            }
                        },
                    }
                }
            },
        }
        k += 1;
    }
    Ok(vs)
}

// ── Resolving a selection ────────────────────────────────────────────────────

/// What a slot asks for: nothing when it is empty or blank, else its name
/// with surrounding whitespace removed.
pub open spec fn slot_entry(entered: Option<Seq<char>>) -> Option<Seq<char>> {
    match entered {
        None => None,
        Some(raw) => if trim_spec(raw).len() == 0 {
            None
        } else {
            Some(trim_spec(raw))
        },
    }
}

/// Why a selection does not resolve.
pub enum SelectionFault {
    /// The entered name (trimmed) matches no virtue.
    Unknown(Seq<char>),
    /// The virtue with this canonical name is selected a second time.
    Duplicate(Seq<char>),
}

/// Resolving the first `n` slots: the first fault, or the keys of the
/// virtues picked so far, in slot order.
pub open spec fn selection_walk(db: Map<Seq<char>, (Seq<char>, VirtueStats)>, sel: Seq<Option<Seq<char>>>, n: nat) -> Result<
    Seq<Seq<char>>,
    SelectionFault,
>
    decreases n,
{
    if n == 0 {
        Ok(Seq::empty())
    } else {
        match selection_walk(db, sel, (n - 1) as nat) {
            Err(f) => Err(f),
            Ok(picks) => match slot_entry(sel[n - 1]) {
                None => Ok(picks),
                Some(name) => {
                    let k = virtue_key(name);
                    if !db.dom().contains(k) {
                        Err(SelectionFault::Unknown(name))
                    } else if picks.contains(k) {
                        Err(SelectionFault::Duplicate(db[k].0))
                    } else {
                        Ok(picks.push(k))
                    }
                },
            },
        }
    }
}

/// The sum over the picked virtues of their value for `s`: base stats when
/// `base`, else tracked stats.
pub open spec fn picks_total(db: Map<Seq<char>, (Seq<char>, VirtueStats)>, picks: Seq<Seq<char>>, s: Stat, base: bool) -> int
    decreases picks.len(),
{
    if picks.len() == 0 {
        0
    } else {
        picks_total(db, picks.drop_last(), s, base) + if base {
            db[picks.last()].1.base_stats.value(s) as int
        } else {
            db[picks.last()].1.tracked_stats.value(s) as int
        }
    }
}

/// Whether every per-stat sum over `picks` is an `i64`.
pub open spec fn totals_fit(db: Map<Seq<char>, (Seq<char>, VirtueStats)>, picks: Seq<Seq<char>>) -> bool {
    &&& forall|s: Stat| #[trigger] in_i64_range(picks_total(db, picks, s, false))
    &&& forall|s: Stat| #[trigger] in_i64_range(picks_total(db, picks, s, true))
}

/// Whether the sums after the first `n` slots are `i64` values.
pub open spec fn walk_fits(db: Map<Seq<char>, (Seq<char>, VirtueStats)>, sel: Seq<Option<Seq<char>>>, n: nat) -> bool {
    match selection_walk(db, sel, n) {
        Ok(picks) => totals_fit(db, picks),
        Err(_) => true,
    }
}

/// Whether resolving the selection keeps every running sum an `i64`.
pub open spec fn selection_fits(db: Map<Seq<char>, (Seq<char>, VirtueStats)>, sel: Seq<Option<Seq<char>>>) -> bool {
    forall|n: nat| n <= 5 ==> #[trigger] walk_fits(db, sel, n)
}

/// The canonical name a slot resolves to, when it asks for a virtue.
pub open spec fn resolved_slot(db: Map<Seq<char>, (Seq<char>, VirtueStats)>, entered: Option<Seq<char>>) -> Option<
    Seq<char>,
> {
    match slot_entry(entered) {
        None => None,
        Some(name) => Some(db[virtue_key(name)].0),
    }
}

/// Once resolving meets a fault, resolving more slots gives that same fault.
proof fn lemma_selection_err_persists(
    db: Map<Seq<char>, (Seq<char>, VirtueStats)>,
    sel: Seq<Option<Seq<char>>>,
    k: nat,
    n: nat,
)
    requires
        k <= n,
        selection_walk(db, sel, k) is Err,
    ensures
        selection_walk(db, sel, n) == selection_walk(db, sel, k),
    decreases n - k,
{
    if k < n {
        lemma_selection_err_persists(db, sel, k, (n - 1) as nat);
    }
}

/// Whether `x` is among the values of `v`.
fn contains_index(v: &Vec<usize>, x: usize) -> (r: bool)
    ensures
        r == v@.contains(x),
{
    let mut i: usize = 0;
    while i < v.len()
        invariant
            i <= v@.len(),
            forall|m: int| 0 <= m < i ==> v@[m] != x,
        decreases v@.len() - i,
    {
        if v[i] == x {
            assert(v@[i as int] == x);
            return true;
        }
        i += 1;
    }
    false
}

/// A loaded virtue: its canonical name, that name lowercased, and its stats.
#[derive(Debug, Clone)]
struct VirtueEntry {
    name: String,
    folded: String,
    stats: VirtueStats,
}

/// The virtue data: each virtue's canonical name and stats, found by the
/// name lowercased.
#[derive(Debug)]
pub struct VirtuesDb {
    entries: Vec<VirtueEntry>,
}

/// Whether each entry's key is its name lowercased and no two keys agree.
spec fn entries_keyed(entries: Seq<VirtueEntry>) -> bool {
    &&& forall|i: int| 0 <= i < entries.len() ==> #[trigger] entries[i].folded@ == virtue_key(entries[i].name@)
    &&& forall|i: int, j: int| 0 <= i < j < entries.len() ==> entries[i].folded@ != entries[j].folded@
}

/// Whether the entries are the loaded virtues, in order.
spec fn entries_match(entries: Seq<VirtueEntry>, acc: Seq<LoadedVirtue>) -> bool {
    &&& entries.len() == acc.len()
    &&& forall|j: int|
        0 <= j < acc.len() ==> #[trigger] entries[j].name == acc[j].0 && stats_of_lists(entries[j].stats, acc[j].1)
}

/// The position of the entry whose key is `key`.
fn find_key(entries: &Vec<VirtueEntry>, key: &str) -> (r: Option<usize>)
    ensures
        match r {
            Some(j) => j < entries@.len() && entries@[j as int].folded@ == key@,
            None => forall|m: int| 0 <= m < entries@.len() ==> entries@[m].folded@ != key@,
        },
{
    let mut j: usize = 0;
    while j < entries.len()
        invariant
            j <= entries@.len(),
            forall|m: int| 0 <= m < j ==> entries@[m].folded@ != key@,
        decreases entries@.len() - j,
    {
        if str_eq(entries[j].folded.as_str(), key) {
            return Some(j);
        }
        j += 1;
    }
    None
}

impl VirtuesDb {
    #[verifier::type_invariant]
    spec fn well_formed(&self) -> bool {
        entries_keyed(self.entries@)
    }

    /// Each virtue's key (its name lowercased) mapped to its canonical name
    /// and stats.
    pub closed spec fn view(&self) -> Map<Seq<char>, (Seq<char>, VirtueStats)> {
        Map::new(
            |k: Seq<char>| exists|i: int| 0 <= i < self.entries@.len() && #[trigger] self.entries@[i].folded@ == k,
            |k: Seq<char>|
                {
                    let i = choose|i: int| 0 <= i < self.entries@.len() && #[trigger] self.entries@[i].folded@ == k;
                    (self.entries@[i].name@, self.entries@[i].stats)
                },
        )
    }

    /// Entry `i` is what the view holds under its key.
    proof fn lemma_view_at(&self, i: int)
        requires
            entries_keyed(self.entries@),
            0 <= i < self.entries@.len(),
        ensures
            self@.dom().contains(self.entries@[i].folded@),
            self@[self.entries@[i].folded@] == (self.entries@[i].name@, self.entries@[i].stats),
    {
        let k = self.entries@[i].folded@;
        assert(self.entries@[i].folded@ == k);
        let c = choose|c: int| 0 <= c < self.entries@.len() && #[trigger] self.entries@[c].folded@ == k;
        if c < i {
        } else if c > i {
        }
    }

    /// Reads the virtue data from JSON text: an object whose entries are the
    /// virtues, each an object of stat keys and integer values. `path` names
    /// the file in the error for text that is not JSON.
    pub fn from_json_str(src: &str, path: &str) -> (r: Result<VirtuesDb, VirtuesError>)
        ensures
            match crate::json::json_parsed(src@) {
                Err(m) => r matches Err(VirtuesError::ParseJson { path: p, message }) && p@ == path@ && message@ == m,
                Ok(crate::json::JsonView::Object(root)) => exists|raw: Seq<RawVirtue>|
                    #![trigger virtues_walk(raw, raw.len())]
                    raw_views(raw) == json_virtues(root) && match virtues_walk(raw, raw.len()) {
                        Err(e) => r == Err::<VirtuesDb, VirtuesError>(e),
                        Ok(acc) => r matches Ok(db) && holds_loaded(db@, acc),
                    },
                Ok(_) => r == Err::<VirtuesDb, VirtuesError>(VirtuesError::TopLevelNotObject),
            },
    {
        match crate::json::parse_json(src) {
            Err(e) => Err(VirtuesError::ParseJson { path: path.to_owned(), message: e }),
            Ok(crate::json::JsonValue::Object(root)) => {
                let raw = raw_virtues(&root);
                let r = VirtuesDb::from_entries(raw);
                proof {
                    assert(virtues_walk(raw@, raw@.len()) == virtues_walk(raw@, raw@.len()));
                }
                r
            },
            Ok(_) => Err(VirtuesError::TopLevelNotObject),
        }
    }

    /// Builds the data from the virtues as read, in file order. The first
    /// error met is returned, as `virtues_walk` orders them.
    pub fn from_entries(raw: Vec<RawVirtue>) -> (r: Result<VirtuesDb, VirtuesError>)
        ensures
            match virtues_walk(raw@, raw@.len()) {
                Err(e) => r == Err::<VirtuesDb, VirtuesError>(e),
                Ok(acc) => r matches Ok(db) && holds_loaded(db@, acc),
            },
    {
        let mut entries: Vec<VirtueEntry> = Vec::new();
        let mut i: usize = 0;
        while i < raw.len()
            invariant
                i <= raw@.len(),
                virtues_walk(raw@, i as nat) matches Ok(acc) && entries_match(entries@, acc),
                entries_keyed(entries@),
            decreases raw@.len() - i,
        {
            let ghost acc = virtues_walk(raw@, i as nat)->Ok_0;
            let rv = &raw[i];
            match &rv.fields {
                None => {
                    proof {
                        lemma_virtues_err_persists(raw@, (i + 1) as nat, raw@.len());
                    }
                    return Err(VirtuesError::VirtueNotObject { virtue_name: rv.name.clone() });
                },
                Some(fields) => {
                    let folded = to_lowercase(rv.name.as_str());
                    if let Some(j) = find_key(&entries, folded.as_str()) {
                            proof {
                                assert(entries@[j as int].name == acc[j as int].0);
                                assert(entries@[j as int].folded@ == virtue_key(entries@[j as int].name@));
                                assert(keyed_at(acc, j as int, folded@));
                                let c = choose|c: int| #[trigger] keyed_at(acc, c, folded@);
                                assert(entries@[c].name == acc[c].0);
                                assert(entries@[c].folded@ == virtue_key(entries@[c].name@));
                                if c < j {
                                } else if c > j {
                                }
                                lemma_virtues_err_persists(raw@, (i + 1) as nat, raw@.len());
                            }
                            return Err(VirtuesError::DuplicateVirtueName {
                                first: entries[j].name.clone(),
                                second: rv.name.clone(),
                            });
                    }
                    assert(!exists|c: int| #[trigger] keyed_at(acc, c, folded@)) by {
                        if exists|c: int| #[trigger] keyed_at(acc, c, folded@) {
                            let c = choose|c: int| #[trigger] keyed_at(acc, c, folded@);
                            assert(entries@[c].name == acc[c].0);
                            assert(entries@[c].folded@ == virtue_key(entries@[c].name@));
                        }
                    }
                    let stats = match read_fields(&rv.name, fields) {
                        Ok(s) => s,
                        Err(e) => {
                            proof {
                                lemma_virtues_err_persists(raw@, (i + 1) as nat, raw@.len());
                            }
                            return Err(e);
                        },
                    };
                    let ghost before = entries@;
                    entries.push(VirtueEntry { name: rv.name.clone(), folded, stats });
                    proof {
                        let acc2 = virtues_walk(raw@, (i + 1) as nat)->Ok_0;
                        assert(acc2 == acc.push((rv.name, fields_walk(rv.name, fields@, fields@.len())->Ok_0)));
                        assert forall|m: int| 0 <= m < acc2.len() implies #[trigger] entries@[m].name == acc2[m].0
                            && stats_of_lists(entries@[m].stats, acc2[m].1) by {
                            if m < acc.len() {
                                assert(entries@[m] == before[m]);
                            }
                        }
                    }
                },
            }
            i += 1;
        }
        let db = VirtuesDb { entries };
        proof {
            let acc = virtues_walk(raw@, raw@.len())->Ok_0;
            assert forall|k: Seq<char>| #[trigger] db@.dom().contains(k) <==> exists|j: int| #[trigger] keyed_at(acc, j, k) by {
                if db@.dom().contains(k) {
                    let i = choose|i: int| 0 <= i < db.entries@.len() && #[trigger] db.entries@[i].folded@ == k;
                    assert(keyed_at(acc, i, k));
                }
                if exists|j: int| #[trigger] keyed_at(acc, j, k) {
                    let j = choose|j: int| #[trigger] keyed_at(acc, j, k);
                    assert(db.entries@[j].folded@ == k);
                }
            }
            assert forall|j: int| 0 <= j < acc.len() implies #[trigger] db@[virtue_key(acc[j].0@)].0 == acc[j].0@
                && stats_of_lists(db@[virtue_key(acc[j].0@)].1, acc[j].1) by {
                db.lemma_view_at(j);
                assert(db.entries@[j].name == acc[j].0);
            }
        }
        Ok(db)
    }
    /// Resolves the selected names: each filled slot is matched, trimmed and
    /// without regard to case, to a virtue, whose canonical name takes the
    /// slot and whose stats are added to the totals. A name that matches no
    /// virtue, or a virtue selected twice, is an error.
    pub fn resolve_selected(&self, selected: &SelectedVirtues) -> (r: Result<ResolvedVirtues, VirtuesError>)
        requires
            selection_fits(self@, slot_views(selected.slots@)),
        ensures
            match selection_walk(self@, slot_views(selected.slots@), 5) {
                Err(SelectionFault::Unknown(name)) => (r matches Err(VirtuesError::UnknownSelectedVirtue { entered_name })
                    && entered_name@ == name),
                Err(SelectionFault::Duplicate(name)) => (r matches Err(VirtuesError::DuplicateSelectedVirtue { virtue_name })
                    && virtue_name@ == name),
                Ok(picks) => (r matches Ok(res) && slot_views(res.slots@) == Seq::new(
                    5,
                    |i: int| resolved_slot(self@, slot_views(selected.slots@)[i]),
                ) && (forall|s: Stat| #[trigger] res.tracked_stats.value(s) == picks_total(self@, picks, s, false)) && (
                forall|s: Stat| #[trigger] res.base_stats.value(s) == picks_total(self@, picks, s, true))),
            },
    {
        proof {
            use_type_invariant(self);
        }
        let ghost db = self@;
        let ghost sel = slot_views(selected.slots@);
        let mut slots: [Option<String>; 5] = [None, None, None, None, None];
        let mut tracked_sum = StatMap::new();
        let mut base_sum = StatMap::new();
        let mut picked: Vec<usize> = Vec::new();
        let mut idx: usize = 0;
        while idx < 5
            invariant
                idx <= 5,
                selected.slots@.len() == 5,
                slots@.len() == 5,
                db == self@,
                sel == slot_views(selected.slots@),
                entries_keyed(self.entries@),
                selection_fits(db, sel),
                selection_walk(db, sel, idx as nat) matches Ok(picks) && picked.len() == picks.len() && (forall|m: int|
                    0 <= m < picks.len() ==> #[trigger] picked@[m] < self.entries@.len() && self.entries@[picked@[m] as int].folded@
                        == picks[m]) && (forall|s: Stat| #[trigger] tracked_sum.value(s) == picks_total(db, picks, s, false)) && (
                forall|s: Stat| #[trigger] base_sum.value(s) == picks_total(db, picks, s, true)),
                forall|i: int| 0 <= i < idx ==> #[trigger] slot_views(slots@)[i] == resolved_slot(db, sel[i]),
                forall|i: int| idx <= i < 5 ==> #[trigger] slots@[i] is None,
            decreases 5 - idx,
        {
            let ghost picks = selection_walk(db, sel, idx as nat)->Ok_0;
            let entered = &selected.slots[idx];
            assert(sel[idx as int] == match *entered {
                Some(x) => Some(x@),
                None => None::<Seq<char>>,
            });
            match entered {
                None => {},
                Some(name) => {
                    let t = trim(name.as_str());
                    if t.unicode_len() != 0 {
                        let key = to_lowercase(t.as_str());
                        match find_key(&self.entries, key.as_str()) {
                            None => {
                                proof {
                                    if db.dom().contains(key@) {
                                        let c = choose|c: int| 0 <= c < self.entries@.len() && #[trigger] self.entries@[c].folded@ == key@;
                                    }
                                    lemma_selection_err_persists(db, sel, (idx + 1) as nat, 5);
                                }
                                return Err(VirtuesError::UnknownSelectedVirtue { entered_name: t });
                            },
                            Some(i) => {
                                proof {
                                    self.lemma_view_at(i as int);
                                }
                                if contains_index(&picked, i) {
                                    proof {
                                        let m = choose|m: int| 0 <= m < picked@.len() && picked@[m] == i;
                                        assert(picks[m] == key@);
                                        assert(picks.contains(key@));
                                        lemma_selection_err_persists(db, sel, (idx + 1) as nat, 5);
                                    }
                                    return Err(VirtuesError::DuplicateSelectedVirtue { virtue_name: self.entries[i].name.clone() });
                                }
                                proof {
                                    if picks.contains(key@) {
                                        let m = choose|m: int| 0 <= m < picks.len() && picks[m] == key@;
                                        assert(self.entries@[picked@[m] as int].folded@ == key@);
                                        if (picked@[m] as int) < i as int {
                                        } else if (picked@[m] as int) > i as int {
                                        } else {
                                            assert(picked@.contains(i));
                                        }
                                    }
                                    let np = picks.push(key@);
                                    assert(np.drop_last() =~= picks);
                                    assert(walk_fits(db, sel, (idx + 1) as nat));
                                    assert forall|s: Stat| #![trigger tracked_sum.value(s)]
                                        in_i64_range(tracked_sum.value(s) + self.entries@[i as int].stats.tracked_stats.value(s)) by {
                                        assert(in_i64_range(picks_total(db, np, s, false)));
                                    }
                                    assert forall|s: Stat| #![trigger base_sum.value(s)]
                                        in_i64_range(base_sum.value(s) + self.entries@[i as int].stats.base_stats.value(s)) by {
                                        assert(in_i64_range(picks_total(db, np, s, true)));
                                    }
                                }
                                let ghost before_slots = slots@;
                                slots[idx] = Some(self.entries[i].name.clone());
                                tracked_sum.add_all(&self.entries[i].stats.tracked_stats);
                                base_sum.add_all(&self.entries[i].stats.base_stats);
                                picked.push(i);
                                proof {
                                    let np = picks.push(key@);
                                    assert(np.drop_last() =~= picks);
                                    assert(selection_walk(db, sel, (idx + 1) as nat) == Ok::<Seq<Seq<char>>, SelectionFault>(np));
                                    assert forall|s: Stat| #[trigger] tracked_sum.value(s) == picks_total(db, np, s, false) by {
                                    }
                                    assert forall|s: Stat| #[trigger] base_sum.value(s) == picks_total(db, np, s, true) by {
                                    }
                                    assert forall|m: int| 0 <= m < np.len() implies #[trigger] picked@[m] < self.entries@.len()
                                        && self.entries@[picked@[m] as int].folded@ == np[m] by {
                                    }
                                    assert forall|j: int| 0 <= j < idx + 1 implies #[trigger] slot_views(slots@)[j] == resolved_slot(db, sel[j]) by {
                                        if j < idx {
                                            assert(slots@[j] == before_slots[j]);
                                            assert(slot_views(before_slots)[j] == resolved_slot(db, sel[j]));
                                        } else {
                                            assert(slots@[j] == Some(self.entries@[i as int].name));
                                            assert(slot_entry(sel[j]) == Some(t@));
                                            assert(db[key@].0 == self.entries@[i as int].name@);
                                        }
                                    }
                                    assert forall|j: int| idx + 1 <= j < 5 implies #[trigger] slots@[j] is None by {
                                        assert(slots@[j] == before_slots[j]);
                                    }
                                }
                            },
                        }
                    }
                },
            }
            idx += 1;
        }
        let res = ResolvedVirtues { slots, tracked_stats: tracked_sum, base_stats: base_sum };
        assert(slot_views(res.slots@) =~= Seq::new(5, |i: int| resolved_slot(db, sel[i])));
        Ok(res)
    }

    /// Whether resolving `selected` keeps every running sum of stats an
    /// `i64` (`selection_fits`).
    pub fn selection_fits_exec(&self, selected: &SelectedVirtues) -> (r: bool)
        ensures
            r == selection_fits(self@, slot_views(selected.slots@)),
    {
        proof {
            use_type_invariant(self);
        }
        let ghost db = self@;
        let ghost sel = slot_views(selected.slots@);
        let mut tracked_sum = StatMap::new();
        let mut base_sum = StatMap::new();
        let mut picked: Vec<usize> = Vec::new();
        let mut idx: usize = 0;
        proof {
            assert(walk_fits(db, sel, 0));
        }
        while idx < 5
            invariant
                idx <= 5,
                selected.slots@.len() == 5,
                db == self@,
                sel == slot_views(selected.slots@),
                entries_keyed(self.entries@),
                forall|n: nat| n <= idx ==> #[trigger] walk_fits(db, sel, n),
                selection_walk(db, sel, idx as nat) matches Ok(picks) && picked.len() == picks.len() && (forall|m: int|
                    0 <= m < picks.len() ==> #[trigger] picked@[m] < self.entries@.len() && self.entries@[picked@[m] as int].folded@
                        == picks[m]) && (forall|s: Stat| #[trigger] tracked_sum.value(s) == picks_total(db, picks, s, false)) && (
                forall|s: Stat| #[trigger] base_sum.value(s) == picks_total(db, picks, s, true)),
            decreases 5 - idx,
        {
            let ghost picks = selection_walk(db, sel, idx as nat)->Ok_0;
            let entered = &selected.slots[idx];
            assert(sel[idx as int] == match *entered {
                Some(x) => Some(x@),
                None => None::<Seq<char>>,
            });
            match entered {
                None => {
                    proof {
                        assert(selection_walk(db, sel, (idx + 1) as nat) == selection_walk(db, sel, idx as nat));
                        assert(walk_fits(db, sel, idx as nat));
                        assert(walk_fits(db, sel, (idx + 1) as nat));
                    }
                },
                Some(name) => {
                    let t = trim(name.as_str());
                    if t.unicode_len() != 0 {
                        let key = to_lowercase(t.as_str());
                        match find_key(&self.entries, key.as_str()) {
                            None => {
                                proof {
                                    if db.dom().contains(key@) {
                                        let c = choose|c: int| 0 <= c < self.entries@.len() && #[trigger] self.entries@[c].folded@ == key@;
                                    }
                                    assert forall|n: nat| n <= 5 implies #[trigger] walk_fits(db, sel, n) by {
                                        if n > idx {
                                            lemma_selection_err_persists(db, sel, (idx + 1) as nat, n);
                                        }
                                    }
                                }
                                return true;
                            },
                            Some(i) => {
                                proof {
                                    self.lemma_view_at(i as int);
                                }
                                if contains_index(&picked, i) {
                                    proof {
                                        let m = choose|m: int| 0 <= m < picked@.len() && picked@[m] == i;
                                        assert(picks[m] == key@);
                                        assert(picks.contains(key@));
                                        assert forall|n: nat| n <= 5 implies #[trigger] walk_fits(db, sel, n) by {
                                            if n > idx {
                                                lemma_selection_err_persists(db, sel, (idx + 1) as nat, n);
                                            }
                                        }
                                    }
                                    return true;
                                }
                                proof {
                                    if picks.contains(key@) {
                                        let m = choose|m: int| 0 <= m < picks.len() && picks[m] == key@;
                                        assert(self.entries@[picked@[m] as int].folded@ == key@);
                                        if (picked@[m] as int) < i as int {
                                        } else if (picked@[m] as int) > i as int {
                                        } else {
                                            assert(picked@.contains(i));
                                        }
                                    }
                                    let np = picks.push(key@);
                                    assert(np.drop_last() =~= picks);
                                    assert(selection_walk(db, sel, (idx + 1) as nat) == Ok::<Seq<Seq<char>>, SelectionFault>(np));
                                }
                                let fits_t = tracked_sum.sum_fits(&self.entries[i].stats.tracked_stats);
                                let fits_b = base_sum.sum_fits(&self.entries[i].stats.base_stats);
                                if !(fits_t && fits_b) {
                                    proof {
                                        let np = picks.push(key@);
                                        if !fits_t {
                                            let s = choose|s: Stat| !in_i64_range(tracked_sum.value(s) + self.entries@[i as int].stats.tracked_stats.value(s));
                                            assert(picks_total(db, np, s, false) == tracked_sum.value(s) + self.entries@[i as int].stats.tracked_stats.value(s));
                                        } else {
                                            let s = choose|s: Stat| !in_i64_range(base_sum.value(s) + self.entries@[i as int].stats.base_stats.value(s));
                                            assert(picks_total(db, np, s, true) == base_sum.value(s) + self.entries@[i as int].stats.base_stats.value(s));
                                        }
                                        assert(!walk_fits(db, sel, (idx + 1) as nat));
                                    }
                                    return false;
                                }
                                tracked_sum.add_all(&self.entries[i].stats.tracked_stats);
                                base_sum.add_all(&self.entries[i].stats.base_stats);
                                picked.push(i);
                                proof {
                                    let np = picks.push(key@);
                                    assert(np.drop_last() =~= picks);
                                    assert forall|s: Stat| #[trigger] tracked_sum.value(s) == picks_total(db, np, s, false) by {
                                    }
                                    assert forall|s: Stat| #[trigger] base_sum.value(s) == picks_total(db, np, s, true) by {
                                    }
                                    assert forall|m: int| 0 <= m < np.len() implies #[trigger] picked@[m] < self.entries@.len()
                                        && self.entries@[picked@[m] as int].folded@ == np[m] by {
                                    }
                                    assert forall|s: Stat| #[trigger] in_i64_range(picks_total(db, np, s, false)) by {
                                        assert(tracked_sum.value(s) == picks_total(db, np, s, false));
                                    }
                                    assert forall|s: Stat| #[trigger] in_i64_range(picks_total(db, np, s, true)) by {
                                        assert(base_sum.value(s) == picks_total(db, np, s, true));
                                    }
                                    assert(totals_fit(db, np));
                                    assert(walk_fits(db, sel, (idx + 1) as nat));
                                }
                            },
                        }
                    } else {
                        proof {
                            assert(slot_entry(sel[idx as int]) is None);
                            assert(selection_walk(db, sel, (idx + 1) as nat) == selection_walk(db, sel, idx as nat));
                            assert(walk_fits(db, sel, idx as nat));
                            assert(walk_fits(db, sel, (idx + 1) as nat));
                        }
                    }
                },
            }
            proof {
                if slot_entry(sel[idx as int]) is None {
                    assert(selection_walk(db, sel, (idx + 1) as nat) == selection_walk(db, sel, idx as nat));
                }
                assert forall|n: nat| n <= idx + 1 implies #[trigger] walk_fits(db, sel, n) by {
                    if n == idx + 1 {
                        assert(walk_fits(db, sel, (idx + 1) as nat));
                    }
                }
            }
            idx += 1;
        }
        true
    }

    /// `resolve_selected` where the running sums stay `i64` values; `None`
    /// where they do not.
    pub fn resolve_selected_checked(&self, selected: &SelectedVirtues) -> (r: Option<Result<ResolvedVirtues, VirtuesError>>)
        ensures
            !selection_fits(self@, slot_views(selected.slots@)) <==> r is None,
            r matches Some(res) ==> match selection_walk(self@, slot_views(selected.slots@), 5) {
                Err(SelectionFault::Unknown(name)) => (res matches Err(VirtuesError::UnknownSelectedVirtue { entered_name })
                    && entered_name@ == name),
                Err(SelectionFault::Duplicate(name)) => (res matches Err(VirtuesError::DuplicateSelectedVirtue { virtue_name })
                    && virtue_name@ == name),
                Ok(picks) => (res matches Ok(rv) && slot_views(rv.slots@) == Seq::new(
                    5,
                    |i: int| resolved_slot(self@, slot_views(selected.slots@)[i]),
                ) && (forall|s: Stat| #[trigger] rv.tracked_stats.value(s) == picks_total(self@, picks, s, false)) && (
                forall|s: Stat| #[trigger] rv.base_stats.value(s) == picks_total(self@, picks, s, true))),
            },
    {
        if self.selection_fits_exec(selected) {
            Some(self.resolve_selected(selected))
        } else {
            None
        }
    }
}


} // verus!
