//! Saved optimize-build profiles (`lgo_<character>_builds.toml`).
//!
//! A profiles file holds `[builds.<name>]` tables, each with a `goals` array
//! of `stat:minimum` strings in priority order. Build names are unique
//! ignoring ASCII case.
use vstd::prelude::*;

use crate::order::string_views;
use crate::stat::{abbreviation_for, abbreviation_spec, parse_goal, parse_goal_spec, stat_key, stat_key_spec, StatGoal};
use crate::text::{decimal_chars, decimal_string, string_from_chars};
use crate::text::{ascii_lower, concat3, str_eq, eq_ignore_ascii_case, to_ascii_lowercase, trim, trim_spec};
use crate::toml_doc::{
    entry_index, find_key, find_other_key, lemma_array_view, lemma_table_view, lemma_view_shape, other_key_index,
    parse_toml, quote_toml_string, toml_entries, toml_items, toml_parsed, toml_quoted, toml_view, TomlValue, TomlView,
};

verus! {

#[derive(Debug, Clone, PartialEq, Eq)]
pub struct SavedBuild {
    pub name: String,
    pub goals: Vec<StatGoal>,
}

#[derive(Debug, Clone, PartialEq, Eq)]
pub struct SavedBuilds {
    builds: Vec<SavedBuild>,
}

/// The text of a saved build: its name and goals.
pub open spec fn build_view(b: SavedBuild) -> (Seq<char>, Seq<StatGoal>) {
    (b.name@, b.goals@)
}

/// The texts of a list of saved builds.
pub open spec fn build_views(s: Seq<SavedBuild>) -> Seq<(Seq<char>, Seq<StatGoal>)> {
    s.map_values(|b: SavedBuild| build_view(b))
}

/// The first build whose name equals `name` ignoring ASCII case.
pub open spec fn find_index(bs: Seq<(Seq<char>, Seq<StatGoal>)>, name: Seq<char>) -> Option<int> {
    if exists|i: int| 0 <= i < bs.len() && ascii_lower(#[trigger] bs[i].0) == ascii_lower(name) {
        Some(
            choose|i: int|
                0 <= i < bs.len() && ascii_lower(bs[i].0) == ascii_lower(name) && forall|j: int|
                    0 <= j < i ==> ascii_lower(#[trigger] bs[j].0) != ascii_lower(name),
        )
    } else {
        None
    }
}

impl SavedBuilds {
    /// The builds, in file order.
    pub closed spec fn view(&self) -> Seq<(Seq<char>, Seq<StatGoal>)> {
        build_views(self.builds@)
    }

    /// No builds.
    pub fn new() -> (r: SavedBuilds)
        ensures
            r.view() == Seq::<(Seq<char>, Seq<StatGoal>)>::empty(),
    {
        let r = SavedBuilds { builds: Vec::new() };
        assert(r.view() =~= Seq::<(Seq<char>, Seq<StatGoal>)>::empty());
        r
    }

    /// Whether there are no builds.
    pub fn is_empty(&self) -> (r: bool)
        ensures
            r == (self.view().len() == 0),
    {
        self.builds.len() == 0
    }

    /// The builds, in file order.
    pub fn builds(&self) -> (r: &[SavedBuild])
        ensures
            build_views(r@) == self.view(),
    {
        self.builds.as_slice()
    }

    fn position(&self, name: &str) -> (r: Option<usize>)
        ensures
            r matches Some(i) ==> find_index(self.view(), name@) == Some(i as int) && i < self.view().len(),
            r is None ==> find_index(self.view(), name@) is None,
    {
        let ghost bs = self.view();
        let mut k: usize = 0;
        while k < self.builds.len()
            invariant
                k <= self.builds@.len(),
                bs == self.view(),
                forall|j: int| 0 <= j < k ==> ascii_lower(#[trigger] bs[j].0) != ascii_lower(name@),
            decreases self.builds@.len() - k,
        {
            assert(bs[k as int].0 == self.builds@[k as int].name@);
            if eq_ignore_ascii_case(self.builds[k].name.as_str(), name) {
                proof {
                    let c = choose|i: int|
                        0 <= i < bs.len() && ascii_lower(bs[i].0) == ascii_lower(name@) && forall|j: int|
                            0 <= j < i ==> ascii_lower(#[trigger] bs[j].0) != ascii_lower(name@);
                    if c > k {
                        assert(ascii_lower(bs[k as int].0) == ascii_lower(name@));
                    }
                }
                return Some(k);
            }
            k += 1;
        }
        None
    }

    /// The first build named `name`, ignoring ASCII case.
    pub fn find(&self, name: &str) -> (r: Option<&SavedBuild>)
        ensures
            match find_index(self.view(), name@) {
                Some(i) => r matches Some(b) && build_view(*b) == self.view()[i],
                None => r is None,
            },
    {
        match self.position(name) {
            Some(i) => Some(&self.builds[i]),
            None => None,
        }
    }

    /// Saves `goals` under `name`: replaces the build named `name` ignoring
    /// ASCII case (taking the new spelling), or appends a new build.
    pub fn upsert(&mut self, name: String, goals: Vec<StatGoal>)
        ensures
            match find_index(old(self).view(), name@) {
                Some(i) => final(self).view() == old(self).view().update(i, (name@, goals@)),
                None => final(self).view() == old(self).view().push((name@, goals@)),
            },
    {
        let ghost before = self.view();
        match self.position(name.as_str()) {
            Some(i) => {
                self.builds.set(i, SavedBuild { name, goals });
                assert(self.view() =~= before.update(i as int, (name@, goals@)));
            },
            None => {
                self.builds.push(SavedBuild { name, goals });
                assert(self.view() =~= before.push((name@, goals@)));
            },
        }
    }

    /// Builds from their texts (names and goals).
    pub fn from_builds(builds: Vec<SavedBuild>) -> (r: SavedBuilds)
        ensures
            r.view() == build_views(builds@),
    {
        SavedBuilds { builds }
    }
}

// ── Reading ──────────────────────────────────────────────────────────────────

/// The goals of one build from its `goals` array entries, from position `k`
/// on.
pub open spec fn goals_from(name: Seq<char>, arr: Seq<TomlView>, k: int, acc: Seq<StatGoal>) -> Result<Seq<StatGoal>, Seq<char>>
    decreases arr.len() - k,
{
    if k < 0 || k >= arr.len() {
        Ok(acc)
    } else {
        match arr[k] {
            TomlView::String(s) => match parse_goal_spec(s) {
                Ok(g) => goals_from(name, arr, k + 1, acc.push(g)),
                Err(e) => Err("Invalid goal `"@ + s + "` in build `"@ + name + "`: "@ + e),
            },
            _ => Err("Build `"@ + name + "` has a non-string goal entry in `goals`."@),
        }
    }
}

/// The goals of one build, or why the build is malformed.
#[verifier::opaque]
pub open spec fn build_goals(name: Seq<char>, v: TomlView, path: Seq<char>) -> Result<Seq<StatGoal>, Seq<char>> {
    match v {
        TomlView::Table(t) => match other_key_index(t, "goals"@) {
            Some(i) => Err("Unknown key `"@ + t[i].0 + "` in build `"@ + name + "`."@),
            None => match entry_index(t, "goals"@) {
                None => Err("Build `"@ + name + "` is missing `goals`."@),
                Some(i) => match t[i].1 {
                    TomlView::Array(arr) => if arr.len() == 0 {
                        Err("Build `"@ + name + "` has an empty `goals` array."@)
                    } else {
                        goals_from(name, arr, 0, Seq::empty())
                    },
                    _ => Err("Build `"@ + name + "` field `goals` must be an array."@),
                },
            },
        },
        _ => Err("Build `"@ + name + "` in "@ + path + " must be a TOML table"@),
    }
}

/// The earlier entry whose name equals entry `i`'s ignoring ASCII case.
#[verifier::opaque]
pub open spec fn earlier_same_name(t: Seq<(Seq<char>, TomlView)>, i: int) -> Option<int> {
    if exists|j: int| 0 <= j < i && ascii_lower(#[trigger] t[j].0) == ascii_lower(t[i].0) {
        Some(choose|j: int| 0 <= j < i && ascii_lower(#[trigger] t[j].0) == ascii_lower(t[i].0))
    } else {
        None
    }
}

/// The builds of the `builds` table from entry `i` on.
pub open spec fn builds_from(
    t: Seq<(Seq<char>, TomlView)>,
    path: Seq<char>,
    i: int,
    acc: Seq<(Seq<char>, Seq<StatGoal>)>,
) -> Result<Seq<(Seq<char>, Seq<StatGoal>)>, Seq<char>>
    decreases t.len() - i,
{
    if i < 0 || i >= t.len() {
        Ok(acc)
    } else {
        let name = t[i].0;
        if trim_spec(name).len() == 0 {
            Err("Saved build names in "@ + path + " must not be empty"@)
        } else {
            match earlier_same_name(t, i) {
                Some(j) => Err("Duplicate build names `"@ + t[j].0 + "` and `"@ + name + "` in "@ + path
                    + " (build names are case-insensitive)."@),
                None => match build_goals(name, t[i].1, path) {
                    Err(e) => Err(e),
                    Ok(goals) => builds_from(t, path, i + 1, acc.push((name, goals))),
                },
            }
        }
    }
}

/// What reading a saved-builds document gives.
pub open spec fn saved_builds_spec(src: Seq<char>, path: Seq<char>) -> Result<Seq<(Seq<char>, Seq<StatGoal>)>, Seq<char>> {
    match toml_parsed(src) {
        Err(e) => Err("Malformed TOML in "@ + path + ": "@ + e),
        Ok(TomlView::Table(root)) => match other_key_index(root, "builds"@) {
            Some(i) => Err("Unknown top-level key `"@ + root[i].0 + "` in "@ + path
                + ". Expected only `[builds.<name>]` entries."@),
            None => match entry_index(root, "builds"@) {
                None => Ok(Seq::empty()),
                Some(i) => match root[i].1 {
                    TomlView::Table(bt) => builds_from(bt, path, 0, Seq::empty()),
                    _ => Err("`builds` in "@ + path + " must be a TOML table of `[builds.<name>]` entries"@),
                },
            },
        },
        Ok(_) => Err("Saved builds file "@ + path + " must contain a TOML table"@),
    }
}

fn read_goals(name: &str, arr: &Vec<TomlValue>) -> (r: Result<Vec<StatGoal>, String>)
    ensures
        match goals_from(name@, toml_items(arr@), 0, Seq::empty()) {
            Ok(gs) => r matches Ok(v) && v@ == gs,
            Err(e) => r matches Err(m) && m@ == e,
        },
{
    let ghost av = toml_items(arr@);
    let mut goals: Vec<StatGoal> = Vec::new();
    let mut k: usize = 0;
    while k < arr.len()
        invariant
            k <= arr@.len(),
            av == toml_items(arr@),
            goals_from(name@, av, 0, Seq::empty()) == goals_from(name@, av, k as int, goals@),
        decreases arr@.len() - k,
    {
        assert(av[k as int] == toml_view(arr@[k as int]));
        proof {
            lemma_view_shape(arr@[k as int]);
        }
        match &arr[k] {
            TomlValue::String(s) => match parse_goal(s.as_str()) {
                Ok(g) => {
                    goals.push(g);
                },
                Err(e) => {
                    let mut m = concat3("Invalid goal `", s.as_str(), "` in build `");
                    m.append(name);
                    m.append("`: ");
                    m.append(e.as_str());
                    return Err(m);
                },
            },
            _ => {
                let mut m = concat3("Build `", name, "` has a non-string goal entry in `goals`.");
                return Err(m);
            },
        }
        k += 1;
    }
    Ok(goals)
}

#[verifier::rlimit(40)]
fn read_build_goals(name: &str, v: &TomlValue, path: &str) -> (r: Result<Vec<StatGoal>, String>)
    ensures
        match build_goals(name@, toml_view(*v), path@) {
            Ok(gs) => r matches Ok(g) && g@ == gs,
            Err(e) => r matches Err(m) && m@ == e,
        },
{
    reveal(build_goals);
    proof {
        lemma_view_shape(*v);
    }
    match v {
        TomlValue::Table(t) => {
            proof {
                lemma_table_view(*t);
            }
            if let Some(i) = find_other_key(t, "goals") {
                assert(toml_entries(t@)[i as int].0 == t@[i as int].0@);
                let mut m = concat3("Unknown key `", t[i].0.as_str(), "` in build `");
                m.append(name);
                m.append("`.");
                return Err(m);
            }
            match find_key(t, "goals") {
                None => Err(concat3("Build `", name, "` is missing `goals`.")),
                Some(i) => {
                    assert(toml_entries(t@)[i as int].1 == toml_view(t@[i as int].1));
                    proof {
                        lemma_view_shape(t@[i as int].1);
                    }
                    match &t[i].1 {
                        TomlValue::Array(arr) => {
                            proof {
                                lemma_array_view(*arr);
                            }
                            if arr.len() == 0 {
                                Err(concat3("Build `", name, "` has an empty `goals` array."))
                            } else {
                                read_goals(name, arr)
                            }
                        },
                        _ => Err(concat3("Build `", name, "` field `goals` must be an array.")),
                    }
                },
            }
        },
        _ => {
            let mut m = concat3("Build `", name, "` in ");
            m.append(path);
            m.append(" must be a TOML table");
            Err(m)
        },
    }
}

#[verifier::rlimit(40)]
fn read_builds(t: &Vec<(String, TomlValue)>, path: &str) -> (r: Result<SavedBuilds, String>)
    ensures
        match builds_from(toml_entries(t@), path@, 0, Seq::empty()) {
            Ok(bs) => r matches Ok(b) && b.view() == bs,
            Err(e) => r matches Err(m) && m@ == e,
        },
{
    let ghost tv = toml_entries(t@);
    let mut builds: Vec<SavedBuild> = Vec::new();
    let mut lowered: Vec<String> = Vec::new();
    let mut i: usize = 0;
    assert(build_views(builds@) =~= Seq::<(Seq<char>, Seq<StatGoal>)>::empty());
    while i < t.len()
        invariant
            i <= t@.len(),
            tv == toml_entries(t@),
            lowered@.len() == i,
            forall|j: int| 0 <= j < i ==> #[trigger] lowered@[j]@ == ascii_lower(tv[j].0),
            forall|p: int, q: int| 0 <= p < q < i ==> ascii_lower(#[trigger] tv[p].0) != ascii_lower(#[trigger] tv[q].0),
            builds_from(tv, path@, 0, Seq::empty()) == builds_from(tv, path@, i as int, build_views(builds@)),
        decreases t@.len() - i,
    {
        let name = &t[i].0;
        assert(tv[i as int] == (t@[i as int].0@, toml_view(t@[i as int].1)));
        let trimmed = trim(name.as_str());
        if trimmed.unicode_len() == 0 {
            let mut m = "Saved build names in ".to_owned();
            m.append(path);
            m.append(" must not be empty");
            return Err(m);
        }
        let lower = to_ascii_lowercase(name.as_str());
        let mut j: usize = 0;
        while j < i
            invariant
                j <= i,
                i < t@.len(),
                lowered@.len() == i,
                tv == toml_entries(t@),
                lower@ == ascii_lower(tv[i as int].0),
                forall|q: int| 0 <= q < i ==> #[trigger] lowered@[q]@ == ascii_lower(tv[q].0),
                forall|p: int, q: int| 0 <= p < q < i ==> ascii_lower(#[trigger] tv[p].0) != ascii_lower(#[trigger] tv[q].0),
                forall|q: int| 0 <= q < j ==> ascii_lower(#[trigger] tv[q].0) != ascii_lower(tv[i as int].0),
                trim_spec(tv[i as int].0).len() > 0,
                tv[i as int].0 == name@,
                builds_from(tv, path@, 0, Seq::empty()) == builds_from(tv, path@, i as int, build_views(builds@)),
            decreases i - j,
        {
            if str_eq(lowered[j].as_str(), lower.as_str()) {
                proof {
                    reveal(earlier_same_name);
                    assert(ascii_lower(tv[j as int].0) == ascii_lower(tv[i as int].0));
                    let c = choose|q: int| 0 <= q < i && ascii_lower(#[trigger] tv[q].0) == ascii_lower(tv[i as int].0);
                    if c != j {
                        assert(ascii_lower(tv[c].0) == ascii_lower(tv[j as int].0));
                    }
                    assert(earlier_same_name(tv, i as int) == Some(j as int));
                    assert(tv[j as int].0 == t@[j as int].0@);
                }
                let mut m = concat3("Duplicate build names `", t[j].0.as_str(), "` and `");
                m.append(name.as_str());
                m.append("` in ");
                m.append(path);
                m.append(" (build names are case-insensitive).");
                return Err(m);
            }
            j += 1;
        }
        assert(earlier_same_name(tv, i as int) is None) by {
            reveal(earlier_same_name);
        }
        match read_build_goals(name.as_str(), &t[i].1, path) {
            Err(e) => {
                return Err(e);
            },
            Ok(goals) => {
                let ghost old_b = builds@;
                builds.push(SavedBuild { name: name.clone(), goals });
                assert(build_views(builds@) =~= build_views(old_b).push((tv[i as int].0, goals@)));
            },
        }
        lowered.push(lower);
        i += 1;
    }
    Ok(SavedBuilds { builds })
}

impl SavedBuilds {
    /// Reads a saved-builds document; `path` is how its file is shown in
    /// errors.
    #[verifier::rlimit(40)]
    pub fn from_toml_str(src: &str, path: &str) -> (r: Result<SavedBuilds, String>)
        ensures
            match saved_builds_spec(src@, path@) {
                Ok(bs) => r matches Ok(b) && b.view() == bs,
                Err(e) => r matches Err(m) && m@ == e,
            },
    {
        let doc = match parse_toml(src) {
            Ok(d) => d,
            Err(e) => {
                let mut m = concat3("Malformed TOML in ", path, ": ");
                m.append(e.as_str());
                return Err(m);
            },
        };
        proof {
            lemma_view_shape(doc);
        }
        match &doc {
            TomlValue::Table(root) => {
                proof {
                    lemma_table_view(*root);
                }
                if let Some(i) = find_other_key(root, "builds") {
                    assert(toml_entries(root@)[i as int].0 == root@[i as int].0@);
                    let mut m = concat3("Unknown top-level key `", root[i].0.as_str(), "` in ");
                    m.append(path);
                    m.append(". Expected only `[builds.<name>]` entries.");
                    return Err(m);
                }
                match find_key(root, "builds") {
                    None => Ok(SavedBuilds::new()),
                    Some(i) => {
                        assert(toml_entries(root@)[i as int].1 == toml_view(root@[i as int].1));
                        proof {
                            lemma_view_shape(root@[i as int].1);
                        }
                        match &root[i].1 {
                            TomlValue::Table(bt) => {
                                proof {
                                    lemma_table_view(*bt);
                                }
                                read_builds(bt, path)
                            },
                            _ => Err(concat3("`builds` in ", path, " must be a TOML table of `[builds.<name>]` entries")),
                        }
                    },
                }
            },
            _ => Err(concat3("Saved builds file ", path, " must contain a TOML table")),
        }
    }
}

// ── Writing ──────────────────────────────────────────────────────────────────

/// The decimal text of an integer, with a leading `-` when negative.
pub open spec fn int_text(n: i64) -> Seq<char> {
    if n < 0 {
        "-"@ + decimal_string((-(n as int)) as nat)
    } else {
        decimal_string(n as nat)
    }
}

/// The canonical text of a goal: the stat's abbreviation (or key when it
/// has none), `:`, and the minimum.
pub open spec fn goal_text(g: StatGoal) -> Seq<char> {
    let name = match abbreviation_spec(g.stat) {
        Some(a) => a,
        None => stat_key_spec(g.stat),
    };
    name + ":"@ + int_text(g.minimum)
}

fn write_int(s: &mut String, n: i64)
    ensures
        final(s)@ == old(s)@ + int_text(n),
{
    if n < 0 {
        s.append("-");
        let m: u64 = (-(n as i128)) as u64;
        let d = string_from_chars(decimal_chars(m).as_slice());
        s.append(d.as_str());
    } else {
        let d = string_from_chars(decimal_chars(n as u64).as_slice());
        s.append(d.as_str());
    }
}

/// The canonical text of a goal.
pub fn goal_to_string(g: &StatGoal) -> (r: String)
    ensures
        r@ == goal_text(*g),
{
    let name = match abbreviation_for(g.stat) {
        Some(a) => a,
        None => stat_key(g.stat),
    };
    let mut r = name.to_owned();
    r.append(":");
    write_int(&mut r, g.minimum);
    r
}

/// `items` joined with `sep`.
pub open spec fn join_spec(items: Seq<Seq<char>>, sep: Seq<char>) -> Seq<char>
    decreases items.len(),
{
    if items.len() == 0 {
        Seq::empty()
    } else if items.len() == 1 {
        items[0]
    } else {
        join_spec(items.drop_last(), sep) + sep + items.last()
    }
}

/// `items` joined with `sep`.
pub fn join_strings(items: &Vec<String>, sep: &str) -> (r: String)
    ensures
        r@ == join_spec(string_views(items@), sep@),
{
    let mut r = String::new();
    let mut k: usize = 0;
    while k < items.len()
        invariant
            k <= items@.len(),
            r@ == join_spec(string_views(items@.subrange(0, k as int)), sep@),
        decreases items@.len() - k,
    {
        let ghost before = string_views(items@.subrange(0, k as int));
        if k > 0 {
            r.append(sep);
        }
        r.append(items[k].as_str());
        k += 1;
        proof {
            let now = string_views(items@.subrange(0, k as int));
            assert(now.drop_last() =~= before);
            assert(now.last() == items@[k - 1]@);
            if k == 1 {
                assert(before.len() == 0);
                assert(r@ =~= now[0]);
            }
        }
    }
    assert(items@.subrange(0, items@.len() as int) =~= items@);
    r
}

/// The TOML array body of a build's goals: each goal's text quoted, joined
/// with `, `.
pub open spec fn goal_list_spec(goals: Seq<StatGoal>) -> Seq<char> {
    join_spec(goals.map_values(|g: StatGoal| toml_quoted(goal_text(g))), ", "@)
}

/// A bare-key character: ASCII letter or digit, `_` or `-`.
pub open spec fn is_bare_key_char(c: char) -> bool {
    ('a' <= c && c <= 'z') || ('A' <= c && c <= 'Z') || ('0' <= c && c <= '9') || c == '_' || c == '-'
}

/// The table-header key of a build name: bare when TOML allows it, else
/// quoted.
pub open spec fn header_key_spec(name: Seq<char>) -> Seq<char> {
    if forall|i: int| 0 <= i < name.len() ==> is_bare_key_char(#[trigger] name[i]) {
        name
    } else {
        toml_quoted(name)
    }
}

fn format_build_header_key(name: &str) -> (r: String)
    ensures
        r@ == header_key_spec(name@),
{
    let n = name.unicode_len();
    let mut k: usize = 0;
    while k < n
        invariant
            n == name@.len(),
            k <= n,
            forall|i: int| 0 <= i < k ==> is_bare_key_char(#[trigger] name@[i]),
        decreases n - k,
    {
        let c = name.get_char(k);
        if !(('a' <= c && c <= 'z') || ('A' <= c && c <= 'Z') || ('0' <= c && c <= '9') || c == '_' || c == '-') {
            return quote_toml_string(name);
        }
        k += 1;
    }
    name.to_owned()
}

fn goal_list(goals: &Vec<StatGoal>) -> (r: String)
    ensures
        r@ == goal_list_spec(goals@),
{
    let ghost items = goals@.map_values(|g: StatGoal| toml_quoted(goal_text(g)));
    let mut r = String::new();
    let mut k: usize = 0;
    while k < goals.len()
        invariant
            k <= goals@.len(),
            items == goals@.map_values(|g: StatGoal| toml_quoted(goal_text(g))),
            r@ == join_spec(items.subrange(0, k as int), ", "@),
        decreases goals@.len() - k,
    {
        let text = goal_to_string(&goals[k]);
        let quoted = quote_toml_string(text.as_str());
        let ghost sub = items.subrange(0, k + 1);
        assert(sub.drop_last() =~= items.subrange(0, k as int));
        if k > 0 {
            r.append(", ");
        } else {
            assert(items.subrange(0, k as int) =~= Seq::<Seq<char>>::empty());
        }
        r.append(quoted.as_str());
        k += 1;
    }
    assert(items.subrange(0, items.len() as int) =~= items);
    r
}

/// The `[builds.<name>]` sections of the first `n` builds of `bs`.
pub open spec fn sections_spec(bs: Seq<(Seq<char>, Seq<StatGoal>)>, n: int) -> Seq<char>
    decreases n,
{
    if n <= 0 {
        Seq::empty()
    } else {
        sections_spec(bs, n - 1) + "[builds."@ + header_key_spec(bs[n - 1].0) + "]\ngoals = ["@ + goal_list_spec(
            bs[n - 1].1,
        ) + "]\n"@ + if n != bs.len() {
            "\n"@
        } else {
            ""@
        }
    }
}

/// The saved-builds file text: a comment header, then one section per build
/// separated by blank lines.
pub open spec fn to_toml_spec(bs: Seq<(Seq<char>, Seq<StatGoal>)>) -> Seq<char> {
    let header = "# LGO saved build profiles. Hand-editing is fine.\n# Goals are priority-ordered: first entry = highest priority.\n"@;
    if bs.len() == 0 {
        header
    } else {
        header + "\n"@ + sections_spec(bs, bs.len() as int)
    }
}

impl SavedBuilds {
    /// The saved-builds file text.
    pub fn to_toml_string(&self) -> (r: String)
        ensures
            r@ == to_toml_spec(self.view()),
    {
        let ghost bs = self.view();
        let mut out = "# LGO saved build profiles. Hand-editing is fine.\n# Goals are priority-ordered: first entry = highest priority.\n".to_owned();
        if self.builds.len() == 0 {
            return out;
        }
        let mut sections = String::new();
        let n = self.builds.len();
        let mut k: usize = 0;
        while k < n
            invariant
                n == self.builds@.len(),
                bs == self.view(),
                k <= n,
                sections@ == sections_spec(bs, k as int),
            decreases n - k,
        {
            let b = &self.builds[k];
            assert(bs[k as int] == (b.name@, b.goals@));
            let key = format_build_header_key(b.name.as_str());
            let list = goal_list(&b.goals);
            sections.append("[builds.");
            sections.append(key.as_str());
            sections.append("]\ngoals = [");
            sections.append(list.as_str());
            sections.append("]\n");
            let sep = if k + 1 != n {
                "\n"
            } else {
                ""
            };
            sections.append(sep);
            k += 1;
        }
        out.append("\n");
        out.append(sections.as_str());
        out
    }
}

// ── Laws ─────────────────────────────────────────────────────────────────────

/// The builds after saving `goals` under `name`.
pub open spec fn upserted(bs: Seq<(Seq<char>, Seq<StatGoal>)>, name: Seq<char>, goals: Seq<StatGoal>) -> Seq<(Seq<char>, Seq<StatGoal>)> {
    match find_index(bs, name) {
        Some(i) => bs.update(i, (name, goals)),
        None => bs.push((name, goals)),
    }
}

proof fn lemma_find_index(bs: Seq<(Seq<char>, Seq<StatGoal>)>, q: Seq<char>)
    ensures
        match find_index(bs, q) {
            Some(i) => 0 <= i < bs.len() && ascii_lower(bs[i].0) == ascii_lower(q) && forall|j: int|
                0 <= j < i ==> ascii_lower(#[trigger] bs[j].0) != ascii_lower(q),
            None => forall|j: int| 0 <= j < bs.len() ==> ascii_lower(#[trigger] bs[j].0) != ascii_lower(q),
        },
{
    if exists|i: int| 0 <= i < bs.len() && ascii_lower(#[trigger] bs[i].0) == ascii_lower(q) {
        let w = choose|i: int| 0 <= i < bs.len() && ascii_lower(#[trigger] bs[i].0) == ascii_lower(q);
        lemma_first_match_exists(bs, q, w);
    }
}

proof fn lemma_first_match_exists(bs: Seq<(Seq<char>, Seq<StatGoal>)>, q: Seq<char>, w: int)
    requires
        0 <= w < bs.len(),
        ascii_lower(bs[w].0) == ascii_lower(q),
    ensures
        exists|i: int|
            0 <= i < bs.len() && ascii_lower(bs[i].0) == ascii_lower(q) && forall|j: int|
                0 <= j < i ==> ascii_lower(#[trigger] bs[j].0) != ascii_lower(q),
    decreases w,
{
    if exists|j: int| 0 <= j < w && ascii_lower(#[trigger] bs[j].0) == ascii_lower(q) {
        let j = choose|j: int| 0 <= j < w && ascii_lower(#[trigger] bs[j].0) == ascii_lower(q);
        lemma_first_match_exists(bs, q, j);
    } else {
        assert(forall|j: int| 0 <= j < w ==> ascii_lower(#[trigger] bs[j].0) != ascii_lower(q));
    }
}

/// A saved build is what a later lookup of its name finds, in any ASCII case,
/// and saving it leaves what every other name finds unchanged.
pub proof fn lemma_upsert_then_find(bs: Seq<(Seq<char>, Seq<StatGoal>)>, name: Seq<char>, goals: Seq<StatGoal>, query: Seq<char>)
    ensures
        ({
            let after = upserted(bs, name, goals);
            if ascii_lower(query) == ascii_lower(name) {
                find_index(after, query) matches Some(k) && after[k] == (name, goals)
            } else {
                match find_index(bs, query) {
                    Some(k) => find_index(after, query) == Some(k) && after[k] == bs[k],
                    None => find_index(after, query) is None,
                }
            }
        }),
{
    let after = upserted(bs, name, goals);
    lemma_find_index(bs, name);
    lemma_find_index(bs, query);
    lemma_find_index(after, query);
    match find_index(bs, name) {
        Some(i) => {
            assert(0 <= i < bs.len());
            assert(forall|j: int| 0 <= j < i ==> ascii_lower(#[trigger] bs[j].0) != ascii_lower(name));
            assert(ascii_lower(bs[i].0) == ascii_lower(name));
            if ascii_lower(query) == ascii_lower(name) {
                assert(ascii_lower(after[i].0) == ascii_lower(query));
                let k = find_index(after, query).unwrap();
                assert(k == i) by {
                    if k < i {
                        assert(after[k] == bs[k]);
                    } else if k > i {
                        assert(ascii_lower(after[i].0) == ascii_lower(query));
                    }
                }
            } else {
                match find_index(bs, query) {
                    Some(k) => {
                        assert(k != i);
                        assert(after[k] == bs[k]);
                        assert(ascii_lower(after[k].0) == ascii_lower(query));
                        let k2 = find_index(after, query).unwrap();
                        assert(k2 == k) by {
                            if k2 < k {
                                if k2 != i {
                                    assert(after[k2] == bs[k2]);
                                }
                            } else if k2 > k {
                                assert(ascii_lower(after[k].0) == ascii_lower(query));
                            }
                        }
                    },
                    None => {
                        if exists|j: int| 0 <= j < after.len() && ascii_lower(#[trigger] after[j].0) == ascii_lower(query) {
                            let j = choose|j: int| 0 <= j < after.len() && ascii_lower(#[trigger] after[j].0) == ascii_lower(query);
                            if j != i {
                                assert(after[j] == bs[j]);
                            }
                        }
                    },
                }
            }
        },
        None => {
            assert(forall|j: int| 0 <= j < bs.len() ==> ascii_lower(#[trigger] bs[j].0) != ascii_lower(name));
            let n = bs.len() as int;
            if ascii_lower(query) == ascii_lower(name) {
                assert(ascii_lower(after[n].0) == ascii_lower(query));
                let k = find_index(after, query).unwrap();
                assert(k == n) by {
                    if k < n {
                        assert(after[k] == bs[k]);
                    }
                }
            } else {
                match find_index(bs, query) {
                    Some(k) => {
                        assert(after[k] == bs[k]);
                        assert(ascii_lower(after[k].0) == ascii_lower(query));
                        let k2 = find_index(after, query).unwrap();
                        assert(k2 == k) by {
                            if k2 < k {
                                assert(after[k2] == bs[k2]);
                            } else if k2 > k {
                                assert(ascii_lower(after[k].0) == ascii_lower(query));
                            }
                        }
                    },
                    None => {
                        if exists|j: int| 0 <= j < after.len() && ascii_lower(#[trigger] after[j].0) == ascii_lower(query) {
                            let j = choose|j: int| 0 <= j < after.len() && ascii_lower(#[trigger] after[j].0) == ascii_lower(query);
                            if j < n {
                                assert(after[j] == bs[j]);
                            }
                        }
                    },
                }
            }
        },
    }
}

} // verus!
