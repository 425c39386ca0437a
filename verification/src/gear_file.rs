//! Resolved and merged gear files: the export with its items resolved
//! against the DB and regrouped, and the merge of an export into the
//! canonical file, both written through the layout-keeping edits of
//! `gear_doc`.
use vstd::prelude::*;

use crate::gear::{parse_slot_display, parse_slot_display_spec, Slot};
use crate::slot_resolver::{
    apply_generated_header, divider_prefix_spec, first_candidate, group_by_family, group_divider_prefix, group_key, group_label,
    group_order,
    group_view, group_views, groups_spec, groups_upto, is_candidate, is_equal_candidate, lookup_name, match_for, members_upto,
    merge_added, merge_prev, merge_spec, merge_step, named_items, opt_text, plan_merge, resolve_items, strings_view,
    strip_blank_lines_spec, strip_dividers_spec, strip_family_dividers, strip_leading_blank_lines, unknown_slot_items,
    with_header_spec, DbItem, ItemFields, ItemsDb, MergeOutcome, MergeSource, MergeState, PlanStep, PromptAnswer,
    PromptCategory,
};
use crate::stat::{tracked_stats, tracked_stats_spec};
use crate::text::concat3;

verus! {

// ── Resolved and merged gear files ─────────────────────────────────────────

/// The key of the sub-table that holds an item's essence totals.
pub open spec fn essence_key() -> Seq<char> {
    "EssenceTotals"@
}

/// Each tracked stat's key with its value in `m`, in canonical order.
pub open spec fn stat_entries(m: crate::stat::StatMap) -> Seq<(Seq<char>, int)> {
    tracked_stats_spec().map_values(|s: crate::stat::Stat| (crate::stat::stat_key_spec(s), m.value(s) as int))
}

/// Whether `fs` holds what resolving and merging read from the item tables `a`.
pub open spec fn fields_match(fs: Seq<ItemFields>, a: Seq<crate::toml_doc::TomlView>) -> bool {
    &&& fs.len() == a.len()
    &&& forall|i: int| 0 <= i < a.len() ==> crate::gearstats::fields_of(#[trigger] fs[i], a[i]->Table_0)
}

/// What reading the items of a gear file gives: the item tables, or the error
/// for the file at `path`.
pub open spec fn file_tables(src: Seq<char>, path: Seq<char>) -> Result<Seq<crate::toml_doc::TomlView>, Seq<char>> {
    match crate::toml_doc::toml_parsed(src) {
        Err(e) => Err("Cannot parse TOML "@ + path + ": "@ + e),
        Ok(v) => match crate::gearstats::item_tables(v) {
            None => Err("No [[item]] array found in "@ + path),
            Some(a) => Ok(a),
        },
    }
}

/// The fields of each `[[item]]` table of a gear file (read with the `toml`
/// crate), or the error for the file at `path`.
pub fn gear_file_fields(src: &str, path: &str) -> (r: Result<Vec<ItemFields>, String>)
    ensures
        match file_tables(src@, path@) {
            Err(m) => r matches Err(e) && e@ == m,
            Ok(a) => r matches Ok(fs) && fields_match(fs@, a),
        },
{
    match crate::toml_doc::parse_toml(src) {
        Err(e) => {
            let mut m = concat3("Cannot parse TOML ", path, ": ");
            m.append(e.as_str());
            Err(m)
        },
        Ok(root) => match crate::gearstats::export_items(&root) {
            None => Err(crate::text::concat2("No [[item]] array found in ", path)),
            Some(fs) => Ok(fs),
        },
    }
}

/// The error for a gear file whose `toml_edit` parse fails.
pub open spec fn edit_error_text(path: Seq<char>, e: Seq<char>) -> Seq<char> {
    "Cannot parse TOML "@ + path + ": "@ + e
}

/// `d` with the entries `kvs[0..n]` of item table `i` moved, one after
/// another, to its end with their values.
pub open spec fn ints_replaced(d: Seq<char>, i: nat, kvs: Seq<(Seq<char>, int)>, n: int) -> Seq<char>
    decreases n,
{
    if n <= 0 {
        d
    } else {
        crate::gear_doc::edit_int_replaced(ints_replaced(d, i, kvs, n - 1), i, kvs[n - 1].0, kvs[n - 1].1)
    }
}

/// `d` with item table `i`'s tracked stats and essence totals written out in
/// canonical order with the values of `f` (absent ones as 0); the text before
/// the essence table is kept without its leading blank lines (where what is
/// left may stand before a table; else the new table has none), and so is the
/// text after its header (where it may stand there; else it has none).
pub open spec fn canonical_stats_doc(d: Seq<char>, i: nat, f: ItemFields) -> Seq<char> {
    let prefix = match crate::gear_doc::edit_sub_prefix(d, i, essence_key()) {
        Some(p) => if crate::gear_doc::decor_text(strip_blank_lines_spec(p)) {
            strip_blank_lines_spec(p)
        } else {
            Seq::empty()
        },
        None => Seq::empty(),
    };
    let suffix = match crate::gear_doc::edit_sub_suffix(d, i, essence_key()) {
        Some(x) => if crate::gear_doc::header_suffix_text(x) {
            x
        } else {
            Seq::empty()
        },
        None => Seq::empty(),
    };
    let d1 = crate::gear_doc::edit_key_removed(d, i, essence_key());
    let d2 = ints_replaced(d1, i, stat_entries(f.stats), stat_entries(f.stats).len() as int);
    crate::gear_doc::edit_table_set(d2, i, essence_key(), prefix, suffix, stat_entries(f.essence))
}

/// `d` with item table `i`'s `two_handed` flag present exactly when `b`.
pub open spec fn two_handed_doc(d: Seq<char>, i: nat, b: bool) -> Seq<char> {
    let d1 = crate::gear_doc::edit_key_removed(d, i, "two_handed"@);
    if b {
        crate::gear_doc::edit_bool_set(d1, i, "two_handed"@, true)
    } else {
        d1
    }
}

fn stat_lists(f: &ItemFields) -> (r: (Vec<(String, i64)>, Vec<(String, i64)>))
    ensures
        crate::gear_doc::ints_view(r.0@) == stat_entries(f.stats),
        crate::gear_doc::ints_view(r.1@) == stat_entries(f.essence),
{
    let listed = tracked_stats();
    let mut own: Vec<(String, i64)> = Vec::new();
    let mut ess: Vec<(String, i64)> = Vec::new();
    let mut k: usize = 0;
    while k < listed.len()
        invariant
            k <= listed@.len(),
            listed@ == tracked_stats_spec(),
            crate::gear_doc::ints_view(own@) == stat_entries(f.stats).take(k as int),
            crate::gear_doc::ints_view(ess@) == stat_entries(f.essence).take(k as int),
        decreases listed@.len() - k,
    {
        let st = listed[k];
        let key = crate::stat::stat_key(st);
        let ghost ob = own@;
        let ghost eb = ess@;
        own.push((key.to_owned(), f.stats.get(st)));
        ess.push((key.to_owned(), f.essence.get(st)));
        proof {
            assert(stat_entries(f.stats)[k as int] == (key@, f.stats.value(st) as int));
            assert(stat_entries(f.essence)[k as int] == (key@, f.essence.value(st) as int));
            assert(stat_entries(f.stats).take(k + 1) =~= stat_entries(f.stats).take(k as int).push((key@, f.stats.value(st) as int)));
            assert(stat_entries(f.essence).take(k + 1) =~= stat_entries(f.essence).take(k as int).push((key@, f.essence.value(st) as int)));
            assert(crate::gear_doc::ints_view(own@) =~= crate::gear_doc::ints_view(ob).push((key@, f.stats.value(st) as int)));
            assert(crate::gear_doc::ints_view(ess@) =~= crate::gear_doc::ints_view(eb).push((key@, f.essence.value(st) as int)));
        }
        k += 1;
        assert(crate::gear_doc::ints_view(own@) =~= stat_entries(f.stats).take(k as int));
        assert(crate::gear_doc::ints_view(ess@) =~= stat_entries(f.essence).take(k as int));
    }
    assert(stat_entries(f.stats).take(k as int) =~= stat_entries(f.stats));
    assert(stat_entries(f.essence).take(k as int) =~= stat_entries(f.essence));
    (own, ess)
}

fn write_canonical_stats(d: String, i: usize, f: &ItemFields) -> (r: String)
    requires
        crate::gear_doc::has_item(d@, i as nat),
    ensures
        r@ == canonical_stats_doc(d@, i as nat, *f),
        crate::gear_doc::edit_item_count(r@) == crate::gear_doc::edit_item_count(d@),
        crate::gear_doc::edit_parse_error(r@) is None,
{
    let (own, ess) = stat_lists(f);
    let prefix = match crate::gear_doc::sub_prefix(d.as_str(), i, "EssenceTotals") {
        Some(p) => {
            let q = strip_leading_blank_lines(p.as_str());
            if crate::gear_doc::is_decor_text(q.as_str()) {
                q
            } else {
                String::new()
            }
        },
        None => String::new(),
    };
    assert(crate::gear_doc::decor_text(prefix@));
    let suffix = match crate::gear_doc::sub_suffix(d.as_str(), i, "EssenceTotals") {
        Some(x) => {
            if crate::gear_doc::is_header_suffix_text(x.as_str()) {
                x
            } else {
                String::new()
            }
        },
        None => String::new(),
    };
    proof {
        reveal_strlit("EssenceTotals");
    }
    let d1 = crate::gear_doc::remove_key(d.as_str(), i, "EssenceTotals");
    let mut d2 = d1;
    let mut k: usize = 0;
    while k < own.len()
        invariant
            k <= own@.len(),
            d2@ == ints_replaced(d1@, i as nat, crate::gear_doc::ints_view(own@), k as int),
            crate::gear_doc::edit_item_count(d2@) == crate::gear_doc::edit_item_count(d@),
            crate::gear_doc::has_item(d2@, i as nat),
        decreases own@.len() - k,
    {
        d2 = crate::gear_doc::replace_int(d2.as_str(), i, own[k].0.as_str(), own[k].1);
        k += 1;
    }
    crate::gear_doc::set_table(d2.as_str(), i, "EssenceTotals", prefix.as_str(), suffix.as_str(), &ess)
}

fn set_two_handed_flag(d: String, i: usize, b: bool) -> (r: String)
    requires
        crate::gear_doc::has_item(d@, i as nat),
    ensures
        r@ == two_handed_doc(d@, i as nat, b),
        crate::gear_doc::edit_item_count(r@) == crate::gear_doc::edit_item_count(d@),
        crate::gear_doc::edit_parse_error(r@) is None,
{
    let d1 = crate::gear_doc::remove_key(d.as_str(), i, "two_handed");
    if b {
        crate::gear_doc::set_bool(d1.as_str(), i, "two_handed", true)
    } else {
        d1
    }
}

/// `d` with the text before item table `i` set to `p`, where `p` may stand
/// before a table; else `d` as it is.
pub open spec fn prefix_set_if_decor(d: Seq<char>, i: nat, p: Seq<char>) -> Seq<char> {
    if crate::gear_doc::decor_text(p) {
        crate::gear_doc::edit_prefix_set(d, i, p)
    } else {
        d
    }
}

fn set_prefix_checked(d: String, i: usize, p: &str) -> (r: String)
    requires
        crate::gear_doc::has_item(d@, i as nat),
        crate::gear_doc::edit_parse_error(d@) is None,
    ensures
        r@ == prefix_set_if_decor(d@, i as nat, p@),
        crate::gear_doc::edit_item_count(r@) == crate::gear_doc::edit_item_count(d@),
        crate::gear_doc::edit_parse_error(r@) is None,
{
    if crate::gear_doc::is_decor_text(p) {
        crate::gear_doc::set_table_prefix(d.as_str(), i, p)
    } else {
        d
    }
}

proof fn lemma_newline_is_decor()
    ensures
        crate::gear_doc::decor_text("\n"@),
{
    reveal_strlit("\n");
    let p = "\n"@;
    if p.len() > 0 && crate::gear_doc::in_comment_at(p, p.len() - 1) {
        let j = choose|j: int| 0 <= j <= p.len() - 1 && #[trigger] p[j] == '#' && forall|k: int| j <= k <= p.len() - 1 ==> p[k] != '\n';
        assert(p[0] == '\n');
    }
}

/// `d` with the first table of each group given its divider line, one group
/// after another (where the divider text may stand there).
pub open spec fn dividers_doc(d: Seq<char>, groups: Seq<(Seq<char>, Seq<int>)>, g: int) -> Seq<char>
    decreases g,
{
    if g <= 0 {
        d
    } else {
        let prev = dividers_doc(d, groups, g - 1);
        let idx = groups[g - 1].1[0] as nat;
        prefix_set_if_decor(prev, idx, divider_prefix_spec(crate::gear_doc::edit_prefix(prev, idx), groups[g - 1].0))
    }
}

/// The members of the first `g` groups, group after group.
pub open spec fn flat_members(groups: Seq<(Seq<char>, Seq<int>)>, g: int) -> Seq<int>
    decreases g,
{
    if g <= 0 {
        Seq::empty()
    } else {
        flat_members(groups, g - 1) + groups[g - 1].1
    }
}

/// The tables `order[0..k]` of `d`, each written out on its own, one after
/// another.
pub open spec fn tables_text(d: Seq<char>, order: Seq<int>, k: int) -> Seq<char>
    decreases k,
{
    if k <= 0 {
        Seq::empty()
    } else {
        tables_text(d, order, k - 1) + crate::gear_doc::edit_item_text(d, order[k - 1] as nat)
    }
}

/// How a gear file whose item tables have slot groups `keys` is laid out:
/// each group's first table behind its divider, the `InnateStats` table
/// first behind a blank line, and then the item tables group by group.
pub open spec fn regrouped_doc(d: Seq<char>, keys: Seq<Option<Slot>>) -> Seq<char> {
    let groups = groups_spec(keys);
    let base = dividers_doc(d, groups, groups.len() as int);
    let order = flat_members(groups, groups.len() as int);
    crate::gear_doc::edit_items_removed(crate::gear_doc::edit_innate_placed(base, 0, "\n"@)) + tables_text(base, order, order.len() as int)
}

proof fn lemma_members_range(keys: Seq<Option<Slot>>, g: Option<Slot>, n: int)
    requires
        0 <= n <= keys.len(),
    ensures
        forall|k: int| 0 <= k < members_upto(keys, g, n).len() ==> 0 <= #[trigger] members_upto(keys, g, n)[k] < n,
    decreases n,
{
    if n > 0 {
        lemma_members_range(keys, g, n - 1);
        let m = members_upto(keys, g, n - 1);
        if group_key(keys[n - 1]) == g {
            assert(members_upto(keys, g, n) == m.push(n - 1));
            assert forall|k: int| 0 <= k < m.push(n - 1).len() implies 0 <= #[trigger] m.push(n - 1)[k] < n by {
                if k < m.len() {
                    assert(m.push(n - 1)[k] == m[k]);
                }
            }
        } else {
            assert(members_upto(keys, g, n) == m);
        }
    }
}

proof fn lemma_groups_range(keys: Seq<Option<Slot>>, t: int)
    ensures
        forall|j: int| 0 <= j < groups_upto(keys, t).len() ==> (#[trigger] groups_upto(keys, t)[j]).1.len() > 0
            && forall|k: int| 0 <= k < groups_upto(keys, t)[j].1.len() ==> 0 <= #[trigger] groups_upto(keys, t)[j].1[k] < keys.len(),
    decreases t,
{
    if t > 0 {
        lemma_groups_range(keys, t - 1);
        let g = group_order()[t - 1];
        let m = members_upto(keys, g, keys.len() as int);
        lemma_members_range(keys, g, keys.len() as int);
        let prev = groups_upto(keys, t - 1);
        if m.len() != 0 {
            let cur = prev.push((group_label(g), m));
            assert(groups_upto(keys, t) == cur);
            assert forall|j: int| 0 <= j < cur.len() implies (#[trigger] cur[j]).1.len() > 0
                && forall|k: int| 0 <= k < cur[j].1.len() ==> 0 <= #[trigger] cur[j].1[k] < keys.len() by {
                if j < prev.len() {
                    assert(cur[j] == prev[j]);
                }
            }
        } else {
            assert(groups_upto(keys, t) == prev);
        }
    }
}

proof fn lemma_flat_range(groups: Seq<(Seq<char>, Seq<int>)>, g: int, n: int)
    requires
        0 <= g <= groups.len(),
        forall|j: int| 0 <= j < groups.len() ==> forall|k: int| 0 <= k < (#[trigger] groups[j]).1.len() ==> 0 <= #[trigger] groups[j].1[k] < n,
    ensures
        forall|k: int| 0 <= k < flat_members(groups, g).len() ==> 0 <= #[trigger] flat_members(groups, g)[k] < n,
    decreases g,
{
    if g > 0 {
        lemma_flat_range(groups, g - 1, n);
        let a = flat_members(groups, g - 1);
        let b = groups[g - 1].1;
        assert forall|k: int| 0 <= k < (a + b).len() implies 0 <= #[trigger] (a + b)[k] < n by {
            if k >= a.len() {
                assert((a + b)[k] == b[k - a.len()]);
            }
        }
    }
}

/// Lays out the item tables of `d` in the groups of `keys` (see
/// `regrouped_doc`).
fn regroup(d: String, keys: &Vec<Option<Slot>>) -> (r: String)
    requires
        crate::gear_doc::edit_item_count(d@) == Some(keys@.len()),
        crate::gear_doc::edit_parse_error(d@) is None,
    ensures
        r@ == regrouped_doc(d@, keys@),
{
    let groups = group_by_family(keys.as_slice());
    let ghost gs = groups_spec(keys@);
    proof {
        lemma_groups_range(keys@, group_order().len() as int);
    }
    let n = keys.len();
    let mut doc = d;
    let mut g: usize = 0;
    while g < groups.len()
        invariant
            g <= groups@.len(),
            n == keys@.len(),
            group_views(groups@) == gs,
            gs == groups_spec(keys@),
            forall|j: int| 0 <= j < gs.len() ==> (#[trigger] gs[j]).1.len() > 0 && forall|k: int|
                0 <= k < gs[j].1.len() ==> 0 <= #[trigger] gs[j].1[k] < keys@.len(),
            doc@ == dividers_doc(d@, gs, g as int),
            crate::gear_doc::edit_item_count(doc@) == Some(n as nat),
            crate::gear_doc::edit_parse_error(doc@) is None,
        decreases groups@.len() - g,
    {
        assert(group_view(groups@[g as int]) == gs[g as int]);
        let first = groups[g].members[0];
        assert(first as int == gs[g as int].1[0]);
        let existing = crate::gear_doc::table_prefix(doc.as_str(), first);
        let p = group_divider_prefix(existing.as_str(), groups[g].label.as_str());
        doc = set_prefix_checked(doc, first, p.as_str());
        g += 1;
    }
    let base = doc;
    let mut order: Vec<usize> = Vec::new();
    let mut g2: usize = 0;
    while g2 < groups.len()
        invariant
            g2 <= groups@.len(),
            group_views(groups@) == gs,
            order@.map_values(|x: usize| x as int) == flat_members(gs, g2 as int),
        decreases groups@.len() - g2,
    {
        assert(group_view(groups@[g2 as int]) == gs[g2 as int]);
        let ghost before = order@;
        let mut m: usize = 0;
        while m < groups[g2].members.len()
            invariant
                g2 < groups@.len(),
                m <= groups@[g2 as int].members@.len(),
                order@ == before + groups@[g2 as int].members@.take(m as int),
            decreases groups@[g2 as int].members@.len() - m,
        {
            order.push(groups[g2].members[m]);
            m += 1;
            assert(order@ =~= before + groups@[g2 as int].members@.take(m as int));
        }
        assert(groups@[g2 as int].members@.take(m as int) =~= groups@[g2 as int].members@);
        assert(order@.map_values(|x: usize| x as int) =~= flat_members(gs, g2 as int) + gs[g2 as int].1);
        g2 += 1;
    }
    let ghost ord = order@.map_values(|x: usize| x as int);
    proof {
        lemma_flat_range(gs, gs.len() as int, n as int);
    }
    proof {
        lemma_newline_is_decor();
    }
    let placed = crate::gear_doc::place_innate(base.as_str(), 0, "\n");
    let mut out = crate::gear_doc::without_items(placed.as_str());
    let ghost head = out@;
    let mut k: usize = 0;
    while k < order.len()
        invariant
            k <= order@.len(),
            ord == order@.map_values(|x: usize| x as int),
            ord == flat_members(gs, gs.len() as int),
            forall|j: int| 0 <= j < ord.len() ==> 0 <= #[trigger] ord[j] < n,
            crate::gear_doc::edit_item_count(base@) == Some(n as nat),
            out@ == head + tables_text(base@, ord, k as int),
        decreases order@.len() - k,
    {
        assert(ord[k as int] == order@[k as int] as int);
        let t = crate::gear_doc::item_text(base.as_str(), order[k]);
        out.append(t.as_str());
        k += 1;
    }
    out
}

/// `d` with item table `i` resolved against `db`: for an item the DB knows,
/// its two-handed flag and slot come from the DB; every item gets its stats
/// written out in canonical order.
pub open spec fn resolved_item_doc(d: Seq<char>, i: nat, f: ItemFields, db: Map<Seq<char>, DbItem>) -> Seq<char> {
    let name = lookup_name(f);
    if db.dom().contains(name) {
        let d1 = two_handed_doc(d, i, db[name].two_handed);
        let d2 = canonical_stats_doc(d1, i, f);
        crate::gear_doc::edit_str_set(d2, i, "slot"@, crate::gear::slot_display_spec(db[name].slot))
    } else {
        canonical_stats_doc(d, i, f)
    }
}

/// `d` with its first `n` item tables resolved.
pub open spec fn resolved_items_doc(d: Seq<char>, fs: Seq<ItemFields>, db: Map<Seq<char>, DbItem>, n: int) -> Seq<char>
    decreases n,
{
    if n <= 0 {
        d
    } else {
        resolved_item_doc(resolved_items_doc(d, fs, db, n - 1), (n - 1) as nat, fs[n - 1], db)
    }
}

fn resolve_item_table(doc: String, i: usize, f: &ItemFields, name: &str, slot: Option<Slot>, db: &ItemsDb) -> (r: String)
    requires
        crate::gear_doc::has_item(doc@, i as nat),
        name@ == lookup_name(*f),
        slot == (if db@.dom().contains(lookup_name(*f)) {
            Some(db@[lookup_name(*f)].slot)
        } else {
            None::<Slot>
        }),
    ensures
        r@ == resolved_item_doc(doc@, i as nat, *f, db@),
        crate::gear_doc::edit_item_count(r@) == crate::gear_doc::edit_item_count(doc@),
        crate::gear_doc::edit_parse_error(r@) is None,
{
    match slot {
        Some(sl) => {
            let d1 = set_two_handed_flag(doc, i, db.lookup_two_handed(name));
            let d2 = write_canonical_stats(d1, i, f);
            crate::gear_doc::set_str(d2.as_str(), i, "slot", sl.display_name())
        },
        None => write_canonical_stats(doc, i, f),
    }
}

/// The slot group of each item after resolving: the DB's slot where it knows
/// the item, else none.
pub open spec fn resolved_keys(fs: Seq<ItemFields>, db: Map<Seq<char>, DbItem>) -> Seq<Option<Slot>> {
    Seq::new(fs.len(), |i: int| if db.dom().contains(lookup_name(fs[i])) {
        Some(db[lookup_name(fs[i])].slot)
    } else {
        None
    })
}

/// The text of an export after resolving, for the fields `fs` of its items.
pub open spec fn resolved_export_doc(src: Seq<char>, fs: Seq<ItemFields>, db: Map<Seq<char>, DbItem>) -> Seq<char> {
    regrouped_doc(resolved_items_doc(src, fs, db, fs.len() as int), resolved_keys(fs, db))
}

/// Resolves a gear stats export: every item the DB knows gets the DB's slot
/// and two-handed flag, every item's stats are written out in canonical
/// order, and the items are regrouped by slot family; comments and layout are
/// kept. `path` names the file in errors.
pub fn resolve_export(src: &str, db: &ItemsDb, path: &str) -> (r: Result<String, String>)
    ensures
        match crate::gear_doc::edit_parse_error(src@) {
            Some(e) => r matches Err(m) && m@ == edit_error_text(path@, e),
            None => match file_tables(src@, path@) {
                Err(m) => r matches Err(x) && x@ == m,
                Ok(a) => if crate::gear_doc::edit_item_count(src@) != Some(a.len()) {
                    r matches Err(x) && x@ == "No [[item]] array found in "@ + path@
                } else {
                    r matches Ok(out) && exists|fs: Seq<ItemFields>| fields_match(fs, a) && out@ == resolved_export_doc(src@, fs, db@)
                },
            },
        },
{
    match crate::gear_doc::parse_error(src) {
        Some(e) => {
            let mut m = concat3("Cannot parse TOML ", path, ": ");
            m.append(e.as_str());
            return Err(m);
        },
        None => {},
    }
    let fields = gear_file_fields(src, path)?;
    let n = fields.len();
    match crate::gear_doc::item_count(src) {
        Some(c) => if c != n {
            return Err(crate::text::concat2("No [[item]] array found in ", path));
        },
        None => {
            return Err(crate::text::concat2("No [[item]] array found in ", path));
        },
    }
    let (_outcomes, slots) = resolve_items(fields.as_slice(), db);
    let mut doc = src.to_owned();
    let mut i: usize = 0;
    while i < n
        invariant
            i <= n,
            n == fields@.len(),
            slots@.len() == n,
            forall|j: int| 0 <= j < n ==> #[trigger] slots@[j] == resolved_keys(fields@, db@)[j],
            doc@ == resolved_items_doc(src@, fields@, db@, i as int),
            crate::gear_doc::edit_item_count(doc@) == Some(n as nat),
            crate::gear_doc::edit_parse_error(doc@) is None,
        decreases n - i,
    {
        let ghost before = doc@;
        let name = match &fields[i].name {
            Some(x) => x.as_str(),
            None => "",
        };
        proof {
            reveal_strlit("");
            assert(name@ == lookup_name(fields@[i as int]));
            assert(slots@[i as int] == resolved_keys(fields@, db@)[i as int]);
        }
        doc = resolve_item_table(doc, i, &fields[i], name, slots[i], db);
        i += 1;
    }
    proof {
        assert(slots@ =~= resolved_keys(fields@, db@));
    }
    Ok(regroup(doc, &slots))
}

/// Whether every table a merge takes names an existing table of the previous
/// file (`pn` tables) or of the export (`inn` tables).
pub open spec fn sources_ok(tables: Seq<MergeSource>, pn: int, inn: int) -> bool {
    forall|k: int| 0 <= k < tables.len() ==> match #[trigger] tables[k] {
        MergeSource::Previous(i) => i < pn,
        MergeSource::Incoming(i) => i < inn,
    }
}

proof fn lemma_first_candidate_exists(incoming: Seq<ItemFields>, taken: Seq<bool>, name: Seq<char>, k0: int)
    requires
        0 <= k0 < incoming.len(),
        is_candidate(incoming, taken, name, k0),
    ensures
        exists|k: int| 0 <= k < incoming.len() && is_candidate(incoming, taken, name, k) && forall|j: int| 0 <= j < k ==> !#[trigger] is_candidate(incoming, taken, name, j),
    decreases k0,
{
    if exists|j: int| 0 <= j < k0 && #[trigger] is_candidate(incoming, taken, name, j) {
        let j = choose|j: int| 0 <= j < k0 && #[trigger] is_candidate(incoming, taken, name, j);
        lemma_first_candidate_exists(incoming, taken, name, j);
    } else {
        assert(forall|j: int| 0 <= j < k0 ==> !#[trigger] is_candidate(incoming, taken, name, j));
    }
}

proof fn lemma_equal_candidate_exists(incoming: Seq<ItemFields>, taken: Seq<bool>, name: Seq<char>, p: ItemFields, k0: int)
    requires
        0 <= k0 < incoming.len(),
        is_equal_candidate(incoming, taken, name, p, k0),
    ensures
        exists|k: int| 0 <= k < incoming.len() && is_equal_candidate(incoming, taken, name, p, k) && forall|j: int| 0 <= j < k ==> !#[trigger] is_equal_candidate(incoming, taken, name, p, j),
    decreases k0,
{
    if exists|j: int| 0 <= j < k0 && #[trigger] is_equal_candidate(incoming, taken, name, p, j) {
        let j = choose|j: int| 0 <= j < k0 && #[trigger] is_equal_candidate(incoming, taken, name, p, j);
        lemma_equal_candidate_exists(incoming, taken, name, p, j);
    } else {
        assert(forall|j: int| 0 <= j < k0 ==> !#[trigger] is_equal_candidate(incoming, taken, name, p, j));
    }
}

proof fn lemma_match_for_range(incoming: Seq<ItemFields>, taken: Seq<bool>, name: Seq<char>, p: ItemFields)
    ensures
        match_for(incoming, taken, name, p) matches Some(k) ==> 0 <= k < incoming.len(),
        first_candidate(incoming, taken, name) matches Some(k) ==> 0 <= k < incoming.len(),
{
    if exists|k: int| 0 <= k < incoming.len() && #[trigger] is_candidate(incoming, taken, name, k) {
        let k0 = choose|k: int| 0 <= k < incoming.len() && #[trigger] is_candidate(incoming, taken, name, k);
        lemma_first_candidate_exists(incoming, taken, name, k0);
    }
    if exists|k: int| 0 <= k < incoming.len() && #[trigger] is_equal_candidate(incoming, taken, name, p, k) {
        let k0 = choose|k: int| 0 <= k < incoming.len() && #[trigger] is_equal_candidate(incoming, taken, name, p, k);
        lemma_equal_candidate_exists(incoming, taken, name, p, k0);
    }
}

proof fn lemma_prev_sources(prev: Seq<ItemFields>, incoming: Seq<ItemFields>, force: bool, answers: Seq<PromptAnswer>, n: int)
    requires
        0 <= n <= prev.len(),
        prev.len() <= usize::MAX,
        incoming.len() <= usize::MAX,
    ensures
        sources_ok(merge_prev(prev, incoming, force, answers, n).tables, prev.len() as int, incoming.len() as int),
        merge_prev(prev, incoming, force, answers, n).taken.len() == incoming.len(),
    decreases n,
{
    if n > 0 {
        lemma_prev_sources(prev, incoming, force, answers, n - 1);
        let st = merge_prev(prev, incoming, force, answers, n - 1);
        reveal(merge_step);
        match prev[n - 1].name {
            Some(nm) => {
                lemma_match_for_range(incoming, st.taken, nm@, prev[n - 1]);
            },
            None => {},
        }
        let s2 = merge_prev(prev, incoming, force, answers, n);
        assert forall|k: int| 0 <= k < s2.tables.len() implies match #[trigger] s2.tables[k] {
            MergeSource::Previous(i) => i < prev.len(),
            MergeSource::Incoming(i) => i < incoming.len(),
        } by {
            if k < st.tables.len() {
                assert(s2.tables[k] == st.tables[k]);
            }
        }
    }
}

proof fn lemma_added_sources(incoming: Seq<ItemFields>, st: MergeState, m: int, pn: int)
    requires
        0 <= m <= incoming.len(),
        incoming.len() <= usize::MAX,
        st.taken.len() == incoming.len(),
        sources_ok(st.tables, pn, incoming.len() as int),
    ensures
        sources_ok(merge_added(incoming, st, m).tables, pn, incoming.len() as int),
        merge_added(incoming, st, m).taken.len() == incoming.len(),
    decreases m,
{
    if m > 0 {
        lemma_added_sources(incoming, st, m - 1, pn);
        let s0 = merge_added(incoming, st, m - 1);
        match incoming[m - 1].name {
            Some(nm) => {
                lemma_match_for_range(incoming, s0.taken, nm@, incoming[m - 1]);
                let s2 = merge_added(incoming, st, m);
                assert forall|k: int| 0 <= k < s2.tables.len() implies match #[trigger] s2.tables[k] {
                    MergeSource::Previous(i) => i < pn,
                    MergeSource::Incoming(i) => i < incoming.len(),
                } by {
                    if k < s0.tables.len() {
                        assert(s2.tables[k] == s0.tables[k]);
                    }
                }
            },
            None => {},
        }
    }
}

/// The tables of a finished merge all exist.
proof fn lemma_merge_sources(prev: Seq<ItemFields>, incoming: Seq<ItemFields>, force: bool, answers: Seq<PromptAnswer>)
    requires
        prev.len() <= usize::MAX,
        incoming.len() <= usize::MAX,
    ensures
        sources_ok(merge_spec(prev, incoming, force, answers).tables, prev.len() as int, incoming.len() as int),
{
    lemma_prev_sources(prev, incoming, force, answers, prev.len() as int);
    let s = merge_prev(prev, incoming, force, answers, prev.len() as int);
    if s.pending is None {
        lemma_added_sources(incoming, s, incoming.len() as int, prev.len() as int);
    }
}

/// `d` with the top-level string `key` of `from` copied in where `from`
/// has the key and its string differs from `d`'s.
pub open spec fn carried_str(d: Seq<char>, from: Seq<char>, key: Seq<char>) -> Seq<char> {
    if crate::gear_doc::edit_top_text(from, key) is Some && crate::gear_doc::edit_top_str(d, key) != crate::gear_doc::edit_top_str(from, key) {
        crate::gear_doc::edit_top_copied(d, from, key)
    } else {
        d
    }
}

/// `d` with the `InnateStats` of `from` in place of its own, where `from` has
/// one that reads differently.
pub open spec fn carried_innate(d: Seq<char>, from: Seq<char>) -> Seq<char> {
    let k = "InnateStats"@;
    if crate::gear_doc::edit_top_text(from, k) is Some && crate::gear_doc::edit_top_text(d, k) != crate::gear_doc::edit_top_text(from, k) {
        crate::gear_doc::edit_top_copied(crate::gear_doc::edit_top_removed(d, k), from, k)
    } else {
        d
    }
}

/// The previous file with the export's character, class and innate stats
/// carried over.
pub open spec fn carried_doc(d: Seq<char>, from: Seq<char>) -> Seq<char> {
    carried_innate(carried_str(carried_str(d, from, "character"@), from, "class"@), from)
}

/// The fields of the table a merge takes.
pub open spec fn source_fields(m: MergeSource, pf: Seq<ItemFields>, inf: Seq<ItemFields>) -> ItemFields {
    match m {
        MergeSource::Previous(i) => pf[i as int],
        MergeSource::Incoming(i) => inf[i as int],
    }
}

/// The slot group of a table from its own `slot` string.
pub open spec fn own_slot_key(f: ItemFields) -> Option<Slot> {
    match opt_text(f.slot) {
        Some(t) => parse_slot_display_spec(t),
        None => None,
    }
}

/// `d` with merged table `k` (fields `f`) refreshed: the DB's two-handed flag
/// for a named item the DB knows, the stats written out in canonical order,
/// and old divider lines taken out of the text before it.
pub open spec fn merged_item_doc(d: Seq<char>, k: nat, f: ItemFields, db: Map<Seq<char>, DbItem>) -> Seq<char> {
    let d1 = match opt_text(f.name) {
        Some(n) => if db.dom().contains(n) {
            two_handed_doc(d, k, db[n].two_handed)
        } else {
            d
        },
        None => d,
    };
    let d2 = canonical_stats_doc(d1, k, f);
    prefix_set_if_decor(d2, k, strip_dividers_spec(crate::gear_doc::edit_prefix(d2, k)))
}

/// `d` with its first `n` item tables refreshed, with the fields `fs`.
pub open spec fn refreshed_doc(d: Seq<char>, fs: Seq<ItemFields>, db: Map<Seq<char>, DbItem>, n: int) -> Seq<char>
    decreases n,
{
    if n <= 0 {
        d
    } else {
        merged_item_doc(refreshed_doc(d, fs, db, n - 1), (n - 1) as nat, fs[n - 1], db)
    }
}

/// The previous file and the export with the first table of each of the
/// first `g` groups of the merged order given its divider, in whichever of
/// the two that table comes from.
pub open spec fn merge_dividers(
    pd: Seq<char>,
    id: Seq<char>,
    groups: Seq<(Seq<char>, Seq<int>)>,
    tables: Seq<MergeSource>,
    g: int,
) -> (Seq<char>, Seq<char>)
    decreases g,
{
    if g <= 0 {
        (pd, id)
    } else {
        let (a, b) = merge_dividers(pd, id, groups, tables, g - 1);
        let label = groups[g - 1].0;
        match tables[groups[g - 1].1[0]] {
            MergeSource::Previous(i) => (
                prefix_set_if_decor(a, i as nat, divider_prefix_spec(crate::gear_doc::edit_prefix(a, i as nat), label)),
                b,
            ),
            MergeSource::Incoming(i) => (
                a,
                prefix_set_if_decor(b, i as nat, divider_prefix_spec(crate::gear_doc::edit_prefix(b, i as nat), label)),
            ),
        }
    }
}

/// The merged tables at positions `order[0..k]`, each written out on its
/// own from the previous file `pd` or the export `id`, one after another.
pub open spec fn merged_tables_text(pd: Seq<char>, id: Seq<char>, tables: Seq<MergeSource>, order: Seq<int>, k: int) -> Seq<char>
    decreases k,
{
    if k <= 0 {
        Seq::empty()
    } else {
        merged_tables_text(pd, id, tables, order, k - 1) + match tables[order[k - 1]] {
            MergeSource::Previous(i) => crate::gear_doc::edit_item_text(pd, i as nat),
            MergeSource::Incoming(i) => crate::gear_doc::edit_item_text(id, i as nat),
        }
    }
}

/// The slot group of each table the merge takes, from its own `slot` string.
pub open spec fn merged_keys(tables: Seq<MergeSource>, pf: Seq<ItemFields>, inf: Seq<ItemFields>) -> Seq<Option<Slot>> {
    Seq::new(tables.len(), |k: int| own_slot_key(source_fields(tables[k], pf, inf)))
}

/// The merged file's text before its header: the previous file with the
/// export's metadata and the `InnateStats` table first, then the tables the
/// merge takes, each refreshed, grouped by slot family behind their dividers.
pub open spec fn merged_doc(prev: Seq<char>, inc: Seq<char>, pf: Seq<ItemFields>, inf: Seq<ItemFields>, db: Map<Seq<char>, DbItem>, tables: Seq<MergeSource>) -> Seq<char> {
    let pe = refreshed_doc(carried_doc(prev, inc), pf, db, pf.len() as int);
    let ie = refreshed_doc(inc, inf, db, inf.len() as int);
    let groups = groups_spec(merged_keys(tables, pf, inf));
    let (pd, id) = merge_dividers(pe, ie, groups, tables, groups.len() as int);
    let order = flat_members(groups, groups.len() as int);
    crate::gear_doc::edit_items_removed(crate::gear_doc::edit_innate_placed(pd, 0, "\n"@)) + merged_tables_text(pd, id, tables, order, order.len() as int)
}

/// Where a merge of the export `inc` into `prev` (if any) stops with an
/// error, and the error.
pub open spec fn merge_error(prev: Option<Seq<char>>, pp: Seq<char>, inc: Seq<char>, ip: Seq<char>) -> Option<Seq<char>> {
    match file_tables(inc, ip) {
        Err(m) => Some(m),
        Ok(ia) => match prev {
            None => None,
            Some(p) => match crate::gear_doc::edit_parse_error(p) {
                Some(e) => Some(edit_error_text(pp, e)),
                None => match crate::gear_doc::edit_parse_error(inc) {
                    Some(e) => Some(edit_error_text(ip, e)),
                    None => match file_tables(p, pp) {
                        Err(m) => Some(m),
                        Ok(pa) => if crate::gear_doc::edit_item_count(p) != Some(pa.len()) {
                            Some("No [[item]] array found in "@ + pp)
                        } else if crate::gear_doc::edit_item_count(inc) != Some(ia.len()) {
                            Some("No [[item]] array found in "@ + ip)
                        } else {
                            None
                        },
                    },
                },
            },
        },
    }
}

/// The text of the previous file, if any.
pub open spec fn prev_view(previous: Option<&str>) -> Option<Seq<char>> {
    match previous {
        Some(p) => Some(p@),
        None => None,
    }
}

/// A step of an interactive merge: finished, or a question to answer first.
#[derive(Debug)]
pub enum MergeStep {
    Done(MergeOutcome),
    Ask { category: PromptCategory, name: String },
}

/// Whether `step` is what merging the export `inc` (items `inf`) into `prev`
/// (items `pf`) gives with the answers so far, stamped `stamp`.
pub open spec fn merge_step_matches(
    step: MergeStep,
    prev: Option<Seq<char>>,
    inc: Seq<char>,
    pf: Seq<ItemFields>,
    inf: Seq<ItemFields>,
    db: Map<Seq<char>, DbItem>,
    force: bool,
    answers: Seq<PromptAnswer>,
    stamp: Seq<char>,
) -> bool {
    match prev {
        None => step matches MergeStep::Done(o) && {
            &&& strings_view(o.added@) == named_items(inf)
            &&& o.preserved@.len() == 0
            &&& o.overwritten@.len() == 0
            &&& o.removed@.len() == 0
            &&& strings_view(o.unknown_slot@) == unknown_slot_items(inf)
            &&& o.merged_text@ == with_header_spec(inc, stamp)
        },
        Some(p) => {
            let s = merge_spec(pf, inf, force, answers);
            match s.pending {
                Some((c, n)) => step matches MergeStep::Ask { category, name } && category == c && name@ == n,
                None => step matches MergeStep::Done(o) && {
                    &&& strings_view(o.added@) == s.added
                    &&& strings_view(o.preserved@) == s.preserved
                    &&& strings_view(o.overwritten@) == s.overwritten
                    &&& strings_view(o.removed@) == s.removed
                    &&& strings_view(o.unknown_slot@) == unknown_slot_items(inf)
                    &&& o.merged_text@ == with_header_spec(merged_doc(p, inc, pf, inf, db, s.tables), stamp)
                },
            }
        },
    }
}

fn carry_str(d: String, from: &str, key: &str) -> (r: String)
    requires
        key@ != "item"@,
        crate::gear_doc::edit_parse_error(d@) is None,
        crate::gear_doc::edit_parse_error(from@) is None,
    ensures
        r@ == carried_str(d@, from@, key@),
        crate::gear_doc::edit_parse_error(r@) is None,
        crate::gear_doc::edit_item_count(r@) == crate::gear_doc::edit_item_count(d@),
{
    match crate::gear_doc::top_text(from, key) {
        None => d,
        Some(_) => {
            let mine = crate::gear_doc::top_str(d.as_str(), key);
            let theirs = crate::gear_doc::top_str(from, key);
            let same = match (&mine, &theirs) {
                (Some(a), Some(b)) => crate::text::str_eq(a.as_str(), b.as_str()),
                (None, None) => true,
                _ => false,
            };
            if same {
                d
            } else {
                crate::gear_doc::copy_top(d.as_str(), from, key)
            }
        },
    }
}

fn carry_metadata(d: String, from: &str) -> (r: String)
    requires
        crate::gear_doc::edit_parse_error(d@) is None,
        crate::gear_doc::edit_parse_error(from@) is None,
    ensures
        r@ == carried_doc(d@, from@),
        crate::gear_doc::edit_item_count(r@) == crate::gear_doc::edit_item_count(d@),
        crate::gear_doc::edit_parse_error(r@) is None,
{
    proof {
        reveal_strlit("item");
        reveal_strlit("character");
        reveal_strlit("class");
        reveal_strlit("InnateStats");
        assert("character"@.len() != "item"@.len());
        assert("class"@.len() != "item"@.len());
        assert("InnateStats"@.len() != "item"@.len());
    }
    let d1 = carry_str(d, from, "character");
    let d2 = carry_str(d1, from, "class");
    match crate::gear_doc::top_text(from, "InnateStats") {
        None => d2,
        Some(theirs) => {
            let same = match crate::gear_doc::top_text(d2.as_str(), "InnateStats") {
                Some(mine) => crate::text::str_eq(mine.as_str(), theirs.as_str()),
                None => false,
            };
            if same {
                d2
            } else {
                let d3 = crate::gear_doc::remove_top(d2.as_str(), "InnateStats");
                crate::gear_doc::copy_top(d3.as_str(), from, "InnateStats")
            }
        },
    }
}

fn merge_item_table(doc: String, k: usize, f: &ItemFields, db: &ItemsDb) -> (r: String)
    requires
        crate::gear_doc::has_item(doc@, k as nat),
    ensures
        r@ == merged_item_doc(doc@, k as nat, *f, db@),
        crate::gear_doc::edit_item_count(r@) == crate::gear_doc::edit_item_count(doc@),
        crate::gear_doc::edit_parse_error(r@) is None,
{
    let d1 = match &f.name {
        Some(n) => match db.lookup(n.as_str()) {
            Some(_) => set_two_handed_flag(doc, k, db.lookup_two_handed(n.as_str())),
            None => doc,
        },
        None => doc,
    };
    let d2 = write_canonical_stats(d1, k, f);
    let existing = crate::gear_doc::table_prefix(d2.as_str(), k);
    let stripped = strip_family_dividers(existing.as_str());
    set_prefix_checked(d2, k, stripped.as_str())
}

fn refresh_tables(d: String, fs: &Vec<ItemFields>, db: &ItemsDb) -> (r: String)
    requires
        crate::gear_doc::edit_item_count(d@) == Some(fs@.len()),
        crate::gear_doc::edit_parse_error(d@) is None,
    ensures
        r@ == refreshed_doc(d@, fs@, db@, fs@.len() as int),
        crate::gear_doc::edit_item_count(r@) == Some(fs@.len()),
        crate::gear_doc::edit_parse_error(r@) is None,
{
    let mut doc = d;
    let mut i: usize = 0;
    while i < fs.len()
        invariant
            i <= fs@.len(),
            doc@ == refreshed_doc(d@, fs@, db@, i as int),
            crate::gear_doc::edit_item_count(doc@) == Some(fs@.len()),
            crate::gear_doc::edit_parse_error(doc@) is None,
        decreases fs@.len() - i,
    {
        doc = merge_item_table(doc, i, &fs[i], db);
        i += 1;
    }
    doc
}

fn lay_out_merge(pe: String, ie: String, tables: &Vec<MergeSource>, keys: &Vec<Option<Slot>>, pn: usize, inn: usize) -> (r: String)
    requires
        crate::gear_doc::edit_item_count(pe@) == Some(pn as nat),
        crate::gear_doc::edit_parse_error(pe@) is None,
        crate::gear_doc::edit_item_count(ie@) == Some(inn as nat),
        crate::gear_doc::edit_parse_error(ie@) is None,
        sources_ok(tables@, pn as int, inn as int),
        keys@.len() == tables@.len(),
    ensures
        ({
            let groups = groups_spec(keys@);
            let (pd, id) = merge_dividers(pe@, ie@, groups, tables@, groups.len() as int);
            let order = flat_members(groups, groups.len() as int);
            r@ == crate::gear_doc::edit_items_removed(crate::gear_doc::edit_innate_placed(pd, 0, "\n"@)) + merged_tables_text(pd, id, tables@, order, order.len() as int)
        }),
{
    let groups = group_by_family(keys.as_slice());
    let ghost gs = groups_spec(keys@);
    proof {
        lemma_groups_range(keys@, group_order().len() as int);
    }
    let nt = tables.len();
    let mut pd = pe;
    let mut id = ie;
    let mut g: usize = 0;
    while g < groups.len()
        invariant
            g <= groups@.len(),
            nt == tables@.len(),
            nt == keys@.len(),
            group_views(groups@) == gs,
            gs == groups_spec(keys@),
            forall|j: int| 0 <= j < gs.len() ==> (#[trigger] gs[j]).1.len() > 0 && forall|k: int|
                0 <= k < gs[j].1.len() ==> 0 <= #[trigger] gs[j].1[k] < keys@.len(),
            sources_ok(tables@, pn as int, inn as int),
            (pd@, id@) == merge_dividers(pe@, ie@, gs, tables@, g as int),
            crate::gear_doc::edit_item_count(pd@) == Some(pn as nat),
            crate::gear_doc::edit_parse_error(pd@) is None,
            crate::gear_doc::edit_item_count(id@) == Some(inn as nat),
            crate::gear_doc::edit_parse_error(id@) is None,
        decreases groups@.len() - g,
    {
        assert(group_view(groups@[g as int]) == gs[g as int]);
        let first = groups[g].members[0];
        assert(first as int == gs[g as int].1[0]);
        let ghost src = tables@[first as int];
        assert(match src {
            MergeSource::Previous(i) => i < pn,
            MergeSource::Incoming(i) => i < inn,
        });
        match tables[first] {
            MergeSource::Previous(i) => {
                let existing = crate::gear_doc::table_prefix(pd.as_str(), i);
                let p = group_divider_prefix(existing.as_str(), groups[g].label.as_str());
                pd = set_prefix_checked(pd, i, p.as_str());
            },
            MergeSource::Incoming(i) => {
                let existing = crate::gear_doc::table_prefix(id.as_str(), i);
                let p = group_divider_prefix(existing.as_str(), groups[g].label.as_str());
                id = set_prefix_checked(id, i, p.as_str());
            },
        }
        g += 1;
    }
    let mut order: Vec<usize> = Vec::new();
    let mut g2: usize = 0;
    while g2 < groups.len()
        invariant
            g2 <= groups@.len(),
            group_views(groups@) == gs,
            order@.map_values(|x: usize| x as int) == flat_members(gs, g2 as int),
        decreases groups@.len() - g2,
    {
        assert(group_view(groups@[g2 as int]) == gs[g2 as int]);
        let ghost before = order@;
        let mut m: usize = 0;
        while m < groups[g2].members.len()
            invariant
                g2 < groups@.len(),
                m <= groups@[g2 as int].members@.len(),
                order@ == before + groups@[g2 as int].members@.take(m as int),
            decreases groups@[g2 as int].members@.len() - m,
        {
            order.push(groups[g2].members[m]);
            m += 1;
            assert(order@ =~= before + groups@[g2 as int].members@.take(m as int));
        }
        assert(groups@[g2 as int].members@.take(m as int) =~= groups@[g2 as int].members@);
        assert(order@.map_values(|x: usize| x as int) =~= flat_members(gs, g2 as int) + gs[g2 as int].1);
        g2 += 1;
    }
    let ghost ord = order@.map_values(|x: usize| x as int);
    proof {
        lemma_flat_range(gs, gs.len() as int, nt as int);
    }
    proof {
        lemma_newline_is_decor();
    }
    let placed = crate::gear_doc::place_innate(pd.as_str(), 0, "\n");
    let mut out = crate::gear_doc::without_items(placed.as_str());
    let ghost head = out@;
    let mut k: usize = 0;
    while k < order.len()
        invariant
            k <= order@.len(),
            nt == tables@.len(),
            ord == order@.map_values(|x: usize| x as int),
            forall|j: int| 0 <= j < ord.len() ==> 0 <= #[trigger] ord[j] < nt,
            sources_ok(tables@, pn as int, inn as int),
            crate::gear_doc::edit_item_count(pd@) == Some(pn as nat),
            crate::gear_doc::edit_item_count(id@) == Some(inn as nat),
            out@ == head + merged_tables_text(pd@, id@, tables@, ord, k as int),
        decreases order@.len() - k,
    {
        assert(ord[k as int] == order@[k as int] as int);
        let ghost src = tables@[ord[k as int]];
        assert(match src {
            MergeSource::Previous(i) => i < pn,
            MergeSource::Incoming(i) => i < inn,
        });
        let t = match tables[order[k]] {
            MergeSource::Previous(i) => crate::gear_doc::item_text(pd.as_str(), i),
            MergeSource::Incoming(i) => crate::gear_doc::item_text(id.as_str(), i),
        };
        out.append(t.as_str());
        k += 1;
    }
    out
}

/// Merges a resolved export into the previous canonical file, or takes it
/// whole on the first run (`previous` is `None`). A forced merge asks its
/// questions one at a time: the answers given so far are `answers`, and a
/// step is `Ask` until every question is answered. The merged text is
/// stamped `stamp`; `previous_path` and `incoming_path` name the files in
/// errors.
#[verifier::spinoff_prover]
#[verifier::rlimit(40)]
pub fn merge_into_canonical(
    previous: Option<&str>,
    previous_path: &str,
    incoming: &str,
    incoming_path: &str,
    db: &ItemsDb,
    force: bool,
    answers: &[PromptAnswer],
    stamp: &str,
) -> (r: Result<MergeStep, String>)
    ensures
        ({
            let pv = prev_view(previous);
            match merge_error(pv, previous_path@, incoming@, incoming_path@) {
                Some(m) => r matches Err(e) && e@ == m,
                None => r matches Ok(step) && exists|pf: Seq<ItemFields>, inf: Seq<ItemFields>|
                    #![trigger merge_step_matches(step, pv, incoming@, pf, inf, db@, force, answers@, stamp@)]
                {
                    &&& file_tables(incoming@, incoming_path@) matches Ok(ia) && fields_match(inf, ia)
                    &&& match pv {
                        Some(p) => file_tables(p, previous_path@) matches Ok(pa) && fields_match(pf, pa),
                        None => true,
                    }
                    &&& merge_step_matches(step, pv, incoming@, pf, inf, db@, force, answers@, stamp@)
                },
            }
        }),
{
    let incoming_fields = gear_file_fields(incoming, incoming_path)?;
    let prev_src = match previous {
        None => {
            let text = apply_generated_header(incoming, stamp);
            let o = MergeOutcome::first_run(incoming_fields.as_slice(), text);
            let ghost inf = incoming_fields@;
            proof {
                assert(merge_step_matches(MergeStep::Done(o), prev_view(previous), incoming@, inf, inf, db@, force, answers@, stamp@));
            }
            return Ok(MergeStep::Done(o));
        },
        Some(p) => p,
    };
    match crate::gear_doc::parse_error(prev_src) {
        Some(e) => {
            let mut m = concat3("Cannot parse TOML ", previous_path, ": ");
            m.append(e.as_str());
            return Err(m);
        },
        None => {},
    }
    match crate::gear_doc::parse_error(incoming) {
        Some(e) => {
            let mut m = concat3("Cannot parse TOML ", incoming_path, ": ");
            m.append(e.as_str());
            return Err(m);
        },
        None => {},
    }
    let prev_fields = gear_file_fields(prev_src, previous_path)?;
    let pn = prev_fields.len();
    let inn = incoming_fields.len();
    if crate::gear_doc::item_count(prev_src) != Some(pn) {
        return Err(crate::text::concat2("No [[item]] array found in ", previous_path));
    }
    if crate::gear_doc::item_count(incoming) != Some(inn) {
        return Err(crate::text::concat2("No [[item]] array found in ", incoming_path));
    }
    let plan = match plan_merge(prev_fields.as_slice(), incoming_fields.as_slice(), force, answers) {
        PlanStep::Ask { category, name } => {
            let step = MergeStep::Ask { category, name };
            proof {
                assert(merge_step_matches(step, prev_view(previous), incoming@, prev_fields@, incoming_fields@, db@, force, answers@, stamp@));
            }
            return Ok(step);
        },
        PlanStep::Done(p) => p,
    };
    let ghost s = merge_spec(prev_fields@, incoming_fields@, force, answers@);
    proof {
        lemma_merge_sources(prev_fields@, incoming_fields@, force, answers@);
    }
    let carried = carry_metadata(prev_src.to_owned(), incoming);
    let pe = refresh_tables(carried, &prev_fields, db);
    let ie = refresh_tables(incoming.to_owned(), &incoming_fields, db);
    let nt = plan.tables.len();
    let mut keys: Vec<Option<Slot>> = Vec::new();
    let mut j: usize = 0;
    while j < nt
        invariant
            j <= nt,
            nt == plan.tables@.len(),
            plan.tables@ == s.tables,
            sources_ok(s.tables, pn as int, inn as int),
            pn == prev_fields@.len(),
            inn == incoming_fields@.len(),
            keys@ == merged_keys(s.tables, prev_fields@, incoming_fields@).take(j as int),
        decreases nt - j,
    {
        let f = match plan.tables[j] {
            MergeSource::Previous(i) => &prev_fields[i],
            MergeSource::Incoming(i) => &incoming_fields[i],
        };
        assert(*f == source_fields(s.tables[j as int], prev_fields@, incoming_fields@));
        let key = match &f.slot {
            Some(t) => parse_slot_display(t.as_str()),
            None => None,
        };
        keys.push(key);
        j += 1;
        assert(keys@ =~= merged_keys(s.tables, prev_fields@, incoming_fields@).take(j as int));
    }
    assert(keys@ =~= merged_keys(s.tables, prev_fields@, incoming_fields@));
    let regrouped = lay_out_merge(pe, ie, &plan.tables, &keys, pn, inn);
    let text = apply_generated_header(regrouped.as_str(), stamp);
    let o = MergeOutcome::from_plan(plan, incoming_fields.as_slice(), text);
    proof {
        assert(merge_step_matches(MergeStep::Done(o), prev_view(previous), incoming@, prev_fields@, incoming_fields@, db@, force, answers@, stamp@));
    }
    Ok(MergeStep::Done(o))
}

} // verus!
