//! Merging freshly exported item data with an existing, possibly hand-edited
//! stats file.
//!
//! A stats file may end with a `[__user_edits__]` table recording which
//! `"ItemName.StatKey"` fields the user edited by hand. For every tracked stat
//! of an item present in both the old file and the new export:
//!
//! 1. exporter gap (new value 0, old value not 0): the old value is kept
//!    silently and the field is flagged;
//! 2. no change: nothing to do, and an existing flag is carried forward;
//! 3. values differ and the field is flagged: the user is asked;
//! 4. values differ, the field is not flagged and the file has no
//!    `[__user_edits__]` table yet (first merge): the user is asked;
//! 5. values differ, the field is not flagged and the file has the table:
//!    the exporter value wins.
//!
//! Before the questions the user may keep all their values, accept all
//! exporter values, or answer each field. Asking is left to the caller: this
//! module lists the questions and merges with the answers.
use vstd::prelude::*;

use crate::cache::CachedItem;
use crate::stat::{stat_index_spec, stat_key, stat_key_spec, tracked_stats, tracked_stats_spec, Stat};
use crate::text::{concat2, concat3, str_eq, to_lowercase, trim, trim_spec, unicode_lowercase};
use crate::toml_doc::{
    entry_index, find_key, lemma_table_view, lemma_view_shape, parse_toml, toml_entries, toml_parsed, toml_view, TomlValue,
    TomlView,
};

verus! {

/// Everything read from an existing stats file that merging needs.
pub struct MergeContext {
    pub old_items: Vec<CachedItem>,
    /// The `"ItemName.StatKey"` fields flagged as hand-edited.
    pub user_edits: Vec<String>,
    /// Whether the file had a `[__user_edits__]` table, even an empty one:
    /// without it this is the first merge.
    pub had_user_edits_section: bool,
}

/// The flag key of one field: `"<item name>.<stat key>"`.
pub open spec fn edit_key_spec(item_name: Seq<char>, key: Seq<char>) -> Seq<char> {
    item_name + "."@ + key
}

/// The flag key of one field: `"<item name>.<stat key>"`.
pub fn edit_key(item_name: &str, key: &str) -> (r: String)
    ensures
        r@ == edit_key_spec(item_name@, key@),
{
    concat3(item_name, ".", key)
}

/// Whether `key` is among the flagged fields.
pub open spec fn edits_contain(edits: Seq<String>, key: Seq<char>) -> bool {
    exists|i: int| 0 <= i < edits.len() && #[trigger] edits[i]@ == key
}

/// The old item a new item is merged with: the last one of that name.
pub open spec fn old_item_named(old: Seq<CachedItem>, name: Seq<char>) -> Option<CachedItem>
    decreases old.len(),
{
    if old.len() == 0 {
        None
    } else if old.last().name@ == name {
        Some(old.last())
    } else {
        old_item_named(old.drop_last(), name)
    }
}

/// What happens to one tracked field of an item found in both files.
#[derive(Debug, Clone, Copy, PartialEq, Eq, Structural)]
pub enum FieldCase {
    /// The export has no value but the user has one: the old value stays.
    Gap,
    /// The values agree.
    Same,
    /// The values differ and the user decides.
    Ask,
    /// The values differ and the exporter value wins.
    Overwrite,
}

/// The case of stat `s` of `item` against `old`.
pub open spec fn field_case(item: CachedItem, old: CachedItem, s: Stat, edits: Seq<String>, had_section: bool) -> FieldCase {
    let nv = item.stats.value(s);
    let ov = old.stats.value(s);
    if nv == 0 && ov != 0 {
        FieldCase::Gap
    } else if nv == ov {
        FieldCase::Same
    } else if edits_contain(edits, edit_key_spec(item.name@, stat_key_spec(s))) || !had_section {
        FieldCase::Ask
    } else {
        FieldCase::Overwrite
    }
}

/// Whether tracked stat `j` of `item` needs a question.
pub open spec fn asks(item: CachedItem, old_items: Seq<CachedItem>, edits: Seq<String>, had_section: bool, j: int) -> bool {
    match old_item_named(old_items, item.name@) {
        Some(o) => field_case(item, o, tracked_stats_spec()[j], edits, had_section) == FieldCase::Ask,
        None => false,
    }
}

/// The number of questions among the first `n` tracked stats of `item`.
pub open spec fn item_questions(item: CachedItem, old_items: Seq<CachedItem>, edits: Seq<String>, had_section: bool, n: int) -> nat
    decreases n,
{
    if n <= 0 {
        0
    } else {
        item_questions(item, old_items, edits, had_section, n - 1) + if asks(item, old_items, edits, had_section, n - 1) {
            1nat
        } else {
            0nat
        }
    }
}

/// The number of questions a merge of `items` asks.
pub open spec fn question_count(items: Seq<CachedItem>, old_items: Seq<CachedItem>, edits: Seq<String>, had_section: bool) -> nat
    decreases items.len(),
{
    if items.len() == 0 {
        0
    } else {
        question_count(items.drop_last(), old_items, edits, had_section) + item_questions(
            items.last(),
            old_items,
            edits,
            had_section,
            16,
        )
    }
}

proof fn lemma_item_questions_bound(item: CachedItem, old_items: Seq<CachedItem>, edits: Seq<String>, had_section: bool, n: int)
    requires
        0 <= n,
    ensures
        item_questions(item, old_items, edits, had_section, n) <= n,
    decreases n,
{
    if n > 0 {
        lemma_item_questions_bound(item, old_items, edits, had_section, n - 1);
    }
}

proof fn lemma_question_count_step(items: Seq<CachedItem>, old_items: Seq<CachedItem>, edits: Seq<String>, had_section: bool, i: int)
    requires
        0 <= i < items.len(),
    ensures
        question_count(items.take(i + 1), old_items, edits, had_section) == question_count(items.take(i), old_items, edits, had_section)
            + item_questions(items[i], old_items, edits, had_section, 16),
{
    assert(items.take(i + 1).drop_last() =~= items.take(i));
}

fn find_old(old: &[CachedItem], name: &str) -> (r: Option<usize>)
    ensures
        match old_item_named(old@, name@) {
            None => r is None,
            Some(o) => r matches Some(k) && k < old@.len() && old@[k as int] == o,
        },
{
    let mut k = old.len();
    assert(old@.take(k as int) =~= old@);
    while k > 0
        invariant
            k <= old@.len(),
            old_item_named(old@, name@) == old_item_named(old@.take(k as int), name@),
        decreases k,
    {
        let ghost t = old@.take(k as int);
        assert(t.last() == old@[k - 1]);
        assert(t.drop_last() =~= old@.take(k - 1));
        if str_eq(old[k - 1].name.as_str(), name) {
            return Some(k - 1);
        }
        k -= 1;
    }
    None
}

fn is_flagged(edits: &[String], key: &str) -> (r: bool)
    ensures
        r == edits_contain(edits@, key@),
{
    let mut i: usize = 0;
    while i < edits.len()
        invariant
            i <= edits@.len(),
            forall|j: int| 0 <= j < i ==> #[trigger] edits@[j]@ != key@,
        decreases edits@.len() - i,
    {
        if str_eq(edits[i].as_str(), key) {
            return true;
        }
        i += 1;
    }
    false
}

fn case_of(item: &CachedItem, old: &CachedItem, s: Stat, edits: &[String], had_section: bool) -> (r: FieldCase)
    ensures
        r == field_case(*item, *old, s, edits@, had_section),
{
    let nv = item.stats.get(s);
    let ov = old.stats.get(s);
    if nv == 0 && ov != 0 {
        FieldCase::Gap
    } else if nv == ov {
        FieldCase::Same
    } else {
        let key = edit_key(item.name.as_str(), stat_key(s));
        if is_flagged(edits, key.as_str()) || !had_section {
            FieldCase::Ask
        } else {
            FieldCase::Overwrite
        }
    }
}

/// The number of fields a merge of `new_items` into the old file asks about.
pub fn count_prompts(new_items: &[CachedItem], old_items: &[CachedItem], edits: &[String], had_section: bool) -> (n: usize)
    requires
        new_items@.len() * 16 <= usize::MAX,
    ensures
        n == question_count(new_items@, old_items@, edits@, had_section),
{
    let listed = tracked_stats();
    let mut n: usize = 0;
    let mut i: usize = 0;
    assert(new_items@.take(0) =~= Seq::<CachedItem>::empty());
    while i < new_items.len()
        invariant
            i <= new_items@.len(),
            new_items@.len() * 16 <= usize::MAX,
            listed@ == tracked_stats_spec(),
            n == question_count(new_items@.take(i as int), old_items@, edits@, had_section),
            n <= 16 * i,
        decreases new_items@.len() - i,
    {
        let item = &new_items[i];
        let mut m: usize = 0;
        match find_old(old_items, item.name.as_str()) {
            Some(oi) => {
                let old = &old_items[oi];
                let mut j: usize = 0;
                while j < 16
                    invariant
                        j <= 16,
                        listed@ == tracked_stats_spec(),
                        old_item_named(old_items@, item.name@) == Some(*old),
                        m == item_questions(*item, old_items@, edits@, had_section, j as int),
                        m <= j,
                    decreases 16 - j,
                {
                    if case_of(item, old, listed[j], edits, had_section) == FieldCase::Ask {
                        m += 1;
                    }
                    j += 1;
                }
            },
            None => {
                proof {
                    assert forall|j: int| 0 <= j < 16 implies !asks(*item, old_items@, edits@, had_section, j) by {}
                    lemma_no_questions(*item, old_items@, edits@, had_section, 16);
                }
            },
        }
        proof {
            lemma_item_questions_bound(*item, old_items@, edits@, had_section, 16);
            lemma_question_count_step(new_items@, old_items@, edits@, had_section, i as int);
        }
        n += m;
        i += 1;
    }
    assert(new_items@.take(new_items@.len() as int) =~= new_items@);
    n
}

proof fn lemma_no_questions(item: CachedItem, old_items: Seq<CachedItem>, edits: Seq<String>, had_section: bool, n: int)
    requires
        forall|j: int| 0 <= j < n ==> !asks(item, old_items, edits, had_section, j),
    ensures
        item_questions(item, old_items, edits, had_section, n) == 0,
    decreases n,
{
    if n > 0 {
        lemma_no_questions(item, old_items, edits, had_section, n - 1);
    }
}

/// How the fields that need a decision are settled.
#[derive(Debug, Clone, Copy, PartialEq, Eq, Structural)]
pub enum BatchOption {
    /// Keep every hand-edited value.
    KeepAll,
    /// Take every exporter value.
    AcceptAll,
    /// Ask about each field.
    PromptEach,
}

/// Whether question `k` keeps the user's value.
pub open spec fn keeps(batch: BatchOption, answers: Seq<bool>, k: int) -> bool {
    match batch {
        BatchOption::KeepAll => true,
        BatchOption::AcceptAll => false,
        BatchOption::PromptEach => answers[k],
    }
}

/// The number of the question about tracked stat `j` of item `i`, counting
/// items in order and each item's tracked stats in canonical order.
pub open spec fn question_index(items: Seq<CachedItem>, ctx: MergeContext, i: int, j: int) -> int {
    (question_count(items.take(i), ctx.old_items@, ctx.user_edits@, ctx.had_user_edits_section) + item_questions(
        items[i],
        ctx.old_items@,
        ctx.user_edits@,
        ctx.had_user_edits_section,
        j,
    )) as int
}

/// The merged value of tracked stat `j` of item `i`.
pub open spec fn merged_value(items: Seq<CachedItem>, ctx: MergeContext, batch: BatchOption, answers: Seq<bool>, i: int, j: int) -> i64 {
    let item = items[i];
    let s = tracked_stats_spec()[j];
    match old_item_named(ctx.old_items@, item.name@) {
        None => item.stats.value(s),
        Some(o) => match field_case(item, o, s, ctx.user_edits@, ctx.had_user_edits_section) {
            FieldCase::Gap => o.stats.value(s),
            FieldCase::Ask => if keeps(batch, answers, question_index(items, ctx, i, j)) {
                o.stats.value(s)
            } else {
                item.stats.value(s)
            },
            _ => item.stats.value(s),
        },
    }
}

/// Whether tracked stat `j` of item `i` is flagged as hand-edited after the
/// merge.
pub open spec fn stays_flagged(items: Seq<CachedItem>, ctx: MergeContext, batch: BatchOption, answers: Seq<bool>, i: int, j: int) -> bool {
    let item = items[i];
    let s = tracked_stats_spec()[j];
    match old_item_named(ctx.old_items@, item.name@) {
        None => false,
        Some(o) => match field_case(item, o, s, ctx.user_edits@, ctx.had_user_edits_section) {
            FieldCase::Gap => true,
            FieldCase::Same => edits_contain(ctx.user_edits@, edit_key_spec(item.name@, stat_key_spec(s))),
            FieldCase::Ask => keeps(batch, answers, question_index(items, ctx, i, j)),
            FieldCase::Overwrite => false,
        },
    }
}

/// The flag key of tracked stat `j` of item `i`.
pub open spec fn flag_key(items: Seq<CachedItem>, i: int, j: int) -> Seq<char> {
    edit_key_spec(items[i].name@, stat_key_spec(tracked_stats_spec()[j]))
}

/// `m` is item `i` after the merge: same name and slot, tracked stats merged,
/// every other stat as exported.
pub open spec fn merged_item(m: CachedItem, items: Seq<CachedItem>, ctx: MergeContext, batch: BatchOption, answers: Seq<bool>, i: int) -> bool {
    &&& m.name == items[i].name
    &&& m.slot == items[i].slot
    &&& forall|j: int| 0 <= j < 16 ==> #[trigger] m.stats.value(tracked_stats_spec()[j]) == merged_value(items, ctx, batch, answers, i, j)
    &&& forall|s: Stat| !tracked_stats_spec().contains(s) ==> #[trigger] m.stats.value(s) == items[i].stats.value(s)
}

/// The texts of a list of strings.
pub open spec fn texts(v: Seq<String>) -> Seq<Seq<char>> {
    v.map_values(|x: String| x@)
}

/// The tracked stats are distinct.
pub proof fn lemma_tracked_distinct()
    ensures
        forall|a: int, b: int| 0 <= a < 16 && 0 <= b < 16 && a != b ==> tracked_stats_spec()[a] != tracked_stats_spec()[b],
{
    let t = tracked_stats_spec();
    assert forall|x: int| 0 <= x < 16 implies #[trigger] stat_index_spec(t[x]) == if x < 2 { x + 5 } else { x + 8 } by {
        if x == 0 {} else if x == 1 {} else if x == 2 {} else if x == 3 {} else if x == 4 {} else if x == 5 {} else if x == 6 {} else if x == 7 {} else if x == 8 {} else if x == 9 {} else if x == 10 {} else if x == 11 {} else if x == 12 {} else if x == 13 {} else if x == 14 {} else if x == 15 {}
    }
    assert forall|a: int, b: int| 0 <= a < 16 && 0 <= b < 16 && a != b implies t[a] != t[b] by {
        assert(stat_index_spec(t[a]) != stat_index_spec(t[b]));
    }
}

proof fn lemma_item_questions_mono(item: CachedItem, old_items: Seq<CachedItem>, edits: Seq<String>, had_section: bool, a: int, b: int)
    requires
        0 <= a <= b,
    ensures
        item_questions(item, old_items, edits, had_section, a) <= item_questions(item, old_items, edits, had_section, b),
    decreases b - a,
{
    if a < b {
        lemma_item_questions_mono(item, old_items, edits, had_section, a, b - 1);
    }
}

proof fn lemma_question_count_mono(items: Seq<CachedItem>, old_items: Seq<CachedItem>, edits: Seq<String>, had_section: bool, a: int, b: int)
    requires
        0 <= a <= b <= items.len(),
    ensures
        question_count(items.take(a), old_items, edits, had_section) <= question_count(items.take(b), old_items, edits, had_section),
    decreases b - a,
{
    if a < b {
        lemma_question_count_mono(items, old_items, edits, had_section, a, b - 1);
        lemma_question_count_step(items, old_items, edits, had_section, b - 1);
    }
}

/// Question `(i, j)` comes before the end of the question list.
proof fn lemma_question_index_bound(items: Seq<CachedItem>, ctx: MergeContext, i: int, j: int)
    requires
        0 <= i < items.len(),
        0 <= j < 16,
        asks(items[i], ctx.old_items@, ctx.user_edits@, ctx.had_user_edits_section, j),
    ensures
        0 <= question_index(items, ctx, i, j) < question_count(items, ctx.old_items@, ctx.user_edits@, ctx.had_user_edits_section),
{
    let (o, e, h) = (ctx.old_items@, ctx.user_edits@, ctx.had_user_edits_section);
    lemma_item_questions_mono(items[i], o, e, h, j + 1, 16);
    lemma_question_count_step(items, o, e, h, i);
    lemma_question_count_mono(items, o, e, h, i + 1, items.len() as int);
    assert(items.take(items.len() as int) =~= items);
}

fn add_flag(flags: &mut Vec<String>, key: String)
    requires
        texts(old(flags)@).no_duplicates(),
    ensures
        texts(final(flags)@).no_duplicates(),
        forall|x: Seq<char>| texts(final(flags)@).contains(x) <==> (texts(old(flags)@).contains(x) || x == key@),
{
    let ghost before = texts(flags@);
    let mut i: usize = 0;
    while i < flags.len()
        invariant
            i <= flags@.len(),
            flags@ == old(flags)@,
            before == texts(flags@),
            before.no_duplicates(),
            forall|j: int| 0 <= j < i ==> #[trigger] flags@[j]@ != key@,
        decreases flags@.len() - i,
    {
        if str_eq(flags[i].as_str(), key.as_str()) {
            assert(before[i as int] == key@);
            return;
        }
        i += 1;
    }
    flags.push(key);
    proof {
        let after = texts(flags@);
        assert(after =~= before.push(key@));
        assert(!before.contains(key@)) by {
            if before.contains(key@) {
                let j = choose|j: int| 0 <= j < before.len() && before[j] == key@;
                assert(flags@[j]@ == key@);
            }
        }
        assert forall|x: Seq<char>| after.contains(x) <==> (before.contains(x) || x == key@) by {
            if after.contains(x) {
                let j = choose|j: int| 0 <= j < after.len() && after[j] == x;
                if j < before.len() {
                    assert(before[j] == x);
                }
            }
            if before.contains(x) {
                let j = choose|j: int| 0 <= j < before.len() && before[j] == x;
                assert(after[j] == x);
            }
            if x == key@ {
                assert(after[before.len() as int] == x);
            }
        }
    }
}

/// Whether some field before `(i, j)` (items in order, tracked stats in
/// canonical order) stays flagged under `key`.
pub open spec fn flagged_before(items: Seq<CachedItem>, ctx: MergeContext, batch: BatchOption, answers: Seq<bool>, i: int, j: int, key: Seq<char>) -> bool {
    exists|a: int, b: int|
        0 <= a && 0 <= b < 16 && (a < i || (a == i && b < j)) && #[trigger] flag_key(items, a, b) == key
            && stays_flagged(items, ctx, batch, answers, a, b)
}

proof fn lemma_flagged_before_step(items: Seq<CachedItem>, ctx: MergeContext, batch: BatchOption, answers: Seq<bool>, i: int, j: int, key: Seq<char>)
    requires
        0 <= i,
        0 <= j < 16,
    ensures
        flagged_before(items, ctx, batch, answers, i, j + 1, key) <==> (flagged_before(items, ctx, batch, answers, i, j, key) || (
        flag_key(items, i, j) == key && stays_flagged(items, ctx, batch, answers, i, j))),
{
    if flagged_before(items, ctx, batch, answers, i, j + 1, key) {
        let (a, b) = choose|a: int, b: int|
            0 <= a && 0 <= b < 16 && (a < i || (a == i && b < j + 1)) && #[trigger] flag_key(items, a, b) == key
                && stays_flagged(items, ctx, batch, answers, a, b);
        if !(a == i && b == j) {
            assert(flagged_before(items, ctx, batch, answers, i, j, key));
        }
    }
    if flag_key(items, i, j) == key && stays_flagged(items, ctx, batch, answers, i, j) {
        assert(flagged_before(items, ctx, batch, answers, i, j + 1, key));
    }
    if flagged_before(items, ctx, batch, answers, i, j, key) {
        let (a, b) = choose|a: int, b: int|
            0 <= a && 0 <= b < 16 && (a < i || (a == i && b < j)) && #[trigger] flag_key(items, a, b) == key
                && stays_flagged(items, ctx, batch, answers, a, b);
        assert(flagged_before(items, ctx, batch, answers, i, j + 1, key));
    }
}

proof fn lemma_flagged_before_next_item(items: Seq<CachedItem>, ctx: MergeContext, batch: BatchOption, answers: Seq<bool>, i: int, key: Seq<char>)
    requires
        0 <= i,
    ensures
        flagged_before(items, ctx, batch, answers, i, 16, key) == flagged_before(items, ctx, batch, answers, i + 1, 0, key),
{
    if flagged_before(items, ctx, batch, answers, i, 16, key) {
        let (a, b) = choose|a: int, b: int|
            0 <= a && 0 <= b < 16 && (a < i || (a == i && b < 16)) && #[trigger] flag_key(items, a, b) == key
                && stays_flagged(items, ctx, batch, answers, a, b);
        assert(flagged_before(items, ctx, batch, answers, i + 1, 0, key));
    }
    if flagged_before(items, ctx, batch, answers, i + 1, 0, key) {
        let (a, b) = choose|a: int, b: int|
            0 <= a && 0 <= b < 16 && (a < i + 1 || (a == i + 1 && b < 0)) && #[trigger] flag_key(items, a, b) == key
                && stays_flagged(items, ctx, batch, answers, a, b);
        assert(flagged_before(items, ctx, batch, answers, i, 16, key));
    }
}

/// Whether a field in case `case` is flagged after the merge.
pub open spec fn case_flag(case: FieldCase, was_flagged: bool, keep: bool) -> bool {
    match case {
        FieldCase::Gap => true,
        FieldCase::Same => was_flagged,
        FieldCase::Ask => keep,
        FieldCase::Overwrite => false,
    }
}

/// Settles one tracked field: updates the item's stats in `st` and the flag
/// list, and says whether the field was a question.
fn merge_field(
    item: &CachedItem,
    prev: &CachedItem,
    s: Stat,
    ctx: &MergeContext,
    batch: BatchOption,
    answers: &[bool],
    k: usize,
    st: &mut crate::stat::StatMap,
    flags: &mut Vec<String>,
) -> (asked: bool)
    requires
        texts(old(flags)@).no_duplicates(),
        field_case(*item, *prev, s, ctx.user_edits@, ctx.had_user_edits_section) == FieldCase::Ask && batch
            == BatchOption::PromptEach ==> k < answers@.len(),
    ensures
        ({
            let case = field_case(*item, *prev, s, ctx.user_edits@, ctx.had_user_edits_section);
            let keep = keeps(batch, answers@, k as int);
            let key = edit_key_spec(item.name@, stat_key_spec(s));
            &&& asked == (case == FieldCase::Ask)
            &&& final(st).value(s) == match case {
                FieldCase::Gap => prev.stats.value(s),
                FieldCase::Ask => if keep {
                    prev.stats.value(s)
                } else {
                    old(st).value(s)
                },
                _ => old(st).value(s),
            }
            &&& forall|t: Stat| t != s ==> #[trigger] final(st).value(t) == old(st).value(t)
            &&& texts(final(flags)@).no_duplicates()
            &&& forall|x: Seq<char>|
                texts(final(flags)@).contains(x) <==> (texts(old(flags)@).contains(x) || (case_flag(
                    case,
                    edits_contain(ctx.user_edits@, key),
                    keep,
                ) && x == key))
        }),
{
    let case = case_of(item, prev, s, ctx.user_edits.as_slice(), ctx.had_user_edits_section);
    let key = edit_key(item.name.as_str(), stat_key(s));
    match case {
        FieldCase::Gap => {
            st.set(s, prev.stats.get(s));
            add_flag(flags, key);
            false
        },
        FieldCase::Same => {
            if is_flagged(ctx.user_edits.as_slice(), key.as_str()) {
                add_flag(flags, key);
            }
            false
        },
        FieldCase::Ask => {
            let keep = match batch {
                BatchOption::KeepAll => true,
                BatchOption::AcceptAll => false,
                BatchOption::PromptEach => answers[k],
            };
            if keep {
                st.set(s, prev.stats.get(s));
                add_flag(flags, key);
            }
            true
        },
        FieldCase::Overwrite => false,
    }
}

/// Merges freshly exported items with the old file's. `batch` says how the
/// fields that need a decision are settled; with `PromptEach`, `answers[k]`
/// answers question `k` (true keeps the user's value), the questions numbered
/// as `prompt_fields` lists them. Returns the merged items in export order and
/// the fields flagged as hand-edited afterwards.
#[verifier::rlimit(40)]
pub fn merge_stats(new_items: Vec<CachedItem>, ctx: &MergeContext, batch: BatchOption, answers: &[bool]) -> (r: (
    Vec<CachedItem>,
    Vec<String>,
))
    requires
        new_items@.len() * 16 <= usize::MAX,
        batch == BatchOption::PromptEach ==> answers@.len() == question_count(
            new_items@,
            ctx.old_items@,
            ctx.user_edits@,
            ctx.had_user_edits_section,
        ),
    ensures
        r.0@.len() == new_items@.len(),
        forall|i: int| 0 <= i < new_items@.len() ==> merged_item(#[trigger] r.0@[i], new_items@, *ctx, batch, answers@, i),
        texts(r.1@).no_duplicates(),
        forall|key: Seq<char>|
            texts(r.1@).contains(key) <==> exists|i: int, j: int|
                0 <= i < new_items@.len() && 0 <= j < 16 && #[trigger] flag_key(new_items@, i, j) == key && stays_flagged(
                    new_items@,
                    *ctx,
                    batch,
                    answers@,
                    i,
                    j,
                ),
{
    let listed = tracked_stats();
    proof {
        lemma_tracked_distinct();
    }
    let ghost items = new_items@;
    let ghost c = *ctx;
    let ghost o = ctx.old_items@;
    let ghost e = ctx.user_edits@;
    let ghost h = ctx.had_user_edits_section;
    let mut merged: Vec<CachedItem> = Vec::new();
    let mut flags: Vec<String> = Vec::new();
    let mut k: usize = 0;
    let mut i: usize = 0;
    assert(items.take(0) =~= Seq::<CachedItem>::empty());
    while i < new_items.len()
        invariant
            items == new_items@,
            c == *ctx,
            o == ctx.old_items@,
            e == ctx.user_edits@,
            h == ctx.had_user_edits_section,
            i <= items.len(),
            items.len() * 16 <= usize::MAX,
            listed@ == tracked_stats_spec(),
            forall|a: int, b: int| 0 <= a < 16 && 0 <= b < 16 && a != b ==> tracked_stats_spec()[a] != tracked_stats_spec()[b],
            batch == BatchOption::PromptEach ==> answers@.len() == question_count(items, o, e, h),
            merged@.len() == i,
            forall|a: int| 0 <= a < i ==> merged_item(#[trigger] merged@[a], items, c, batch, answers@, a),
            k == question_count(items.take(i as int), o, e, h),
            k <= 16 * i,
            texts(flags@).no_duplicates(),
            forall|key: Seq<char>| texts(flags@).contains(key) <==> flagged_before(items, c, batch, answers@, i as int, 0, key),
        decreases items.len() - i,
    {
        let item = &new_items[i];
        let mut st = item.stats;
        proof {
            lemma_item_questions_bound(*item, o, e, h, 16);
            lemma_question_count_step(items, o, e, h, i as int);
        }
        match find_old(ctx.old_items.as_slice(), item.name.as_str()) {
            Some(oi) => {
                let old = &ctx.old_items[oi];
                let mut j: usize = 0;
                while j < 16
                    invariant
                        items == new_items@,
                        c == *ctx,
                        o == ctx.old_items@,
                        e == ctx.user_edits@,
                        h == ctx.had_user_edits_section,
                        i < items.len(),
                        items.len() * 16 <= usize::MAX,
                        listed@ == tracked_stats_spec(),
                        forall|a: int, b: int| 0 <= a < 16 && 0 <= b < 16 && a != b ==> tracked_stats_spec()[a] != tracked_stats_spec()[b],
                        batch == BatchOption::PromptEach ==> answers@.len() == question_count(items, o, e, h),
                        *item == items[i as int],
                        old_item_named(o, item.name@) == Some(*old),
                        j <= 16,
                        forall|b: int| 0 <= b < j ==> #[trigger] st.value(tracked_stats_spec()[b]) == merged_value(items, c, batch, answers@, i as int, b),
                        forall|t: Stat| (forall|b: int| 0 <= b < j ==> tracked_stats_spec()[b] != t) ==> #[trigger] st.value(t) == item.stats.value(t),
                        k == question_count(items.take(i as int), o, e, h) + item_questions(*item, o, e, h, j as int),
                        question_count(items.take(i as int), o, e, h) <= 16 * i,
                        item_questions(*item, o, e, h, j as int) <= j,
                        texts(flags@).no_duplicates(),
                        forall|key: Seq<char>| texts(flags@).contains(key) <==> flagged_before(items, c, batch, answers@, i as int, j as int, key),
                    decreases 16 - j,
                {
                    let s = listed[j];
                    proof {
                        if asks(*item, o, e, h, j as int) {
                            lemma_question_index_bound(items, c, i as int, j as int);
                        }
                        assert(st.value(s) == item.stats.value(s));
                    }
                    let ghost st0 = st;
                    let ghost prev = texts(flags@);
                    let asked = merge_field(item, old, s, ctx, batch, answers, k, &mut st, &mut flags);
                    proof {
                        assert(question_index(items, c, i as int, j as int) == k);
                        assert(st.value(s) == merged_value(items, c, batch, answers@, i as int, j as int));
                        assert forall|key: Seq<char>| texts(flags@).contains(key) <==> flagged_before(items, c, batch, answers@, i as int, j + 1, key) by {
                            lemma_flagged_before_step(items, c, batch, answers@, i as int, j as int, key);
                        }
                        assert forall|b: int| 0 <= b < j + 1 implies #[trigger] st.value(tracked_stats_spec()[b]) == merged_value(items, c, batch, answers@, i as int, b) by {
                            if b < j {
                                assert(tracked_stats_spec()[b] != s);
                            }
                        }
                    }
                    if asked {
                        k += 1;
                    }
                    j += 1;
                }
            },
            None => {
                proof {
                    lemma_no_questions(*item, o, e, h, 16);
                    assert forall|key: Seq<char>| texts(flags@).contains(key) <==> flagged_before(items, c, batch, answers@, i as int, 16, key) by {
                        if flagged_before(items, c, batch, answers@, i as int, 16, key) {
                            let (a, b) = choose|a: int, b: int|
                                0 <= a && 0 <= b < 16 && (a < i || (a == i && b < 16)) && #[trigger] flag_key(items, a, b) == key
                                    && stays_flagged(items, c, batch, answers@, a, b);
                            if a < i {
                                assert(flagged_before(items, c, batch, answers@, i as int, 0, key));
                            }
                        }
                        if flagged_before(items, c, batch, answers@, i as int, 0, key) {
                            let (a, b) = choose|a: int, b: int|
                                0 <= a && 0 <= b < 16 && (a < i || (a == i && b < 0)) && #[trigger] flag_key(items, a, b) == key
                                    && stays_flagged(items, c, batch, answers@, a, b);
                            assert(flagged_before(items, c, batch, answers@, i as int, 16, key));
                        }
                    }
                }
            },
        }
        proof {
            assert forall|key: Seq<char>| texts(flags@).contains(key) <==> flagged_before(items, c, batch, answers@, i + 1, 0, key) by {
                lemma_flagged_before_next_item(items, c, batch, answers@, i as int, key);
            }
            assert forall|t: Stat| !tracked_stats_spec().contains(t) implies #[trigger] st.value(t) == items[i as int].stats.value(t) by {
                assert forall|b: int| 0 <= b < 16 implies tracked_stats_spec()[b] != t by {
                    if tracked_stats_spec()[b] == t {
                        assert(tracked_stats_spec().contains(t));
                    }
                }
            }
        }
        let m = CachedItem { name: item.name.clone(), slot: item.slot, stats: st };
        merged.push(m);
        i += 1;
    }
    proof {
        assert(items.take(items.len() as int) =~= items);
        assert forall|key: Seq<char>| texts(flags@).contains(key) <==> exists|a: int, b: int|
            0 <= a < items.len() && 0 <= b < 16 && #[trigger] flag_key(items, a, b) == key && stays_flagged(items, c, batch, answers@, a, b) by {
            if flagged_before(items, c, batch, answers@, i as int, 0, key) {
                let (a, b) = choose|a: int, b: int|
                    0 <= a && 0 <= b < 16 && (a < i || (a == i && b < 0)) && #[trigger] flag_key(items, a, b) == key
                        && stays_flagged(items, c, batch, answers@, a, b);
                assert(0 <= a < items.len());
            }
            if exists|a: int, b: int| 0 <= a < items.len() && 0 <= b < 16 && #[trigger] flag_key(items, a, b) == key && stays_flagged(items, c, batch, answers@, a, b) {
                let (a, b) = choose|a: int, b: int| 0 <= a < items.len() && 0 <= b < 16 && #[trigger] flag_key(items, a, b) == key && stays_flagged(items, c, batch, answers@, a, b);
                assert(flagged_before(items, c, batch, answers@, i as int, 0, key));
            }
        }
    }
    (merged, flags)
}

/// A question for the user: a hand-editable field whose old and exported
/// values differ.
#[derive(Debug)]
pub struct PromptField {
    pub item_name: String,
    pub stat_key: String,
    /// The value in the user's file.
    pub old_value: i64,
    /// The exporter's value.
    pub new_value: i64,
}

/// `f` asks about tracked stat `j` of item `i`.
pub open spec fn is_question(f: PromptField, items: Seq<CachedItem>, ctx: MergeContext, i: int, j: int) -> bool {
    let item = items[i];
    let s = tracked_stats_spec()[j];
    &&& f.item_name@ == item.name@
    &&& f.stat_key@ == stat_key_spec(s)
    &&& f.new_value == item.stats.value(s)
    &&& old_item_named(ctx.old_items@, item.name@) matches Some(o) && f.old_value == o.stats.value(s)
}

/// The questions a merge of `new_items` asks, in the order their answers are
/// read by `merge_stats`.
pub fn prompt_fields(new_items: &[CachedItem], ctx: &MergeContext) -> (r: Vec<PromptField>)
    requires
        new_items@.len() * 16 <= usize::MAX,
    ensures
        r@.len() == question_count(new_items@, ctx.old_items@, ctx.user_edits@, ctx.had_user_edits_section),
        forall|i: int, j: int|
            0 <= i < new_items@.len() && 0 <= j < 16 && asks(
                new_items@[i],
                ctx.old_items@,
                ctx.user_edits@,
                ctx.had_user_edits_section,
                j,
            ) ==> is_question(#[trigger] r@[question_index(new_items@, *ctx, i, j)], new_items@, *ctx, i, j),
{
    let listed = tracked_stats();
    let ghost items = new_items@;
    let ghost c = *ctx;
    let ghost o = ctx.old_items@;
    let ghost e = ctx.user_edits@;
    let ghost h = ctx.had_user_edits_section;
    let mut out: Vec<PromptField> = Vec::new();
    let mut i: usize = 0;
    assert(items.take(0) =~= Seq::<CachedItem>::empty());
    while i < new_items.len()
        invariant
            items == new_items@,
            c == *ctx,
            o == ctx.old_items@,
            e == ctx.user_edits@,
            h == ctx.had_user_edits_section,
            i <= items.len(),
            items.len() * 16 <= usize::MAX,
            listed@ == tracked_stats_spec(),
            out@.len() == question_count(items.take(i as int), o, e, h),
            out@.len() <= 16 * i,
            forall|a: int, b: int|
                0 <= a < i && 0 <= b < 16 && asks(items[a], o, e, h, b) ==> is_question(
                    #[trigger] out@[question_index(items, c, a, b)],
                    items,
                    c,
                    a,
                    b,
                ),
        decreases items.len() - i,
    {
        let item = &new_items[i];
        proof {
            lemma_item_questions_bound(*item, o, e, h, 16);
            lemma_question_count_step(items, o, e, h, i as int);
        }
        match find_old(ctx.old_items.as_slice(), item.name.as_str()) {
            Some(oi) => {
                let old = &ctx.old_items[oi];
                let mut j: usize = 0;
                while j < 16
                    invariant
                        items == new_items@,
                        c == *ctx,
                        o == ctx.old_items@,
                        e == ctx.user_edits@,
                        h == ctx.had_user_edits_section,
                        i < items.len(),
                        items.len() * 16 <= usize::MAX,
                        listed@ == tracked_stats_spec(),
                        *item == items[i as int],
                        old_item_named(o, item.name@) == Some(*old),
                        j <= 16,
                        out@.len() == question_count(items.take(i as int), o, e, h) + item_questions(*item, o, e, h, j as int),
                        question_count(items.take(i as int), o, e, h) <= 16 * i,
                        item_questions(*item, o, e, h, j as int) <= j,
                        forall|a: int, b: int|
                            0 <= a && 0 <= b < 16 && (a < i || (a == i && b < j)) && asks(items[a], o, e, h, b) ==> is_question(
                                #[trigger] out@[question_index(items, c, a, b)],
                                items,
                                c,
                                a,
                                b,
                            ),
                    decreases 16 - j,
                {
                    let s = listed[j];
                    if case_of(item, old, s, ctx.user_edits.as_slice(), ctx.had_user_edits_section) == FieldCase::Ask {
                        let f = PromptField {
                            item_name: item.name.clone(),
                            stat_key: stat_key(s).to_owned(),
                            old_value: old.stats.get(s),
                            new_value: item.stats.get(s),
                        };
                        let ghost before = out@;
                        out.push(f);
                        proof {
                            assert(question_index(items, c, i as int, j as int) == before.len());
                            assert forall|a: int, b: int|
                                0 <= a && 0 <= b < 16 && (a < i || (a == i && b < j + 1)) && asks(items[a], o, e, h, b) implies is_question(
                                    #[trigger] out@[question_index(items, c, a, b)],
                                    items,
                                    c,
                                    a,
                                    b,
                                ) by {
                                if !(a == i && b == j) {
                                    assert(question_index(items, c, a, b) < before.len()) by {
                                        if a < i {
                                            lemma_item_questions_mono(items[a], o, e, h, b + 1, 16);
                                            lemma_question_count_step(items, o, e, h, a);
                                            lemma_question_count_mono(items, o, e, h, a + 1, i as int);
                                        } else {
                                            lemma_item_questions_mono(*item, o, e, h, b + 1, j as int);
                                        }
                                    }
                                    assert(out@[question_index(items, c, a, b)] == before[question_index(items, c, a, b)]);
                                }
                            }
                        }
                    }
                    j += 1;
                }
            },
            None => {
                proof {
                    lemma_no_questions(*item, o, e, h, 16);
                }
            },
        }
        i += 1;
    }
    assert(items.take(items.len() as int) =~= items);
    out
}

/// The keys of the entries of a table whose value is `true`, in order.
pub open spec fn true_keys(t: Seq<(Seq<char>, TomlView)>) -> Seq<Seq<char>>
    decreases t.len(),
{
    if t.len() == 0 {
        Seq::empty()
    } else if t.last().1 == TomlView::Boolean(true) {
        true_keys(t.drop_last()).push(t.last().0)
    } else {
        true_keys(t.drop_last())
    }
}

/// What the `[__user_edits__]` table of a stats file says: the flagged keys
/// (entries set to `true`; `false` and other values are ignored) and whether
/// the table is there; any value other than a table counts as an empty one.
pub open spec fn user_edits_spec(src: Seq<char>) -> Result<(Seq<Seq<char>>, bool), Seq<char>> {
    match toml_parsed(src) {
        Err(e) => Err("Malformed TOML: "@ + e),
        Ok(TomlView::Table(t)) => match entry_index(t, "__user_edits__"@) {
            None => Ok((Seq::empty(), false)),
            Some(i) => match t[i].1 {
                TomlView::Table(u) => Ok((true_keys(u), true)),
                _ => Ok((Seq::empty(), true)),
            },
        },
        Ok(_) => Ok((Seq::empty(), false)),
    }
}

proof fn lemma_true_view(v: TomlValue)
    ensures
        (toml_view(v) == TomlView::Boolean(true)) <==> (v matches TomlValue::Boolean(b) && b),
{
    reveal(toml_view);
}

fn true_key_list(u: &Vec<(String, TomlValue)>) -> (keys: Vec<String>)
    ensures
        texts(keys@) == true_keys(toml_entries(u@)),
{
    let mut keys: Vec<String> = Vec::new();
    let mut k: usize = 0;
    let ghost tv = toml_entries(u@);
    assert(tv.take(0) =~= Seq::<(Seq<char>, TomlView)>::empty());
    while k < u.len()
        invariant
            k <= u@.len(),
            tv == toml_entries(u@),
            texts(keys@) == true_keys(tv.take(k as int)),
        decreases u@.len() - k,
    {
        proof {
            assert(tv.take(k + 1).drop_last() =~= tv.take(k as int));
            lemma_true_view(u@[k as int].1);
        }
        let is_true = match &u[k].1 {
            TomlValue::Boolean(b) => *b,
            _ => false,
        };
        if is_true {
            keys.push(u[k].0.clone());
            assert(texts(keys@) =~= true_keys(tv.take(k as int)).push(tv[k as int].0));
        }
        k += 1;
    }
    assert(tv.take(u@.len() as int) =~= tv);
    keys
}

/// Reads the `[__user_edits__]` table of a stats file: the flagged keys and
/// whether the table is there.
pub fn parse_user_edits(src: &str) -> (r: Result<(Vec<String>, bool), String>)
    ensures
        match user_edits_spec(src@) {
            Ok((keys, had)) => r matches Ok((v, b)) && texts(v@) == keys && b == had,
            Err(m) => r matches Err(x) && x@ == m,
        },
{
    let doc = match parse_toml(src) {
        Ok(d) => d,
        Err(e) => return Err(concat2("Malformed TOML: ", e.as_str())),
    };
    proof {
        lemma_view_shape(doc);
    }
    match &doc {
        TomlValue::Table(root) => {
            proof {
                lemma_table_view(*root);
            }
            match find_key(root, "__user_edits__") {
                None => Ok((Vec::new(), false)),
                Some(i) => {
                    assert(toml_entries(root@)[i as int].1 == toml_view(root@[i as int].1));
                    proof {
                        lemma_view_shape(root@[i as int].1);
                    }
                    match &root[i].1 {
                        TomlValue::Table(u) => {
                            proof {
                                lemma_table_view(*u);
                            }
                            Ok((true_key_list(u), true))
                        },
                        _ => Ok((Vec::new(), true)),
                    }
                },
            }
        },
        _ => Ok((Vec::new(), false)),
    }
}

/// The batch choice a reply selects, read trimmed and lowercased: `a`,
/// `accept` or `accept-all` take every exporter value, `k`, `keep` or
/// `keep-all` keep every hand-edited one, anything else asks about each field.
pub open spec fn batch_option_spec(reply: Seq<char>) -> BatchOption {
    let w = unicode_lowercase(trim_spec(reply));
    if w == "a"@ || w == "accept"@ || w == "accept-all"@ {
        BatchOption::AcceptAll
    } else if w == "k"@ || w == "keep"@ || w == "keep-all"@ {
        BatchOption::KeepAll
    } else {
        BatchOption::PromptEach
    }
}

/// Reads the user's reply to the batch question.
pub fn parse_batch_option(reply: &str) -> (r: BatchOption)
    ensures
        r == batch_option_spec(reply@),
{
    let t = trim(reply);
    let w = to_lowercase(t.as_str());
    if str_eq(w.as_str(), "a") || str_eq(w.as_str(), "accept") || str_eq(w.as_str(), "accept-all") {
        BatchOption::AcceptAll
    } else if str_eq(w.as_str(), "k") || str_eq(w.as_str(), "keep") || str_eq(w.as_str(), "keep-all") {
        BatchOption::KeepAll
    } else {
        BatchOption::PromptEach
    }
}

/// Whether a reply to a field question keeps the user's value: anything but
/// `n` or `no` (trimmed, lowercased) does.
pub open spec fn keep_answer_spec(reply: Seq<char>) -> bool {
    let w = unicode_lowercase(trim_spec(reply));
    !(w == "n"@ || w == "no"@)
}

/// Reads the user's reply to a field question.
pub fn parse_keep_answer(reply: &str) -> (r: bool)
    ensures
        r == keep_answer_spec(reply@),
{
    let t = trim(reply);
    let w = to_lowercase(t.as_str());
    !(str_eq(w.as_str(), "n") || str_eq(w.as_str(), "no"))
}

} // verus!
