//! Finding owned gear that no saved build uses.
//!
//! Every saved build is optimized on its own; an item is scrap when more
//! copies of it are owned than any single build equips. The caller runs the
//! builds and hands over the gear sets they chose.
use vstd::prelude::*;

use crate::gear::{slot_index, slot_index_spec, GearItem, GearSet, Slot};
use crate::order::string_views;
use crate::text::{starts_with, str_eq};

verus! {

broadcast use vstd::array::group_array_axioms;

/// Whether an equipped name marks an empty slot rather than an item.
pub open spec fn is_placeholder_name(n: Seq<char>) -> bool {
    ||| (6 <= n.len() && n.subrange(0, 6) == "[empty"@)
    ||| n == "NO ITEMS"@
    ||| n == "(2-handed item)"@
}

/// Whether an equipped name marks an empty slot rather than an item.
pub fn is_empty_placeholder(name: &str) -> (r: bool)
    ensures
        r == is_placeholder_name(name@),
{
    proof {
        reveal_strlit("[empty");
    }
    starts_with(name, "[empty") || str_eq(name, "NO ITEMS") || str_eq(name, "(2-handed item)")
}

/// How many of `names` are `x`.
pub open spec fn count_named(names: Seq<Seq<char>>, x: Seq<char>) -> nat
    decreases names.len(),
{
    if names.len() == 0 {
        0
    } else {
        count_named(names.drop_last(), x) + if names.last() == x {
            1nat
        } else {
            0nat
        }
    }
}

/// The names of the real items among equipped slots, in slot order.
pub open spec fn real_names(items: Seq<Option<GearItem>>) -> Seq<Seq<char>>
    decreases items.len(),
{
    if items.len() == 0 {
        Seq::empty()
    } else {
        let rest = real_names(items.drop_last());
        match items.last() {
            Some(it) => if is_placeholder_name(it.name@) {
                rest
            } else {
                rest.push(it.name@)
            },
            None => rest,
        }
    }
}

/// The most copies of `x` that one of the gear sets equips.
pub open spec fn max_used(sets: Seq<GearSet>, x: Seq<char>) -> nat
    decreases sets.len(),
{
    if sets.len() == 0 {
        0
    } else {
        let a = max_used(sets.drop_last(), x);
        let b = count_named(real_names(sets.last().items@), x);
        if b > a {
            b
        } else {
            a
        }
    }
}

/// The names of the owned items, in order.
pub open spec fn owned_names(owned: Seq<GearItem>) -> Seq<Seq<char>> {
    owned.map_values(|it: GearItem| it.name@)
}

/// The first slot in canonical order among the owned items named `x`.
pub open spec fn first_slot(owned: Seq<GearItem>, x: Seq<char>) -> Option<Slot>
    decreases owned.len(),
{
    if owned.len() == 0 {
        None
    } else {
        let r = first_slot(owned.drop_last(), x);
        let it = owned.last();
        if it.name@ == x {
            match r {
                None => Some(it.slot),
                Some(s) => if slot_index_spec(it.slot) < slot_index_spec(s) {
                    Some(it.slot)
                } else {
                    Some(s)
                },
            }
        } else {
            r
        }
    }
}

/// The distinct names of `names`, each where it first appears.
pub open spec fn distinct_names(names: Seq<Seq<char>>) -> Seq<Seq<char>>
    decreases names.len(),
{
    if names.len() == 0 {
        Seq::empty()
    } else {
        let rest = distinct_names(names.drop_last());
        if rest.contains(names.last()) {
            rest
        } else {
            rest.push(names.last())
        }
    }
}

/// The names of `xs` owned in more copies than any gear set equips.
pub open spec fn scrap_names(xs: Seq<Seq<char>>, owned: Seq<GearItem>, sets: Seq<GearSet>) -> Seq<Seq<char>>
    decreases xs.len(),
{
    if xs.len() == 0 {
        Seq::empty()
    } else {
        let rest = scrap_names(xs.drop_last(), owned, sets);
        if count_named(owned_names(owned), xs.last()) > max_used(sets, xs.last()) {
            rest.push(xs.last())
        } else {
            rest
        }
    }
}

/// An owned item that no saved build uses in full: its slot, its name, how
/// many copies are owned and the most copies any build equips.
#[derive(Debug, Clone, PartialEq, Eq)]
pub struct ScrapUnusedItem {
    pub slot: Slot,
    pub name: String,
    pub owned_count: usize,
    pub max_used_count: usize,
}

/// How many real items named `name` a gear set equips.
pub fn equipped_count(set: &GearSet, name: &str) -> (r: usize)
    ensures
        r == count_named(real_names(set.items@), name@),
        r <= 19,
{
    let mut r: usize = 0;
    let mut i: usize = 0;
    while i < 19
        invariant
            i <= 19,
            set.items@.len() == 19,
            r == count_named(real_names(set.items@.subrange(0, i as int)), name@),
            r <= i,
        decreases 19 - i,
    {
        let ghost before = set.items@.subrange(0, i as int);
        let ghost now = set.items@.subrange(0, i + 1);
        proof {
            assert(now.drop_last() =~= before);
            assert(now.last() == set.items@[i as int]);
        }
        let slot_item = &set.items[i];
        assert(*slot_item == set.items@[i as int]);
        match slot_item {
            Some(it) => {
                if !is_empty_placeholder(it.name.as_str()) && str_eq(it.name.as_str(), name) {
                    r += 1;
                }
            },
            None => {},
        }
        proof {
            let rn = real_names(before);
            assert(real_names(now) == match now.last() {
                Some(it) => if is_placeholder_name(it.name@) {
                    rn
                } else {
                    rn.push(it.name@)
                },
                None => rn,
            });
            if let Some(it) = now.last() {
                assert(rn.push(it.name@).drop_last() =~= rn);
            }
        }
        i += 1;
    }
    assert(set.items@.subrange(0, 19) =~= set.items@);
    r
}

/// The most copies of `name` that one of the gear sets equips.
fn max_used_count(sets: &Vec<GearSet>, name: &str) -> (r: usize)
    ensures
        r == max_used(sets@, name@),
{
    let mut r: usize = 0;
    let mut k: usize = 0;
    while k < sets.len()
        invariant
            k <= sets@.len(),
            r == max_used(sets@.subrange(0, k as int), name@),
            r <= 19,
        decreases sets@.len() - k,
    {
        proof {
            assert(sets@.subrange(0, k + 1).drop_last() =~= sets@.subrange(0, k as int));
        }
        let c = equipped_count(&sets[k], name);
        if c > r {
            r = c;
        }
        k += 1;
    }
    assert(sets@.subrange(0, sets@.len() as int) =~= sets@);
    r
}

/// How many owned items are named `name`, and the first slot in canonical
/// order among them.
fn owned_count_and_slot(owned: &Vec<GearItem>, name: &str) -> (r: (usize, Option<Slot>))
    ensures
        r.0 == count_named(owned_names(owned@), name@),
        r.1 == first_slot(owned@, name@),
{
    let mut count: usize = 0;
    let mut slot: Option<Slot> = None;
    let mut k: usize = 0;
    while k < owned.len()
        invariant
            k <= owned@.len(),
            count == count_named(owned_names(owned@.subrange(0, k as int)), name@),
            count <= k,
            slot == first_slot(owned@.subrange(0, k as int), name@),
        decreases owned@.len() - k,
    {
        proof {
            assert(owned@.subrange(0, k + 1).drop_last() =~= owned@.subrange(0, k as int));
            assert(owned_names(owned@.subrange(0, k + 1)).drop_last() =~= owned_names(owned@.subrange(0, k as int)));
        }
        let it = &owned[k];
        if str_eq(it.name.as_str(), name) {
            count += 1;
            slot = match slot {
                None => Some(it.slot),
                Some(s) => if slot_index(it.slot) < slot_index(s) {
                    Some(it.slot)
                } else {
                    Some(s)
                },
            };
        }
        k += 1;
    }
    proof {
        assert(owned@.subrange(0, owned@.len() as int) =~= owned@);
    }
    (count, slot)
}

/// Whether `x` is one of `v`.
fn contains_name(v: &Vec<String>, x: &str) -> (r: bool)
    ensures
        r == string_views(v@).contains(x@),
{
    let mut i: usize = 0;
    while i < v.len()
        invariant
            i <= v@.len(),
            forall|m: int| 0 <= m < i ==> v@[m]@ != x@,
        decreases v@.len() - i,
    {
        if str_eq(v[i].as_str(), x) {
            assert(string_views(v@)[i as int] == x@);
            return true;
        }
        i += 1;
    }
    proof {
        if string_views(v@).contains(x@) {
            let m = choose|m: int| 0 <= m < string_views(v@).len() && string_views(v@)[m] == x@;
            assert(v@[m]@ == x@);
        }
    }
    false
}

/// Owned items that no saved build uses in full, one entry per name, in the
/// order the names first appear among the owned items. A name is listed when
/// more copies are owned than the most any one gear set equips; its slot is
/// the first in canonical order among the owned copies.
pub fn scrap_unused_items(owned: &Vec<GearItem>, sets: &Vec<GearSet>) -> (r: Vec<ScrapUnusedItem>)
    ensures
        ({
            let xs = scrap_names(distinct_names(owned_names(owned@)), owned@, sets@);
            &&& r@.len() == xs.len()
            &&& forall|i: int|
                0 <= i < xs.len() ==> (#[trigger] r@[i]).name@ == xs[i] && r@[i].owned_count == count_named(
                    owned_names(owned@),
                    xs[i],
                ) && r@[i].max_used_count == max_used(sets@, xs[i]) && Some(r@[i].slot) == first_slot(owned@, xs[i])
        }),
{
    let ghost all = owned_names(owned@);
    let mut names: Vec<String> = Vec::new();
    let mut k: usize = 0;
    while k < owned.len()
        invariant
            k <= owned@.len(),
            all == owned_names(owned@),
            string_views(names@) == distinct_names(all.subrange(0, k as int)),
        decreases owned@.len() - k,
    {
        proof {
            assert(all.subrange(0, k + 1).drop_last() =~= all.subrange(0, k as int));
        }
        if !contains_name(&names, owned[k].name.as_str()) {
            names.push(owned[k].name.clone());
            assert(string_views(names@) =~= distinct_names(all.subrange(0, k + 1)));
        }
        k += 1;
    }
    assert(all.subrange(0, all.len() as int) =~= all);
    let ghost xs = string_views(names@);
    assert forall|i: int| 0 <= i < xs.len() implies #[trigger] count_named(all, xs[i]) > 0 by {
        lemma_distinct_named(all, i);
    }
    let mut r: Vec<ScrapUnusedItem> = Vec::new();
    let mut j: usize = 0;
    while j < names.len()
        invariant
            j <= names@.len(),
            all == owned_names(owned@),
            xs == string_views(names@),
            xs == distinct_names(all),
            ({
                let ys = scrap_names(xs.subrange(0, j as int), owned@, sets@);
                &&& r@.len() == ys.len()
                &&& forall|i: int|
                    0 <= i < ys.len() ==> (#[trigger] r@[i]).name@ == ys[i] && r@[i].owned_count == count_named(all, ys[i])
                        && r@[i].max_used_count == max_used(sets@, ys[i]) && Some(r@[i].slot) == first_slot(owned@, ys[i])
            }),
            forall|i: int| 0 <= i < xs.len() ==> #[trigger] count_named(all, xs[i]) > 0,
        decreases names@.len() - j,
    {
        proof {
            assert(xs.subrange(0, j + 1).drop_last() =~= xs.subrange(0, j as int));
        }
        let (owned_count, slot) = owned_count_and_slot(owned, names[j].as_str());
        let max_used_count = max_used_count(sets, names[j].as_str());
        if owned_count > max_used_count {
            assert(count_named(all, xs[j as int]) > 0);
            proof {
                lemma_count_gives_slot(owned@, xs[j as int]);
            }
            let slot = match slot {
                Some(s) => s,
                None => Slot::Head,
            };
            r.push(ScrapUnusedItem { slot, name: names[j].clone(), owned_count, max_used_count });
        }
        j += 1;
    }
    assert(xs.subrange(0, xs.len() as int) =~= xs);
    r
}

/// Every distinct name occurs.
proof fn lemma_distinct_named(names: Seq<Seq<char>>, i: int)
    requires
        0 <= i < distinct_names(names).len(),
    ensures
        count_named(names, distinct_names(names)[i]) > 0,
    decreases names.len(),
{
    let rest = distinct_names(names.drop_last());
    if rest.contains(names.last()) || i < rest.len() {
        lemma_distinct_named(names.drop_last(), i);
    }
}

/// An owned name has a first slot.
proof fn lemma_count_gives_slot(owned: Seq<GearItem>, x: Seq<char>)
    requires
        count_named(owned_names(owned), x) > 0,
    ensures
        first_slot(owned, x) is Some,
    decreases owned.len(),
{
    if owned.len() > 0 {
        assert(owned_names(owned).drop_last() =~= owned_names(owned.drop_last()));
        if owned.last().name@ != x {
            lemma_count_gives_slot(owned.drop_last(), x);
        }
    }
}

} // verus!
