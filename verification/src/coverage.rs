//! Every slot of a character is filled by the optimizer: each slot is
//! searched in exactly one pool, every choice of that pool places an item in
//! the slot, and no other pool touches it. So the gear set the optimizer
//! returns has an item in every slot, and a slot searched on its own (Head,
//! Ranged, Class Item, ...) wears one of that slot's candidates whenever it
//! has any.
use vstd::prelude::*;

use crate::gear::Slot;
use crate::optimizer::{
    build_item, dominance_spec, eff_pool_spec, filter_positions, is_optimize_result, is_paired_family,
    lemma_every_slot_is_searched, paired_slot2_spec, placed, pool_candidates_spec, raw_pool_spec, search_pool_spec,
    search_pools_spec, search_slots, searched_at, wears, CandView, ChoiceView, OptimizeResult,
};
use crate::sorting::{ins_sorted, isort};
use crate::stat::{StatGoal, StatMap};

verus! {

/// Every choice of `s` has the property `prop`.
pub open spec fn all_choices(s: Seq<ChoiceView>, prop: spec_fn(ChoiceView) -> bool) -> bool {
    forall|i: int| 0 <= i < s.len() ==> #[trigger] prop(s[i])
}

proof fn lemma_ins_sorted_keeps(
    s: Seq<ChoiceView>,
    x: ChoiceView,
    gt: spec_fn(ChoiceView, ChoiceView) -> bool,
    prop: spec_fn(ChoiceView) -> bool,
)
    requires
        all_choices(s, prop),
        prop(x),
    ensures
        all_choices(ins_sorted(s, x, gt), prop),
    decreases s.len(),
{
    if s.len() > 0 && gt(s.last(), x) {
        lemma_ins_sorted_keeps(s.drop_last(), x, gt, prop);
        let r = ins_sorted(s.drop_last(), x, gt);
        assert(ins_sorted(s, x, gt) == r.push(s.last()));
    }
}

proof fn lemma_isort_keeps(s: Seq<ChoiceView>, gt: spec_fn(ChoiceView, ChoiceView) -> bool, prop: spec_fn(ChoiceView) -> bool)
    requires
        all_choices(s, prop),
    ensures
        all_choices(isort(s, gt), prop),
    decreases s.len(),
{
    if s.len() > 0 {
        lemma_isort_keeps(s.drop_last(), gt, prop);
        lemma_ins_sorted_keeps(isort(s.drop_last(), gt), s.last(), gt, prop);
    }
}

proof fn lemma_filter_positions_keeps(s: Seq<ChoiceView>, keep: spec_fn(int) -> bool, prop: spec_fn(ChoiceView) -> bool)
    requires
        all_choices(s, prop),
    ensures
        all_choices(filter_positions(s, keep), prop),
    decreases s.len(),
{
    if s.len() > 0 {
        lemma_filter_positions_keeps(s.drop_last(), keep, prop);
    }
}

/// A property of every unsorted choice of a pool holds of every choice of
/// the searched pool.
proof fn lemma_search_pool_keeps(
    cands: Seq<CandView>,
    c: Slot,
    goals: Seq<StatGoal>,
    dominance: bool,
    prop: spec_fn(ChoiceView) -> bool,
)
    requires
        all_choices(pool_candidates_spec(cands, c), prop),
    ensures
        all_choices(search_pool_spec(cands, c, goals, dominance), prop),
{
    let sorted = isort(pool_candidates_spec(cands, c), crate::optimizer::choice_gt());
    lemma_isort_keeps(pool_candidates_spec(cands, c), crate::optimizer::choice_gt(), prop);
    if dominance && sorted.len() > 1 {
        let gv = crate::optimizer::goal_vectors(sorted, goals);
        lemma_filter_positions_keeps(sorted, |i: int| crate::optimizer::undominated(gv, i), prop);
    }
}

/// Every choice of the pool searched at `c` places an item in each slot
/// searched at `c`, and none in any other slot.
proof fn lemma_pool_places(cands: Seq<CandView>, c: Slot, s: Slot)
    requires
        search_slots().contains(c),
    ensures
        searched_at(s) == c ==> all_choices(pool_candidates_spec(cands, c), |ch: ChoiceView| placed(ch, s) is Some),
        searched_at(s) != c ==> all_choices(pool_candidates_spec(cands, c), |ch: ChoiceView| placed(ch, s) is None),
{
    let pc = pool_candidates_spec(cands, c);
    assert forall|i: int| 0 <= i < pc.len() implies (searched_at(s) == c ==> placed(#[trigger] pc[i], s) is Some) && (
    searched_at(s) != c ==> placed(pc[i], s) is None) by {
        if c == Slot::MainHand {
        } else if is_paired_family(c) {
        } else {
        }
    }
}

/// A slot's own single-item pool offers exactly the slot's effective
/// candidates.
proof fn lemma_single_pool_offers(cands: Seq<CandView>, c: Slot)
    requires
        c != Slot::MainHand,
        !is_paired_family(c),
    ensures
        all_choices(
            pool_candidates_spec(cands, c),
            |ch: ChoiceView| ch matches ChoiceView::Single { slot, c: x } && slot == c && eff_pool_spec(cands, c).contains(x),
        ),
{
    let pc = pool_candidates_spec(cands, c);
    let e = eff_pool_spec(cands, c);
    assert forall|i: int| 0 <= i < pc.len() implies (#[trigger] pc[i]) matches ChoiceView::Single { slot, c: x } && slot == c
        && e.contains(x) by {
        assert(pc[i] == ChoiceView::Single { slot: c, c: e[i] });
    }
}

/// The item `build_item` gives for `s` over the first `n` pools is what the
/// last pool among them that places in `s` places there.
proof fn lemma_build_item_at(pools: Seq<Seq<ChoiceView>>, p: Seq<usize>, s: Slot, k: int, n: int)
    requires
        0 <= k < n <= pools.len(),
        placed(pools[k][p[k] as int], s) is Some,
        forall|j: int| k < j < n ==> placed(#[trigger] pools[j][p[j] as int], s) is None,
    ensures
        build_item(pools, p, s, n) == placed(pools[k][p[k] as int], s),
    decreases n,
{
    if n - 1 > k {
        assert(placed(pools[n - 1][p[n - 1] as int], s) is None);
        lemma_build_item_at(pools, p, s, k, n - 1);
    }
}

/// The optimizer fills every slot: the gear set it returns has an item in
/// each of the nineteen slots (a zero placeholder where a family has no
/// candidates), and a slot searched on its own (not a hand, not a paired
/// family) that has candidates wears one of them.
pub proof fn lemma_result_fills_every_slot(
    res: OptimizeResult,
    cands: Seq<CandView>,
    goals: Seq<StatGoal>,
    innate: StatMap,
    p: Seq<usize>,
    s: Slot,
)
    requires
        is_optimize_result(res, search_pools_spec(cands, goals, true), goals, innate, p),
    ensures
        res.gear_set.item_spec(s) is Some,
        (searched_at(s) == s && s != Slot::MainHand && !is_paired_family(s) && raw_pool_spec(cands, s).len() > 0)
            ==> exists|j: int|
            0 <= j < raw_pool_spec(cands, s).len() && wears(res.gear_set.item_spec(s), Some(#[trigger] raw_pool_spec(cands, s)[j]), s),
{
    let pools = search_pools_spec(cands, goals, true);
    lemma_every_slot_is_searched(s, cands, goals, true);
    let k = choose|k: int|
        0 <= k < search_slots().len() && #[trigger] search_slots()[k] == searched_at(s) && search_pools_spec(cands, goals, true)[k]
            == search_pool_spec(cands, searched_at(s), goals, true);
    assert(search_slots().contains(searched_at(s)));
    lemma_pool_places(cands, searched_at(s), s);
    let fills = |ch: ChoiceView| placed(ch, s) is Some;
    lemma_search_pool_keeps(cands, searched_at(s), goals, true, fills);
    assert(pools.len() == search_slots().len());
    assert(p[k] < pools[k].len());
    assert(pools[k] == search_pool_spec(cands, searched_at(s), goals, true));
    assert(fills(pools[k][p[k] as int]));
    assert(placed(pools[k][p[k] as int], s) is Some);
    assert forall|j: int| k < j < pools.len() implies placed(#[trigger] pools[j][p[j] as int], s) is None by {
        let c = search_slots()[j];
        assert(c != searched_at(s));
        assert(search_slots().contains(c));
        lemma_pool_places(cands, c, s);
        let misses = |ch: ChoiceView| placed(ch, s) is None;
        lemma_search_pool_keeps(cands, c, goals, true, misses);
        assert(pools[j] == search_pool_spec(cands, c, goals, true));
        assert(p[j] < pools[j].len());
        assert(misses(pools[j][p[j] as int]));
    }
    lemma_build_item_at(pools, p, s, k, pools.len() as int);
    assert(wears(res.gear_set.item_spec(s), build_item(pools, p, s, pools.len() as int), s));
    if searched_at(s) == s && s != Slot::MainHand && !is_paired_family(s) && raw_pool_spec(cands, s).len() > 0 {
        lemma_single_pool_offers(cands, s);
        let single = |ch: ChoiceView|
            ch matches ChoiceView::Single { slot, c: x } && slot == s && eff_pool_spec(cands, s).contains(x);
        lemma_search_pool_keeps(cands, s, goals, true, single);
        assert(single(pools[k][p[k] as int]));
        let x = placed(pools[k][p[k] as int], s)->0;
        assert(eff_pool_spec(cands, s) == raw_pool_spec(cands, s));
        let j = choose|j: int| 0 <= j < raw_pool_spec(cands, s).len() && raw_pool_spec(cands, s)[j] == x;
        assert(wears(res.gear_set.item_spec(s), Some(raw_pool_spec(cands, s)[j]), s));
    }
}

} // verus!
