//! The optimizer's objective in the form it is described: a build is
//! compared by whether each goal is met, then by its totals clamped to the
//! positive minima, then by its raw totals.
use vstd::prelude::*;

use crate::optimizer::{objective_key, totals_order};
use crate::order::{lex, lex_from};
use crate::stat::StatGoal;

verus! {

/// How many of the first `j` goals have a positive minimum.
pub open spec fn positive_count(goals: Seq<StatGoal>, j: int) -> int
    decreases j,
{
    if j <= 0 {
        0
    } else {
        positive_count(goals, j - 1) + if goals[j - 1].minimum > 0 {
            1int
        } else {
            0int
        }
    }
}

/// A total clamped to a goal's minimum.
pub open spec fn clamped(x: int, g: StatGoal) -> int {
    if x < g.minimum {
        x
    } else {
        g.minimum as int
    }
}

/// The clamped totals of the goals among the first `j` that have a positive
/// minimum, in goal order.
pub open spec fn clamped_positive(x: Seq<int>, goals: Seq<StatGoal>, j: int) -> Seq<int>
    decreases j,
{
    if j <= 0 {
        Seq::empty()
    } else if goals[j - 1].minimum > 0 {
        clamped_positive(x, goals, j - 1).push(clamped(x[j - 1], goals[j - 1]))
    } else {
        clamped_positive(x, goals, j - 1)
    }
}

/// The comparison key in the form the objective is described: whether each
/// goal is met, that is has no floor or reaches its minimum (false before
/// true), then the total of each goal with a
/// positive minimum clamped to that minimum, then the raw totals.
pub open spec fn stated_key(x: Seq<int>, goals: Seq<StatGoal>) -> Seq<int> {
    Seq::new(goals.len(), |k: int| if goals[k].minimum <= 0 || x[k] >= goals[k].minimum { 1int } else { 0int }) + clamped_positive(
        x,
        goals,
        goals.len() as int,
    ) + x
}

proof fn lemma_positive_count_mono(goals: Seq<StatGoal>, k: int, j: int)
    requires
        0 <= k <= j,
    ensures
        positive_count(goals, k) <= positive_count(goals, j),
        k < j && goals[k].minimum > 0 ==> positive_count(goals, k) < positive_count(goals, j),
    decreases j - k,
{
    if k < j {
        lemma_positive_count_mono(goals, k, j - 1);
        if k < j - 1 {
            lemma_positive_count_mono(goals, k + 1, j - 1);
        }
    }
}

proof fn lemma_clamped_len(x: Seq<int>, goals: Seq<StatGoal>, j: int)
    ensures
        clamped_positive(x, goals, j).len() == positive_count(goals, j),
    decreases j,
{
    if j > 0 {
        lemma_clamped_len(x, goals, j - 1);
    }
}

proof fn lemma_clamped_at(x: Seq<int>, goals: Seq<StatGoal>, j: int, k: int)
    requires
        0 <= k < j,
        goals[k].minimum > 0,
    ensures
        positive_count(goals, k) < clamped_positive(x, goals, j).len(),
        clamped_positive(x, goals, j)[positive_count(goals, k)] == clamped(x[k], goals[k]),
    decreases j,
{
    lemma_clamped_len(x, goals, j);
    lemma_clamped_len(x, goals, j - 1);
    lemma_positive_count_mono(goals, k, j);
    let r = clamped_positive(x, goals, j - 1);
    lemma_positive_count_mono(goals, 0, k);
    let t = clamped_positive(x, goals, j);
    let pk = positive_count(goals, k);
    if k < j - 1 {
        lemma_clamped_at(x, goals, j - 1, k);
        assert(pk < r.len());
        assert(r[pk] == clamped(x[k], goals[k]));
        if goals[j - 1].minimum > 0 {
            assert(t == r.push(clamped(x[j - 1], goals[j - 1])));
            assert(t[pk] == r[pk]);
        } else {
            assert(t == r);
        }
    } else {
        assert(k == j - 1);
        assert(t == r.push(clamped(x[j - 1], goals[j - 1])));
        assert(pk == r.len());
        assert(t[pk] == clamped(x[k], goals[k]));
    }
}

/// Where position `i` of the objective key lands in the stated key.
spec fn key_position(goals: Seq<StatGoal>, i: int) -> int {
    let n = goals.len() as int;
    if i <= n {
        i
    } else if i <= 2 * n {
        n + positive_count(goals, i - n)
    } else {
        i - n + positive_count(goals, n)
    }
}

proof fn lemma_key_walk(x: Seq<int>, y: Seq<int>, goals: Seq<StatGoal>, i: int)
    requires
        x.len() == goals.len(),
        y.len() == goals.len(),
        0 <= i <= 3 * goals.len(),
    ensures
        lex_from(objective_key(x, goals), objective_key(y, goals), i) == lex_from(
            stated_key(x, goals),
            stated_key(y, goals),
            key_position(goals, i),
        ),
    decreases 3 * goals.len() - i,
{
    let n = goals.len() as int;
    let kx = objective_key(x, goals);
    let ky = objective_key(y, goals);
    let sx = stated_key(x, goals);
    let sy = stated_key(y, goals);
    lemma_clamped_len(x, goals, n);
    lemma_clamped_len(y, goals, n);
    lemma_positive_count_mono(goals, 0, n);
    let c = positive_count(goals, n);
    assert(sx.len() == 2 * n + c && sy.len() == 2 * n + c);
    if i == 3 * n {
        assert(key_position(goals, i) == 2 * n + c);
    } else {
        lemma_key_walk(x, y, goals, i + 1);
        if i < n {
            assert(key_position(goals, i + 1) == i + 1);
            assert(kx[i] == sx[i] && ky[i] == sy[i]);
        } else if i < 2 * n {
            let j = i - n;
            lemma_positive_count_mono(goals, 0, j);
            lemma_positive_count_mono(goals, j, n);
            lemma_positive_count_mono(goals, j + 1, n);
            if goals[j].minimum > 0 {
                assert(key_position(goals, i + 1) == key_position(goals, i) + 1);
                let cx = clamped_positive(x, goals, n);
                let cy = clamped_positive(y, goals, n);
                let mx = Seq::new(goals.len(), |k: int| if goals[k].minimum <= 0 || x[k] >= goals[k].minimum { 1int } else { 0int });
                let my = Seq::new(goals.len(), |k: int| if goals[k].minimum <= 0 || y[k] >= goals[k].minimum { 1int } else { 0int });
                assert(sx == mx + cx + x);
                assert(sy == my + cy + y);
                lemma_clamped_at(x, goals, n, j);
                lemma_clamped_at(y, goals, n, j);
                assert(mx.len() == n && my.len() == n);
                assert(key_position(goals, i) == n + positive_count(goals, j));
                assert((mx + cx)[n + positive_count(goals, j)] == cx[positive_count(goals, j)]);
                assert((my + cy)[n + positive_count(goals, j)] == cy[positive_count(goals, j)]);
                assert(kx[i] == sx[key_position(goals, i)]);
                assert(ky[i] == sy[key_position(goals, i)]);
            } else {
                assert(key_position(goals, i + 1) == key_position(goals, i));
                assert(kx[i] == 0 && ky[i] == 0);
            }
        } else {
            assert(key_position(goals, i + 1) == key_position(goals, i) + 1);
            assert(kx[i] == x[i - 2 * n]);
            assert(sx[key_position(goals, i)] == x[i - 2 * n]);
            assert(ky[i] == y[i - 2 * n]);
            assert(sy[key_position(goals, i)] == y[i - 2 * n]);
        }
    }
}

/// `compare_builds` orders two builds by the stated key: the met flags in
/// goal order (unmet before met), then the totals of positive-minimum goals
/// clamped to their minima, then the raw totals, compared lexicographically.
pub proof fn lemma_compare_builds_key_form(x: Seq<int>, y: Seq<int>, goals: Seq<StatGoal>)
    requires
        x.len() == goals.len(),
        y.len() == goals.len(),
    ensures
        totals_order(x, y, goals) == lex(stated_key(x, goals), stated_key(y, goals)),
{
    lemma_key_walk(x, y, goals, 0);
}

} // verus!
