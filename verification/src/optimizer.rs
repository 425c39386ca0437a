//! Gear set optimizer.
//!
//! Builds are compared by the clamped-satisfaction objective: first by which
//! positive minima are met (in priority order), then by how close still-unmet
//! goals are to their minima (in priority order), then by raw goal totals.
//! Candidates are grouped into one search pool per canonical slot, paired
//! family, or the combined hand pool; dominated choices are filtered out, and
//! a branch-and-bound depth-first search returns the comparator-maximal
//! complete build, earliest in search order among equals.
use vstd::prelude::*;

use crate::gear::{
    all_slots_spec, items_stat_sum, lemma_slot_index, slot_display_spec, slot_index, slot_index_spec, GearItem, GearSet, Slot,
    SLOT_COUNT,
};
use crate::order::{
    rel_sign, compare_keys, compare_str, keys_order, lemma_keys_order_antisym, lemma_keys_order_trans,
    lemma_keys_order_zero, lemma_lex_from_antisym, lemma_lex_from_pointwise, lemma_lex_from_trans,
    lex, lex_from, str_order, string_views, Rel,
};
use crate::sorting::{ins_sorted, isort, lemma_ins_sorted_at, sort_strings, str_gt};
use crate::stat::{stat_map_bounded, Stat, StatGoal, StatMap, STAT_LIMIT};
use crate::text::{concat3, decimal_chars, decimal_string, string_from_chars};

verus! {

/// Maximum supported candidates per canonical slot or paired-slot family.
pub const MAX_CANDIDATES_PER_SLOT: usize = 8;

/// Maximum supported combined real-item candidates across both hand slots:
/// Main-hand-only + Off-hand-only + Either-hand items.
pub const MAX_HAND_CANDIDATES_COMBINED: usize = 12;

// ── Objective comparator ─────────────────────────────────────────────────────

/// Whether a total meets a goal: a non-positive minimum is always met.
pub open spec fn goal_met(x: int, g: StatGoal) -> bool {
    g.minimum <= 0 || x >= g.minimum
}

/// The comparison key of a vector of goal totals: the met flags in priority
/// order, then the clamped totals of positive-minimum goals, then the raw
/// totals.
pub open spec fn objective_key(x: Seq<int>, goals: Seq<StatGoal>) -> Seq<int> {
    let n = goals.len() as int;
    Seq::new(
        (3 * n) as nat,
        |k: int|
            if k < n {
                if goal_met(x[k], goals[k]) { 1int } else { 0int }
            } else if k < 2 * n {
                if goals[k - n].minimum <= 0 {
                    0int
                } else if x[k - n] < goals[k - n].minimum {
                    x[k - n]
                } else {
                    goals[k - n].minimum as int
                }
            } else {
                x[k - 2 * n]
            },
    )
}

/// The clamped-satisfaction comparison of two goal-total vectors: -1, 0, 1.
pub open spec fn totals_order(x: Seq<int>, y: Seq<int>, goals: Seq<StatGoal>) -> int {
    lex(objective_key(x, goals), objective_key(y, goals))
}

/// The views of a vector of `i64` totals as integers.
pub open spec fn int_view(v: Seq<i64>) -> Seq<int> {
    v.map_values(|x: i64| x as int)
}

/// Compares two builds' goal totals under the clamped-satisfaction objective.
pub fn compare_builds(x_totals: &[i64], y_totals: &[i64], goals: &[StatGoal]) -> (r: Rel)
    requires
        x_totals@.len() == goals@.len(),
        y_totals@.len() == goals@.len(),
    ensures
        rel_sign(r) == totals_order(int_view(x_totals@), int_view(y_totals@), goals@),
{
    let n = goals.len();
    let ghost kx = objective_key(int_view(x_totals@), goals@);
    let ghost ky = objective_key(int_view(y_totals@), goals@);
    assert(kx.len() == 3 * n && ky.len() == 3 * n);
    let mut i: usize = 0;
    while i < n
        invariant
            n == goals@.len(),
            x_totals@.len() == n,
            y_totals@.len() == n,
            i <= n,
            kx == objective_key(int_view(x_totals@), goals@),
            ky == objective_key(int_view(y_totals@), goals@),
            lex(kx, ky) == lex_from(kx, ky, i as int),
        decreases n - i,
    {
        let g = goals[i];
        let x = x_totals[i];
        let y = y_totals[i];
        let x_met = g.minimum <= 0 || x >= g.minimum;
        let y_met = g.minimum <= 0 || y >= g.minimum;
        assert(kx[i as int] == (if x_met { 1int } else { 0int }));
        assert(ky[i as int] == (if y_met { 1int } else { 0int }));
        if x_met && !y_met {
            return Rel::Greater;
        }
        if !x_met && y_met {
            return Rel::Less;
        }
        i += 1;
    }
    let mut i: usize = 0;
    while i < n
        invariant
            n == goals@.len(),
            x_totals@.len() == n,
            y_totals@.len() == n,
            i <= n,
            kx == objective_key(int_view(x_totals@), goals@),
            ky == objective_key(int_view(y_totals@), goals@),
            lex(kx, ky) == lex_from(kx, ky, n + i),
        decreases n - i,
    {
        let g = goals[i];
        if g.minimum > 0 {
            let x = if x_totals[i] < g.minimum { x_totals[i] } else { g.minimum };
            let y = if y_totals[i] < g.minimum { y_totals[i] } else { g.minimum };
            assert(kx[n + i] == x as int);
            assert(ky[n + i] == y as int);
            if x < y {
                return Rel::Less;
            }
            if x > y {
                return Rel::Greater;
            }
        } else {
            assert(kx[n + i] == 0 && ky[n + i] == 0);
        }
        i += 1;
    }
    let mut i: usize = 0;
    while i < n
        invariant
            n == goals@.len(),
            x_totals@.len() == n,
            y_totals@.len() == n,
            i <= n,
            kx == objective_key(int_view(x_totals@), goals@),
            ky == objective_key(int_view(y_totals@), goals@),
            lex(kx, ky) == lex_from(kx, ky, 2 * n + i),
        decreases n - i,
    {
        let x = x_totals[i];
        let y = y_totals[i];
        assert(kx[2 * n + i] == x as int);
        assert(ky[2 * n + i] == y as int);
        if x < y {
            return Rel::Less;
        }
        if x > y {
            return Rel::Greater;
        }
        i += 1;
    }
    Rel::Equal
}

/// Swapping the builds negates the comparison.
pub proof fn lemma_totals_order_antisym(x: Seq<int>, y: Seq<int>, goals: Seq<StatGoal>)
    requires
        x.len() == goals.len(),
        y.len() == goals.len(),
    ensures
        totals_order(x, y, goals) == -totals_order(y, x, goals),
{
    lemma_lex_from_antisym(objective_key(x, goals), objective_key(y, goals), 0);
}

/// The comparison is transitive, and strict when either step is.
pub proof fn lemma_totals_order_trans(x: Seq<int>, y: Seq<int>, z: Seq<int>, goals: Seq<StatGoal>)
    requires
        x.len() == goals.len(),
        y.len() == goals.len(),
        z.len() == goals.len(),
        totals_order(x, y, goals) <= 0,
        totals_order(y, z, goals) <= 0,
    ensures
        totals_order(x, z, goals) <= 0,
        (totals_order(x, y, goals) < 0 || totals_order(y, z, goals) < 0) ==> totals_order(x, z, goals) < 0,
{
    lemma_lex_from_trans(objective_key(x, goals), objective_key(y, goals), objective_key(z, goals), 0);
}

/// Raising goal totals never makes a build compare worse.
pub proof fn lemma_totals_order_monotone(x: Seq<int>, y: Seq<int>, goals: Seq<StatGoal>)
    requires
        x.len() == goals.len(),
        y.len() == goals.len(),
        forall|i: int| 0 <= i < x.len() ==> x[i] <= y[i],
    ensures
        totals_order(x, y, goals) <= 0,
{
    let kx = objective_key(x, goals);
    let ky = objective_key(y, goals);
    lemma_lex_from_pointwise(kx, ky, 0);
}

// ── Errors ───────────────────────────────────────────────────────────────────

/// Why the optimizer refuses its input.
#[derive(Debug, Clone, PartialEq, Eq)]
pub enum OptimizeError {
    TooManyCandidates { slot_label: String, count: usize, max: usize },
    /// The two hand slots share one combined candidate cap. `count` is the
    /// number of Main-hand-only + Off-hand-only + Either-hand real items.
    TooManyHandCandidates { count: usize, max: usize },
}

/// The text of an optimizer error.
pub open spec fn error_message_spec(e: OptimizeError) -> Seq<char> {
    match e {
        OptimizeError::TooManyCandidates { slot_label, count, max } => "Too many candidates for slot \""@
            + slot_label@ + "\": "@ + decimal_string(count as nat) + " provided, maximum allowed is "@
            + decimal_string(max as nat)
            + ". Remove items from the 'lgo' chest and re-export before running 'lgo optimize'."@,
        OptimizeError::TooManyHandCandidates { count, max } => "Too many hand candidates: "@
            + decimal_string(count as nat) + " provided, maximum allowed is "@ + decimal_string(max as nat)
            + ". The two hand slots share one combined cap, counting Main-hand-only, Off-hand-only, and Either-hand items together. Remove hand items from the 'lgo' chest and re-export before running 'lgo optimize'."@,
    }
}

/// Appends the decimal digits of `n`.
fn append_decimal(s: &mut String, n: usize)
    ensures
        final(s)@ == old(s)@ + decimal_string(n as nat),
{
    let digits = decimal_chars(n as u64);
    let d = string_from_chars(digits.as_slice());
    s.append(d.as_str());
}

impl OptimizeError {
    /// The error's message.
    pub fn message(&self) -> (r: String)
        ensures
            r@ == error_message_spec(*self),
    {
        match self {
            OptimizeError::TooManyCandidates { slot_label, count, max } => {
                let mut s = concat3("Too many candidates for slot \"", slot_label.as_str(), "\": ");
                append_decimal(&mut s, *count);
                s.append(" provided, maximum allowed is ");
                append_decimal(&mut s, *max);
                s.append(". Remove items from the 'lgo' chest and re-export before running 'lgo optimize'.");
                s
            },
            OptimizeError::TooManyHandCandidates { count, max } => {
                let mut s = "Too many hand candidates: ".to_owned();
                append_decimal(&mut s, *count);
                s.append(" provided, maximum allowed is ");
                append_decimal(&mut s, *max);
                s.append(
                    ". The two hand slots share one combined cap, counting Main-hand-only, Off-hand-only, and Either-hand items together. Remove hand items from the 'lgo' chest and re-export before running 'lgo optimize'.",
                );
                s
            },
        }
    }
}

// ── Candidates and choices ───────────────────────────────────────────────────

/// A resolved item ready for the optimizer: instance key, name, stats, and
/// slot.
#[derive(Debug, Clone)]
pub struct Candidate {
    /// Per-owned-instance optimizer key; distinguishes duplicate items with
    /// the same display name and feeds the deterministic final tiebreak.
    pub key: String,
    pub name: String,
    pub stats: StatMap,
    pub original_slot: Slot,
    /// Two-handed main-hand weapon: legal only with an empty off-hand.
    pub two_handed: bool,
    /// Either-hand item: resolved to `OffHand`, also eligible for the main
    /// hand.
    pub either_hand: bool,
}

/// What the optimizer reads of a candidate.
pub struct CandView {
    pub key: Seq<char>,
    pub name: Seq<char>,
    pub stats: StatMap,
    pub slot: Slot,
    pub two_handed: bool,
    pub either_hand: bool,
}

/// The view of a candidate.
pub open spec fn cand_view(c: Candidate) -> CandView {
    CandView {
        key: c.key@,
        name: c.name@,
        stats: c.stats,
        slot: c.original_slot,
        two_handed: c.two_handed,
        either_hand: c.either_hand,
    }
}

/// A candidate's value for a stat.
pub open spec fn cand_stat(c: CandView, s: Stat) -> int {
    c.stats.value(s) as int
}

/// The key of the empty placeholder named `name` for `slot`.
pub open spec fn zero_key_spec(name: Seq<char>, slot: Slot) -> Seq<char> {
    "0000::"@ + slot_display_spec(slot) + "::"@ + name
}

/// Whether `c` is the zero-stat placeholder named `name` for `slot`.
pub open spec fn is_zero_candidate(c: Candidate, name: Seq<char>, slot: Slot) -> bool {
    &&& c.key@ == zero_key_spec(name, slot)
    &&& c.name@ == name
    &&& forall|s: Stat| #[trigger] c.stats.value(s) == 0
    &&& c.original_slot == slot
    &&& !c.two_handed
    &&& !c.either_hand
}

impl Candidate {
    /// The candidate's value for a stat (0 when absent).
    pub fn stat(&self, s: &Stat) -> (v: i64)
        ensures
            v == self.stats.value(*s),
    {
        self.stats.get(*s)
    }

    /// The zero-stat placeholder named `name` for `slot`.
    pub fn zero(name: String, slot: Slot) -> (c: Candidate)
        ensures
            is_zero_candidate(c, name@, slot),
            cand_view(c) == zero_view(name@, slot),
    {
        let mut key = crate::text::concat3("0000::", slot.display_name(), "::");
        key.append(name.as_str());
        Candidate {
            key,
            name,
            stats: StatMap::new(),
            original_slot: slot,
            two_handed: false,
            either_hand: false,
        }
    }

    /// A field-for-field copy.
    pub fn duplicate(&self) -> (c: Candidate)
        ensures
            c == *self,
    {
        Candidate {
            key: self.key.clone(),
            name: self.name.clone(),
            stats: self.stats,
            original_slot: self.original_slot,
            two_handed: self.two_handed,
            either_hand: self.either_hand,
        }
    }
}

/// A paired-slot choice: two distinct item instances.
#[derive(Debug, Clone)]
pub struct PairCandidate {
    pub a: Candidate,
    pub b: Candidate,
}

impl PairCandidate {
    pub fn new(a: Candidate, b: Candidate) -> (p: PairCandidate)
        ensures
            p.a == a,
            p.b == b,
    {
        PairCandidate { a, b }
    }

    /// Combined value of a stat over both items.
    pub fn stat(&self, s: &Stat) -> (v: i64)
        requires
            stat_map_bounded(self.a.stats),
            stat_map_bounded(self.b.stats),
        ensures
            v == self.a.stats.value(*s) + self.b.stats.value(*s),
    {
        self.a.stat(s) + self.b.stat(s)
    }
}

/// One legal `MainHand` + `OffHand` configuration.
#[derive(Debug, Clone)]
pub struct HandsCandidate {
    pub main: Candidate,
    pub off: Candidate,
}

impl HandsCandidate {
    pub fn new(main: Candidate, off: Candidate) -> (h: HandsCandidate)
        ensures
            h.main == main,
            h.off == off,
    {
        HandsCandidate { main, off }
    }

    /// Combined value of a stat over both hands.
    pub fn stat(&self, s: &Stat) -> (v: i64)
        requires
            stat_map_bounded(self.main.stats),
            stat_map_bounded(self.off.stats),
        ensures
            v == self.main.stats.value(*s) + self.off.stats.value(*s),
    {
        self.main.stat(s) + self.off.stat(s)
    }
}

/// One option for one search pool.
#[derive(Debug, Clone)]
pub enum Choice {
    Single { slot: Slot, candidate: Candidate },
    Pair { slot1: Slot, slot2: Slot, pair: PairCandidate },
    /// One combined `MainHand` + `OffHand` configuration; slots are implied.
    Hands { hands: HandsCandidate },
}

/// What the optimizer reads of a choice.
pub enum ChoiceView {
    Single { slot: Slot, c: CandView },
    Pair { slot1: Slot, slot2: Slot, a: CandView, b: CandView },
    Hands { main: CandView, off: CandView },
}

/// The view of a choice.
pub open spec fn choice_view(c: Choice) -> ChoiceView {
    match c {
        Choice::Single { slot, candidate } => ChoiceView::Single { slot, c: cand_view(candidate) },
        Choice::Pair { slot1, slot2, pair } => ChoiceView::Pair {
            slot1,
            slot2,
            a: cand_view(pair.a),
            b: cand_view(pair.b),
        },
        Choice::Hands { hands } => ChoiceView::Hands { main: cand_view(hands.main), off: cand_view(hands.off) },
    }
}

/// The views of a list of choices.
pub open spec fn choice_views(s: Seq<Choice>) -> Seq<ChoiceView> {
    s.map_values(|c: Choice| choice_view(c))
}

/// The candidates a choice is made of.
pub open spec fn choice_parts(c: ChoiceView) -> Seq<CandView> {
    match c {
        ChoiceView::Single { c, .. } => seq![c],
        ChoiceView::Pair { a, b, .. } => seq![a, b],
        ChoiceView::Hands { main, off } => seq![main, off],
    }
}

/// Every candidate of the choice has bounded stats.
pub open spec fn choice_bounded(c: ChoiceView) -> bool {
    forall|i: int| 0 <= i < choice_parts(c).len() ==> stat_map_bounded(#[trigger] choice_parts(c)[i].stats)
}

/// A choice's combined value for a stat.
pub open spec fn choice_stat(c: ChoiceView, s: Stat) -> int {
    match c {
        ChoiceView::Single { c, .. } => cand_stat(c, s),
        ChoiceView::Pair { a, b, .. } => cand_stat(a, s) + cand_stat(b, s),
        ChoiceView::Hands { main, off } => cand_stat(main, s) + cand_stat(off, s),
    }
}

/// A choice's values for the goal stats, in goal order.
pub open spec fn goal_vec(c: ChoiceView, goals: Seq<StatGoal>) -> Seq<int> {
    Seq::new(goals.len(), |i: int| choice_stat(c, goals[i].stat))
}

/// Two keys in std string order.
pub open spec fn sorted_pair(a: Seq<char>, b: Seq<char>) -> Seq<Seq<char>> {
    if str_order(b, a) < 0 {
        seq![b, a]
    } else {
        seq![a, b]
    }
}

/// The sorted instance keys of the items a choice uses.
pub open spec fn instance_keys(c: ChoiceView) -> Seq<Seq<char>> {
    match c {
        ChoiceView::Single { c, .. } => seq![c.key],
        ChoiceView::Pair { a, b, .. } => sorted_pair(a.key, b.key),
        ChoiceView::Hands { main, off } => sorted_pair(main.key, off.key),
    }
}

/// Two strings in std order.
fn sorted_two(a: String, b: String) -> (r: Vec<String>)
    ensures
        string_views(r@) == sorted_pair(a@, b@),
{
    let r = match compare_str(b.as_str(), a.as_str()) {
        Rel::Less => vec![b, a],
        _ => vec![a, b],
    };
    assert(string_views(r@) =~= sorted_pair(a@, b@));
    r
}

impl Choice {
    /// The choice's combined value for a stat.
    pub fn stat(&self, stat: &Stat) -> (v: i64)
        requires
            choice_bounded(choice_view(*self)),
        ensures
            v == choice_stat(choice_view(*self), *stat),
    {
        match self {
            Choice::Single { candidate, .. } => candidate.stat(stat),
            Choice::Pair { pair, .. } => {
                assert(choice_parts(choice_view(*self))[0] == cand_view(pair.a));
                assert(choice_parts(choice_view(*self))[1] == cand_view(pair.b));
                assert(stat_map_bounded(choice_parts(choice_view(*self))[0].stats));
                assert(stat_map_bounded(choice_parts(choice_view(*self))[1].stats));
                pair.stat(stat)
            },
            Choice::Hands { hands } => {
                assert(choice_parts(choice_view(*self))[0] == cand_view(hands.main));
                assert(choice_parts(choice_view(*self))[1] == cand_view(hands.off));
                assert(stat_map_bounded(choice_parts(choice_view(*self))[0].stats));
                assert(stat_map_bounded(choice_parts(choice_view(*self))[1].stats));
                hands.stat(stat)
            },
        }
    }

    /// The choice's values for the goal stats, in goal order.
    pub fn goal_totals(&self, goals: &[StatGoal]) -> (v: Vec<i64>)
        requires
            choice_bounded(choice_view(*self)),
        ensures
            int_view(v@) == goal_vec(choice_view(*self), goals@),
            forall|i: int| 0 <= i < v@.len() ==> -2 * STAT_LIMIT <= #[trigger] v@[i] <= 2 * STAT_LIMIT,
    {
        let mut v: Vec<i64> = Vec::new();
        let mut i: usize = 0;
        while i < goals.len()
            invariant
                choice_bounded(choice_view(*self)),
                i <= goals@.len(),
                v@.len() == i,
                forall|k: int| 0 <= k < i ==> #[trigger] v@[k] as int == choice_stat(choice_view(*self), goals@[k].stat),
                forall|k: int| 0 <= k < i ==> -2 * STAT_LIMIT <= #[trigger] v@[k] <= 2 * STAT_LIMIT,
            decreases goals@.len() - i,
        {
            let x = self.stat(&goals[i].stat);
            proof {
                lemma_choice_stat_bounded(choice_view(*self), goals@[i as int].stat);
            }
            v.push(x);
            i += 1;
        }
        assert(int_view(v@) =~= goal_vec(choice_view(*self), goals@));
        v
    }

    /// The sorted instance keys of the items the choice uses.
    pub fn instance_keys(&self) -> (v: Vec<String>)
        ensures
            string_views(v@) == instance_keys(choice_view(*self)),
    {
        match self {
            Choice::Single { candidate, .. } => {
                let v = vec![candidate.key.clone()];
                assert(string_views(v@) =~= instance_keys(choice_view(*self)));
                v
            },
            Choice::Pair { pair, .. } => sorted_two(pair.a.key.clone(), pair.b.key.clone()),
            Choice::Hands { hands } => sorted_two(hands.main.key.clone(), hands.off.key.clone()),
        }
    }

    /// The key choices are sorted by within a pool.
    pub fn sort_key(&self) -> (v: Vec<String>)
        ensures
            string_views(v@) == instance_keys(choice_view(*self)),
    {
        self.instance_keys()
    }

    /// A field-for-field copy.
    pub fn duplicate(&self) -> (r: Choice)
        ensures
            r == *self,
    {
        match self {
            Choice::Single { slot, candidate } => Choice::Single { slot: *slot, candidate: candidate.duplicate() },
            Choice::Pair { slot1, slot2, pair } => Choice::Pair {
                slot1: *slot1,
                slot2: *slot2,
                pair: PairCandidate::new(pair.a.duplicate(), pair.b.duplicate()),
            },
            Choice::Hands { hands } => Choice::Hands {
                hands: HandsCandidate::new(hands.main.duplicate(), hands.off.duplicate()),
            },
        }
    }
}

/// A bounded choice's stat values are within twice the stat limit.
pub proof fn lemma_choice_stat_bounded(c: ChoiceView, s: Stat)
    requires
        choice_bounded(c),
    ensures
        -2 * STAT_LIMIT <= choice_stat(c, s) <= 2 * STAT_LIMIT,
{
    assert(stat_map_bounded(choice_parts(c)[0].stats));
    match c {
        ChoiceView::Single { .. } => {},
        _ => {
            assert(stat_map_bounded(choice_parts(c)[1].stats));
        },
    }
}

// ── Dominance filter ─────────────────────────────────────────────────────────

/// `a <= b` in every component.
pub open spec fn all_le(a: Seq<int>, b: Seq<int>) -> bool {
    forall|k: int| 0 <= k < a.len() ==> #[trigger] a[k] <= b[k]
}

/// `a < b` in some component.
pub open spec fn any_lt(a: Seq<int>, b: Seq<int>) -> bool {
    exists|k: int| 0 <= k < a.len() && #[trigger] a[k] < b[k]
}

/// Choice `i` is dominated by choice `j`: `j` is at least as good on every
/// goal stat, and strictly better on one or (on a tie) earlier in the pool.
pub open spec fn dominated_by(gv: Seq<Seq<int>>, i: int, j: int) -> bool {
    &&& i != j
    &&& all_le(gv[i], gv[j])
    &&& (any_lt(gv[i], gv[j]) || i > j)
}

/// Choice `i` is dominated by no choice of the pool.
pub open spec fn undominated(gv: Seq<Seq<int>>, i: int) -> bool {
    forall|j: int| 0 <= j < gv.len() ==> !dominated_by(gv, i, j)
}

/// The elements of `s` at the positions satisfying `keep`, in order.
pub open spec fn filter_positions<T>(s: Seq<T>, keep: spec_fn(int) -> bool) -> Seq<T>
    decreases s.len(),
{
    if s.len() == 0 {
        s
    } else {
        let rest = filter_positions(s.drop_last(), keep);
        if keep(s.len() - 1) {
            rest.push(s.last())
        } else {
            rest
        }
    }
}

/// The goal vectors of a pool's choices.
pub open spec fn goal_vectors(choices: Seq<ChoiceView>, goals: Seq<StatGoal>) -> Seq<Seq<int>> {
    Seq::new(choices.len(), |i: int| goal_vec(choices[i], goals))
}

/// The pool with every dominated choice removed.
pub open spec fn dominance_spec(choices: Seq<ChoiceView>, goals: Seq<StatGoal>) -> Seq<ChoiceView> {
    if choices.len() <= 1 {
        choices
    } else {
        let gv = goal_vectors(choices, goals);
        filter_positions(choices, |i: int| undominated(gv, i))
    }
}

/// Every choice has bounded stats.
pub open spec fn choices_bounded(choices: Seq<ChoiceView>) -> bool {
    forall|i: int| 0 <= i < choices.len() ==> choice_bounded(#[trigger] choices[i])
}

/// Removes every choice that another choice dominates on the goal stats.
fn dominance_filter(choices: Vec<Choice>, goals: &[StatGoal]) -> (r: Vec<Choice>)
    requires
        choices_bounded(choice_views(choices@)),
    ensures
        choice_views(r@) == dominance_spec(choice_views(choices@), goals@),
{
    if choices.len() <= 1 {
        return choices;
    }
    let n = choices.len();
    let ghost gv = goal_vectors(choice_views(choices@), goals@);
    let mut goal_vectors_x: Vec<Vec<i64>> = Vec::new();
    let mut i: usize = 0;
    while i < n
        invariant
            n == choices@.len(),
            choices_bounded(choice_views(choices@)),
            gv == goal_vectors(choice_views(choices@), goals@),
            i <= n,
            goal_vectors_x@.len() == i,
            forall|k: int| 0 <= k < i ==> int_view(#[trigger] goal_vectors_x@[k]@) == gv[k],
        decreases n - i,
    {
        assert(choice_views(choices@)[i as int] == choice_view(choices@[i as int]));
        let v = choices[i].goal_totals(goals);
        goal_vectors_x.push(v);
        i += 1;
    }
    let mut keep: Vec<bool> = Vec::new();
    let mut i: usize = 0;
    while i < n
        invariant
            n == choices@.len(),
            gv.len() == n,
            goal_vectors_x@.len() == n,
            forall|k: int| 0 <= k < n ==> int_view(#[trigger] goal_vectors_x@[k]@) == gv[k],
            forall|k: int| 0 <= k < n ==> (#[trigger] gv[k]).len() == goals@.len(),
            i <= n,
            keep@.len() == i,
            forall|k: int| 0 <= k < i ==> #[trigger] keep@[k] == undominated(gv, k),
        decreases n - i,
    {
        let mut kept = true;
        let mut j: usize = 0;
        while kept && j < n
            invariant
                n == gv.len(),
                goal_vectors_x@.len() == n,
                forall|k: int| 0 <= k < n ==> int_view(#[trigger] goal_vectors_x@[k]@) == gv[k],
                forall|k: int| 0 <= k < n ==> (#[trigger] gv[k]).len() == goals@.len(),
                i < n,
                j <= n,
                kept ==> forall|k: int| 0 <= k < j ==> !dominated_by(gv, i as int, k),
                !kept ==> !undominated(gv, i as int),
            decreases n - j,
        {
            if i != j {
                let gi = &goal_vectors_x[i];
                let gj = &goal_vectors_x[j];
                let m = gi.len();
                assert(int_view(gi@) == gv[i as int]);
                assert(int_view(gj@) == gv[j as int]);
                let mut le = true;
                let mut lt = false;
                let mut k: usize = 0;
                while k < m
                    invariant
                        m == gi@.len(),
                        gj@.len() == m,
                        int_view(gi@) == gv[i as int],
                        int_view(gj@) == gv[j as int],
                        k <= m,
                        le == (forall|t: int| 0 <= t < k ==> gv[i as int][t] <= gv[j as int][t]),
                        lt == (exists|t: int| 0 <= t < k && gv[i as int][t] < gv[j as int][t]),
                    decreases m - k,
                {
                    assert(gv[i as int][k as int] == gi@[k as int] as int);
                    assert(gv[j as int][k as int] == gj@[k as int] as int);
                    if gi[k] > gj[k] {
                        le = false;
                    }
                    if gi[k] < gj[k] {
                        lt = true;
                    }
                    k += 1;
                }
                assert(le == all_le(gv[i as int], gv[j as int]));
                assert(lt == any_lt(gv[i as int], gv[j as int]));
                if le && (lt || i > j) {
                    assert(dominated_by(gv, i as int, j as int));
                    kept = false;
                }
            }
            j += 1;
        }
        keep.push(kept);
        i += 1;
    }
    let ghost keepf = |k: int| undominated(gv, k);
    let mut r: Vec<Choice> = Vec::new();
    let mut choices = choices;
    let ghost orig = choices@;
    // Take the kept choices out front to back.
    let mut rev_kept: Vec<Choice> = Vec::new();
    let mut idx: usize = n;
    assert(orig.subrange(0, n as int) =~= orig);
    assert(rev_kept@.reverse() =~= Seq::<Choice>::empty());
    assert(filter_positions(orig, keepf) =~= filter_positions(orig.subrange(0, n as int), keepf)
        + rev_kept@.reverse());
    while idx > 0
        invariant
            idx <= n,
            n == orig.len(),
            choices@ == orig.subrange(0, idx as int),
            keep@.len() == n,
            forall|k: int| 0 <= k < n ==> #[trigger] keep@[k] == keepf(k),
            filter_positions(orig, keepf) == filter_positions(orig.subrange(0, idx as int), keepf)
                + rev_kept@.reverse(),
        decreases idx,
    {
        let c = choices.pop().unwrap();
        proof {
            let pre = orig.subrange(0, idx as int);
            assert(pre.drop_last() =~= orig.subrange(0, idx - 1));
            assert(pre.last() == c);
        }
        if keep[idx - 1] {
            let ghost old_rev = rev_kept@;
            rev_kept.push(c);
            assert(rev_kept@.reverse() =~= seq![c] + old_rev.reverse());
        }
        idx -= 1;
    }
    assert(filter_positions(orig.subrange(0, 0), keepf) =~= Seq::<Choice>::empty());
    while rev_kept.len() > 0
        invariant
            filter_positions(orig, keepf) == r@ + rev_kept@.reverse(),
        decreases rev_kept@.len(),
    {
        let ghost old_rev = rev_kept@;
        let c = rev_kept.pop().unwrap();
        assert(old_rev.reverse() =~= seq![c] + rev_kept@.reverse());
        r.push(c);
    }
    assert(r@ =~= filter_positions(orig, keepf));
    proof {
        lemma_filter_positions_views(orig, keepf);
    }
    r
}

/// Viewing commutes with filtering by position.
proof fn lemma_filter_positions_views(s: Seq<Choice>, keep: spec_fn(int) -> bool)
    ensures
        choice_views(filter_positions(s, keep)) == filter_positions(choice_views(s), keep),
    decreases s.len(),
{
    if s.len() > 0 {
        lemma_filter_positions_views(s.drop_last(), keep);
        assert(choice_views(s).drop_last() =~= choice_views(s.drop_last()));
        let rest = filter_positions(s.drop_last(), keep);
        assert(choice_views(rest.push(s.last())) =~= choice_views(rest).push(choice_view(s.last())));
    } else {
        assert(choice_views(s) =~= Seq::<ChoiceView>::empty());
    }
}

// ── Builds and the search order ──────────────────────────────────────────────

/// One search pool: the choices for one canonical slot, paired family, or
/// the combined hands.
#[derive(Debug, Clone)]
pub struct SearchPool {
    pub choices: Vec<Choice>,
}

/// The choices of each pool.
pub open spec fn pool_choices(pools: Seq<SearchPool>) -> Seq<Seq<ChoiceView>> {
    pools.map_values(|p: SearchPool| choice_views(p.choices@))
}

/// `p` picks one choice from every pool.
pub open spec fn is_build(pools: Seq<Seq<ChoiceView>>, p: Seq<usize>) -> bool {
    &&& p.len() == pools.len()
    &&& forall|k: int| 0 <= k < p.len() ==> #[trigger] p[k] < pools[k].len()
}

/// `p` begins with `prefix`.
pub open spec fn extends(p: Seq<usize>, prefix: Seq<usize>) -> bool {
    prefix.len() <= p.len() && p.subrange(0, prefix.len() as int) == prefix
}

/// `p` comes before `q` in search (lexicographic index) order.
pub open spec fn picks_before(p: Seq<usize>, q: Seq<usize>) -> bool {
    exists|k: int|
        0 <= k < p.len() && k < q.len() && p.subrange(0, k) == q.subrange(0, k) && #[trigger] p[k]
            < q[k]
}

/// Componentwise sum of two vectors.
pub open spec fn vadd(a: Seq<int>, b: Seq<int>) -> Seq<int> {
    Seq::new(a.len(), |i: int| a[i] + b[i])
}

/// Goal totals after the first `m` picks of `p`, starting from `init`.
pub open spec fn totals_upto(
    pools: Seq<Seq<ChoiceView>>,
    goals: Seq<StatGoal>,
    init: Seq<int>,
    p: Seq<usize>,
    m: int,
) -> Seq<int>
    decreases m,
{
    if m <= 0 {
        init
    } else {
        vadd(totals_upto(pools, goals, init, p, m - 1), goal_vec(pools[m - 1][p[m - 1] as int], goals))
    }
}

/// Instance keys of the first `m` picks of `p`, in pick order.
pub open spec fn keys_upto(pools: Seq<Seq<ChoiceView>>, p: Seq<usize>, m: int) -> Seq<Seq<char>>
    decreases m,
{
    if m <= 0 {
        Seq::empty()
    } else {
        keys_upto(pools, p, m - 1) + instance_keys(pools[m - 1][p[m - 1] as int])
    }
}

/// Goal totals of a complete build.
pub open spec fn build_totals(
    pools: Seq<Seq<ChoiceView>>,
    goals: Seq<StatGoal>,
    init: Seq<int>,
    p: Seq<usize>,
) -> Seq<int> {
    totals_upto(pools, goals, init, p, pools.len() as int)
}

/// The final tiebreak key of a complete build: all instance keys, sorted.
pub open spec fn build_key(pools: Seq<Seq<ChoiceView>>, p: Seq<usize>) -> Seq<Seq<char>> {
    isort(keys_upto(pools, p, pools.len() as int), crate::sorting::str_gt())
}

/// Build value `(tx, kx)` is strictly better than `(ty, ky)`: better goal
/// totals, or equal totals and an earlier sorted key list.
pub open spec fn beats(
    tx: Seq<int>,
    kx: Seq<Seq<char>>,
    ty: Seq<int>,
    ky: Seq<Seq<char>>,
    goals: Seq<StatGoal>,
) -> bool {
    totals_order(tx, ty, goals) > 0 || (totals_order(tx, ty, goals) == 0 && keys_order(ky, kx) > 0)
}

/// Complete build `p` is strictly better than complete build `q`.
pub open spec fn build_beats(
    pools: Seq<Seq<ChoiceView>>,
    goals: Seq<StatGoal>,
    init: Seq<int>,
    p: Seq<usize>,
    q: Seq<usize>,
) -> bool {
    beats(
        build_totals(pools, goals, init, p),
        build_key(pools, p),
        build_totals(pools, goals, init, q),
        build_key(pools, q),
        goals,
    )
}

/// `p` is what the search returns: a complete build that no build beats, and
/// that beats every build before it in search order.
pub open spec fn is_search_result(
    pools: Seq<Seq<ChoiceView>>,
    goals: Seq<StatGoal>,
    init: Seq<int>,
    p: Seq<usize>,
) -> bool {
    &&& is_build(pools, p)
    &&& forall|c: Seq<usize>|
        is_build(pools, c) ==> !#[trigger] build_beats(pools, goals, init, c, p)
    &&& forall|c: Seq<usize>|
        is_build(pools, c) && #[trigger] picks_before(c, p) ==> build_beats(pools, goals, init, p, c)
}

proof fn lemma_beats_irreflexive(t: Seq<int>, k: Seq<Seq<char>>, goals: Seq<StatGoal>)
    requires
        t.len() == goals.len(),
    ensures
        !beats(t, k, t, k, goals),
{
    lemma_totals_order_antisym(t, t, goals);
    lemma_keys_order_antisym(k, k);
}

/// `a > b` and `b >= c` give `a > c`; `a >= b` and `b >= c` give `a >= c`.
proof fn lemma_beats_trans(
    ta: Seq<int>,
    ka: Seq<Seq<char>>,
    tb: Seq<int>,
    kb: Seq<Seq<char>>,
    tc: Seq<int>,
    kc: Seq<Seq<char>>,
    goals: Seq<StatGoal>,
)
    requires
        ta.len() == goals.len(),
        tb.len() == goals.len(),
        tc.len() == goals.len(),
    ensures
        beats(ta, ka, tb, kb, goals) && !beats(tc, kc, tb, kb, goals) ==> beats(ta, ka, tc, kc, goals),
        !beats(tb, kb, ta, ka, goals) && beats(tb, kb, tc, kc, goals) ==> beats(ta, ka, tc, kc, goals),
        !beats(tb, kb, ta, ka, goals) && !beats(tc, kc, tb, kb, goals) ==> !beats(tc, kc, ta, ka, goals),
{
    lemma_totals_order_antisym(ta, tb, goals);
    lemma_totals_order_antisym(tb, tc, goals);
    lemma_totals_order_antisym(ta, tc, goals);
    lemma_keys_order_antisym(ka, kb);
    lemma_keys_order_antisym(kb, kc);
    lemma_keys_order_antisym(ka, kc);
    if totals_order(tc, tb, goals) <= 0 && totals_order(tb, ta, goals) <= 0 {
        lemma_totals_order_trans(tc, tb, ta, goals);
    }
    if totals_order(tb, ta, goals) <= 0 && totals_order(tc, tb, goals) <= 0 {
        lemma_totals_order_trans(tc, tb, ta, goals);
    }
    if keys_order(ka, kb) <= 0 && keys_order(kb, kc) <= 0 {
        lemma_keys_order_trans(ka, kb, kc);
    }
    if keys_order(kc, kb) <= 0 && keys_order(kb, ka) <= 0 {
        lemma_keys_order_trans(kc, kb, ka);
    }
}

// ── Search bound ─────────────────────────────────────────────────────────────

/// The most pools a search may have.
pub const POOL_LIMIT: usize = 64;

/// The largest value goal `g` takes over a pool's choices (0 for an empty
/// pool).
pub open spec fn pool_max(choices: Seq<ChoiceView>, goals: Seq<StatGoal>, g: int) -> int
    decreases choices.len(),
{
    if choices.len() == 0 {
        0
    } else if choices.len() == 1 {
        goal_vec(choices[0], goals)[g]
    } else {
        let m = pool_max(choices.drop_last(), goals, g);
        let v = goal_vec(choices.last(), goals)[g];
        if v > m {
            v
        } else {
            m
        }
    }
}

proof fn lemma_pool_max(choices: Seq<ChoiceView>, goals: Seq<StatGoal>, g: int, j: int)
    requires
        0 <= j < choices.len(),
    ensures
        goal_vec(choices[j], goals)[g] <= pool_max(choices, goals, g),
    decreases choices.len(),
{
    if choices.len() > 1 && j < choices.len() - 1 {
        lemma_pool_max(choices.drop_last(), goals, g, j);
    }
}

proof fn lemma_pool_max_bounded(choices: Seq<ChoiceView>, goals: Seq<StatGoal>, g: int)
    requires
        choices_bounded(choices),
        0 <= g < goals.len(),
    ensures
        -2 * STAT_LIMIT <= pool_max(choices, goals, g) <= 2 * STAT_LIMIT,
    decreases choices.len(),
{
    if choices.len() > 0 {
        lemma_choice_stat_bounded(choices.last(), goals[g].stat);
        if choices.len() == 1 {
            lemma_choice_stat_bounded(choices[0], goals[g].stat);
        } else {
            lemma_pool_max_bounded(choices.drop_last(), goals, g);
        }
    }
}

/// Optimistic remaining gain per goal from pool `i` on: the sum of each
/// later pool's best value.
pub open spec fn suffix_spec(pools: Seq<Seq<ChoiceView>>, goals: Seq<StatGoal>, i: int) -> Seq<int>
    decreases pools.len() - i,
{
    if i < 0 || i >= pools.len() {
        Seq::new(goals.len(), |g: int| 0int)
    } else {
        vadd(
            suffix_spec(pools, goals, i + 1),
            Seq::new(goals.len(), |g: int| pool_max(pools[i], goals, g)),
        )
    }
}

/// Every pool's choices are bounded.
pub open spec fn pools_bounded(pools: Seq<Seq<ChoiceView>>) -> bool {
    forall|k: int| 0 <= k < pools.len() ==> choices_bounded(#[trigger] pools[k])
}

proof fn lemma_suffix_facts(pools: Seq<Seq<ChoiceView>>, goals: Seq<StatGoal>, i: int)
    requires
        pools_bounded(pools),
        0 <= i <= pools.len(),
    ensures
        suffix_spec(pools, goals, i).len() == goals.len(),
        forall|g: int|
            0 <= g < goals.len() ==> -0x100_0000_0000_0000 * (pools.len() - i) <= #[trigger] suffix_spec(
                pools,
                goals,
                i,
            )[g] <= 0x100_0000_0000_0000 * (pools.len() - i),
    decreases pools.len() - i,
{
    if i < pools.len() {
        lemma_suffix_facts(pools, goals, i + 1);
        assert forall|g: int| 0 <= g < goals.len() implies -0x100_0000_0000_0000 * (pools.len() - i)
            <= #[trigger] suffix_spec(pools, goals, i)[g] <= 0x100_0000_0000_0000 * (pools.len() - i) by {
            lemma_pool_max_bounded(pools[i], goals, g);
            assert(suffix_spec(pools, goals, i)[g] == suffix_spec(pools, goals, i + 1)[g] + pool_max(
                pools[i],
                goals,
                g,
            ));
        }
    }
}

/// The largest value each goal takes over one pool's choices.
fn pool_goal_maxima(choices: &Vec<Choice>, goals: &[StatGoal]) -> (r: Vec<i64>)
    requires
        choices_bounded(choice_views(choices@)),
    ensures
        r@.len() == goals@.len(),
        forall|g: int| 0 <= g < goals@.len() ==> #[trigger] r@[g] as int == pool_max(choice_views(choices@), goals@, g),
{
    let mut r: Vec<i64> = Vec::new();
    let mut g: usize = 0;
    while g < goals.len()
        invariant
            choices_bounded(choice_views(choices@)),
            g <= goals@.len(),
            r@.len() == g,
            forall|h: int| 0 <= h < g ==> #[trigger] r@[h] as int == pool_max(choice_views(choices@), goals@, h),
        decreases goals@.len() - g,
    {
        let mut m: i64 = 0;
        let mut j: usize = 0;
        while j < choices.len()
            invariant
                choices_bounded(choice_views(choices@)),
                g < goals@.len(),
                j <= choices@.len(),
                m as int == pool_max(choice_views(choices@.subrange(0, j as int)), goals@, g as int),
            decreases choices@.len() - j,
        {
            assert(choice_views(choices@)[j as int] == choice_view(choices@[j as int]));
            let v = choices[j].stat(&goals[g].stat);
            proof {
                let pre = choice_views(choices@.subrange(0, j + 1));
                assert(pre.drop_last() =~= choice_views(choices@.subrange(0, j as int)));
                assert(pre.last() == choice_view(choices@[j as int]));
                assert(goal_vec(choice_view(choices@[j as int]), goals@)[g as int] == v);
                if j == 0 {
                    assert(pre[0] == choice_view(choices@[j as int]));
                }
            }
            if j == 0 || v > m {
                m = v;
            }
            j += 1;
        }
        assert(choices@.subrange(0, choices@.len() as int) =~= choices@);
        r.push(m);
        g += 1;
    }
    r
}

/// `suffix[i]` is the optimistic remaining gain per goal from pool `i` on;
/// `suffix[pools.len()]` is all zeros.
fn suffix_goal_maxima(pools: &[SearchPool], goals: &[StatGoal]) -> (r: Vec<Vec<i64>>)
    requires
        pools_bounded(pool_choices(pools@)),
        pools@.len() <= POOL_LIMIT,
    ensures
        r@.len() == pools@.len() + 1,
        forall|i: int|
            0 <= i <= pools@.len() ==> int_view(#[trigger] r@[i]@) == suffix_spec(
                pool_choices(pools@),
                goals@,
                i,
            ),
{
    let n = pools.len();
    let ghost pv = pool_choices(pools@);
    let mut zeros: Vec<i64> = Vec::new();
    let mut g: usize = 0;
    while g < goals.len()
        invariant
            g <= goals@.len(),
            zeros@.len() == g,
            forall|h: int| 0 <= h < g ==> #[trigger] zeros@[h] == 0,
        decreases goals@.len() - g,
    {
        zeros.push(0);
        g += 1;
    }
    assert(int_view(zeros@) =~= suffix_spec(pv, goals@, n as int));
    // Built back to front, then reversed into place.
    let mut rev: Vec<Vec<i64>> = vec![zeros];
    let mut idx: usize = n;
    while idx > 0
        invariant
            n == pools@.len(),
            n <= POOL_LIMIT,
            pv == pool_choices(pools@),
            pools_bounded(pv),
            idx <= n,
            rev@.len() == n - idx + 1,
            forall|t: int|
                0 <= t < rev@.len() ==> int_view(#[trigger] rev@[t]@) == suffix_spec(pv, goals@, n - t),
        decreases idx,
    {
        let prev = &rev[n - idx];
        proof {
            assert(pv[idx - 1] == choice_views(pools@[idx - 1].choices@));
            lemma_suffix_facts(pv, goals@, idx as int);
        }
        let maxima = pool_goal_maxima(&pools[idx - 1].choices, goals);
        let mut cur: Vec<i64> = Vec::new();
        let mut g: usize = 0;
        while g < goals.len()
            invariant
                g <= goals@.len(),
                maxima@.len() == goals@.len(),
                int_view(prev@) == suffix_spec(pv, goals@, idx as int),
                suffix_spec(pv, goals@, idx as int).len() == goals@.len(),
                forall|h: int| 0 <= h < goals@.len() ==> -0x100_0000_0000_0000 * (pv.len() - idx)
                    <= #[trigger] suffix_spec(pv, goals@, idx as int)[h] <= 0x100_0000_0000_0000 * (pv.len() - idx),
                pv.len() <= POOL_LIMIT,
                idx <= pv.len(),
                pools_bounded(pv),
                0 < idx,
                forall|h: int| 0 <= h < goals@.len() ==> #[trigger] maxima@[h] as int == pool_max(pv[idx - 1], goals@, h),
                cur@.len() == g,
                forall|h: int|
                    0 <= h < g ==> #[trigger] cur@[h] as int == suffix_spec(pv, goals@, idx as int)[h] + pool_max(pv[idx - 1], goals@, h),
            decreases goals@.len() - g,
        {
            proof {
                lemma_pool_max_bounded(pv[idx - 1], goals@, g as int);
                assert(prev@[g as int] as int == suffix_spec(pv, goals@, idx as int)[g as int]);
                assert(0x100_0000_0000_0000 * (pv.len() - idx) <= 2 * STAT_LIMIT * POOL_LIMIT) by (nonlinear_arith)
                    requires pv.len() - idx <= POOL_LIMIT, pv.len() - idx >= 0;
            }
            cur.push(prev[g] + maxima[g]);
            g += 1;
        }
        proof {
            assert(int_view(cur@) =~= suffix_spec(pv, goals@, idx - 1));
        }
        rev.push(cur);
        idx -= 1;
    }
    let mut r: Vec<Vec<i64>> = Vec::new();
    while rev.len() > 0
        invariant
            rev@.len() + r@.len() == n + 1,
            forall|t: int|
                0 <= t < rev@.len() ==> int_view(#[trigger] rev@[t]@) == suffix_spec(pv, goals@, n - t),
            forall|i: int| 0 <= i < r@.len() ==> int_view(#[trigger] r@[i]@) == suffix_spec(pv, goals@, i),
        decreases rev@.len(),
    {
        let v = rev.pop().unwrap();
        r.push(v);
    }
    r
}

// ── Search ───────────────────────────────────────────────────────────────────

/// A complete build found by the search: its goal totals, sorted instance
/// keys, and the index of the choice taken from each pool.
#[derive(Debug, Clone)]
pub struct SearchBuild {
    pub totals: Vec<i64>,
    pub tiebreak_key: Vec<String>,
    pub picks: Vec<usize>,
}

/// `b` describes complete build `b.picks` truthfully.
pub open spec fn valid_search_build(
    pools: Seq<Seq<ChoiceView>>,
    goals: Seq<StatGoal>,
    init: Seq<int>,
    b: SearchBuild,
) -> bool {
    &&& is_build(pools, b.picks@)
    &&& int_view(b.totals@) == build_totals(pools, goals, init, b.picks@)
    &&& string_views(b.tiebreak_key@) == build_key(pools, b.picks@)
}

/// Compares two found builds: by goal totals, then by sorted instance keys,
/// the earlier key list winning.
fn compare_search_builds(x: &SearchBuild, y: &SearchBuild, goals: &[StatGoal]) -> (r: Rel)
    requires
        x.totals@.len() == goals@.len(),
        y.totals@.len() == goals@.len(),
    ensures
        (r == Rel::Greater) == beats(
            int_view(x.totals@),
            string_views(x.tiebreak_key@),
            int_view(y.totals@),
            string_views(y.tiebreak_key@),
            goals@,
        ),
{
    match compare_builds(x.totals.as_slice(), y.totals.as_slice(), goals) {
        Rel::Equal => compare_keys(y.tiebreak_key.as_slice(), x.tiebreak_key.as_slice()),
        non_equal => non_equal,
    }
}

fn should_replace_best(candidate: &SearchBuild, best: &Option<SearchBuild>, goals: &[StatGoal]) -> (r:
    bool)
    requires
        candidate.totals@.len() == goals@.len(),
        best matches Some(b) ==> b.totals@.len() == goals@.len(),
    ensures
        r == match best {
            None => true,
            Some(b) => beats(
                int_view(candidate.totals@),
                string_views(candidate.tiebreak_key@),
                int_view(b.totals@),
                string_views(b.tiebreak_key@),
                goals@,
            ),
        },
{
    match best {
        None => true,
        Some(b) => match compare_search_builds(candidate, b, goals) {
            Rel::Greater => true,
            _ => false,
        },
    }
}

proof fn lemma_upto_prefix(
    pools: Seq<Seq<ChoiceView>>,
    goals: Seq<StatGoal>,
    init: Seq<int>,
    c: Seq<usize>,
    p: Seq<usize>,
    m: int,
)
    requires
        0 <= m <= c.len(),
        m <= p.len(),
        c.subrange(0, m) == p.subrange(0, m),
    ensures
        totals_upto(pools, goals, init, c, m) == totals_upto(pools, goals, init, p, m),
        keys_upto(pools, c, m) == keys_upto(pools, p, m),
    decreases m,
{
    if m > 0 {
        assert(c.subrange(0, m - 1) =~= c.subrange(0, m).subrange(0, m - 1));
        assert(p.subrange(0, m - 1) =~= p.subrange(0, m).subrange(0, m - 1));
        assert(c[m - 1] == c.subrange(0, m)[m - 1]);
        assert(p[m - 1] == p.subrange(0, m)[m - 1]);
        lemma_upto_prefix(pools, goals, init, c, p, m - 1);
    }
}

proof fn lemma_totals_upto_bounded(
    pools: Seq<Seq<ChoiceView>>,
    goals: Seq<StatGoal>,
    init: Seq<int>,
    p: Seq<usize>,
    m: int,
)
    requires
        pools_bounded(pools),
        0 <= m <= p.len(),
        m <= pools.len(),
        forall|k: int| 0 <= k < m ==> #[trigger] p[k] < pools[k].len(),
        init.len() == goals.len(),
        forall|g: int| 0 <= g < init.len() ==> -STAT_LIMIT <= #[trigger] init[g] <= STAT_LIMIT,
    ensures
        totals_upto(pools, goals, init, p, m).len() == goals.len(),
        forall|g: int|
            0 <= g < goals.len() ==> -STAT_LIMIT - 0x100_0000_0000_0000 * m <= #[trigger] totals_upto(
                pools,
                goals,
                init,
                p,
                m,
            )[g] <= STAT_LIMIT + 0x100_0000_0000_0000 * m,
    decreases m,
{
    if m > 0 {
        lemma_totals_upto_bounded(pools, goals, init, p, m - 1);
        let c = pools[m - 1][p[m - 1] as int];
        assert(choice_bounded(c));
        assert forall|g: int| 0 <= g < goals.len() implies -STAT_LIMIT - 0x100_0000_0000_0000 * m
            <= #[trigger] totals_upto(pools, goals, init, p, m)[g] <= STAT_LIMIT + 0x100_0000_0000_0000 * m by {
            lemma_choice_stat_bounded(c, goals[g].stat);
        }
    }
}

proof fn lemma_suffix_bound(
    pools: Seq<Seq<ChoiceView>>,
    goals: Seq<StatGoal>,
    init: Seq<int>,
    c: Seq<usize>,
    m0: int,
    m: int,
    g: int,
)
    requires
        is_build(pools, c),
        0 <= m0 <= m <= pools.len(),
        0 <= g < goals.len(),
        init.len() == goals.len(),
    ensures
        totals_upto(pools, goals, init, c, m)[g] <= totals_upto(pools, goals, init, c, m0)[g]
            + suffix_spec(pools, goals, m0)[g] - suffix_spec(pools, goals, m)[g],
        totals_upto(pools, goals, init, c, m).len() == goals.len(),
        suffix_spec(pools, goals, m).len() == goals.len(),
    decreases m,
{
    if m > m0 {
        lemma_suffix_bound(pools, goals, init, c, m0, m - 1, g);
        lemma_pool_max(pools[m - 1], goals, g, c[m - 1] as int);
    } else {
        lemma_suffix_len(pools, goals, m);
        lemma_totals_len(pools, goals, init, c, m);
    }
}

proof fn lemma_suffix_len(pools: Seq<Seq<ChoiceView>>, goals: Seq<StatGoal>, i: int)
    ensures
        suffix_spec(pools, goals, i).len() == goals.len(),
    decreases pools.len() - i,
{
    if 0 <= i < pools.len() {
        lemma_suffix_len(pools, goals, i + 1);
    }
}

proof fn lemma_totals_len(
    pools: Seq<Seq<ChoiceView>>,
    goals: Seq<StatGoal>,
    init: Seq<int>,
    c: Seq<usize>,
    m: int,
)
    requires
        init.len() == goals.len(),
    ensures
        totals_upto(pools, goals, init, c, m).len() == goals.len(),
    decreases m,
{
    if m > 0 {
        lemma_totals_len(pools, goals, init, c, m - 1);
    }
}

/// A build extending `prefix` that differs from `q` (also extending
/// `prefix`) first at position `prefix.len()`, with a larger index there,
/// comes after `q` in search order.
proof fn lemma_not_before(c: Seq<usize>, q: Seq<usize>, prefix: Seq<usize>)
    requires
        extends(c, prefix),
        extends(q, prefix),
        c.len() == q.len(),
        prefix.len() < c.len(),
        c[prefix.len() as int] > q[prefix.len() as int],
    ensures
        !picks_before(c, q),
{
    let m = prefix.len() as int;
    if picks_before(c, q) {
        let k = choose|k: int|
            0 <= k < c.len() && k < q.len() && c.subrange(0, k) == q.subrange(0, k) && #[trigger] c[k]
                < q[k];
        if k < m {
            assert(c[k] == c.subrange(0, m)[k]);
            assert(q[k] == q.subrange(0, m)[k]);
        } else if k > m {
            assert(c[m] == c.subrange(0, k)[m]);
            assert(q[m] == q.subrange(0, k)[m]);
        }
    }
}

/// Copies a vector of integers.
fn copy_i64s(v: &[i64]) -> (r: Vec<i64>)
    ensures
        r@ == v@,
{
    let mut r: Vec<i64> = Vec::new();
    let mut i: usize = 0;
    while i < v.len()
        invariant
            i <= v@.len(),
            r@ == v@.subrange(0, i as int),
        decreases v@.len() - i,
    {
        r.push(v[i]);
        i += 1;
        assert(r@ =~= v@.subrange(0, i as int));
    }
    assert(v@.subrange(0, v@.len() as int) =~= v@);
    r
}

/// Copies a vector of indices.
fn copy_usizes(v: &Vec<usize>) -> (r: Vec<usize>)
    ensures
        r@ == v@,
{
    let mut r: Vec<usize> = Vec::new();
    let mut i: usize = 0;
    while i < v.len()
        invariant
            i <= v@.len(),
            r@ == v@.subrange(0, i as int),
        decreases v@.len() - i,
    {
        r.push(v[i]);
        i += 1;
        assert(r@ =~= v@.subrange(0, i as int));
    }
    assert(v@.subrange(0, v@.len() as int) =~= v@);
    r
}

/// What the search over the subtree below `prefix` guarantees about the best
/// build held before (`b0`) and after (`b1`) it.
pub open spec fn subtree_searched(
    pools: Seq<Seq<ChoiceView>>,
    goals: Seq<StatGoal>,
    init: Seq<int>,
    prefix: Seq<usize>,
    below: int,
    b0: Option<SearchBuild>,
    b1: Option<SearchBuild>,
) -> bool {
    &&& b1 is Some
    &&& valid_search_build(pools, goals, init, b1.unwrap())
    &&& b0 matches Some(x) ==> (b1.unwrap() == x || build_beats(pools, goals, init, b1.unwrap().picks@, x.picks@))
    &&& b1 != b0 ==> extends(b1.unwrap().picks@, prefix) && (prefix.len() < pools.len() ==> b1.unwrap().picks@[prefix.len() as int] < below)
    &&& forall|c: Seq<usize>|
        is_build(pools, c) && extends(c, prefix) && (prefix.len() < pools.len() ==> c[prefix.len() as int] < below)
            ==> !#[trigger] build_beats(pools, goals, init, c, b1.unwrap().picks@)
    &&& b1 != b0 ==> forall|c: Seq<usize>|
        is_build(pools, c) && extends(c, prefix) && (prefix.len() < pools.len() ==> c[prefix.len() as int] < below)
            && #[trigger] picks_before(c, b1.unwrap().picks@) ==> build_beats(
            pools,
            goals,
            init,
            b1.unwrap().picks@,
            c,
        )
}

/// The common preconditions of the search over `pools`.
pub open spec fn search_ready(
    pools: Seq<Seq<ChoiceView>>,
    goals: Seq<StatGoal>,
    init: Seq<int>,
    suffix: Seq<Vec<i64>>,
) -> bool {
    &&& pools.len() <= POOL_LIMIT
    &&& pools_bounded(pools)
    &&& forall|k: int| 0 <= k < pools.len() ==> #[trigger] pools[k].len() > 0
    &&& init.len() == goals.len()
    &&& forall|g: int| 0 <= g < init.len() ==> -STAT_LIMIT <= #[trigger] init[g] <= STAT_LIMIT
    &&& suffix.len() == pools.len() + 1
    &&& forall|i: int| 0 <= i <= pools.len() ==> int_view(#[trigger] suffix[i]@) == suffix_spec(pools, goals, i)
}

/// Branch-and-bound depth-first search below the partial build
/// `current_picks` (one pick for each pool before `pool_idx`).
#[verifier::rlimit(60)]
fn dfs_search(
    pool_idx: usize,
    pools: &[SearchPool],
    goals: &[StatGoal],
    suffix_maxima: &[Vec<i64>],
    running_totals: &mut Vec<i64>,
    current_picks: &mut Vec<usize>,
    current_keys: &mut Vec<String>,
    best: &mut Option<SearchBuild>,
    Ghost(init): Ghost<Seq<int>>,
)
    requires
        search_ready(pool_choices(pools@), goals@, init, suffix_maxima@),
        pool_idx <= pools@.len(),
        old(current_picks)@.len() == pool_idx,
        forall|k: int| 0 <= k < pool_idx ==> #[trigger] old(current_picks)@[k] < pools@[k].choices@.len(),
        int_view(old(running_totals)@) == totals_upto(
            pool_choices(pools@),
            goals@,
            init,
            old(current_picks)@,
            pool_idx as int,
        ),
        string_views(old(current_keys)@) == keys_upto(
            pool_choices(pools@),
            old(current_picks)@,
            pool_idx as int,
        ),
        *old(best) matches Some(b) ==> valid_search_build(pool_choices(pools@), goals@, init, b),
    ensures
        final(running_totals)@ == old(running_totals)@,
        final(current_picks)@ == old(current_picks)@,
        final(current_keys)@ == old(current_keys)@,
        subtree_searched(
            pool_choices(pools@),
            goals@,
            init,
            old(current_picks)@,
            if pool_idx < pools@.len() { pools@[pool_idx as int].choices@.len() as int } else { 0 },
            *old(best),
            *final(best),
        ),
    decreases pools@.len() - pool_idx,
{
    let ghost pv = pool_choices(pools@);
    let ghost prefix = current_picks@;
    let ghost b0 = *best;
    let ghost below: int = if pool_idx < pools@.len() { pools@[pool_idx as int].choices@.len() as int } else { 0 };
    proof {
        lemma_totals_upto_bounded(pv, goals@, init, prefix, pool_idx as int);
        lemma_suffix_facts(pv, goals@, pool_idx as int);
        assert(int_view(suffix_maxima@[pool_idx as int]@) == suffix_spec(pv, goals@, pool_idx as int));
        assert forall|h: int| 0 <= h < goals@.len() implies -STAT_LIMIT - 0x100_0000_0000_0000 * pool_idx
            <= #[trigger] running_totals@[h] <= STAT_LIMIT + 0x100_0000_0000_0000 * pool_idx by {
            assert(int_view(running_totals@)[h] == running_totals@[h] as int);
        }
        assert forall|h: int| 0 <= h < goals@.len() implies -0x100_0000_0000_0000 * (pools@.len() - pool_idx)
            <= #[trigger] suffix_maxima@[pool_idx as int]@[h] <= 0x100_0000_0000_0000 * (pools@.len() - pool_idx) by {
            assert(int_view(suffix_maxima@[pool_idx as int]@)[h] == suffix_maxima@[pool_idx as int]@[h] as int);
        }
    }
    if let Some(best_build) = best.as_ref() {
        let mut optimistic: Vec<i64> = Vec::new();
        let mut g: usize = 0;
        while g < goals.len()
            invariant
                g <= goals@.len(),
                optimistic@.len() == g,
                suffix_maxima@.len() == pools@.len() + 1,
                running_totals@.len() == goals@.len(),
                suffix_maxima@[pool_idx as int]@.len() == goals@.len(),
                pool_idx <= pools@.len(),
                pools@.len() <= POOL_LIMIT,
                forall|h: int| 0 <= h < goals@.len() ==> -STAT_LIMIT - 0x100_0000_0000_0000 * pool_idx <= #[trigger] running_totals@[h] <= STAT_LIMIT + 0x100_0000_0000_0000 * pool_idx,
                forall|h: int| 0 <= h < goals@.len() ==> -0x100_0000_0000_0000 * (pools@.len() - pool_idx) <= #[trigger] suffix_maxima@[pool_idx as int]@[h] <= 0x100_0000_0000_0000 * (pools@.len() - pool_idx),
                forall|h: int| 0 <= h < g ==> #[trigger] optimistic@[h] == running_totals@[h] + suffix_maxima@[pool_idx as int]@[h],
            decreases goals@.len() - g,
        {
            optimistic.push(running_totals[g] + suffix_maxima[pool_idx][g]);
            g += 1;
        }
        proof {
            lemma_totals_len(pv, goals@, init, best_build.picks@, pv.len() as int);
            assert(int_view(best_build.totals@).len() == best_build.totals@.len());
            assert(int_view(optimistic@) =~= vadd(totals_upto(pv, goals@, init, prefix, pool_idx as int), suffix_spec(pv, goals@, pool_idx as int)));
        }
        if let Rel::Less = compare_builds(optimistic.as_slice(), best_build.totals.as_slice(), goals) {
            proof {
                let bp = best_build.picks@;
                let bt = build_totals(pv, goals@, init, bp);
                assert forall|c: Seq<usize>|
                    is_build(pv, c) && extends(c, prefix) && (prefix.len() < pv.len() ==> c[prefix.len() as int] < below)
                    implies !#[trigger] build_beats(pv, goals@, init, c, bp) by {
                    let tc = build_totals(pv, goals@, init, c);
                    assert(prefix.subrange(0, pool_idx as int) =~= prefix);
                    lemma_upto_prefix(pv, goals@, init, c, prefix, pool_idx as int);
                    lemma_suffix_len(pv, goals@, pv.len() as int);
                    lemma_totals_len(pv, goals@, init, c, pv.len() as int);
                    assert forall|h: int| 0 <= h < tc.len() implies tc[h] <= int_view(optimistic@)[h] by {
                        lemma_suffix_bound(pv, goals@, init, c, pool_idx as int, pv.len() as int, h);
                    }
                    lemma_totals_len(pv, goals@, init, c, pv.len() as int);
                    lemma_totals_order_monotone(tc, int_view(optimistic@), goals@);
                    lemma_totals_order_trans(tc, int_view(optimistic@), bt, goals@);
                }
            }
            return;
        }
    }
    if pool_idx == pools.len() {
        let tiebreak_key = crate::sorting::sort_strings(current_keys.as_slice());
        let candidate = SearchBuild {
            totals: copy_i64s(running_totals.as_slice()),
            tiebreak_key,
            picks: copy_usizes(current_picks),
        };
        proof {
            lemma_totals_len(pv, goals@, init, prefix, pool_idx as int);
        }
        let replace = should_replace_best(&candidate, best, goals);
        proof {
            assert(prefix.subrange(0, prefix.len() as int) =~= prefix);
            assert forall|c: Seq<usize>| is_build(pv, c) && extends(c, prefix) implies c == prefix by {
                assert(c =~= c.subrange(0, prefix.len() as int));
            }
            lemma_beats_irreflexive(int_view(candidate.totals@), string_views(candidate.tiebreak_key@), goals@);
        }
        if replace {
            *best = Some(candidate);
        }
        return;
    }
    let n_choices = pools[pool_idx].choices.len();
    let ghost r0 = running_totals@;
    let ghost k0 = current_keys@;
    let choice_keys_base_len = current_keys.len();
    let mut j: usize = 0;
    while j < n_choices
        invariant
            search_ready(pv, goals@, init, suffix_maxima@),
            pv == pool_choices(pools@),
            pool_idx < pools@.len(),
            n_choices == pools@[pool_idx as int].choices@.len(),
            n_choices == pv[pool_idx as int].len(),
            below == n_choices,
            prefix.len() == pool_idx,
            forall|k: int| 0 <= k < pool_idx ==> #[trigger] prefix[k] < pools@[k].choices@.len(),
            running_totals@ == r0,
            current_picks@ == prefix,
            current_keys@ == k0,
            choice_keys_base_len == k0.len(),
            int_view(r0) == totals_upto(pv, goals@, init, prefix, pool_idx as int),
            string_views(k0) == keys_upto(pv, prefix, pool_idx as int),
            forall|h: int| 0 <= h < goals@.len() ==> -STAT_LIMIT - 0x100_0000_0000_0000 * pool_idx <= #[trigger] r0[h] <= STAT_LIMIT + 0x100_0000_0000_0000 * pool_idx,
            r0.len() == goals@.len(),
            b0 matches Some(b) ==> valid_search_build(pv, goals@, init, b),
            j <= n_choices,
            j == 0 ==> *best == b0,
            j > 0 ==> subtree_searched(pv, goals@, init, prefix, j as int, b0, *best),
        decreases n_choices - j,
    {
        let choice = &pools[pool_idx].choices[j];
        proof {
            assert(pv[pool_idx as int][j as int] == choice_view(*choice));
            assert(choices_bounded(pv[pool_idx as int]));
        }
        let choice_totals = choice.goal_totals(goals);
        let choice_keys = choice.instance_keys();
        let ghost p1 = prefix.push(j);
        assert(choice_totals@.len() == int_view(choice_totals@).len());
        let mut g: usize = 0;
        while g < goals.len()
            invariant
                g <= goals@.len(),
                running_totals@.len() == goals@.len(),
                choice_totals@.len() == goals@.len(),
                forall|h: int| 0 <= h < goals@.len() ==> -0x100_0000_0000_0000 <= #[trigger] choice_totals@[h] <= 0x100_0000_0000_0000,
                forall|h: int| 0 <= h < goals@.len() ==> -STAT_LIMIT - 0x100_0000_0000_0000 * pool_idx <= #[trigger] r0[h] <= STAT_LIMIT + 0x100_0000_0000_0000 * pool_idx,
                r0.len() == goals@.len(),
                pool_idx < POOL_LIMIT,
                forall|h: int| 0 <= h < g ==> #[trigger] running_totals@[h] == r0[h] + choice_totals@[h],
                forall|h: int| g <= h < goals@.len() ==> #[trigger] running_totals@[h] == r0[h],
            decreases goals@.len() - g,
        {
            let v = running_totals[g] + choice_totals[g];
            running_totals.set(g, v);
            g += 1;
        }
        current_picks.push(j);
        let mut t: usize = 0;
        while t < choice_keys.len()
            invariant
                t <= choice_keys@.len(),
                current_keys@ == k0 + choice_keys@.subrange(0, t as int),
            decreases choice_keys@.len() - t,
        {
            current_keys.push(choice_keys[t].clone());
            t += 1;
            assert(current_keys@ =~= k0 + choice_keys@.subrange(0, t as int));
        }
        proof {
            assert(choice_keys@.subrange(0, choice_keys@.len() as int) =~= choice_keys@);
            assert(p1.subrange(0, pool_idx as int) =~= prefix.subrange(0, pool_idx as int));
            assert(prefix.subrange(0, pool_idx as int) =~= prefix);
            lemma_upto_prefix(pv, goals@, init, p1, prefix, pool_idx as int);
            assert(p1[pool_idx as int] == j);
            assert(int_view(running_totals@) =~= totals_upto(pv, goals@, init, p1, pool_idx + 1));
            assert(string_views(current_keys@) =~= keys_upto(pv, p1, pool_idx + 1));
        }
        let ghost b1 = *best;
        dfs_search(
            pool_idx + 1,
            pools,
            goals,
            suffix_maxima,
            running_totals,
            current_picks,
            current_keys,
            best,
            Ghost(init),
        );
        let ghost b2 = *best;
        current_picks.pop();
        let k0_len = choice_keys_base_len;
        current_keys.truncate(k0_len);
        let mut g: usize = 0;
        while g < goals.len()
            invariant
                g <= goals@.len(),
                running_totals@.len() == goals@.len(),
                choice_totals@.len() == goals@.len(),
                r0.len() == goals@.len(),
                forall|h: int| 0 <= h < g ==> #[trigger] running_totals@[h] == r0[h],
                forall|h: int| g <= h < goals@.len() ==> #[trigger] running_totals@[h] == r0[h] + choice_totals@[h],
            decreases goals@.len() - g,
        {
            let v = running_totals[g] - choice_totals[g];
            running_totals.set(g, v);
            g += 1;
        }
        proof {
            assert(running_totals@ =~= r0);
            assert(current_picks@ =~= prefix);
            assert(current_keys@ =~= k0);
            lemma_dfs_step(pv, goals@, init, prefix, j as int, b0, b1, b2);
        }
        j += 1;
    }
}

proof fn lemma_beats_asym(
    ta: Seq<int>,
    ka: Seq<Seq<char>>,
    tb: Seq<int>,
    kb: Seq<Seq<char>>,
    goals: Seq<StatGoal>,
)
    requires
        ta.len() == goals.len(),
        tb.len() == goals.len(),
        beats(ta, ka, tb, kb, goals),
    ensures
        !beats(tb, kb, ta, ka, goals),
{
    lemma_totals_order_antisym(ta, tb, goals);
    lemma_keys_order_antisym(ka, kb);
}

/// `build_beats` is asymmetric and transitive through a non-beaten middle.
proof fn lemma_build_beats_facts(
    pv: Seq<Seq<ChoiceView>>,
    goals: Seq<StatGoal>,
    init: Seq<int>,
    a: Seq<usize>,
    b: Seq<usize>,
    c: Seq<usize>,
)
    requires
        init.len() == goals.len(),
    ensures
        build_beats(pv, goals, init, a, b) ==> !build_beats(pv, goals, init, b, a),
        build_beats(pv, goals, init, a, b) && !build_beats(pv, goals, init, c, b) ==> build_beats(pv, goals, init, a, c),
        build_beats(pv, goals, init, a, b) && build_beats(pv, goals, init, b, c) ==> build_beats(pv, goals, init, a, c),
        !build_beats(pv, goals, init, b, a) && !build_beats(pv, goals, init, c, b) ==> !build_beats(pv, goals, init, c, a),
        !build_beats(pv, goals, init, a, a),
{
    lemma_totals_len(pv, goals, init, a, pv.len() as int);
    lemma_totals_len(pv, goals, init, b, pv.len() as int);
    lemma_totals_len(pv, goals, init, c, pv.len() as int);
    let (ta, ka) = (build_totals(pv, goals, init, a), build_key(pv, a));
    let (tb, kb) = (build_totals(pv, goals, init, b), build_key(pv, b));
    let (tc, kc) = (build_totals(pv, goals, init, c), build_key(pv, c));
    if beats(ta, ka, tb, kb, goals) {
        lemma_beats_asym(ta, ka, tb, kb, goals);
    }
    if beats(tb, kb, tc, kc, goals) {
        lemma_beats_asym(tb, kb, tc, kc, goals);
    }
    lemma_beats_trans(ta, ka, tb, kb, tc, kc, goals);
    lemma_beats_irreflexive(ta, ka, goals);
}

/// Exact search over `pools`: `None` when some pool is empty, otherwise the
/// search result (see `is_search_result`).
fn exact_search(pools: &[SearchPool], goals: &[StatGoal], initial_totals: &[i64]) -> (r: Option<
    SearchBuild,
>)
    requires
        pools@.len() <= POOL_LIMIT,
        pools_bounded(pool_choices(pools@)),
        initial_totals@.len() == goals@.len(),
        forall|g: int| 0 <= g < goals@.len() ==> -STAT_LIMIT <= #[trigger] initial_totals@[g] <= STAT_LIMIT,
    ensures
        (exists|k: int| 0 <= k < pools@.len() && #[trigger] pools@[k].choices@.len() == 0) ==> r is None,
        (forall|k: int| 0 <= k < pools@.len() ==> #[trigger] pools@[k].choices@.len() > 0) ==> (r matches Some(b)
            && valid_search_build(pool_choices(pools@), goals@, int_view(initial_totals@), b)
            && is_search_result(pool_choices(pools@), goals@, int_view(initial_totals@), b.picks@)),
{
    let mut k: usize = 0;
    while k < pools.len()
        invariant
            k <= pools@.len(),
            forall|t: int| 0 <= t < k ==> #[trigger] pools@[t].choices@.len() > 0,
        decreases pools@.len() - k,
    {
        if pools[k].choices.len() == 0 {
            return None;
        }
        k += 1;
    }
    let ghost pv = pool_choices(pools@);
    let ghost init = int_view(initial_totals@);
    let suffix_maxima = suffix_goal_maxima(pools, goals);
    let mut best: Option<SearchBuild> = None;
    let mut running_totals = copy_i64s(initial_totals);
    let mut current_picks: Vec<usize> = Vec::new();
    let mut current_keys: Vec<String> = Vec::new();
    proof {
        assert forall|t: int| 0 <= t < pv.len() implies #[trigger] pv[t].len() > 0 by {
            assert(pv[t] == choice_views(pools@[t].choices@));
        }
        assert forall|g: int| 0 <= g < init.len() implies -STAT_LIMIT <= #[trigger] init[g] <= STAT_LIMIT by {
            assert(init[g] == initial_totals@[g] as int);
        }
        assert(string_views(current_keys@) =~= keys_upto(pv, current_picks@, 0));
    }
    dfs_search(
        0,
        pools,
        goals,
        suffix_maxima.as_slice(),
        &mut running_totals,
        &mut current_picks,
        &mut current_keys,
        &mut best,
        Ghost(init),
    );
    proof {
        let b = best.unwrap();
        assert forall|c: Seq<usize>| is_build(pv, c) implies extends(c, Seq::<usize>::empty()) by {
            assert(c.subrange(0, 0) =~= Seq::<usize>::empty());
        }
    }
    best
}

// ── Pool construction ────────────────────────────────────────────────────────

/// The view of the zero-stat placeholder named `name` for `slot`.
pub open spec fn zero_view(name: Seq<char>, slot: Slot) -> CandView {
    CandView {
        key: zero_key_spec(name, slot),
        name,
        stats: StatMap::zero(),
        slot,
        two_handed: false,
        either_hand: false,
    }
}

/// The placeholder name for an empty slot: `[empty <slot display>]`.
pub open spec fn empty_name(slot: Slot) -> Seq<char> {
    "[empty "@ + slot_display_spec(slot) + "]"@
}

/// The views of a list of candidates.
pub open spec fn cand_views(s: Seq<Candidate>) -> Seq<CandView> {
    s.map_values(|c: Candidate| cand_view(c))
}

/// The candidate views of a list of pairs.
pub open spec fn pair_views(s: Seq<PairCandidate>) -> Seq<(CandView, CandView)> {
    s.map_values(|p: PairCandidate| (cand_view(p.a), cand_view(p.b)))
}

/// The candidate views of a list of hand configurations.
pub open spec fn hands_views(s: Seq<HandsCandidate>) -> Seq<(CandView, CandView)> {
    s.map_values(|h: HandsCandidate| (cand_view(h.main), cand_view(h.off)))
}

/// Every candidate's stats are within the stat limit.
pub open spec fn cands_ok(s: Seq<Candidate>) -> bool {
    forall|i: int| 0 <= i < s.len() ==> stat_map_bounded(#[trigger] s[i].stats)
}

/// Both items of every pair have stats within the stat limit.
pub open spec fn pairs_ok(s: Seq<PairCandidate>) -> bool {
    forall|i: int| 0 <= i < s.len() ==> stat_map_bounded(#[trigger] s[i].a.stats) && stat_map_bounded(s[i].b.stats)
}

/// Both hands of every configuration have stats within the stat limit.
pub open spec fn hands_ok(s: Seq<HandsCandidate>) -> bool {
    forall|i: int| 0 <= i < s.len() ==> stat_map_bounded(#[trigger] s[i].main.stats) && stat_map_bounded(s[i].off.stats)
}

/// The family representative of a slot: the second slot of a paired family
/// maps to the first.
pub open spec fn canonical_slot_spec(slot: Slot) -> Slot {
    match slot {
        Slot::Wrist2 => Slot::Wrist1,
        Slot::Finger2 => Slot::Finger1,
        Slot::Ear2 => Slot::Ear1,
        other => other,
    }
}

/// The second slot of the paired family whose first slot is `slot1`.
pub open spec fn paired_slot2_spec(slot1: Slot) -> Slot {
    match slot1 {
        Slot::Wrist1 => Slot::Wrist2,
        Slot::Finger1 => Slot::Finger2,
        Slot::Ear1 => Slot::Ear2,
        other => other,
    }
}

fn canonical_slot(slot: Slot) -> (r: Slot)
    ensures
        r == canonical_slot_spec(slot),
{
    match slot {
        Slot::Wrist2 => Slot::Wrist1,
        Slot::Finger2 => Slot::Finger1,
        Slot::Ear2 => Slot::Ear1,
        other => other,
    }
}

fn paired_slot2(slot1: Slot) -> (r: Slot)
    ensures
        r == paired_slot2_spec(slot1),
{
    match slot1 {
        Slot::Wrist1 => Slot::Wrist2,
        Slot::Finger1 => Slot::Finger2,
        Slot::Ear1 => Slot::Ear2,
        other => other,
    }
}

/// The pairs `(pool[i], pool[j])` for `j > i`, in order of `j`.
pub open spec fn pairs_row(pool: Seq<CandView>, i: int) -> Seq<(CandView, CandView)> {
    Seq::new((pool.len() - i - 1) as nat, |k: int| (pool[i], pool[i + 1 + k]))
}

/// All pairs `(pool[i], pool[j])` with `i0 <= i < j`, in order of `i` then `j`.
pub open spec fn all_pairs_from(pool: Seq<CandView>, i: int) -> Seq<(CandView, CandView)>
    decreases pool.len() - i,
{
    if i < 0 || i >= pool.len() {
        Seq::empty()
    } else {
        pairs_row(pool, i) + all_pairs_from(pool, i + 1)
    }
}

/// The pair puts each item in its own slot (`a` in `slot1`, `b` in `slot2`).
pub open spec fn natural_pair(p: (CandView, CandView), slot1: Slot, slot2: Slot) -> bool {
    p.0.slot == slot1 && p.1.slot == slot2
}

/// Every legal pair of two distinct instances from a paired family's pool:
/// natural slot assignments first, each group in enumeration order. A single
/// instance pairs with the empty placeholder of the other slot; an empty pool
/// gives one pair of `[empty]` placeholders.
pub open spec fn pairs_spec(pool: Seq<CandView>, slot1: Slot, slot2: Slot) -> Seq<(CandView, CandView)> {
    if pool.len() == 0 {
        seq![(zero_view("[empty]"@, slot1), zero_view("[empty]"@, slot2))]
    } else if pool.len() == 1 {
        if pool[0].slot == slot2 {
            seq![(zero_view(empty_name(slot1), slot1), pool[0])]
        } else {
            seq![(pool[0], zero_view(empty_name(slot2), slot2))]
        }
    } else {
        let all = all_pairs_from(pool, 0);
        all.filter(|p: (CandView, CandView)| natural_pair(p, slot1, slot2)) + all.filter(
            |p: (CandView, CandView)| !natural_pair(p, slot1, slot2),
        )
    }
}

/// Enumerates the legal pairs for a paired family.
fn build_pairs(pool: &[Candidate], slot1: Slot, slot2: Slot) -> (r: Vec<PairCandidate>)
    requires
        cands_ok(pool@),
    ensures
        pair_views(r@) == pairs_spec(cand_views(pool@), slot1, slot2),
        pairs_ok(r@),
{
    let ghost pv = cand_views(pool@);
    if pool.len() == 0 {
        let r = vec![PairCandidate::new(
            Candidate::zero("[empty]".to_owned(), slot1),
            Candidate::zero("[empty]".to_owned(), slot2),
        )];
        assert(pair_views(r@) =~= pairs_spec(pv, slot1, slot2));
        return r;
    }
    if pool.len() == 1 {
        assert(pv[0] == cand_view(pool@[0]));
        if pool[0].original_slot == slot2 {
            let name = crate::text::concat3("[empty ", slot1.display_name(), "]");
            let r = vec![PairCandidate::new(Candidate::zero(name, slot1), pool[0].duplicate())];
            assert(pair_views(r@) =~= pairs_spec(pv, slot1, slot2));
            return r;
        }
        let name = crate::text::concat3("[empty ", slot2.display_name(), "]");
        let r = vec![PairCandidate::new(pool[0].duplicate(), Candidate::zero(name, slot2))];
        assert(pair_views(r@) =~= pairs_spec(pv, slot1, slot2));
        return r;
    }
    let n = pool.len();
    let mut pairs: Vec<PairCandidate> = Vec::new();
    let mut i: usize = 0;
    while i < n
        invariant
            n == pool@.len(),
            pv == cand_views(pool@),
            i <= n,
            cands_ok(pool@),
            pairs_ok(pairs@),
            pair_views(pairs@) + all_pairs_from(pv, i as int) == all_pairs_from(pv, 0),
        decreases n - i,
    {
        let ghost before = pairs@;
        let mut j: usize = i + 1;
        while j < n
            invariant
                n == pool@.len(),
                pv == cand_views(pool@),
                i < n,
                i + 1 <= j <= n,
                cands_ok(pool@),
                pairs_ok(pairs@),
                pair_views(pairs@) == pair_views(before) + pairs_row(pv, i as int).subrange(0, j - i - 1),
            decreases n - j,
        {
            let ghost old_pairs = pairs@;
            pairs.push(PairCandidate::new(pool[i].duplicate(), pool[j].duplicate()));
            proof {
                assert(pair_views(pairs@) =~= pair_views(old_pairs).push((pv[i as int], pv[j as int])));
                assert(pairs_row(pv, i as int)[j - i - 1] == (pv[i as int], pv[j as int]));
                assert(pairs_row(pv, i as int).subrange(0, j - i) =~= pairs_row(pv, i as int).subrange(0, j - i - 1).push((pv[i as int], pv[j as int])));
                assert(pair_views(pairs@) =~= pair_views(before) + pairs_row(pv, i as int).subrange(0, j - i));
            }
            j += 1;
        }
        proof {
            assert(pairs_row(pv, i as int).subrange(0, n - i - 1) =~= pairs_row(pv, i as int));
            assert(all_pairs_from(pv, i as int) == pairs_row(pv, i as int) + all_pairs_from(pv, i + 1));
            assert(pair_views(pairs@) + all_pairs_from(pv, i + 1) =~= pair_views(before) + all_pairs_from(pv, i as int));
        }
        i += 1;
    }
    assert(pair_views(pairs@) =~= all_pairs_from(pv, 0));
    let ghost all = all_pairs_from(pv, 0);
    let ghost nat_f = |p: (CandView, CandView)| natural_pair(p, slot1, slot2);
    let ghost other_f = |p: (CandView, CandView)| !natural_pair(p, slot1, slot2);
    let mut r: Vec<PairCandidate> = Vec::new();
    let mut k: usize = 0;
    while k < pairs.len()
        invariant
            k <= pairs@.len(),
            pair_views(pairs@) == all,
            pairs_ok(pairs@),
            pairs_ok(r@),
            nat_f == (|p: (CandView, CandView)| natural_pair(p, slot1, slot2)),
            pair_views(r@) == all.subrange(0, k as int).filter(nat_f),
        decreases pairs@.len() - k,
    {
        proof {
            assert(all.subrange(0, k + 1) =~= all.subrange(0, k as int).push(all[k as int]));
            all.subrange(0, k as int).lemma_filter_push(all[k as int], nat_f);
            assert(all[k as int] == (cand_view(pairs@[k as int].a), cand_view(pairs@[k as int].b)));
        }
        if pairs[k].a.original_slot == slot1 && pairs[k].b.original_slot == slot2 {
            assert(nat_f(all[k as int]));
            let ghost old_r = r@;
            r.push(PairCandidate::new(pairs[k].a.duplicate(), pairs[k].b.duplicate()));
            assert(pair_views(r@) =~= pair_views(old_r).push(all[k as int]));
        } else {
            assert(!nat_f(all[k as int]));
        }
        assert(pair_views(r@) == all.subrange(0, k + 1).filter(nat_f));
        k += 1;
    }
    let ghost first = pair_views(r@);
    let mut k: usize = 0;
    while k < pairs.len()
        invariant
            k <= pairs@.len(),
            pair_views(pairs@) == all,
            pairs_ok(pairs@),
            pairs_ok(r@),
            other_f == (|p: (CandView, CandView)| !natural_pair(p, slot1, slot2)),
            pair_views(r@) == first + all.subrange(0, k as int).filter(other_f),
        decreases pairs@.len() - k,
    {
        proof {
            assert(all.subrange(0, k + 1) =~= all.subrange(0, k as int).push(all[k as int]));
            all.subrange(0, k as int).lemma_filter_push(all[k as int], other_f);
            assert(all[k as int] == (cand_view(pairs@[k as int].a), cand_view(pairs@[k as int].b)));
        }
        if !(pairs[k].a.original_slot == slot1 && pairs[k].b.original_slot == slot2) {
            assert(other_f(all[k as int]));
            let ghost old_r = r@;
            r.push(PairCandidate::new(pairs[k].a.duplicate(), pairs[k].b.duplicate()));
            assert(pair_views(r@) =~= pair_views(old_r).push(all[k as int]));
        } else {
            assert(!other_f(all[k as int]));
        }
        assert(pair_views(r@) == first + all.subrange(0, k + 1).filter(other_f));
        k += 1;
    }
    assert(all.subrange(0, all.len() as int) =~= all);
    assert(first == all.filter(nat_f));
    r
}

/// The empty main-hand placeholder.
pub open spec fn empty_main_view() -> CandView {
    zero_view(empty_name(Slot::MainHand), Slot::MainHand)
}

/// The empty off-hand placeholder.
pub open spec fn empty_off_view() -> CandView {
    zero_view(empty_name(Slot::OffHand), Slot::OffHand)
}

/// Items eligible for the main-hand position: the main pool, then the
/// Either-hand items of the off pool.
pub open spec fn main_eligible(main_pool: Seq<CandView>, off_pool: Seq<CandView>) -> Seq<CandView> {
    main_pool + off_pool.filter(|c: CandView| c.either_hand)
}

/// The configurations with `m` in the main hand: a two-handed `m` takes the
/// empty off-hand; otherwise `m` pairs with every off-hand item that is not
/// the same instance, or with the empty off-hand when there is none.
pub open spec fn configs_for_main(m: CandView, offs: Seq<CandView>) -> Seq<(CandView, CandView)> {
    if m.two_handed {
        seq![(m, empty_off_view())]
    } else {
        let partners = offs.filter(|o: CandView| o.key != m.key);
        if partners.len() == 0 {
            seq![(m, empty_off_view())]
        } else {
            partners.map_values(|o: CandView| (m, o))
        }
    }
}

/// The configurations for the first `n` main-eligible items, in order.
pub open spec fn main_configs(mains: Seq<CandView>, offs: Seq<CandView>, n: int) -> Seq<(CandView, CandView)>
    decreases n,
{
    if n <= 0 {
        Seq::empty()
    } else {
        main_configs(mains, offs, n - 1) + configs_for_main(mains[n - 1], offs)
    }
}

/// No main-eligible item other than the instance `o` itself.
pub open spec fn no_main_for(mains: Seq<CandView>, o: CandView) -> bool {
    forall|i: int| 0 <= i < mains.len() ==> #[trigger] mains[i].key == o.key
}

/// Every legal `MainHand` + `OffHand` configuration: first those with a real
/// main hand, in main-eligible order; then an empty main hand with each
/// off-hand item for which no other main-eligible item exists; and both hands
/// empty only when neither position has a real item.
pub open spec fn hand_configs_spec(main_pool: Seq<CandView>, off_pool: Seq<CandView>) -> Seq<(CandView, CandView)> {
    let mains = main_eligible(main_pool, off_pool);
    main_configs(mains, off_pool, mains.len() as int) + off_pool.filter(
        |o: CandView| no_main_for(mains, o),
    ).map_values(|o: CandView| (empty_main_view(), o)) + if mains.len() == 0 && off_pool.len() == 0 {
        seq![(empty_main_view(), empty_off_view())]
    } else {
        Seq::empty()
    }
}

proof fn lemma_hands_ok_push(s: Seq<HandsCandidate>, h: HandsCandidate)
    requires
        hands_ok(s),
        stat_map_bounded(h.main.stats),
        stat_map_bounded(h.off.stats),
    ensures
        hands_ok(s.push(h)),
{
    assert forall|i: int| 0 <= i < s.push(h).len() implies stat_map_bounded(#[trigger] s.push(h)[i].main.stats)
        && stat_map_bounded(s.push(h)[i].off.stats) by {
        if i < s.len() {
            assert(s.push(h)[i] == s[i]);
        }
    }
}

/// Enumerates every legal hand configuration.
fn build_hand_choices(main_pool: &[Candidate], off_pool: &[Candidate]) -> (r: Vec<HandsCandidate>)
    requires
        cands_ok(main_pool@),
        cands_ok(off_pool@),
    ensures
        hands_views(r@) == hand_configs_spec(cand_views(main_pool@), cand_views(off_pool@)),
        hands_ok(r@),
{
    let ghost mp = cand_views(main_pool@);
    let ghost op = cand_views(off_pool@);
    let ghost eh = |c: CandView| c.either_hand;
    let mut mains: Vec<Candidate> = Vec::new();
    let mut k: usize = 0;
    while k < main_pool.len()
        invariant
            k <= main_pool@.len(),
            mp == cand_views(main_pool@),
            cands_ok(main_pool@),
            cands_ok(mains@),
            cand_views(mains@) == mp.subrange(0, k as int),
        decreases main_pool@.len() - k,
    {
        let ghost old_m = mains@;
        mains.push(main_pool[k].duplicate());
        assert(cand_views(mains@) =~= cand_views(old_m).push(mp[k as int]));
        assert(mp.subrange(0, k + 1) =~= mp.subrange(0, k as int).push(mp[k as int]));
        k += 1;
    }
    assert(mp.subrange(0, mp.len() as int) =~= mp);
    let mut k: usize = 0;
    while k < off_pool.len()
        invariant
            k <= off_pool@.len(),
            op == cand_views(off_pool@),
            cands_ok(off_pool@),
            cands_ok(mains@),
            eh == (|c: CandView| c.either_hand),
            cand_views(mains@) == mp + op.subrange(0, k as int).filter(eh),
        decreases off_pool@.len() - k,
    {
        let ghost f0 = op.subrange(0, k as int).filter(eh);
        proof {
            assert(op.subrange(0, k + 1) =~= op.subrange(0, k as int).push(op[k as int]));
            op.subrange(0, k as int).lemma_filter_push(op[k as int], eh);
        }
        if off_pool[k].either_hand {
            let ghost old_m = mains@;
            mains.push(off_pool[k].duplicate());
            assert(cand_views(mains@) =~= cand_views(old_m).push(op[k as int]));
            assert(mp + f0.push(op[k as int]) =~= (mp + f0).push(op[k as int]));
        }
        k += 1;
    }
    assert(op.subrange(0, op.len() as int) =~= op);
    let ghost me = cand_views(mains@);
    assert(me == main_eligible(mp, op));
    let empty_main = Candidate::zero(crate::text::concat3("[empty ", Slot::MainHand.display_name(), "]"), Slot::MainHand);
    let empty_off = Candidate::zero(crate::text::concat3("[empty ", Slot::OffHand.display_name(), "]"), Slot::OffHand);
    let mut hands: Vec<HandsCandidate> = Vec::new();
    let mut a: usize = 0;
    while a < mains.len()
        invariant
            a <= mains@.len(),
            me == cand_views(mains@),
            op == cand_views(off_pool@),
            cands_ok(off_pool@),
            cands_ok(mains@),
            hands_ok(hands@),
            stat_map_bounded(empty_off.stats),
            cand_view(empty_off) == empty_off_view(),
            hands_views(hands@) == main_configs(me, op, a as int),
        decreases mains@.len() - a,
    {
        let ghost before = hands@;
        let ghost m = me[a as int];
        if mains[a].two_handed {
            let h = HandsCandidate::new(mains[a].duplicate(), empty_off.duplicate());
            proof {
                lemma_hands_ok_push(hands@, h);
            }
            hands.push(h);
            assert(hands_views(hands@) =~= hands_views(before).push((m, empty_off_view())));
        } else {
            let ghost pf = |o: CandView| o.key != m.key;
            let ghost wm = |o: CandView| (m, o);
            let mut paired_any = false;
            let mut b: usize = 0;
            while b < off_pool.len()
                invariant
                    a < mains@.len(),
                    b <= off_pool@.len(),
                    cands_ok(off_pool@),
                    cands_ok(mains@),
                    hands_ok(hands@),
                    me == cand_views(mains@),
                    op == cand_views(off_pool@),
                    m == me[a as int],
                    pf == (|o: CandView| o.key != m.key),
                    wm == (|o: CandView| (m, o)),
                    hands_views(hands@) == hands_views(before) + op.subrange(0, b as int).filter(pf).map_values(wm),
                    paired_any == (op.subrange(0, b as int).filter(pf).len() > 0),
                decreases off_pool@.len() - b,
            {
                let ghost f0 = op.subrange(0, b as int).filter(pf);
                proof {
                    assert(op.subrange(0, b + 1) =~= op.subrange(0, b as int).push(op[b as int]));
                    op.subrange(0, b as int).lemma_filter_push(op[b as int], pf);
                }
                if !crate::text::str_eq(off_pool[b].key.as_str(), mains[a].key.as_str()) {
                    let ghost old_h = hands@;
                    let h = HandsCandidate::new(mains[a].duplicate(), off_pool[b].duplicate());
                    proof {
                        lemma_hands_ok_push(hands@, h);
                    }
                    hands.push(h);
                    paired_any = true;
                    proof {
                        assert(hands_views(hands@) =~= hands_views(old_h).push((m, op[b as int])));
                        assert(f0.push(op[b as int]).map_values(wm) =~= f0.map_values(wm).push((m, op[b as int])));
                    }
                }
                b += 1;
            }
            assert(op.subrange(0, op.len() as int) =~= op);
            if !paired_any {
                let ghost old_h = hands@;
                let h = HandsCandidate::new(mains[a].duplicate(), empty_off.duplicate());
                proof {
                    lemma_hands_ok_push(hands@, h);
                }
                hands.push(h);
                assert(hands_views(hands@) =~= hands_views(old_h).push((m, empty_off_view())));
                assert(op.filter(pf).map_values(wm) =~= Seq::<(CandView, CandView)>::empty());
            }
        }
        assert(hands_views(hands@) =~= main_configs(me, op, a as int) + configs_for_main(m, op));
        a += 1;
    }
    let ghost nm = |o: CandView| no_main_for(me, o);
    let ghost wem = |o: CandView| (empty_main_view(), o);
    let ghost mid = hands_views(hands@);
    let mut b: usize = 0;
    while b < off_pool.len()
        invariant
            b <= off_pool@.len(),
            me == cand_views(mains@),
            op == cand_views(off_pool@),
            cands_ok(off_pool@),
            hands_ok(hands@),
            stat_map_bounded(empty_main.stats),
            cand_view(empty_main) == empty_main_view(),
            nm == (|o: CandView| no_main_for(me, o)),
            wem == (|o: CandView| (empty_main_view(), o)),
            hands_views(hands@) == mid + op.subrange(0, b as int).filter(nm).map_values(wem),
        decreases off_pool@.len() - b,
    {
        let ghost f0 = op.subrange(0, b as int).filter(nm);
        proof {
            assert(op.subrange(0, b + 1) =~= op.subrange(0, b as int).push(op[b as int]));
            op.subrange(0, b as int).lemma_filter_push(op[b as int], nm);
        }
        let mut avail = false;
        let mut a: usize = 0;
        while a < mains.len()
            invariant
                a <= mains@.len(),
                b < off_pool@.len(),
                me == cand_views(mains@),
                op == cand_views(off_pool@),
                avail == (exists|i: int| 0 <= i < a && #[trigger] me[i].key != op[b as int].key),
            decreases mains@.len() - a,
        {
            assert(me[a as int] == cand_view(mains@[a as int]));
            assert(op[b as int] == cand_view(off_pool@[b as int]));
            let differs = !crate::text::str_eq(mains[a].key.as_str(), off_pool[b].key.as_str());
            assert(differs == (me[a as int].key != op[b as int].key));
            if differs {
                avail = true;
            }
            a += 1;
        }
        assert(nm(op[b as int]) == !avail);
        if !avail {
            let ghost old_h = hands@;
            let h = HandsCandidate::new(empty_main.duplicate(), off_pool[b].duplicate());
            proof {
                lemma_hands_ok_push(hands@, h);
            }
            hands.push(h);
            assert(hands_views(hands@) =~= hands_views(old_h).push((empty_main_view(), op[b as int])));
            assert(mid + f0.push(op[b as int]).map_values(wem) =~= (mid + f0.map_values(wem)).push((empty_main_view(), op[b as int])));
        }
        b += 1;
    }
    assert(op.subrange(0, op.len() as int) =~= op);
    let ghost tail = hands_views(hands@);
    if mains.len() == 0 && off_pool.len() == 0 {
        let h = HandsCandidate::new(empty_main, empty_off);
        proof {
            lemma_hands_ok_push(hands@, h);
        }
        hands.push(h);
        assert(hands_views(hands@) =~= tail.push((empty_main_view(), empty_off_view())));
    }
    assert(hands_views(hands@) =~= hand_configs_spec(mp, op));
    hands
}

// ── Candidate collection ─────────────────────────────────────────────────────

/// The first entry of `resolved` stored under `key`.
pub open spec fn lookup_spec(resolved: Seq<(String, GearItem)>, key: Seq<char>) -> Option<GearItem>
    decreases resolved.len(),
{
    if resolved.len() == 0 {
        None
    } else if resolved[0].0@ == key {
        Some(resolved[0].1)
    } else {
        lookup_spec(resolved.drop_first(), key)
    }
}

/// The candidate for a resolved item under its optimizer key.
pub open spec fn item_cand_view(key: Seq<char>, item: GearItem) -> CandView {
    CandView {
        key,
        name: item.name@,
        stats: item.stats,
        slot: item.slot,
        two_handed: item.two_handed,
        either_hand: item.either_hand,
    }
}

/// The candidates for `names`, in order; names with no resolved item are
/// skipped.
pub open spec fn collected_spec(resolved: Seq<(String, GearItem)>, names: Seq<Seq<char>>) -> Seq<CandView>
    decreases names.len(),
{
    if names.len() == 0 {
        Seq::empty()
    } else {
        collected_spec(resolved, names.drop_last()) + match lookup_spec(resolved, names.last()) {
            Some(item) => seq![item_cand_view(names.last(), item)],
            None => Seq::empty(),
        }
    }
}

/// The candidates whose family representative is `c`, in order.
pub open spec fn raw_pool_spec(cands: Seq<CandView>, c: Slot) -> Seq<CandView> {
    cands.filter(|x: CandView| canonical_slot_spec(x.slot) == c)
}

/// Every resolved item's stats are within the stat limit.
pub open spec fn resolved_bounded(resolved: Seq<(String, GearItem)>) -> bool {
    forall|i: int| 0 <= i < resolved.len() ==> stat_map_bounded(#[trigger] resolved[i].1.stats)
}

/// Whether every resolved item's stats lie within `±STAT_LIMIT`, which
/// `optimize` asks of its input.
pub fn resolved_within_limit(resolved: &[(String, GearItem)]) -> (r: bool)
    ensures
        r == resolved_bounded(resolved@),
{
    let mut i: usize = 0;
    while i < resolved.len()
        invariant
            i <= resolved@.len(),
            forall|k: int| 0 <= k < i ==> stat_map_bounded(#[trigger] resolved@[k].1.stats),
        decreases resolved@.len() - i,
    {
        if !resolved[i].1.stats.is_bounded() {
            return false;
        }
        i += 1;
    }
    true
}

/// The first resolved item stored under `key`.
fn lookup<'a>(resolved: &'a [(String, GearItem)], key: &str) -> (r: Option<&'a GearItem>)
    ensures
        r matches Some(it) ==> lookup_spec(resolved@, key@) == Some(*it),
        r is None ==> lookup_spec(resolved@, key@) is None,
        r matches Some(it) ==> exists|i: int| 0 <= i < resolved@.len() && resolved@[i].1 == *it,
{
    let n = resolved.len();
    let mut i: usize = 0;
    assert(resolved@.subrange(0, n as int) =~= resolved@);
    while i < n
        invariant
            n == resolved@.len(),
            i <= n,
            lookup_spec(resolved@, key@) == lookup_spec(resolved@.subrange(i as int, n as int), key@),
        decreases n - i,
    {
        let ghost rest = resolved@.subrange(i as int, n as int);
        assert(rest[0] == resolved@[i as int]);
        assert(rest.drop_first() =~= resolved@.subrange(i + 1, n as int));
        if crate::text::str_eq(resolved[i].0.as_str(), key) {
            return Some(&resolved[i].1);
        }
        i += 1;
    }
    None
}

/// The candidates for `names`, in order, skipping names with no resolved
/// item.
fn collect_candidates(resolved: &[(String, GearItem)], names: &[String]) -> (r: Vec<Candidate>)
    ensures
        cand_views(r@) == collected_spec(resolved@, string_views(names@)),
        resolved_bounded(resolved@) ==> forall|i: int| 0 <= i < r@.len() ==> stat_map_bounded(#[trigger] r@[i].stats),
{
    let mut r: Vec<Candidate> = Vec::new();
    let mut k: usize = 0;
    while k < names.len()
        invariant
            k <= names@.len(),
            cand_views(r@) == collected_spec(resolved@, string_views(names@.subrange(0, k as int))),
            resolved_bounded(resolved@) ==> forall|i: int| 0 <= i < r@.len() ==> stat_map_bounded(#[trigger] r@[i].stats),
        decreases names@.len() - k,
    {
        let ghost sub = string_views(names@.subrange(0, k + 1));
        proof {
            assert(sub.drop_last() =~= string_views(names@.subrange(0, k as int)));
            assert(sub.last() == names@[k as int]@);
        }
        match lookup(resolved, names[k].as_str()) {
            Some(item) => {
                let ghost old_r = r@;
                r.push(
                    Candidate {
                        key: names[k].clone(),
                        name: item.name.clone(),
                        stats: item.stats,
                        original_slot: item.slot,
                        two_handed: item.two_handed,
                        either_hand: item.either_hand,
                    },
                );
                assert(cand_views(r@) =~= cand_views(old_r).push(item_cand_view(names@[k as int]@, *item)));
            },
            None => {},
        }
        k += 1;
    }
    assert(names@.subrange(0, names@.len() as int) =~= names@);
    r
}

/// The candidates of `all` whose family representative is `c`.
fn slot_pool(all: &Vec<Candidate>, c: Slot) -> (r: Vec<Candidate>)
    ensures
        cand_views(r@) == raw_pool_spec(cand_views(all@), c),
        (forall|i: int| 0 <= i < all@.len() ==> stat_map_bounded(#[trigger] all@[i].stats)) ==> forall|i: int|
            0 <= i < r@.len() ==> stat_map_bounded(#[trigger] r@[i].stats),
{
    let ghost cv = cand_views(all@);
    let ghost f = |x: CandView| canonical_slot_spec(x.slot) == c;
    let mut r: Vec<Candidate> = Vec::new();
    let mut k: usize = 0;
    while k < all.len()
        invariant
            k <= all@.len(),
            cv == cand_views(all@),
            f == (|x: CandView| canonical_slot_spec(x.slot) == c),
            cand_views(r@) == cv.subrange(0, k as int).filter(f),
            (forall|i: int| 0 <= i < all@.len() ==> stat_map_bounded(#[trigger] all@[i].stats)) ==> forall|i: int|
                0 <= i < r@.len() ==> stat_map_bounded(#[trigger] r@[i].stats),
        decreases all@.len() - k,
    {
        proof {
            assert(cv.subrange(0, k + 1) =~= cv.subrange(0, k as int).push(cv[k as int]));
            cv.subrange(0, k as int).lemma_filter_push(cv[k as int], f);
        }
        if canonical_slot(all[k].original_slot) == c {
            let ghost old_r = r@;
            r.push(all[k].duplicate());
            assert(cand_views(r@) =~= cand_views(old_r).push(cv[k as int]));
        }
        k += 1;
    }
    assert(cv.subrange(0, cv.len() as int) =~= cv);
    r
}

// ── Candidate caps ───────────────────────────────────────────────────────────

/// The family representatives with a per-slot cap, in the order they are
/// checked (the two hand slots share one combined cap instead).
pub open spec fn capped_slots() -> Seq<Slot> {
    seq![
        Slot::Head,
        Slot::Chest,
        Slot::Legs,
        Slot::Hands,
        Slot::Feet,
        Slot::Shoulders,
        Slot::Back,
        Slot::Wrist1,
        Slot::Neck,
        Slot::Finger1,
        Slot::Ear1,
        Slot::Pocket,
        Slot::Ranged,
        Slot::ClassItem,
    ]
}

fn capped_slot_list() -> (v: Vec<Slot>)
    ensures
        v@ == capped_slots(),
{
    let v = vec![
        Slot::Head,
        Slot::Chest,
        Slot::Legs,
        Slot::Hands,
        Slot::Feet,
        Slot::Shoulders,
        Slot::Back,
        Slot::Wrist1,
        Slot::Neck,
        Slot::Finger1,
        Slot::Ear1,
        Slot::Pocket,
        Slot::Ranged,
        Slot::ClassItem,
    ];
    assert(v@ =~= capped_slots());
    v
}

/// The first capped slot, from position `i` of `capped_slots()` on, whose
/// pool holds more than `MAX_CANDIDATES_PER_SLOT` candidates.
pub open spec fn first_oversized(cands: Seq<CandView>, i: int) -> Option<Slot>
    decreases capped_slots().len() - i,
{
    if i < 0 || i >= capped_slots().len() {
        None
    } else if raw_pool_spec(cands, capped_slots()[i]).len() > MAX_CANDIDATES_PER_SLOT {
        Some(capped_slots()[i])
    } else {
        first_oversized(cands, i + 1)
    }
}

/// Main-hand-only, Off-hand-only and Either-hand candidates together.
pub open spec fn hand_count_spec(cands: Seq<CandView>) -> nat {
    raw_pool_spec(cands, Slot::MainHand).len() + raw_pool_spec(cands, Slot::OffHand).len()
}

/// No pool exceeds its cap.
pub open spec fn within_caps(cands: Seq<CandView>) -> bool {
    first_oversized(cands, 0) is None && hand_count_spec(cands) <= MAX_HAND_CANDIDATES_COMBINED
}

/// `e` is the error the caps give: the first oversized capped slot, else the
/// combined hand count.
pub open spec fn is_size_error(cands: Seq<CandView>, e: OptimizeError) -> bool {
    match first_oversized(cands, 0) {
        Some(slot) => e matches OptimizeError::TooManyCandidates { slot_label, count, max } && slot_label@
            == slot_display_spec(slot) && count == raw_pool_spec(cands, slot).len() && max
            == MAX_CANDIDATES_PER_SLOT,
        None => e matches OptimizeError::TooManyHandCandidates { count, max } && count == hand_count_spec(cands)
            && max == MAX_HAND_CANDIDATES_COMBINED,
    }
}

proof fn lemma_disjoint_filters_len(
    s: Seq<CandView>,
    p: spec_fn(CandView) -> bool,
    q: spec_fn(CandView) -> bool,
)
    requires
        forall|x: CandView| !(#[trigger] p(x) && q(x)),
    ensures
        s.filter(p).len() + s.filter(q).len() <= s.len(),
    decreases s.len(),
{
    reveal(Seq::filter);
    if s.len() > 0 {
        lemma_disjoint_filters_len(s.drop_last(), p, q);
    }
}

/// The raw pools are indexed by canonical slot order.
pub open spec fn raw_pools_hold(pools: Seq<Vec<Candidate>>, cands: Seq<CandView>) -> bool {
    &&& pools.len() == SLOT_COUNT
    &&& forall|i: int| 0 <= i < SLOT_COUNT ==> cand_views(#[trigger] pools[i]@) == raw_pool_spec(cands, all_slots_spec()[i])
}

/// The raw pool of `slot`.
fn pool_of<'a>(pools: &'a Vec<Vec<Candidate>>, slot: Slot, Ghost(cands): Ghost<Seq<CandView>>) -> (r: &'a Vec<Candidate>)
    requires
        raw_pools_hold(pools@, cands),
    ensures
        cand_views(r@) == raw_pool_spec(cands, slot),
        *r == pools@[slot_index_spec(slot)],
{
    proof {
        lemma_slot_index();
    }
    &pools[slot_index(slot)]
}

/// Refuses pools over their caps.
fn validate_candidate_pool_sizes(pools: &Vec<Vec<Candidate>>, Ghost(cands): Ghost<Seq<CandView>>) -> (r: Result<(), Box<OptimizeError>>)
    requires
        raw_pools_hold(pools@, cands),
        cands.len() <= usize::MAX,
    ensures
        r is Ok <==> within_caps(cands),
        r matches Err(e) ==> is_size_error(cands, *e),
{
    let capped = capped_slot_list();
    let mut i: usize = 0;
    while i < capped.len()
        invariant
            capped@ == capped_slots(),
            i <= capped@.len(),
            raw_pools_hold(pools@, cands),
            first_oversized(cands, 0) == first_oversized(cands, i as int),
        decreases capped@.len() - i,
    {
        let slot = capped[i];
        let pool = pool_of(pools, slot, Ghost(cands));
        if pool.len() > MAX_CANDIDATES_PER_SLOT {
            let e = OptimizeError::TooManyCandidates {
                slot_label: slot.display_name().to_owned(),
                count: pool.len(),
                max: MAX_CANDIDATES_PER_SLOT,
            };
            return Err(Box::new(e));
        }
        i += 1;
    }
    let main = pool_of(pools, Slot::MainHand, Ghost(cands));
    let off = pool_of(pools, Slot::OffHand, Ghost(cands));
    proof {
        lemma_disjoint_filters_len(
            cands,
            |x: CandView| canonical_slot_spec(x.slot) == Slot::MainHand,
            |x: CandView| canonical_slot_spec(x.slot) == Slot::OffHand,
        );
    }
    let hand_count = main.len() + off.len();
    if hand_count > MAX_HAND_CANDIDATES_COMBINED {
        return Err(Box::new(OptimizeError::TooManyHandCandidates { count: hand_count, max: MAX_HAND_CANDIDATES_COMBINED }));
    }
    Ok(())
}

// ── Search pools ─────────────────────────────────────────────────────────────

/// Strict "sorts after" on choices: by sorted instance keys.
pub open spec fn choice_gt() -> spec_fn(ChoiceView, ChoiceView) -> bool {
    |a: ChoiceView, b: ChoiceView| keys_order(instance_keys(a), instance_keys(b)) > 0
}

proof fn lemma_ins_sorted_bounded(s: Seq<ChoiceView>, x: ChoiceView, gt: spec_fn(ChoiceView, ChoiceView) -> bool)
    requires
        choices_bounded(s),
        choice_bounded(x),
    ensures
        choices_bounded(ins_sorted(s, x, gt)),
    decreases s.len(),
{
    if s.len() > 0 && gt(s.last(), x) {
        lemma_ins_sorted_bounded(s.drop_last(), x, gt);
    }
}

proof fn lemma_isort_bounded(s: Seq<ChoiceView>, gt: spec_fn(ChoiceView, ChoiceView) -> bool)
    requires
        choices_bounded(s),
    ensures
        choices_bounded(isort(s, gt)),
    decreases s.len(),
{
    if s.len() > 0 {
        lemma_isort_bounded(s.drop_last(), gt);
        lemma_ins_sorted_bounded(isort(s.drop_last(), gt), s.last(), gt);
    }
}

proof fn lemma_filter_positions_bounded(s: Seq<ChoiceView>, keep: spec_fn(int) -> bool)
    requires
        choices_bounded(s),
    ensures
        choices_bounded(filter_positions(s, keep)),
    decreases s.len(),
{
    if s.len() > 0 {
        lemma_filter_positions_bounded(s.drop_last(), keep);
    }
}

/// Sorts choices by their sorted instance keys (stable).
fn sort_choices(v: &Vec<Choice>) -> (r: Vec<Choice>)
    ensures
        choice_views(r@) == isort(choice_views(v@), choice_gt()),
{
    let mut r: Vec<Choice> = Vec::new();
    let mut i: usize = 0;
    while i < v.len()
        invariant
            i <= v@.len(),
            choice_views(r@) == isort(choice_views(v@.subrange(0, i as int)), choice_gt()),
        decreases v@.len() - i,
    {
        let x = v[i].duplicate();
        let xk = x.sort_key();
        let mut j = r.len();
        let mut scanning = true;
        while scanning && j > 0
            invariant
                j <= r@.len(),
                string_views(xk@) == instance_keys(choice_view(x)),
                forall|k: int| j <= k < r@.len() ==> keys_order(instance_keys(choice_view(#[trigger] r@[k])), instance_keys(choice_view(x))) > 0,
                !scanning ==> j > 0 && keys_order(instance_keys(choice_view(r@[j - 1])), instance_keys(choice_view(x))) <= 0,
            decreases j + (if scanning { 1int } else { 0int }),
        {
            let rk = r[j - 1].sort_key();
            match compare_keys(rk.as_slice(), xk.as_slice()) {
                Rel::Greater => {
                    j -= 1;
                },
                _ => {
                    scanning = false;
                },
            }
        }
        proof {
            let sv = choice_views(r@);
            assert forall|k: int| j <= k < sv.len() implies (#[trigger] choice_gt()(sv[k], choice_view(x))) by {
                assert(sv[k] == choice_view(r@[k]));
            }
            if j > 0 {
                assert(sv[j - 1] == choice_view(r@[j - 1]));
            }
            lemma_ins_sorted_at(sv, choice_view(x), choice_gt(), j as int);
            assert(choice_views(v@.subrange(0, i + 1)).drop_last() =~= choice_views(v@.subrange(0, i as int)));
            assert(choice_views(v@.subrange(0, i + 1)).last() == choice_view(x));
        }
        let ghost old_r = r@;
        r.insert(j, x);
        proof {
            assert(choice_views(r@) =~= choice_views(old_r).insert(j as int, choice_view(x)));
        }
        i += 1;
    }
    assert(v@.subrange(0, v@.len() as int) =~= v@);
    r
}

/// The candidates searched for a non-hand family representative: its own,
/// or the zero placeholder `[empty <slot>]` when it has none.
pub open spec fn eff_pool_spec(cands: Seq<CandView>, c: Slot) -> Seq<CandView> {
    if raw_pool_spec(cands, c).len() == 0 {
        seq![zero_view(empty_name(c), c)]
    } else {
        raw_pool_spec(cands, c)
    }
}

/// The first slot of a paired family.
pub open spec fn is_paired_family(c: Slot) -> bool {
    c == Slot::Wrist1 || c == Slot::Finger1 || c == Slot::Ear1
}

/// The choices of the pool searched for `c`, before sorting: hand
/// configurations for `MainHand`, pairs for a paired family, single items
/// otherwise.
pub open spec fn pool_candidates_spec(cands: Seq<CandView>, c: Slot) -> Seq<ChoiceView> {
    if c == Slot::MainHand {
        hand_configs_spec(raw_pool_spec(cands, Slot::MainHand), raw_pool_spec(cands, Slot::OffHand)).map_values(
            |h: (CandView, CandView)| ChoiceView::Hands { main: h.0, off: h.1 },
        )
    } else if is_paired_family(c) {
        pairs_spec(eff_pool_spec(cands, c), c, paired_slot2_spec(c)).map_values(
            |p: (CandView, CandView)| ChoiceView::Pair { slot1: c, slot2: paired_slot2_spec(c), a: p.0, b: p.1 },
        )
    } else {
        eff_pool_spec(cands, c).map_values(|x: CandView| ChoiceView::Single { slot: c, c: x })
    }
}

/// The slots searched, one pool each, in search order (the off-hand is part
/// of the combined hand pool searched at `MainHand`).
pub open spec fn search_slots() -> Seq<Slot> {
    seq![
        Slot::Head,
        Slot::Chest,
        Slot::Legs,
        Slot::Hands,
        Slot::Feet,
        Slot::Shoulders,
        Slot::Back,
        Slot::Wrist1,
        Slot::Neck,
        Slot::Finger1,
        Slot::Ear1,
        Slot::Pocket,
        Slot::MainHand,
        Slot::Ranged,
        Slot::ClassItem,
    ]
}

/// The slot at which `s` is searched: the second slot of a paired family
/// with its first slot, the off-hand with the main hand (one combined hand
/// pool), every other slot at itself.
pub open spec fn searched_at(s: Slot) -> Slot {
    match s {
        Slot::Wrist2 => Slot::Wrist1,
        Slot::Finger2 => Slot::Finger1,
        Slot::Ear2 => Slot::Ear1,
        Slot::OffHand => Slot::MainHand,
        other => other,
    }
}

/// Every slot of a character is searched: each of the nineteen slots
/// (Ranged and Class Item included) is filled from exactly one search pool,
/// the pool built for the slot it is searched at, and no slot has two pools.
pub proof fn lemma_every_slot_is_searched(s: Slot, cands: Seq<CandView>, goals: Seq<StatGoal>, dominance: bool)
    ensures
        exists|k: int|
            0 <= k < search_slots().len() && #[trigger] search_slots()[k] == searched_at(s) && search_pools_spec(
                cands,
                goals,
                dominance,
            )[k] == search_pool_spec(cands, searched_at(s), goals, dominance),
        forall|i: int, j: int|
            0 <= i < j < search_slots().len() ==> #[trigger] search_slots()[i] != #[trigger] search_slots()[j],
{
    match s {
        Slot::Head => {
            assert(search_slots()[0] == Slot::Head);
        },
        Slot::Chest => {
            assert(search_slots()[1] == Slot::Chest);
        },
        Slot::Legs => {
            assert(search_slots()[2] == Slot::Legs);
        },
        Slot::Hands => {
            assert(search_slots()[3] == Slot::Hands);
        },
        Slot::Feet => {
            assert(search_slots()[4] == Slot::Feet);
        },
        Slot::Shoulders => {
            assert(search_slots()[5] == Slot::Shoulders);
        },
        Slot::Back => {
            assert(search_slots()[6] == Slot::Back);
        },
        Slot::Wrist1 => {
            assert(search_slots()[7] == Slot::Wrist1);
        },
        Slot::Wrist2 => {
            assert(search_slots()[7] == Slot::Wrist1);
        },
        Slot::Neck => {
            assert(search_slots()[8] == Slot::Neck);
        },
        Slot::Finger1 => {
            assert(search_slots()[9] == Slot::Finger1);
        },
        Slot::Finger2 => {
            assert(search_slots()[9] == Slot::Finger1);
        },
        Slot::Ear1 => {
            assert(search_slots()[10] == Slot::Ear1);
        },
        Slot::Ear2 => {
            assert(search_slots()[10] == Slot::Ear1);
        },
        Slot::Pocket => {
            assert(search_slots()[11] == Slot::Pocket);
        },
        Slot::MainHand => {
            assert(search_slots()[12] == Slot::MainHand);
        },
        Slot::OffHand => {
            assert(search_slots()[12] == Slot::MainHand);
        },
        Slot::Ranged => {
            assert(search_slots()[13] == Slot::Ranged);
        },
        Slot::ClassItem => {
            assert(search_slots()[14] == Slot::ClassItem);
        },
    }
}

/// A slot's family is named as the slot is: the family's first slot and its
/// second slot share the slot's display name, the first slot stands for
/// itself, and a paired family's second slot is another slot than its first.
pub proof fn lemma_slot_families_keep_their_names(s: Slot)
    ensures
        slot_display_spec(canonical_slot_spec(s)) == slot_display_spec(s),
        canonical_slot_spec(canonical_slot_spec(s)) == canonical_slot_spec(s),
        slot_display_spec(paired_slot2_spec(canonical_slot_spec(s))) == slot_display_spec(s),
        canonical_slot_spec(paired_slot2_spec(canonical_slot_spec(s))) == canonical_slot_spec(s),
        (s == Slot::Wrist1 || s == Slot::Finger1 || s == Slot::Ear1) ==> paired_slot2_spec(s) != s,
        crate::slot_resolver::family_of(s) == canonical_slot_spec(s),
{
}

fn search_slot_list() -> (v: Vec<Slot>)
    ensures
        v@ == search_slots(),
{
    let v = vec![
        Slot::Head,
        Slot::Chest,
        Slot::Legs,
        Slot::Hands,
        Slot::Feet,
        Slot::Shoulders,
        Slot::Back,
        Slot::Wrist1,
        Slot::Neck,
        Slot::Finger1,
        Slot::Ear1,
        Slot::Pocket,
        Slot::MainHand,
        Slot::Ranged,
        Slot::ClassItem,
    ];
    assert(v@ =~= search_slots());
    v
}

/// The pool searched for `c`: its choices sorted by instance keys, with
/// dominated choices removed when `dominance` is set.
pub open spec fn search_pool_spec(cands: Seq<CandView>, c: Slot, goals: Seq<StatGoal>, dominance: bool) -> Seq<
    ChoiceView,
> {
    let sorted = isort(pool_candidates_spec(cands, c), choice_gt());
    if dominance {
        dominance_spec(sorted, goals)
    } else {
        sorted
    }
}

/// Every search pool, in search order.
pub open spec fn search_pools_spec(cands: Seq<CandView>, goals: Seq<StatGoal>, dominance: bool) -> Seq<
    Seq<ChoiceView>,
> {
    search_slots().map_values(|c: Slot| search_pool_spec(cands, c, goals, dominance))
}

/// The warning for a family with no candidates.
pub open spec fn empty_slot_warning(slot: Slot) -> Seq<char> {
    "Slot "@ + slot_display_spec(slot) + ": no candidates found; using zero placeholder."@
}

/// One warning per family representative with no candidates, in slot order.
pub open spec fn warnings_spec(cands: Seq<CandView>) -> Seq<Seq<char>> {
    all_slots_spec().filter(|s: Slot| canonical_slot_spec(s) == s && raw_pool_spec(cands, s).len() == 0).map_values(
        |s: Slot| empty_slot_warning(s),
    )
}

/// Every raw pool's candidates have bounded stats.
pub open spec fn raw_pools_ok(pools: Seq<Vec<Candidate>>) -> bool {
    forall|i: int| 0 <= i < pools.len() ==> cands_ok(#[trigger] pools[i]@)
}

/// The candidates searched for a non-hand family representative.
fn effective_pool(raw: &Vec<Candidate>, c: Slot) -> (r: Vec<Candidate>)
    requires
        cands_ok(raw@),
    ensures
        cand_views(r@) == (if raw@.len() == 0 {
            seq![zero_view(empty_name(c), c)]
        } else {
            cand_views(raw@)
        }),
        cands_ok(r@),
{
    if raw.len() == 0 {
        let z = Candidate::zero(concat3("[empty ", c.display_name(), "]"), c);
        let r = vec![z];
        assert(cand_views(r@) =~= seq![zero_view(empty_name(c), c)]);
        return r;
    }
    let mut r: Vec<Candidate> = Vec::new();
    let mut k: usize = 0;
    while k < raw.len()
        invariant
            k <= raw@.len(),
            cands_ok(raw@),
            cands_ok(r@),
            cand_views(r@) == cand_views(raw@).subrange(0, k as int),
        decreases raw@.len() - k,
    {
        let ghost old_r = r@;
        r.push(raw[k].duplicate());
        assert(cand_views(r@) =~= cand_views(old_r).push(cand_view(raw@[k as int])));
        assert(cand_views(raw@).subrange(0, k + 1) =~= cand_views(raw@).subrange(0, k as int).push(cand_view(raw@[k as int])));
        k += 1;
    }
    assert(cand_views(raw@).subrange(0, raw@.len() as int) =~= cand_views(raw@));
    r
}

/// The unsorted choices of the pool searched for `c`.
fn pool_candidates(pools: &Vec<Vec<Candidate>>, c: Slot, Ghost(cands): Ghost<Seq<CandView>>) -> (r: Vec<Choice>)
    requires
        raw_pools_hold(pools@, cands),
        raw_pools_ok(pools@),
    ensures
        choice_views(r@) == pool_candidates_spec(cands, c),
        choices_bounded(choice_views(r@)),
{
    let mut r: Vec<Choice> = Vec::new();
    if c == Slot::MainHand {
        let main = pool_of(pools, Slot::MainHand, Ghost(cands));
        let off = pool_of(pools, Slot::OffHand, Ghost(cands));
        proof {
            lemma_slot_index();
            assert(cands_ok(pools@[slot_index_spec(Slot::MainHand)]@));
            assert(cands_ok(pools@[slot_index_spec(Slot::OffHand)]@));
        }
        let hands = build_hand_choices(main.as_slice(), off.as_slice());
        let ghost hv = hands_views(hands@);
        let ghost f = |h: (CandView, CandView)| ChoiceView::Hands { main: h.0, off: h.1 };
        let mut k: usize = 0;
        while k < hands.len()
            invariant
                k <= hands@.len(),
                hv == hands_views(hands@),
                hands_ok(hands@),
                f == (|h: (CandView, CandView)| ChoiceView::Hands { main: h.0, off: h.1 }),
                choice_views(r@) == hv.subrange(0, k as int).map_values(f),
                choices_bounded(choice_views(r@)),
            decreases hands@.len() - k,
        {
            let ghost old_r = r@;
            let ch = Choice::Hands { hands: HandsCandidate::new(hands[k].main.duplicate(), hands[k].off.duplicate()) };
            r.push(ch);
            proof {
                assert(choice_views(r@) =~= choice_views(old_r).push(f(hv[k as int])));
                assert(hv.subrange(0, k + 1).map_values(f) =~= hv.subrange(0, k as int).map_values(f).push(f(hv[k as int])));
                let cv = choice_view(ch);
                assert(choice_parts(cv)[0] == cand_view(hands@[k as int].main));
                assert(choice_parts(cv)[1] == cand_view(hands@[k as int].off));
                assert(choice_bounded(cv));
                assert(choice_views(r@)[k as int] == cv);
            }
            k += 1;
        }
        assert(hv.subrange(0, hv.len() as int) =~= hv);
        return r;
    }
    let raw = pool_of(pools, c, Ghost(cands));
    proof {
        lemma_slot_index();
        assert(cands_ok(pools@[slot_index_spec(c)]@));
    }
    let eff = effective_pool(raw, c);
    if c == Slot::Wrist1 || c == Slot::Finger1 || c == Slot::Ear1 {
        let slot2 = paired_slot2(c);
        let pairs = build_pairs(eff.as_slice(), c, slot2);
        let ghost pv = pair_views(pairs@);
        let ghost f = |p: (CandView, CandView)| ChoiceView::Pair { slot1: c, slot2: paired_slot2_spec(c), a: p.0, b: p.1 };
        let mut k: usize = 0;
        while k < pairs.len()
            invariant
                k <= pairs@.len(),
                pv == pair_views(pairs@),
                pairs_ok(pairs@),
                slot2 == paired_slot2_spec(c),
                f == (|p: (CandView, CandView)| ChoiceView::Pair { slot1: c, slot2: paired_slot2_spec(c), a: p.0, b: p.1 }),
                choice_views(r@) == pv.subrange(0, k as int).map_values(f),
                choices_bounded(choice_views(r@)),
            decreases pairs@.len() - k,
        {
            let ghost old_r = r@;
            let ch = Choice::Pair {
                slot1: c,
                slot2,
                pair: PairCandidate::new(pairs[k].a.duplicate(), pairs[k].b.duplicate()),
            };
            r.push(ch);
            proof {
                assert(choice_views(r@) =~= choice_views(old_r).push(f(pv[k as int])));
                assert(pv.subrange(0, k + 1).map_values(f) =~= pv.subrange(0, k as int).map_values(f).push(f(pv[k as int])));
                let cv = choice_view(ch);
                assert(choice_parts(cv)[0] == cand_view(pairs@[k as int].a));
                assert(choice_parts(cv)[1] == cand_view(pairs@[k as int].b));
                assert(choice_bounded(cv));
                assert(choice_views(r@)[k as int] == cv);
            }
            k += 1;
        }
        assert(pv.subrange(0, pv.len() as int) =~= pv);
        return r;
    }
    let ghost ev = cand_views(eff@);
    let ghost f = |x: CandView| ChoiceView::Single { slot: c, c: x };
    let mut k: usize = 0;
    while k < eff.len()
        invariant
            k <= eff@.len(),
            ev == cand_views(eff@),
            cands_ok(eff@),
            f == (|x: CandView| ChoiceView::Single { slot: c, c: x }),
            choice_views(r@) == ev.subrange(0, k as int).map_values(f),
            choices_bounded(choice_views(r@)),
        decreases eff@.len() - k,
    {
        let ghost old_r = r@;
        let ch = Choice::Single { slot: c, candidate: eff[k].duplicate() };
        r.push(ch);
        proof {
            assert(choice_views(r@) =~= choice_views(old_r).push(f(ev[k as int])));
            assert(ev.subrange(0, k + 1).map_values(f) =~= ev.subrange(0, k as int).map_values(f).push(f(ev[k as int])));
            let cv = choice_view(ch);
            assert(choice_parts(cv)[0] == cand_view(eff@[k as int]));
            assert(choice_bounded(cv));
            assert(choice_views(r@)[k as int] == cv);
        }
        k += 1;
    }
    assert(ev.subrange(0, ev.len() as int) =~= ev);
    r
}

/// One warning per family representative with no candidates.
fn empty_slot_warnings(pools: &Vec<Vec<Candidate>>, Ghost(cands): Ghost<Seq<CandView>>) -> (r: Vec<String>)
    requires
        raw_pools_hold(pools@, cands),
    ensures
        string_views(r@) == warnings_spec(cands),
{
    let slots = Slot::all();
    let ghost f = |s: Slot| canonical_slot_spec(s) == s && raw_pool_spec(cands, s).len() == 0;
    let ghost w = |s: Slot| empty_slot_warning(s);
    let ghost sl = all_slots_spec();
    let mut r: Vec<String> = Vec::new();
    let mut k: usize = 0;
    while k < slots.len()
        invariant
            slots@ == sl,
            sl == all_slots_spec(),
            k <= slots@.len(),
            raw_pools_hold(pools@, cands),
            f == (|s: Slot| canonical_slot_spec(s) == s && raw_pool_spec(cands, s).len() == 0),
            w == (|s: Slot| empty_slot_warning(s)),
            string_views(r@) == sl.subrange(0, k as int).filter(f).map_values(w),
        decreases slots@.len() - k,
    {
        let slot = slots[k];
        let ghost f0 = sl.subrange(0, k as int).filter(f);
        proof {
            assert(sl.subrange(0, k + 1) =~= sl.subrange(0, k as int).push(slot));
            sl.subrange(0, k as int).lemma_filter_push(slot, f);
        }
        let pool = pool_of(pools, slot, Ghost(cands));
        if canonical_slot(slot) == slot && pool.len() == 0 {
            let ghost old_r = r@;
            r.push(concat3("Slot ", slot.display_name(), ": no candidates found; using zero placeholder."));
            proof {
                assert(string_views(r@) =~= string_views(old_r).push(w(slot)));
                assert(f0.push(slot).map_values(w) =~= f0.map_values(w).push(w(slot)));
            }
        }
        k += 1;
    }
    assert(sl.subrange(0, sl.len() as int) =~= sl);
    r
}

/// Groups the named candidates into search pools, one per searched slot.
pub fn build_search_pools(
    resolved: &[(String, GearItem)],
    candidates: &[String],
    goals: &[StatGoal],
    apply_dominance: bool,
) -> (r: Result<(Vec<SearchPool>, Vec<String>), Box<OptimizeError>>)
    requires
        resolved_bounded(resolved@),
    ensures
        ({
            let cands = collected_spec(resolved@, isort(string_views(candidates@), str_gt()));
            &&& (r is Ok <==> within_caps(cands))
            &&& (r matches Err(e) ==> is_size_error(cands, *e))
            &&& (r matches Ok(res) ==> pool_choices(res.0@) == search_pools_spec(cands, goals@, apply_dominance)
                && string_views(res.1@) == warnings_spec(cands) && pools_bounded(pool_choices(res.0@)))
        }),
{
    let all_names = sort_strings(candidates);
    let all = collect_candidates(resolved, all_names.as_slice());
    let ghost cands = cand_views(all@);
    let total = all.len();
    assert(cands.len() == total);
    let slots = Slot::all();
    let mut pools: Vec<Vec<Candidate>> = Vec::new();
    let mut k: usize = 0;
    while k < slots.len()
        invariant
            slots@ == all_slots_spec(),
            k <= slots@.len(),
            cands == cand_views(all@),
            cands_ok(all@),
            pools@.len() == k,
            forall|i: int| 0 <= i < k ==> cand_views(#[trigger] pools@[i]@) == raw_pool_spec(cands, all_slots_spec()[i]),
            raw_pools_ok(pools@),
        decreases slots@.len() - k,
    {
        let p = slot_pool(&all, slots[k]);
        pools.push(p);
        k += 1;
    }
    validate_candidate_pool_sizes(&pools, Ghost(cands))?;
    let warnings = empty_slot_warnings(&pools, Ghost(cands));
    let order = search_slot_list();
    let mut search_pools: Vec<SearchPool> = Vec::new();
    let mut k: usize = 0;
    while k < order.len()
        invariant
            order@ == search_slots(),
            k <= order@.len(),
            raw_pools_hold(pools@, cands),
            raw_pools_ok(pools@),
            search_pools@.len() == k,
            forall|i: int| 0 <= i < k ==> choice_views(#[trigger] search_pools@[i].choices@) == search_pool_spec(cands, search_slots()[i], goals@, apply_dominance),
            forall|i: int| 0 <= i < k ==> choices_bounded(choice_views(#[trigger] search_pools@[i].choices@)),
        decreases order@.len() - k,
    {
        let c = order[k];
        let choices = pool_candidates(&pools, c, Ghost(cands));
        let sorted = sort_choices(&choices);
        proof {
            lemma_isort_bounded(choice_views(choices@), choice_gt());
        }
        let fin = if apply_dominance {
            dominance_filter(sorted, goals)
        } else {
            sorted
        };
        proof {
            let sv = isort(choice_views(choices@), choice_gt());
            if apply_dominance && sv.len() > 1 {
                lemma_filter_positions_bounded(sv, |i: int| undominated(goal_vectors(sv, goals@), i));
            }
        }
        let ghost old_sp = search_pools@;
        search_pools.push(SearchPool { choices: fin });
        proof {
            assert forall|i: int| 0 <= i < k + 1 implies choice_views(#[trigger] search_pools@[i].choices@) == search_pool_spec(cands, search_slots()[i], goals@, apply_dominance)
                && choices_bounded(choice_views(search_pools@[i].choices@)) by {
                if i < k {
                    assert(search_pools@[i] == old_sp[i]);
                }
            }
        }
        k += 1;
    }
    proof {
        assert(pool_choices(search_pools@) =~= search_pools_spec(cands, goals@, apply_dominance));
    }
    Ok((search_pools, warnings))
}

// ── Every search pool has a choice ───────────────────────────────────────────

proof fn lemma_ins_sorted_len<T>(s: Seq<T>, x: T, gt: spec_fn(T, T) -> bool)
    ensures
        ins_sorted(s, x, gt).len() == s.len() + 1,
    decreases s.len(),
{
    if s.len() > 0 && gt(s.last(), x) {
        lemma_ins_sorted_len(s.drop_last(), x, gt);
    }
}

proof fn lemma_isort_len<T>(s: Seq<T>, gt: spec_fn(T, T) -> bool)
    ensures
        isort(s, gt).len() == s.len(),
    decreases s.len(),
{
    if s.len() > 0 {
        lemma_isort_len(s.drop_last(), gt);
        lemma_ins_sorted_len(isort(s.drop_last(), gt), s.last(), gt);
    }
}

/// The sum of a vector's components.
pub open spec fn vsum(v: Seq<int>) -> int
    decreases v.len(),
{
    if v.len() == 0 {
        0
    } else {
        vsum(v.drop_last()) + v.last()
    }
}

proof fn lemma_vsum_le(a: Seq<int>, b: Seq<int>)
    requires
        a.len() == b.len(),
        all_le(a, b),
    ensures
        vsum(a) <= vsum(b),
        any_lt(a, b) ==> vsum(a) < vsum(b),
    decreases a.len(),
{
    if a.len() > 0 {
        let (a0, b0) = (a.drop_last(), b.drop_last());
        assert forall|k: int| 0 <= k < a0.len() implies #[trigger] a0[k] <= b0[k] by {
            assert(a[k] <= b[k]);
        }
        lemma_vsum_le(a0, b0);
        assert(a[a.len() - 1] <= b[b.len() - 1]);
        if any_lt(a, b) {
            let k = choose|k: int| 0 <= k < a.len() && #[trigger] a[k] < b[k];
            if k < a.len() - 1 {
                assert(a0[k] < b0[k]);
            }
        }
    }
}

/// Choice `i` ranks above choice `j`: a larger goal sum, or an equal one and
/// an earlier position.
pub open spec fn ranks_above(gv: Seq<Seq<int>>, i: int, j: int) -> bool {
    vsum(gv[i]) > vsum(gv[j]) || (vsum(gv[i]) == vsum(gv[j]) && i < j)
}

proof fn lemma_top_ranked(gv: Seq<Seq<int>>, n: int) -> (top: int)
    requires
        0 < n <= gv.len(),
    ensures
        0 <= top < n,
        forall|j: int| 0 <= j < n && j != top ==> #[trigger] ranks_above(gv, top, j),
    decreases n,
{
    if n == 1 {
        0
    } else {
        let t = lemma_top_ranked(gv, n - 1);
        if vsum(gv[n - 1]) > vsum(gv[t]) {
            let m = n - 1;
            assert forall|j: int| 0 <= j < n && j != m implies #[trigger] ranks_above(gv, m, j) by {
                if j != t {
                    assert(ranks_above(gv, t, j));
                }
            }
            m
        } else {
            assert forall|j: int| 0 <= j < n && j != t implies #[trigger] ranks_above(gv, t, j) by {
                if j < n - 1 {
                    assert(ranks_above(gv, t, j));
                }
            }
            t
        }
    }
}

proof fn lemma_filter_positions_nonempty<T>(s: Seq<T>, keep: spec_fn(int) -> bool, i: int)
    requires
        0 <= i < s.len(),
        keep(i),
    ensures
        filter_positions(s, keep).len() > 0,
    decreases s.len(),
{
    if i < s.len() - 1 {
        lemma_filter_positions_nonempty(s.drop_last(), keep, i);
    }
}

/// The dominance filter keeps at least one choice of a non-empty pool.
pub proof fn lemma_dominance_nonempty(choices: Seq<ChoiceView>, goals: Seq<StatGoal>)
    requires
        choices.len() > 0,
    ensures
        dominance_spec(choices, goals).len() > 0,
{
    if choices.len() > 1 {
        let gv = goal_vectors(choices, goals);
        let top = lemma_top_ranked(gv, gv.len() as int);
        assert forall|j: int| 0 <= j < gv.len() implies !dominated_by(gv, top, j) by {
            if dominated_by(gv, top, j) {
                lemma_vsum_le(gv[top], gv[j]);
                assert(ranks_above(gv, top, j));
                if !any_lt(gv[top], gv[j]) {
                    assert(top > j);
                }
            }
        }
        lemma_filter_positions_nonempty(choices, |i: int| undominated(gv, i), top);
    }
}

/// Every hand pool offers a configuration.
proof fn lemma_hand_configs_nonempty(main_pool: Seq<CandView>, off_pool: Seq<CandView>)
    ensures
        hand_configs_spec(main_pool, off_pool).len() > 0,
{
    let mains = main_eligible(main_pool, off_pool);
    let nm = |o: CandView| no_main_for(mains, o);
    if mains.len() > 0 {
        let n = mains.len() as int;
        assert(main_configs(mains, off_pool, n) == main_configs(mains, off_pool, n - 1) + configs_for_main(mains[n - 1], off_pool));
    } else if off_pool.len() > 0 {
        off_pool.lemma_filter_contains(nm, 0);
        assert(off_pool.filter(nm).len() > 0);
    }
}

/// Every paired family offers a pair.
proof fn lemma_pairs_nonempty(pool: Seq<CandView>, slot1: Slot, slot2: Slot)
    ensures
        pairs_spec(pool, slot1, slot2).len() > 0,
{
    if pool.len() >= 2 {
        let all = all_pairs_from(pool, 0);
        assert(all == pairs_row(pool, 0) + all_pairs_from(pool, 1));
        assert(all.len() > 0);
        let nat_f = |p: (CandView, CandView)| natural_pair(p, slot1, slot2);
        let other_f = |p: (CandView, CandView)| !natural_pair(p, slot1, slot2);
        if natural_pair(all[0], slot1, slot2) {
            all.lemma_filter_contains(nat_f, 0);
        } else {
            all.lemma_filter_contains(other_f, 0);
        }
    }
}

/// Every search pool offers at least one choice.
pub proof fn lemma_search_pools_nonempty(cands: Seq<CandView>, goals: Seq<StatGoal>, dominance: bool)
    ensures
        search_pools_spec(cands, goals, dominance).len() == search_slots().len(),
        forall|k: int| 0 <= k < search_slots().len() ==> #[trigger] search_pools_spec(cands, goals, dominance)[k].len() > 0,
{
    assert forall|k: int| 0 <= k < search_slots().len() implies #[trigger] search_pools_spec(cands, goals, dominance)[k].len() > 0 by {
        let c = search_slots()[k];
        let raw = pool_candidates_spec(cands, c);
        if c == Slot::MainHand {
            lemma_hand_configs_nonempty(raw_pool_spec(cands, Slot::MainHand), raw_pool_spec(cands, Slot::OffHand));
        } else if is_paired_family(c) {
            lemma_pairs_nonempty(eff_pool_spec(cands, c), c, paired_slot2_spec(c));
        }
        assert(raw.len() > 0);
        lemma_isort_len(raw, choice_gt());
        if dominance {
            lemma_dominance_nonempty(isort(raw, choice_gt()), goals);
        }
    }
}

// ── Dominance filtering loses nothing ────────────────────────────────────────

proof fn lemma_kept_position<T>(s: Seq<T>, keep: spec_fn(int) -> bool, j: int)
    requires
        0 <= j < s.len(),
        keep(j),
    ensures
        exists|t: int| 0 <= t < filter_positions(s, keep).len() && #[trigger] filter_positions(s, keep)[t] == s[j],
    decreases s.len(),
{
    let fp = filter_positions(s, keep);
    if j == s.len() - 1 {
        assert(fp[fp.len() - 1] == s[j]);
    } else {
        lemma_kept_position(s.drop_last(), keep, j);
        let rest = filter_positions(s.drop_last(), keep);
        let t = choose|t: int| 0 <= t < rest.len() && #[trigger] rest[t] == s.drop_last()[j];
        assert(fp[t] == rest[t]);
    }
}

proof fn lemma_filter_positions_len<T>(s: Seq<T>, keep: spec_fn(int) -> bool)
    ensures
        filter_positions(s, keep).len() <= s.len(),
    decreases s.len(),
{
    if s.len() > 0 {
        lemma_filter_positions_len(s.drop_last(), keep);
    }
}

proof fn lemma_filtered_origin<T>(s: Seq<T>, keep: spec_fn(int) -> bool, t: int)
    requires
        0 <= t < filter_positions(s, keep).len(),
    ensures
        exists|j: int| 0 <= j < s.len() && s[j] == #[trigger] filter_positions(s, keep)[t],
    decreases s.len(),
{
    let rest = filter_positions(s.drop_last(), keep);
    if t < rest.len() {
        lemma_filtered_origin(s.drop_last(), keep, t);
        let j = choose|j: int| 0 <= j < s.drop_last().len() && s.drop_last()[j] == #[trigger] rest[t];
        assert(s[j] == s.drop_last()[j]);
    } else {
        assert(filter_positions(s, keep)[t] == s[s.len() - 1]);
    }
}

proof fn lemma_top_ranked_among(gv: Seq<Seq<int>>, n: int, q: spec_fn(int) -> bool, i0: int) -> (top: int)
    requires
        0 <= i0 < n <= gv.len(),
        q(i0),
    ensures
        0 <= top < n,
        q(top),
        forall|j: int| 0 <= j < n && j != top && q(j) ==> #[trigger] ranks_above(gv, top, j),
    decreases n,
{
    if i0 == n - 1 && (n == 1 || !(exists|j: int| 0 <= j < n - 1 && #[trigger] q(j))) {
        let m = n - 1;
        assert forall|j: int| 0 <= j < n && j != m && q(j) implies #[trigger] ranks_above(gv, m, j) by {
            assert(q(j));
        }
        m
    } else {
        let j0 = if i0 < n - 1 {
            i0
        } else {
            choose|j: int| 0 <= j < n - 1 && #[trigger] q(j)
        };
        let t = lemma_top_ranked_among(gv, n - 1, q, j0);
        if q(n - 1) && vsum(gv[n - 1]) > vsum(gv[t]) {
            let m = n - 1;
            assert forall|j: int| 0 <= j < n && j != m && q(j) implies #[trigger] ranks_above(gv, m, j) by {
                if j != t {
                    assert(ranks_above(gv, t, j));
                }
            }
            m
        } else {
            assert forall|j: int| 0 <= j < n && j != t && q(j) implies #[trigger] ranks_above(gv, t, j) by {
                if j < n - 1 {
                    assert(ranks_above(gv, t, j));
                }
            }
            t
        }
    }
}

/// Every choice of a pool is matched or beaten on every goal stat by a choice
/// the dominance filter keeps.
pub proof fn lemma_dominance_covers(choices: Seq<ChoiceView>, goals: Seq<StatGoal>, i: int)
    requires
        0 <= i < choices.len(),
    ensures
        exists|t: int|
            0 <= t < dominance_spec(choices, goals).len() && all_le(
                goal_vec(choices[i], goals),
                goal_vec(#[trigger] dominance_spec(choices, goals)[t], goals),
            ),
{
    let d = dominance_spec(choices, goals);
    if choices.len() <= 1 {
        assert(all_le(goal_vec(choices[i], goals), goal_vec(d[i], goals)));
    } else {
        let gv = goal_vectors(choices, goals);
        let q = |j: int| all_le(gv[i], gv[j]);
        assert(q(i));
        let top = lemma_top_ranked_among(gv, gv.len() as int, q, i);
        assert forall|k: int| 0 <= k < gv.len() implies !dominated_by(gv, top, k) by {
            if dominated_by(gv, top, k) {
                assert(q(k)) by {
                    assert forall|g: int| 0 <= g < gv[i].len() implies #[trigger] gv[i][g] <= gv[k][g] by {
                        assert(gv[i][g] <= gv[top][g]);
                        assert(gv[top][g] <= gv[k][g]);
                    }
                }
                lemma_vsum_le(gv[top], gv[k]);
                assert(ranks_above(gv, top, k));
            }
        }
        let keep = |j: int| undominated(gv, j);
        lemma_kept_position(choices, keep, top);
        let t = choose|t: int| 0 <= t < d.len() && #[trigger] d[t] == choices[top];
        assert(all_le(goal_vec(choices[i], goals), goal_vec(d[t], goals))) by {
            assert(gv[i] == goal_vec(choices[i], goals));
            assert(gv[top] == goal_vec(choices[top], goals));
        }
    }
}

proof fn lemma_totals_upto_le(
    pa: Seq<Seq<ChoiceView>>,
    pb: Seq<Seq<ChoiceView>>,
    goals: Seq<StatGoal>,
    init: Seq<int>,
    a: Seq<usize>,
    b: Seq<usize>,
    m: int,
)
    requires
        init.len() == goals.len(),
        forall|k: int| 0 <= k < m ==> all_le(#[trigger] goal_vec(pa[k][a[k] as int], goals), goal_vec(pb[k][b[k] as int], goals)),
    ensures
        all_le(totals_upto(pa, goals, init, a, m), totals_upto(pb, goals, init, b, m)),
    decreases m,
{
    lemma_totals_len(pa, goals, init, a, m);
    lemma_totals_len(pb, goals, init, b, m);
    if m > 0 {
        lemma_totals_upto_le(pa, pb, goals, init, a, b, m - 1);
        lemma_totals_len(pa, goals, init, a, m - 1);
        lemma_totals_len(pb, goals, init, b, m - 1);
        let va = goal_vec(pa[m - 1][a[m - 1] as int], goals);
        let vb = goal_vec(pb[m - 1][b[m - 1] as int], goals);
        assert(all_le(va, vb));
        let ta = totals_upto(pa, goals, init, a, m);
        let tb = totals_upto(pb, goals, init, b, m);
        assert forall|g: int| 0 <= g < ta.len() implies #[trigger] ta[g] <= tb[g] by {
            assert(ta[g] == totals_upto(pa, goals, init, a, m - 1)[g] + va[g]);
            assert(tb[g] == totals_upto(pb, goals, init, b, m - 1)[g] + vb[g]);
        }
    }
}

/// Dominance filtering loses nothing: no build over the unfiltered pools
/// compares better than the search result over the filtered pools, and that
/// result's totals are reached by a build over the unfiltered pools.
pub proof fn lemma_filtering_is_exact(
    cands: Seq<CandView>,
    goals: Seq<StatGoal>,
    init: Seq<int>,
    p: Seq<usize>,
)
    requires
        init.len() == goals.len(),
        is_search_result(search_pools_spec(cands, goals, true), goals, init, p),
        forall|k: int| 0 <= k < search_slots().len() ==> #[trigger] search_pools_spec(cands, goals, false)[k].len() <= usize::MAX,
    ensures
        forall|c: Seq<usize>| #[trigger] is_build(search_pools_spec(cands, goals, false), c) ==> totals_order(
            build_totals(search_pools_spec(cands, goals, false), goals, init, c),
            build_totals(search_pools_spec(cands, goals, true), goals, init, p),
            goals,
        ) <= 0,
        exists|c: Seq<usize>| #[trigger] is_build(search_pools_spec(cands, goals, false), c) && build_totals(
            search_pools_spec(cands, goals, false),
            goals,
            init,
            c,
        ) == build_totals(search_pools_spec(cands, goals, true), goals, init, p),
{
    let pf = search_pools_spec(cands, goals, true);
    let pu = search_pools_spec(cands, goals, false);
    let n = search_slots().len() as int;
    assert(pf.len() == n && pu.len() == n);
    assert forall|k: int| 0 <= k < n implies #[trigger] pf[k] == dominance_spec(pu[k], goals) by {
    }
    let tp = build_totals(pf, goals, init, p);
    lemma_totals_len(pf, goals, init, p, n);
    assert forall|c: Seq<usize>| #[trigger] is_build(pu, c) implies totals_order(build_totals(pu, goals, init, c), tp, goals) <= 0 by {
        let c2 = Seq::new(
            n as nat,
            |k: int|
                choose|t: usize|
                    t < pf[k].len() && all_le(goal_vec(pu[k][c[k] as int], goals), goal_vec(#[trigger] pf[k][t as int], goals)),
        );
        assert forall|k: int| 0 <= k < n implies #[trigger] c2[k] < pf[k].len() && all_le(
            goal_vec(pu[k][c[k] as int], goals),
            goal_vec(pf[k][c2[k] as int], goals),
        ) by {
            lemma_dominance_covers(pu[k], goals, c[k] as int);
            let d = dominance_spec(pu[k], goals);
            let t0 = choose|t: int| 0 <= t < d.len() && all_le(goal_vec(pu[k][c[k] as int], goals), goal_vec(#[trigger] d[t], goals));
            assert(d.len() <= pu[k].len()) by {
                if pu[k].len() > 1 {
                    lemma_filter_positions_len(pu[k], |j: int| undominated(goal_vectors(pu[k], goals), j));
                }
            }
            let tu = t0 as usize;
            assert(tu < pf[k].len() && all_le(goal_vec(pu[k][c[k] as int], goals), goal_vec(pf[k][tu as int], goals)));
        }
        assert(is_build(pf, c2));
        lemma_totals_upto_le(pu, pf, goals, init, c, c2, n);
        let tc = build_totals(pu, goals, init, c);
        let tc2 = build_totals(pf, goals, init, c2);
        lemma_totals_len(pu, goals, init, c, n);
        lemma_totals_len(pf, goals, init, c2, n);
        lemma_totals_order_monotone(tc, tc2, goals);
        assert(!build_beats(pf, goals, init, c2, p));
        lemma_totals_order_trans(tc, tc2, tp, goals);
    }
    let c0 = Seq::new(
        n as nat,
        |k: int| choose|j: usize| j < pu[k].len() && #[trigger] pu[k][j as int] == pf[k][p[k] as int],
    );
    assert forall|k: int| 0 <= k < n implies #[trigger] c0[k] < pu[k].len() && pu[k][c0[k] as int] == pf[k][p[k] as int] by {
        if pu[k].len() <= 1 {
            let j0 = p[k];
            assert(j0 < pu[k].len() && pu[k][j0 as int] == pf[k][p[k] as int]);
        } else {
            let gv = goal_vectors(pu[k], goals);
            let keep = |j: int| undominated(gv, j);
            lemma_filtered_origin(pu[k], keep, p[k] as int);
            let fpk = filter_positions(pu[k], keep);
            let j1 = choose|j: int| 0 <= j < pu[k].len() && pu[k][j] == #[trigger] fpk[p[k] as int];
            let j0 = j1 as usize;
            assert(j0 < pu[k].len() && pu[k][j0 as int] == pf[k][p[k] as int]);
        }
    }
    assert(is_build(pu, c0));
    lemma_totals_upto_le(pu, pf, goals, init, c0, p, n);
    lemma_totals_upto_le(pf, pu, goals, init, p, c0, n);
    lemma_totals_len(pu, goals, init, c0, n);
    let t0 = build_totals(pu, goals, init, c0);
    assert(t0 =~= tp) by {
        assert forall|g: int| 0 <= g < t0.len() implies t0[g] == tp[g] by {
            assert(t0[g] <= tp[g]);
            assert(tp[g] <= t0[g]);
        }
    }
}

// ── Assembling the gear set ──────────────────────────────────────────────────

/// The candidate that choice `c` equips in `slot`, if any. A pair puts each
/// item in its own slot when it can (`a` in `slot1` unless `a` belongs to
/// `slot2` and `b` to `slot1`); the hands go to `MainHand` and `OffHand`.
pub open spec fn placed(c: ChoiceView, slot: Slot) -> Option<CandView> {
    match c {
        ChoiceView::Single { slot: s1, c } => if slot == s1 {
            Some(c)
        } else {
            None
        },
        ChoiceView::Pair { slot1, slot2, a, b } => {
            let swapped = !(a.slot == slot1 && b.slot == slot2) && (a.slot == slot2 && b.slot == slot1);
            let first = if swapped { b } else { a };
            let second = if swapped { a } else { b };
            if slot == slot2 {
                Some(second)
            } else if slot == slot1 {
                Some(first)
            } else {
                None
            }
        },
        ChoiceView::Hands { main, off } => if slot == Slot::OffHand {
            Some(off)
        } else if slot == Slot::MainHand {
            Some(main)
        } else {
            None
        },
    }
}

/// The equipped item `it` is candidate `c` worn in `slot`.
pub open spec fn wears(it: Option<GearItem>, c: Option<CandView>, slot: Slot) -> bool {
    match (it, c) {
        (None, None) => true,
        (Some(it), Some(c)) => {
            &&& it.name@ == c.name
            &&& it.slot == slot
            &&& it.two_handed == c.two_handed
            &&& it.either_hand == c.either_hand
            &&& it.stats == c.stats
        },
        _ => false,
    }
}

/// The candidate equipped in `slot` by the first `n` choices of the build
/// `p`, later choices replacing earlier ones.
pub open spec fn build_item(pools: Seq<Seq<ChoiceView>>, p: Seq<usize>, slot: Slot, n: int) -> Option<CandView>
    decreases n,
{
    if n <= 0 {
        None
    } else {
        match placed(pools[n - 1][p[n - 1] as int], slot) {
            Some(c) => Some(c),
            None => build_item(pools, p, slot, n - 1),
        }
    }
}

/// Every stat of the gear set, innate and equipped, is within the stat limit.
pub open spec fn gear_ok(g: GearSet) -> bool {
    &&& stat_map_bounded(g.innate_stats)
    &&& forall|slot: Slot| #[trigger] g.item_spec(slot) matches Some(it) ==> stat_map_bounded(it.stats)
}

fn candidate_to_gear_item(c: &Candidate, slot: Slot) -> (g: GearItem)
    ensures
        wears(Some(g), Some(cand_view(*c)), slot),
{
    GearItem {
        name: c.name.clone(),
        slot,
        two_handed: c.two_handed,
        either_hand: c.either_hand,
        stats: c.stats,
    }
}

impl Choice {
    /// Equips the choice's items in the gear set.
    pub fn insert_into(&self, gear_set: &mut GearSet)
        ensures
            final(gear_set).innate_stats == old(gear_set).innate_stats,
            forall|slot: Slot| #[trigger] placed(choice_view(*self), slot) is Some ==> wears(
                final(gear_set).item_spec(slot),
                placed(choice_view(*self), slot),
                slot,
            ),
            forall|slot: Slot| #[trigger] placed(choice_view(*self), slot) is None ==> final(gear_set).item_spec(slot)
                == old(gear_set).item_spec(slot),
    {
        match self {
            Choice::Single { slot, candidate } => {
                gear_set.insert(*slot, candidate_to_gear_item(candidate, *slot));
            },
            Choice::Pair { slot1, slot2, pair } => {
                let natural = pair.a.original_slot == *slot1 && pair.b.original_slot == *slot2;
                let swapped = !natural && pair.a.original_slot == *slot2 && pair.b.original_slot == *slot1;
                let (item_for_slot1, item_for_slot2) = if swapped {
                    (&pair.b, &pair.a)
                } else {
                    (&pair.a, &pair.b)
                };
                gear_set.insert(*slot1, candidate_to_gear_item(item_for_slot1, *slot1));
                gear_set.insert(*slot2, candidate_to_gear_item(item_for_slot2, *slot2));
            },
            Choice::Hands { hands } => {
                gear_set.insert(Slot::MainHand, candidate_to_gear_item(&hands.main, Slot::MainHand));
                gear_set.insert(Slot::OffHand, candidate_to_gear_item(&hands.off, Slot::OffHand));
            },
        }
    }
}

proof fn lemma_items_sum_bounded(items: Seq<Option<GearItem>>, s: Stat, n: int)
    requires
        0 <= n <= items.len(),
        forall|i: int| 0 <= i < items.len() ==> (#[trigger] items[i] matches Some(it) ==> stat_map_bounded(it.stats)),
    ensures
        -0x80_0000_0000_0000 * n <= crate::gear::items_stat_sum(items, s, n) <= 0x80_0000_0000_0000 * n,
    decreases n,
{
    if n > 0 {
        lemma_items_sum_bounded(items, s, n - 1);
        if let Some(it) = items[n - 1] {
            assert(stat_map_bounded(it.stats));
        }
    }
}

/// Totals of a bounded gear set fit comfortably in an `i64`.
proof fn lemma_gear_total_bounded(g: GearSet, s: Stat)
    requires
        gear_ok(g),
    ensures
        -0xA00_0000_0000_0000 <= g.total_spec(s) <= 0xA00_0000_0000_0000,
{
    lemma_slot_index();
    assert forall|i: int| 0 <= i < g.items@.len() implies (#[trigger] g.items@[i] matches Some(it) ==> stat_map_bounded(
        it.stats,
    )) by {
        assert(g.items@[i] == g.item_spec(all_slots_spec()[i]));
    }
    lemma_items_sum_bounded(g.items@, s, SLOT_COUNT as int);
}

/// The innate values of the goal stats, in goal order.
pub open spec fn innate_totals_spec(innate: StatMap, goals: Seq<StatGoal>) -> Seq<int> {
    Seq::new(goals.len(), |i: int| innate.value(goals[i].stat) as int)
}

fn innate_goal_totals(innate_stats: &StatMap, goals: &[StatGoal]) -> (r: Vec<i64>)
    ensures
        int_view(r@) == innate_totals_spec(*innate_stats, goals@),
        r@.len() == goals@.len(),
{
    let mut r: Vec<i64> = Vec::new();
    let mut i: usize = 0;
    while i < goals.len()
        invariant
            i <= goals@.len(),
            int_view(r@) == innate_totals_spec(*innate_stats, goals@).subrange(0, i as int),
        decreases goals@.len() - i,
    {
        let ghost old_r = r@;
        r.push(innate_stats.get(goals[i].stat));
        assert(int_view(r@) =~= int_view(old_r).push(innate_stats.value(goals@[i as int].stat) as int));
        assert(int_view(r@) =~= innate_totals_spec(*innate_stats, goals@).subrange(0, i + 1));
        i += 1;
    }
    assert(innate_totals_spec(*innate_stats, goals@).subrange(0, goals@.len() as int) =~= innate_totals_spec(
        *innate_stats,
        goals@,
    ));
    r
}

/// The goals with a positive minimum the gear set falls short of, with the
/// minimum and the achieved total.
pub open spec fn failed_minima_spec(g: GearSet, goals: Seq<StatGoal>) -> Seq<(Stat, i64, i64)> {
    goals.filter(|goal: StatGoal| goal.minimum > 0 && g.total_spec(goal.stat) < goal.minimum).map_values(
        |goal: StatGoal| (goal.stat, goal.minimum, g.total_spec(goal.stat) as i64),
    )
}

fn failed_minima(gear_set: &GearSet, goals: &[StatGoal]) -> (r: Vec<(Stat, i64, i64)>)
    requires
        gear_ok(*gear_set),
    ensures
        r@ == failed_minima_spec(*gear_set, goals@),
{
    let ghost f = |goal: StatGoal| goal.minimum > 0 && gear_set.total_spec(goal.stat) < goal.minimum;
    let ghost m = |goal: StatGoal| (goal.stat, goal.minimum, gear_set.total_spec(goal.stat) as i64);
    let mut r: Vec<(Stat, i64, i64)> = Vec::new();
    let mut i: usize = 0;
    while i < goals.len()
        invariant
            i <= goals@.len(),
            gear_ok(*gear_set),
            f == (|goal: StatGoal| goal.minimum > 0 && gear_set.total_spec(goal.stat) < goal.minimum),
            m == (|goal: StatGoal| (goal.stat, goal.minimum, gear_set.total_spec(goal.stat) as i64)),
            r@ == goals@.subrange(0, i as int).filter(f).map_values(m),
        decreases goals@.len() - i,
    {
        let g = goals[i];
        let ghost f0 = goals@.subrange(0, i as int).filter(f);
        proof {
            assert(goals@.subrange(0, i + 1) =~= goals@.subrange(0, i as int).push(g));
            goals@.subrange(0, i as int).lemma_filter_push(g, f);
            lemma_gear_total_bounded(*gear_set, g.stat);
        }
        if g.minimum > 0 {
            let achieved = gear_set.total(&g.stat);
            if achieved < g.minimum {
                r.push((g.stat, g.minimum, achieved));
                assert(f0.push(g).map_values(m) =~= f0.map_values(m).push(m(g)));
            }
        }
        i += 1;
    }
    assert(goals@.subrange(0, goals@.len() as int) =~= goals@);
    r
}

/// The result returned by the optimizer.
#[derive(Debug)]
pub struct OptimizeResult {
    pub gear_set: GearSet,
    pub feasible: bool,
    /// For each goal stat that failed its minimum: (stat, minimum, achieved).
    pub failed_minima: Vec<(Stat, i64, i64)>,
    /// Warning messages (e.g. empty-slot placeholders).
    pub warnings: Vec<String>,
}

/// The candidates the optimizer works with: the named items that resolve,
/// in sorted name order.
pub open spec fn optimizer_candidates(resolved: Seq<(String, GearItem)>, candidates: Seq<String>) -> Seq<CandView> {
    collected_spec(resolved, isort(string_views(candidates), str_gt()))
}

/// The order in which candidates are given never matters: candidate lists
/// holding the same names (with the same repetitions) give the optimizer the
/// same candidates, so `optimize` answers both under one and the same
/// contract.
pub proof fn lemma_candidate_order_irrelevant(resolved: Seq<(String, GearItem)>, c1: Seq<String>, c2: Seq<String>)
    requires
        string_views(c1).to_multiset() == string_views(c2).to_multiset(),
    ensures
        optimizer_candidates(resolved, c1) == optimizer_candidates(resolved, c2),
{
    crate::sorting::lemma_sort_ignores_order(string_views(c1), string_views(c2));
}

/// `res` is the optimizer's answer for the search pools `pv`: the gear set
/// wears the search result `p` (innate stats kept), its shortfalls are
/// listed, and it is feasible exactly when there are none.
pub open spec fn is_optimize_result(
    res: OptimizeResult,
    pv: Seq<Seq<ChoiceView>>,
    goals: Seq<StatGoal>,
    innate: StatMap,
    p: Seq<usize>,
) -> bool {
    &&& is_search_result(pv, goals, innate_totals_spec(innate, goals), p)
    &&& res.gear_set.innate_stats == innate
    &&& forall|slot: Slot| #[trigger] wears(res.gear_set.item_spec(slot), build_item(pv, p, slot, pv.len() as int), slot)
    &&& res.failed_minima@ == failed_minima_spec(res.gear_set, goals)
    &&& res.feasible == (res.failed_minima@.len() == 0)
}

proof fn first_difference(a: Seq<usize>, b: Seq<usize>, i: int) -> (k: int)
    requires
        a.len() == b.len(),
        0 <= i <= a.len(),
        forall|j: int| 0 <= j < i ==> a[j] == b[j],
        exists|j: int| i <= j < a.len() && a[j] != b[j],
    ensures
        i <= k < a.len(),
        a[k] != b[k],
        forall|j: int| 0 <= j < k ==> a[j] == b[j],
    decreases a.len() - i,
{
    if a[i] != b[i] {
        i
    } else {
        first_difference(a, b, i + 1)
    }
}

/// Two different builds of the same length are ordered by search order.
proof fn lemma_picks_before_total(a: Seq<usize>, b: Seq<usize>)
    requires
        a.len() == b.len(),
        a != b,
    ensures
        picks_before(a, b) || picks_before(b, a),
{
    if forall|j: int| 0 <= j < a.len() ==> a[j] == b[j] {
        assert(a =~= b);
    }
    let k = first_difference(a, b, 0);
    assert(a.subrange(0, k) =~= b.subrange(0, k));
    if a[k] < b[k] {
        assert(picks_before(a, b));
    } else {
        assert(picks_before(b, a));
    }
}

/// The search has one answer: two search results over the same pools, goals
/// and starting totals are the same build.
pub proof fn lemma_search_result_unique(
    pools: Seq<Seq<ChoiceView>>,
    goals: Seq<StatGoal>,
    init: Seq<int>,
    p: Seq<usize>,
    q: Seq<usize>,
)
    requires
        is_search_result(pools, goals, init, p),
        is_search_result(pools, goals, init, q),
    ensures
        p == q,
{
    if p != q {
        lemma_picks_before_total(p, q);
        if picks_before(p, q) {
            assert(build_beats(pools, goals, init, q, p));
        } else {
            assert(build_beats(pools, goals, init, p, q));
        }
    }
}

/// Two equipped items agree: both empty, or the same name, slot, hand flags
/// and stats.
pub open spec fn same_equipped(a: Option<GearItem>, b: Option<GearItem>) -> bool {
    match (a, b) {
        (None, None) => true,
        (Some(x), Some(y)) => x.name@ == y.name@ && x.slot == y.slot && x.two_handed == y.two_handed && x.either_hand
            == y.either_hand && x.stats == y.stats,
        _ => false,
    }
}

/// Two optimizer answers agree: the same items in every slot, the same
/// innate stats, shortfalls, feasibility and warnings.
pub open spec fn same_result(r1: OptimizeResult, r2: OptimizeResult) -> bool {
    &&& forall|slot: Slot| #[trigger] same_equipped(r1.gear_set.item_spec(slot), r2.gear_set.item_spec(slot))
    &&& r1.gear_set.innate_stats == r2.gear_set.innate_stats
    &&& r1.failed_minima@ == r2.failed_minima@
    &&& r1.feasible == r2.feasible
    &&& string_views(r1.warnings@) == string_views(r2.warnings@)
}

proof fn lemma_sum_agrees(a: Seq<Option<GearItem>>, b: Seq<Option<GearItem>>, s: Stat, n: int)
    requires
        forall|k: int| 0 <= k < n ==> #[trigger] same_equipped(a[k], b[k]),
    ensures
        items_stat_sum(a, s, n) == items_stat_sum(b, s, n),
    decreases n,
{
    if n > 0 {
        lemma_sum_agrees(a, b, s, n - 1);
        assert(same_equipped(a[n - 1], b[n - 1]));
    }
}

/// Gear sets with the same innate stats and agreeing items have the same
/// totals.
proof fn lemma_totals_agree(g1: GearSet, g2: GearSet)
    requires
        g1.innate_stats == g2.innate_stats,
        forall|slot: Slot| #[trigger] same_equipped(g1.item_spec(slot), g2.item_spec(slot)),
    ensures
        forall|s: Stat| #[trigger] g1.total_spec(s) == g2.total_spec(s),
{
    crate::gear::lemma_slot_index();
    assert forall|k: int| 0 <= k < SLOT_COUNT implies #[trigger] same_equipped(g1.items@[k], g2.items@[k]) by {
        let slot = all_slots_spec()[k];
        assert(slot_index_spec(slot) == k);
        assert(same_equipped(g1.item_spec(slot), g2.item_spec(slot)));
    }
    assert forall|s: Stat| #[trigger] g1.total_spec(s) == g2.total_spec(s) by {
        lemma_sum_agrees(g1.items@, g2.items@, s, SLOT_COUNT as int);
    }
}

/// Whatever the order of the candidate names, the optimizer gives the same
/// answer: two answers that `optimize` may return for candidate lists holding
/// the same names agree slot by slot, in their shortfalls, feasibility and
/// warnings.
pub proof fn lemma_optimize_ignores_candidate_order(
    resolved: Seq<(String, GearItem)>,
    c1: Seq<String>,
    c2: Seq<String>,
    goals: Seq<StatGoal>,
    innate: StatMap,
    r1: OptimizeResult,
    r2: OptimizeResult,
)
    requires
        string_views(c1).to_multiset() == string_views(c2).to_multiset(),
        string_views(r1.warnings@) == warnings_spec(optimizer_candidates(resolved, c1)),
        string_views(r2.warnings@) == warnings_spec(optimizer_candidates(resolved, c2)),
        exists|p: Seq<usize>|
            is_optimize_result(r1, search_pools_spec(optimizer_candidates(resolved, c1), goals, true), goals, innate, p),
        exists|p: Seq<usize>|
            is_optimize_result(r2, search_pools_spec(optimizer_candidates(resolved, c2), goals, true), goals, innate, p),
    ensures
        same_result(r1, r2),
{
    lemma_candidate_order_irrelevant(resolved, c1, c2);
    let pv = search_pools_spec(optimizer_candidates(resolved, c1), goals, true);
    let p1 = choose|p: Seq<usize>| is_optimize_result(r1, pv, goals, innate, p);
    let p2 = choose|p: Seq<usize>| is_optimize_result(r2, pv, goals, innate, p);
    lemma_search_result_unique(pv, goals, innate_totals_spec(innate, goals), p1, p2);
    assert forall|slot: Slot| #[trigger] same_equipped(r1.gear_set.item_spec(slot), r2.gear_set.item_spec(slot)) by {
        assert(wears(r1.gear_set.item_spec(slot), build_item(pv, p1, slot, pv.len() as int), slot));
        assert(wears(r2.gear_set.item_spec(slot), build_item(pv, p2, slot, pv.len() as int), slot));
    }
    lemma_totals_agree(r1.gear_set, r2.gear_set);
    assert(failed_minima_spec(r1.gear_set, goals) =~= failed_minima_spec(r2.gear_set, goals)) by {
        let f1 = |goal: StatGoal| goal.minimum > 0 && r1.gear_set.total_spec(goal.stat) < goal.minimum;
        let f2 = |goal: StatGoal| goal.minimum > 0 && r2.gear_set.total_spec(goal.stat) < goal.minimum;
        assert(f1 =~= f2);
        let m1 = |goal: StatGoal| (goal.stat, goal.minimum, r1.gear_set.total_spec(goal.stat) as i64);
        let m2 = |goal: StatGoal| (goal.stat, goal.minimum, r2.gear_set.total_spec(goal.stat) as i64);
        assert(m1 =~= m2);
    }
}

/// Finds the best gear set for `goals` from the named candidates.
///
/// Errors when a slot, paired family or the combined hand pool has more
/// candidates than its cap. Otherwise every search pool has a choice, and the
/// gear set wears the exact search result over the dominance-filtered pools.
pub fn optimize(
    resolved: &[(String, GearItem)],
    candidates: &[String],
    goals: &[StatGoal],
    innate_stats: &StatMap,
) -> (r: Result<OptimizeResult, Box<OptimizeError>>)
    requires
        resolved_bounded(resolved@),
        stat_map_bounded(*innate_stats),
    ensures
        ({
            let cands = optimizer_candidates(resolved@, candidates@);
            let pv = search_pools_spec(cands, goals@, true);
            &&& (r is Ok <==> within_caps(cands))
            &&& (r matches Err(e) ==> is_size_error(cands, *e))
            &&& (r matches Ok(res) ==> string_views(res.warnings@) == warnings_spec(cands) && (
            exists|p: Seq<usize>| is_optimize_result(res, pv, goals@, *innate_stats, p)))
            &&& (r matches Ok(res) ==> forall|slot: Slot| #[trigger] res.gear_set.item_spec(slot) is Some)
        }),
{
    let (pools, warnings) = build_search_pools(resolved, candidates, goals, true)?;
    let ghost pv = pool_choices(pools@);
    let innate = innate_goal_totals(innate_stats, goals);
    proof {
        assert forall|g: int| 0 <= g < goals@.len() implies -STAT_LIMIT <= #[trigger] innate@[g] <= STAT_LIMIT by {
            assert(int_view(innate@)[g] == innate@[g] as int);
        }
    }
    proof {
        lemma_search_pools_nonempty(optimizer_candidates(resolved@, candidates@), goals@, true);
        assert(pv.len() == pools@.len());
        assert forall|k: int| 0 <= k < pools@.len() implies #[trigger] pools@[k].choices@.len() > 0 by {
            assert(pv[k] == choice_views(pools@[k].choices@));
        }
    }
    let best = exact_search(pools.as_slice(), goals, innate.as_slice()).unwrap();
    let ghost p = best.picks@;
    let mut gear_set = GearSet::new(*innate_stats);
    let mut k: usize = 0;
    while k < pools.len()
        invariant
            k <= pools@.len(),
            pv == pool_choices(pools@),
            is_build(pv, p),
            p == best.picks@,
            gear_set.innate_stats == *innate_stats,
            stat_map_bounded(*innate_stats),
            pools_bounded(pv),
            gear_ok(gear_set),
            forall|slot: Slot| #[trigger] wears(gear_set.item_spec(slot), build_item(pv, p, slot, k as int), slot),
        decreases pools@.len() - k,
    {
        let pick = best.picks[k];
        proof {
            assert(pv[k as int] == choice_views(pools@[k as int].choices@));
            assert(pick < pv[k as int].len());
        }
        let choice = &pools[k].choices[pick];
        let ghost before = gear_set;
        choice.insert_into(&mut gear_set);
        proof {
            let cv = choice_view(*choice);
            assert(cv == pv[k as int][pick as int]);
            assert(choice_bounded(cv));
            assert forall|slot: Slot| #[trigger] wears(gear_set.item_spec(slot), build_item(pv, p, slot, k + 1), slot) by {
                assert(wears(before.item_spec(slot), build_item(pv, p, slot, k as int), slot));
            }
            assert forall|slot: Slot| #[trigger] gear_set.item_spec(slot) matches Some(it) ==> stat_map_bounded(it.stats) by {
                if placed(cv, slot) is Some {
                    assert(wears(gear_set.item_spec(slot), placed(cv, slot), slot));
                    match cv {
                        ChoiceView::Single { .. } => {
                            assert(stat_map_bounded(choice_parts(cv)[0].stats));
                        },
                        _ => {
                            assert(stat_map_bounded(choice_parts(cv)[0].stats));
                            assert(stat_map_bounded(choice_parts(cv)[1].stats));
                        },
                    }
                } else {
                    assert(before.item_spec(slot) matches Some(it) ==> stat_map_bounded(it.stats));
                }
            }
        }
        k += 1;
    }
    let failed = failed_minima(&gear_set, goals);
    let feasible = failed.len() == 0;
    let res = OptimizeResult { gear_set, feasible, failed_minima: failed, warnings };
    proof {
        assert(is_optimize_result(res, pv, goals@, *innate_stats, p));
        let cands = optimizer_candidates(resolved@, candidates@);
        assert forall|slot: Slot| #[trigger] res.gear_set.item_spec(slot) is Some by {
            crate::coverage::lemma_result_fills_every_slot(res, cands, goals@, *innate_stats, p, slot);
        }
    }
    Ok(res)
}

/// Folding in the search of child `j` keeps the loop invariant of
/// `dfs_search`.
proof fn lemma_dfs_step(
    pv: Seq<Seq<ChoiceView>>,
    goals: Seq<StatGoal>,
    init: Seq<int>,
    prefix: Seq<usize>,
    j: int,
    b0: Option<SearchBuild>,
    b1: Option<SearchBuild>,
    b2: Option<SearchBuild>,
)
    requires
        prefix.len() < pv.len(),
        0 <= j < pv[prefix.len() as int].len(),
        init.len() == goals.len(),
        b0 matches Some(b) ==> valid_search_build(pv, goals, init, b),
        j == 0 ==> b1 == b0,
        j > 0 ==> subtree_searched(pv, goals, init, prefix, j, b0, b1),
        subtree_searched(
            pv,
            goals,
            init,
            prefix.push(j as usize),
            if prefix.len() + 1 < pv.len() { pv[prefix.len() + 1int].len() as int } else { 0 },
            b1,
            b2,
        ),
    ensures
        subtree_searched(pv, goals, init, prefix, j + 1, b0, b2),
{
    let m = prefix.len() as int;
    let p1 = prefix.push(j as usize);
    let below1 = if m + 1 < pv.len() { pv[m + 1].len() as int } else { 0 };
    let x2 = b2.unwrap();
    assert(p1.subrange(0, m) =~= prefix);
    assert forall|c: Seq<usize>| is_build(pv, c) && extends(c, prefix) && c[m] == j implies extends(c, p1) && (
    p1.len() < pv.len() ==> c[p1.len() as int] < below1) by {
        assert(c.subrange(0, m + 1) =~= c.subrange(0, m).push(c[m]));
    }
    if b2 != b1 {
        assert(extends(x2.picks@, p1));
        assert(x2.picks@.subrange(0, m) =~= x2.picks@.subrange(0, m + 1).subrange(0, m));
        assert(x2.picks@[m] == x2.picks@.subrange(0, m + 1)[m]);
        assert(extends(x2.picks@, prefix));
    }
    if let Some(x0) = b0 {
        if b2 != b1 && b1 != b0 {
            let x1 = b1.unwrap();
            lemma_build_beats_facts(pv, goals, init, x2.picks@, x1.picks@, x0.picks@);
        }
        if b2 == b0 && b2 != b1 {
            let x1 = b1.unwrap();
            lemma_build_beats_facts(pv, goals, init, x2.picks@, x1.picks@, x0.picks@);
        }
    }
    assert forall|c: Seq<usize>|
        is_build(pv, c) && extends(c, prefix) && (prefix.len() < pv.len() ==> c[prefix.len() as int] < j + 1)
        implies !#[trigger] build_beats(pv, goals, init, c, x2.picks@) by {
        if c[m] < j {
            let x1 = b1.unwrap();
            if b2 != b1 {
                lemma_build_beats_facts(pv, goals, init, x2.picks@, x1.picks@, c);
            }
        }
    }
    if b2 != b0 {
        assert forall|c: Seq<usize>|
            is_build(pv, c) && extends(c, prefix) && (prefix.len() < pv.len() ==> c[prefix.len() as int] < j + 1)
                && #[trigger] picks_before(c, x2.picks@)
            implies build_beats(pv, goals, init, x2.picks@, c) by {
            if b2 != b1 {
                if c[m] < j {
                    let x1 = b1.unwrap();
                    lemma_build_beats_facts(pv, goals, init, x2.picks@, x1.picks@, c);
                }
            } else {
                if c[m] == j {
                    lemma_not_before(c, x2.picks@, prefix);
                }
            }
        }
    }
}

} // verus!
