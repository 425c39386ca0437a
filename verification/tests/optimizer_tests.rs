//! Optimizer scenarios: the objective comparator, exact search, paired
//! slots, hand configurations, candidate caps and a differential check
//! against brute force.
use lgo::gear::{optimizer_candidate_key, GearItem, GearSet, Slot};
use lgo::optimizer::{
    build_search_pools, compare_builds, optimize, resolved_within_limit, OptimizeError, OptimizeResult, SearchPool,
};
use lgo::order::Rel;
use lgo::stat::{Stat, StatGoal, StatMap, STAT_LIMIT};

/// Resolved items by optimizer key; a later insert under a key replaces the
/// earlier one.
#[derive(Debug, Clone)]
struct Resolved(Vec<(String, GearItem)>);

impl Resolved {
    fn new() -> Self {
        Resolved(Vec::new())
    }

    fn insert(&mut self, key: String, item: GearItem) {
        if let Some(entry) = self.0.iter_mut().find(|(k, _)| *k == key) {
            entry.1 = item;
        } else {
            self.0.push((key, item));
        }
    }
}

impl std::ops::Deref for Resolved {
    type Target = [(String, GearItem)];
    fn deref(&self) -> &Self::Target {
        &self.0
    }
}

fn make_cached(name: &str, slot: Slot, stats: &[(Stat, i64)]) -> GearItem {
    GearItem {
        name: name.to_string(),
        slot,
        two_handed: false,
        either_hand: false,
        stats: StatMap::from_pairs(stats),
    }
}

fn make_cached_2h(name: &str, stats: &[(Stat, i64)]) -> GearItem {
    GearItem {
        name: name.to_string(),
        slot: Slot::MainHand,
        two_handed: true,
        either_hand: false,
        stats: StatMap::from_pairs(stats),
    }
}

// An Either-hand item: it lives in the Off-hand slot but may be worn in
// either hand position.
fn make_cached_either(name: &str, stats: &[(Stat, i64)]) -> GearItem {
    GearItem {
        name: name.to_string(),
        slot: Slot::OffHand,
        two_handed: false,
        either_hand: true,
        stats: StatMap::from_pairs(stats),
    }
}

fn instance_key(idx: usize, slot: Slot, name: &str) -> String {
    optimizer_candidate_key(
        idx,
        &GearItem {
            name: name.to_string(),
            slot,
            two_handed: false,
            either_hand: false,
            stats: StatMap::new(),
        },
    )
}

fn goal(stat: Stat, minimum: i64) -> StatGoal {
    StatGoal { stat, minimum }
}

fn item_at(gear_set: &GearSet, slot: Slot) -> &GearItem {
    gear_set.item(slot).expect("slot should be filled")
}

fn optimize_ok(resolved: &[(String, GearItem)], candidates: &[String], goals: &[StatGoal]) -> OptimizeResult {
    optimize(resolved, candidates, goals, &StatMap::new()).expect("optimization should succeed")
}

fn single_slot_result(resolved: &[(String, GearItem)], names: &[&str], goals: Vec<StatGoal>, slot: Slot) -> String {
    let name_strings: Vec<String> = names.iter().map(|s| s.to_string()).collect();
    let result = optimize_ok(resolved, &name_strings, &goals);
    result
        .gear_set
        .item(slot)
        .map(|i| i.name.clone())
        .unwrap_or_else(|| "[missing]".to_string())
}

fn result_goal_totals(result: &OptimizeResult, goals: &[StatGoal]) -> Vec<i64> {
    goals.iter().map(|goal| result.gear_set.total(&goal.stat)).collect()
}

/// Brute force over the unfiltered pools: every build, compared by the
/// objective, earlier sorted instance keys winning ties.
fn oracle_best_build(pools: &[SearchPool], goals: &[StatGoal]) -> Option<Vec<usize>> {
    fn rec(
        pool_idx: usize,
        pools: &[SearchPool],
        goals: &[StatGoal],
        running: &mut Vec<i64>,
        picks: &mut Vec<usize>,
        keys: &mut Vec<String>,
        best: &mut Option<(Vec<i64>, Vec<String>, Vec<usize>)>,
    ) {
        if pool_idx == pools.len() {
            let mut key = keys.clone();
            key.sort();
            let replace = match best {
                None => true,
                Some((totals, best_key, _)) => match compare_builds(running, totals, goals) {
                    Rel::Greater => true,
                    Rel::Equal => key < *best_key,
                    Rel::Less => false,
                },
            };
            if replace {
                *best = Some((running.clone(), key, picks.clone()));
            }
            return;
        }
        for (idx, choice) in pools[pool_idx].choices.iter().enumerate() {
            let add = choice.goal_totals(goals);
            let choice_keys = choice.instance_keys();
            for (r, a) in running.iter_mut().zip(&add) {
                *r += a;
            }
            keys.extend(choice_keys.iter().cloned());
            picks.push(idx);
            rec(pool_idx + 1, pools, goals, running, picks, keys, best);
            picks.pop();
            for _ in 0..choice_keys.len() {
                keys.pop();
            }
            for (r, a) in running.iter_mut().zip(&add) {
                *r -= a;
            }
        }
    }

    if pools.iter().any(|pool| pool.choices.is_empty()) {
        return None;
    }
    let mut best = None;
    rec(0, pools, goals, &mut vec![0; goals.len()], &mut Vec::new(), &mut Vec::new(), &mut best);
    best.map(|(_, _, picks)| picks)
}

fn oracle_optimize(resolved: &[(String, GearItem)], candidates: &[String], goals: &[StatGoal]) -> OptimizeResult {
    let (pools, warnings) =
        build_search_pools(resolved, candidates, goals, false).expect("oracle inputs should be within candidate cap");
    let picks = oracle_best_build(&pools, goals).expect("oracle pools should not be empty");
    let mut gear_set = GearSet::new(StatMap::new());
    for (pool, pick) in pools.iter().zip(&picks) {
        pool.choices[*pick].insert_into(&mut gear_set);
    }
    let failed_minima: Vec<(Stat, i64, i64)> = goals
        .iter()
        .filter(|g| g.minimum > 0)
        .filter_map(|g| {
            let achieved = gear_set.total(&g.stat);
            if achieved < g.minimum {
                Some((g.stat, g.minimum, achieved))
            } else {
                None
            }
        })
        .collect();
    OptimizeResult { gear_set, feasible: failed_minima.is_empty(), failed_minima, warnings }
}


#[derive(Clone)]
struct Lcg(u64);

impl Lcg {
    fn new(seed: u64) -> Self {
        Self(seed)
    }

    fn next_u32(&mut self) -> u32 {
        self.0 = self
            .0
            .wrapping_mul(6364136223846793005)
            .wrapping_add(1442695040888963407);
        (self.0 >> 32) as u32
    }

    fn range_usize(&mut self, start: usize, end_inclusive: usize) -> usize {
        start + (self.next_u32() as usize % (end_inclusive - start + 1))
    }

    fn range_i64(&mut self, start: i64, end_inclusive: i64) -> i64 {
        start + (self.next_u32() as i64).rem_euclid(end_inclusive - start + 1)
    }

    fn chance(&mut self, numerator: u32, denominator: u32) -> bool {
        self.next_u32() % denominator < numerator
    }
}

fn assert_x_beats_y(x: &[i64], y: &[i64], goals: &[StatGoal]) {
    assert_eq!(compare_builds(x, y, goals), Rel::Greater);
    assert_eq!(compare_builds(y, x, goals), Rel::Less);
}

#[test]
fn comparator_worked_example_both_meet_first_goal_stage2_second_goal() {
    // Stage 2: once both builds meet CR, compare the clamped TM contribution.
    let goals = vec![
        goal(Stat::CriticalRating, 100_000),
        goal(Stat::TacticalMastery, 100_000),
    ];
    assert_x_beats_y(&[120_000, 90_000], &[100_000, 89_999], &goals);
}

#[test]
fn comparator_worked_example_ratchet_protects_met_lower_goal() {
    // Stage 1 ratchet: a build that already meets TM beats one that drops it, even with less CR.
    let goals = vec![
        goal(Stat::CriticalRating, 100),
        goal(Stat::TacticalMastery, 100),
    ];
    assert_x_beats_y(&[94, 100], &[96, 80], &goals);
}

#[test]
fn comparator_worked_example_meeting_priority_one_justifies_drop() {
    // Stage 1: meeting the higher-priority CR minimum outranks missing it to keep more TM.
    let goals = vec![
        goal(Stat::CriticalRating, 100),
        goal(Stat::TacticalMastery, 100),
    ];
    assert_x_beats_y(&[100, 70], &[98, 100], &goals);
}

#[test]
fn comparator_worked_example_both_unmet_stage2_priority_order() {
    // Stage 2: with both minima unmet, the earlier goal still wins 95/100 over 94/100.
    let goals = vec![
        goal(Stat::CriticalRating, 100),
        goal(Stat::TacticalMastery, 100),
    ];
    assert_x_beats_y(&[95, 96], &[94, 97], &goals);
}

#[test]
fn comparator_worked_example_all_met_stage3_raw_polish() {
    // Stage 3: after all minima are met, raw overflow decides the winner.
    let goals = vec![
        goal(Stat::CriticalRating, 100_000),
        goal(Stat::TacticalMastery, 100_000),
    ];
    assert_x_beats_y(&[250_000, 100_000], &[100_000, 100_000], &goals);
}

#[test]
fn comparator_zero_minimum_is_met_and_uses_stage3_raw_value() {
    let goals = vec![
        goal(Stat::CriticalRating, 0),
        goal(Stat::TacticalMastery, 100),
    ];
    assert_x_beats_y(&[200, 100], &[100, 100], &goals);
}

#[test]
fn test_spec_run1_c2_wins() {
    // C2 is the first candidate to meet all four minima exactly enough; extra CR/TT elsewhere does not matter.
    let mut resolved = Resolved::new();
    for (name, cr, tm, fnv, tt) in [
        ("C1", 480, 420, 310, 190),
        ("C2", 500, 450, 310, 200),
        ("C3", 490, 450, 310, 230),
        ("C4", 520, 430, 310, 230),
        ("C5", 460, 450, 310, 230),
    ] {
        resolved.insert(
            name.into(),
            make_cached(
                name,
                Slot::Chest,
                &[
                    (Stat::CriticalRating, cr),
                    (Stat::TacticalMastery, tm),
                    (Stat::Finesse, fnv),
                    (Stat::TacticalMitigation, tt),
                ],
            ),
        );
    }
    let goals = vec![
        goal(Stat::CriticalRating, 450),
        goal(Stat::TacticalMastery, 450),
        goal(Stat::Finesse, 300),
        goal(Stat::TacticalMitigation, 200),
    ];
    let winner = single_slot_result(
        &resolved,
        &["C1", "C2", "C3", "C4", "C5"],
        goals,
        Slot::Chest,
    );
    assert_eq!(winner, "C2");
}

#[test]
fn test_spec_run1_feasible() {
    let mut resolved = Resolved::new();
    resolved.insert(
        "C2".into(),
        make_cached(
            "C2",
            Slot::Chest,
            &[
                (Stat::CriticalRating, 500),
                (Stat::TacticalMastery, 450),
                (Stat::Finesse, 310),
                (Stat::TacticalMitigation, 200),
            ],
        ),
    );
    let goals = vec![
        goal(Stat::CriticalRating, 450),
        goal(Stat::TacticalMastery, 450),
        goal(Stat::Finesse, 300),
        goal(Stat::TacticalMitigation, 200),
    ];
    let result = optimize_ok(&resolved, &["C2".to_string()], &goals);
    assert!(result.feasible);
    assert!(result.failed_minima.is_empty());
}

#[test]
fn test_spec_run2_c6_wins_infeasible() {
    // Neither candidate is feasible, so the comparator prefers the stronger first-goal progress on CR.
    let mut resolved = Resolved::new();
    resolved.insert(
        "C6".into(),
        make_cached(
            "C6",
            Slot::Chest,
            &[
                (Stat::CriticalRating, 440),
                (Stat::TacticalMastery, 200),
                (Stat::Finesse, 200),
                (Stat::TacticalMitigation, 100),
            ],
        ),
    );
    resolved.insert(
        "C7".into(),
        make_cached(
            "C7",
            Slot::Chest,
            &[
                (Stat::CriticalRating, 400),
                (Stat::TacticalMastery, 440),
                (Stat::Finesse, 290),
                (Stat::TacticalMitigation, 190),
            ],
        ),
    );
    let goals = vec![
        goal(Stat::CriticalRating, 450),
        goal(Stat::TacticalMastery, 450),
        goal(Stat::Finesse, 300),
        goal(Stat::TacticalMitigation, 200),
    ];
    let result = optimize_ok(&resolved, &["C6".to_string(), "C7".to_string()], &goals);
    assert!(!result.feasible);
    assert_eq!(item_at(&result.gear_set, Slot::Chest).name, "C6");
}

#[test]
fn innate_stats_seed_search_goal_totals() {
    let mut resolved = Resolved::new();
    resolved.insert(
        "A".into(),
        make_cached("A", Slot::Chest, &[(Stat::CriticalRating, 50)]),
    );
    resolved.insert(
        "B".into(),
        make_cached("B", Slot::Chest, &[(Stat::TacticalMastery, 90)]),
    );
    let goals = vec![
        goal(Stat::CriticalRating, 100),
        goal(Stat::TacticalMastery, 100),
    ];
    let innate_stats = StatMap::from_pairs(&[(Stat::CriticalRating, 100)]);

    let result = optimize(
        &resolved,
        &["A".to_string(), "B".to_string()],
        &goals,
        &innate_stats,
    )
    .expect("optimization should succeed");

    assert_eq!(
        result
            .gear_set
            .item(Slot::Chest)
            .map(|item| item.name.as_str()),
        Some("B")
    );
    assert_eq!(result.gear_set.total(&Stat::CriticalRating), 100);
    assert_eq!(result.gear_set.total(&Stat::TacticalMastery), 90);
}

#[test]
fn test_c5_over_c4_same_slot() {
    // Both meet CR/FN/TT, so hitting the TM minimum with C5 beats C4's extra CR.
    let mut resolved = Resolved::new();
    resolved.insert(
        "C4".into(),
        make_cached(
            "C4",
            Slot::Chest,
            &[
                (Stat::CriticalRating, 520),
                (Stat::TacticalMastery, 430),
                (Stat::Finesse, 310),
                (Stat::TacticalMitigation, 230),
            ],
        ),
    );
    resolved.insert(
        "C5".into(),
        make_cached(
            "C5",
            Slot::Chest,
            &[
                (Stat::CriticalRating, 460),
                (Stat::TacticalMastery, 450),
                (Stat::Finesse, 310),
                (Stat::TacticalMitigation, 230),
            ],
        ),
    );
    let goals = vec![
        goal(Stat::CriticalRating, 450),
        goal(Stat::TacticalMastery, 450),
        goal(Stat::Finesse, 300),
        goal(Stat::TacticalMitigation, 200),
    ];
    let winner = single_slot_result(&resolved, &["C4", "C5"], goals, Slot::Chest);
    assert_eq!(winner, "C5");
}

#[test]
fn dominance_safety_keeps_lower_priority_met_ratchet_candidate() {
    // Dominance filtering must keep the build that preserves the later-goal ratchet, then match the brute-force oracle.
    let mut resolved = Resolved::new();
    resolved.insert(
        "Balanced".into(),
        make_cached(
            "Balanced",
            Slot::Head,
            &[(Stat::CriticalRating, 9), (Stat::TacticalMastery, 9)],
        ),
    );
    resolved.insert(
        "HighCR".into(),
        make_cached(
            "HighCR",
            Slot::Head,
            &[(Stat::CriticalRating, 10), (Stat::TacticalMastery, 0)],
        ),
    );
    resolved.insert(
        "Filler".into(),
        make_cached("Filler", Slot::Chest, &[(Stat::TacticalMastery, 1)]),
    );
    let names = vec![
        "Balanced".to_string(),
        "HighCR".to_string(),
        "Filler".to_string(),
    ];
    let goals = vec![
        goal(Stat::CriticalRating, 11),
        goal(Stat::TacticalMastery, 10),
    ];
    let production = optimize_ok(&resolved, &names, &goals);
    let oracle = oracle_optimize(&resolved, &names, &goals);
    assert_eq!(item_at(&production.gear_set, Slot::Head).name, "Balanced");
    assert_eq!(
        compare_builds(
            &result_goal_totals(&production, &goals),
            &result_goal_totals(&oracle, &goals),
            &goals,
        ),
        Rel::Equal
    );
}

#[test]
fn branch_and_bound_exactness_rejects_high_priority_overshoot_for_lower_goal() {
    // Exact search must honor Stage 1 minima before Stage 3 overflow, so 10/10 beats 100/0.
    let mut resolved = Resolved::new();
    resolved.insert(
        "Overshoot".into(),
        make_cached(
            "Overshoot",
            Slot::Head,
            &[(Stat::CriticalRating, 100), (Stat::TacticalMastery, 0)],
        ),
    );
    resolved.insert(
        "Satisfied".into(),
        make_cached(
            "Satisfied",
            Slot::Head,
            &[(Stat::CriticalRating, 10), (Stat::TacticalMastery, 10)],
        ),
    );
    let goals = vec![
        goal(Stat::CriticalRating, 10),
        goal(Stat::TacticalMastery, 10),
    ];
    let winner = single_slot_result(&resolved, &["Overshoot", "Satisfied"], goals, Slot::Head);
    assert_eq!(winner, "Satisfied");
}

#[test]
fn test_paired_slots_use_two_distinct_instances_and_sum_once_each() {
    // Paired slots consume two distinct wrists and total 100 + 80 = 180 exactly once each.
    let mut resolved = Resolved::new();
    resolved.insert(
        "WristA".into(),
        make_cached("WristA", Slot::Wrist1, &[(Stat::Vitality, 100)]),
    );
    resolved.insert(
        "WristB".into(),
        make_cached("WristB", Slot::Wrist1, &[(Stat::Vitality, 80)]),
    );
    let goals = vec![goal(Stat::Vitality, 0)];
    let result = optimize_ok(
        &resolved,
        &["WristA".to_string(), "WristB".to_string()],
        &goals,
    );
    assert_eq!(result.gear_set.total(&Stat::Vitality), 180);
    let mut chosen = [
        item_at(&result.gear_set, Slot::Wrist1).name.as_str(),
        item_at(&result.gear_set, Slot::Wrist2).name.as_str(),
    ];
    chosen.sort_unstable();
    assert_eq!(chosen, ["WristA", "WristB"]);
}

#[test]
fn test_no_goals_returns_first_candidates() {
    let mut resolved = Resolved::new();
    resolved.insert(
        "ItemA".into(),
        make_cached("ItemA", Slot::Head, &[(Stat::Vitality, 50)]),
    );
    let result = optimize_ok(&resolved, &["ItemA".to_string()], &[]);
    assert!(result.feasible);
    assert!(result.failed_minima.is_empty());
}

#[test]
fn test_single_paired_instance_cannot_fill_both_slots() {
    // One wrist item may satisfy the minimum alone, but it cannot be duplicated into the second wrist slot.
    let mut resolved = Resolved::new();
    resolved.insert(
        "WristX".into(),
        make_cached("WristX", Slot::Wrist1, &[(Stat::CriticalRating, 500)]),
    );
    let goals = vec![goal(Stat::CriticalRating, 400)];
    let result = optimize_ok(&resolved, &["WristX".to_string()], &goals);
    assert!(result.feasible);
    assert_eq!(item_at(&result.gear_set, Slot::Wrist1).name, "WristX");
    assert!(item_at(&result.gear_set, Slot::Wrist2)
        .name
        .starts_with("[empty"));
    assert_eq!(result.gear_set.total(&Stat::CriticalRating), 500);
}

#[test]
fn test_no_self_pair_for_tight_minimum_is_infeasible() {
    // The best legal ring pair is 500 + 300 = 800, so a 900 minimum stays infeasible without self-pairing.
    let mut resolved = Resolved::new();
    resolved.insert(
        "RingA".into(),
        make_cached("RingA", Slot::Finger1, &[(Stat::CriticalRating, 500)]),
    );
    resolved.insert(
        "RingB".into(),
        make_cached("RingB", Slot::Finger1, &[(Stat::CriticalRating, 300)]),
    );
    let goals = vec![goal(Stat::CriticalRating, 900)];
    let result = optimize_ok(
        &resolved,
        &["RingA".to_string(), "RingB".to_string()],
        &goals,
    );
    assert!(!result.feasible);
    assert_eq!(result.gear_set.total(&Stat::CriticalRating), 800);
}

#[test]
fn test_two_distinct_same_name_instances_can_fill_paired_slots() {
    // Duplicate display names are fine when the instance keys are distinct; both 500-value rings can be worn together.
    let mut resolved = Resolved::new();
    resolved.insert(
        instance_key(1, Slot::Finger1, "Same Ring"),
        make_cached("Same Ring", Slot::Finger1, &[(Stat::CriticalRating, 500)]),
    );
    resolved.insert(
        instance_key(2, Slot::Finger1, "Same Ring"),
        make_cached("Same Ring", Slot::Finger1, &[(Stat::CriticalRating, 500)]),
    );
    let goals = vec![goal(Stat::CriticalRating, 900)];
    let names = vec![
        instance_key(1, Slot::Finger1, "Same Ring"),
        instance_key(2, Slot::Finger1, "Same Ring"),
    ];
    let result = optimize_ok(&resolved, &names, &goals);
    assert!(result.feasible);
    assert_eq!(item_at(&result.gear_set, Slot::Finger1).name, "Same Ring");
    assert_eq!(item_at(&result.gear_set, Slot::Finger2).name, "Same Ring");
    assert_eq!(result.gear_set.total(&Stat::CriticalRating), 1000);
}

#[test]
fn test_one_same_name_instance_alone_is_infeasible_but_two_are_feasible() {
    let goals = vec![goal(Stat::CriticalRating, 900)];
    let mut one = Resolved::new();
    one.insert(
        instance_key(1, Slot::Finger1, "Same Ring"),
        make_cached("Same Ring", Slot::Finger1, &[(Stat::CriticalRating, 500)]),
    );
    let one_name = vec![instance_key(1, Slot::Finger1, "Same Ring")];
    let one_result = optimize_ok(&one, &one_name, &goals);
    assert!(!one_result.feasible);
    assert_eq!(one_result.gear_set.total(&Stat::CriticalRating), 500);

    let mut two = one;
    two.insert(
        instance_key(2, Slot::Finger1, "Same Ring"),
        make_cached("Same Ring", Slot::Finger1, &[(Stat::CriticalRating, 500)]),
    );
    let two_names = vec![
        instance_key(1, Slot::Finger1, "Same Ring"),
        instance_key(2, Slot::Finger1, "Same Ring"),
    ];
    let two_result = optimize_ok(&two, &two_names, &goals);
    assert!(two_result.feasible);
    assert_eq!(two_result.gear_set.total(&Stat::CriticalRating), 1000);
}

#[test]
fn test_pair_family_consistency_for_ear_singleton_and_duplicate_copy() {
    let goals = vec![goal(Stat::TacticalMitigation, 700)];
    let mut one = Resolved::new();
    one.insert(
        "EarOnly".into(),
        make_cached(
            "Same Earring",
            Slot::Ear1,
            &[(Stat::TacticalMitigation, 400)],
        ),
    );
    let one_result = optimize_ok(&one, &["EarOnly".to_string()], &goals);
    assert!(!one_result.feasible);
    assert_eq!(one_result.gear_set.total(&Stat::TacticalMitigation), 400);

    let mut two = one;
    two.insert(
        "EarCopy".into(),
        make_cached(
            "Same Earring",
            Slot::Ear1,
            &[(Stat::TacticalMitigation, 400)],
        ),
    );
    let two_result = optimize_ok(
        &two,
        &["EarOnly".to_string(), "EarCopy".to_string()],
        &goals,
    );
    assert!(two_result.feasible);
    assert_eq!(two_result.gear_set.total(&Stat::TacticalMitigation), 800);
    assert_eq!(item_at(&two_result.gear_set, Slot::Ear1).name, "Same Earring");
    assert_eq!(item_at(&two_result.gear_set, Slot::Ear2).name, "Same Earring");
}

#[test]
fn test_pair_infeasible_when_minimum_exceeds_best_legal_pair() {
    // Raising the minimum from 800 to 801 keeps the same best pair but flips feasibility.
    let mut resolved = Resolved::new();
    resolved.insert(
        "RingA".into(),
        make_cached("RingA", Slot::Finger1, &[(Stat::CriticalRating, 500)]),
    );
    resolved.insert(
        "RingB".into(),
        make_cached("RingB", Slot::Finger1, &[(Stat::CriticalRating, 300)]),
    );
    let goals = vec![goal(Stat::CriticalRating, 801)];
    let result = optimize_ok(
        &resolved,
        &["RingA".to_string(), "RingB".to_string()],
        &goals,
    );
    assert!(!result.feasible);
    assert_eq!(result.gear_set.total(&Stat::CriticalRating), 800);
}

#[test]
fn test_single_candidate_meets_minimum_exactly() {
    // Equality counts as satisfied: 300 TMit meets a 300 minimum.
    let mut resolved = Resolved::new();
    resolved.insert(
        "Helm".into(),
        make_cached("Helm", Slot::Head, &[(Stat::TacticalMitigation, 300)]),
    );
    let result = optimize_ok(
        &resolved,
        &["Helm".to_string()],
        &[goal(Stat::TacticalMitigation, 300)],
    );
    assert!(result.feasible);
}

#[test]
fn test_single_candidate_one_below_minimum() {
    // Falling short by one point should report the exact 300 vs 299 deficit.
    let mut resolved = Resolved::new();
    resolved.insert(
        "Helm".into(),
        make_cached("Helm", Slot::Head, &[(Stat::TacticalMitigation, 299)]),
    );
    let result = optimize_ok(
        &resolved,
        &["Helm".to_string()],
        &[goal(Stat::TacticalMitigation, 300)],
    );
    assert!(!result.feasible);
    assert!(matches!(
        result
            .failed_minima
            .iter()
            .find(|(s, _, _)| *s == Stat::TacticalMitigation),
        Some((_, 300, 299))
    ));
}

#[test]
fn test_too_many_single_slot_candidates_is_refused() {
    let mut resolved = Resolved::new();
    let mut names: Vec<String> = Vec::new();
    for i in 1..=9usize {
        let name = format!("Head{}", i);
        resolved.insert(
            name.clone(),
            make_cached(&name, Slot::Head, &[(Stat::CriticalRating, i as i64 * 10)]),
        );
        names.push(name);
    }
    let err = optimize(
        &resolved,
        &names,
        &[goal(Stat::CriticalRating, 0)],
        &StatMap::new(),
    )
    .unwrap_err();
    assert_eq!(
        *err,
        OptimizeError::TooManyCandidates {
            slot_label: "Head".to_string(),
            count: 9,
            max: 8,
        }
    );
}

#[test]
fn test_too_many_paired_family_candidates_is_refused() {
    let mut resolved = Resolved::new();
    let mut names: Vec<String> = Vec::new();
    for i in 1..=9usize {
        let name = format!("Ring{}", i);
        let slot = if i % 2 == 0 {
            Slot::Finger1
        } else {
            Slot::Finger2
        };
        resolved.insert(
            name.clone(),
            make_cached(&name, slot, &[(Stat::CriticalRating, i as i64 * 10)]),
        );
        names.push(name);
    }
    let err = optimize(
        &resolved,
        &names,
        &[goal(Stat::CriticalRating, 0)],
        &StatMap::new(),
    )
    .unwrap_err();
    assert_eq!(
        *err,
        OptimizeError::TooManyCandidates {
            slot_label: "Finger".to_string(),
            count: 9,
            max: 8,
        }
    );
}

#[test]
fn test_exactly_eight_candidates_is_allowed() {
    let mut resolved = Resolved::new();
    let mut names: Vec<String> = Vec::new();
    for i in 1..=8usize {
        let name = format!("Head{}", i);
        resolved.insert(
            name.clone(),
            make_cached(&name, Slot::Head, &[(Stat::CriticalRating, i as i64 * 10)]),
        );
        names.push(name);
    }
    assert!(optimize(
        &resolved,
        &names,
        &[goal(Stat::CriticalRating, 0)],
        &StatMap::new()
    )
    .is_ok());
}

#[test]
fn test_eight_per_family_paired_is_allowed() {
    let mut resolved = Resolved::new();
    let mut names: Vec<String> = Vec::new();
    for i in 1..=8usize {
        let name = format!("Ring{}", i);
        let slot = if i % 2 == 0 {
            Slot::Finger1
        } else {
            Slot::Finger2
        };
        resolved.insert(
            name.clone(),
            make_cached(&name, slot, &[(Stat::CriticalRating, i as i64 * 10)]),
        );
        names.push(name);
    }
    assert!(optimize(
        &resolved,
        &names,
        &[goal(Stat::CriticalRating, 0)],
        &StatMap::new()
    )
    .is_ok());
}

#[test]
fn test_missing_slot_emits_placeholder_warning() {
    let mut resolved = Resolved::new();
    resolved.insert(
        "Helm".into(),
        make_cached("Helm", Slot::Head, &[(Stat::CriticalRating, 100)]),
    );
    let result = optimize_ok(
        &resolved,
        &["Helm".to_string()],
        &[goal(Stat::CriticalRating, 0)],
    );
    assert!(result
        .warnings
        .iter()
        .any(|w| w.contains("no candidates found")));
    assert_eq!(item_at(&result.gear_set, Slot::Head).name, "Helm");
}

#[test]
fn test_negative_stat_compensated_across_slots() {
    // Negative contributions still add algebraically: -50 + 300 = 250, so another slot can compensate.
    let mut resolved = Resolved::new();
    resolved.insert(
        "ItemA".into(),
        make_cached(
            "ItemA",
            Slot::Head,
            &[(Stat::CriticalRating, 500), (Stat::TacticalMitigation, -50)],
        ),
    );
    resolved.insert(
        "ItemX".into(),
        make_cached("ItemX", Slot::Chest, &[(Stat::TacticalMitigation, 300)]),
    );
    let goals = vec![goal(Stat::TacticalMitigation, 200)];
    let result = optimize_ok(
        &resolved,
        &["ItemA".to_string(), "ItemX".to_string()],
        &goals,
    );
    assert!(result.feasible);
    assert_eq!(result.gear_set.total(&Stat::TacticalMitigation), 250);
    assert_eq!(item_at(&result.gear_set, Slot::Head).name, "ItemA");
}

#[test]
fn test_negative_stat_causes_infeasibility() {
    // A negative goal stat may drive the achieved total below zero and must surface as an unmet minimum.
    let mut resolved = Resolved::new();
    resolved.insert(
        "ItemA".into(),
        make_cached("ItemA", Slot::Head, &[(Stat::TacticalMitigation, -50)]),
    );
    let result = optimize_ok(
        &resolved,
        &["ItemA".to_string()],
        &[goal(Stat::TacticalMitigation, 1)],
    );
    assert!(!result.feasible);
    assert!(matches!(
        result
            .failed_minima
            .iter()
            .find(|(s, _, _)| *s == Stat::TacticalMitigation),
        Some((_, 1, achieved)) if *achieved < 0
    ));
}

#[test]
fn test_negative_stat_on_non_goal_stat_does_not_crash() {
    // Off-goal negatives are ignored by the objective but must still pass through the optimizer safely.
    let mut resolved = Resolved::new();
    resolved.insert(
        "ItemA".into(),
        make_cached(
            "ItemA",
            Slot::Head,
            &[(Stat::CriticalRating, 300), (Stat::Finesse, -999)],
        ),
    );
    let result = optimize_ok(
        &resolved,
        &["ItemA".to_string()],
        &[goal(Stat::CriticalRating, 300)],
    );
    assert!(result.feasible);
    assert_eq!(item_at(&result.gear_set, Slot::Head).name, "ItemA");
}

// ── Two-handed hand-pool tests ────────────────────────────────────────────

#[test]
fn test_two_handed_main_suppresses_attractive_off_hand() {
    // The shield's 999 CR would beat the greatsword's lone 1000 if it
    // could combine with it (1999); a two-handed main must never take a
    // real off-hand, so the best legal build is greatsword + empty off.
    let mut resolved = Resolved::new();
    resolved.insert(
        "Greatsword".into(),
        make_cached_2h("Greatsword", &[(Stat::CriticalRating, 1000)]),
    );
    resolved.insert(
        "Shield".into(),
        make_cached("Shield", Slot::OffHand, &[(Stat::CriticalRating, 999)]),
    );
    let result = optimize_ok(
        &resolved,
        &["Greatsword".to_string(), "Shield".to_string()],
        &[goal(Stat::CriticalRating, 0)],
    );
    assert_eq!(item_at(&result.gear_set, Slot::MainHand).name, "Greatsword");
    assert_eq!(
        item_at(&result.gear_set, Slot::OffHand).name,
        "[empty Off-hand]",
        "two-handed main must block the off-hand slot"
    );
    assert_eq!(result.gear_set.total(&Stat::CriticalRating), 1000);
}

#[test]
fn test_one_handed_main_combines_with_off_hand() {
    let mut resolved = Resolved::new();
    resolved.insert(
        "Sword".into(),
        make_cached("Sword", Slot::MainHand, &[(Stat::CriticalRating, 100)]),
    );
    resolved.insert(
        "Shield".into(),
        make_cached("Shield", Slot::OffHand, &[(Stat::CriticalRating, 50)]),
    );
    let result = optimize_ok(
        &resolved,
        &["Sword".to_string(), "Shield".to_string()],
        &[goal(Stat::CriticalRating, 0)],
    );
    assert_eq!(item_at(&result.gear_set, Slot::MainHand).name, "Sword");
    assert_eq!(item_at(&result.gear_set, Slot::OffHand).name, "Shield");
    assert_eq!(result.gear_set.total(&Stat::CriticalRating), 150);
}

#[test]
fn test_prefers_one_handed_plus_off_hand_when_stats_better() {
    // 1H (100) + off (50) = 150 beats 2H (120) + blocked off.
    let mut resolved = Resolved::new();
    resolved.insert(
        "Greatsword".into(),
        make_cached_2h("Greatsword", &[(Stat::CriticalRating, 120)]),
    );
    resolved.insert(
        "Sword".into(),
        make_cached("Sword", Slot::MainHand, &[(Stat::CriticalRating, 100)]),
    );
    resolved.insert(
        "Shield".into(),
        make_cached("Shield", Slot::OffHand, &[(Stat::CriticalRating, 50)]),
    );
    let result = optimize_ok(
        &resolved,
        &[
            "Greatsword".to_string(),
            "Sword".to_string(),
            "Shield".to_string(),
        ],
        &[goal(Stat::CriticalRating, 0)],
    );
    assert_eq!(item_at(&result.gear_set, Slot::MainHand).name, "Sword");
    assert_eq!(item_at(&result.gear_set, Slot::OffHand).name, "Shield");
    assert_eq!(result.gear_set.total(&Stat::CriticalRating), 150);
}

#[test]
fn test_prefers_two_handed_when_stats_better() {
    // 2H (200) beats 1H (100) + off (50) = 150.
    let mut resolved = Resolved::new();
    resolved.insert(
        "Greatsword".into(),
        make_cached_2h("Greatsword", &[(Stat::CriticalRating, 200)]),
    );
    resolved.insert(
        "Sword".into(),
        make_cached("Sword", Slot::MainHand, &[(Stat::CriticalRating, 100)]),
    );
    resolved.insert(
        "Shield".into(),
        make_cached("Shield", Slot::OffHand, &[(Stat::CriticalRating, 50)]),
    );
    let result = optimize_ok(
        &resolved,
        &[
            "Greatsword".to_string(),
            "Sword".to_string(),
            "Shield".to_string(),
        ],
        &[goal(Stat::CriticalRating, 0)],
    );
    assert_eq!(item_at(&result.gear_set, Slot::MainHand).name, "Greatsword");
    assert_eq!(
        item_at(&result.gear_set, Slot::OffHand).name,
        "[empty Off-hand]"
    );
    assert_eq!(result.gear_set.total(&Stat::CriticalRating), 200);
}

#[test]
fn test_real_main_required_even_when_it_hurts_the_goal() {
    // Real-items-required: the empty main-hand placeholder is selectable
    // only when the main position has no eligible real item. Here the sole
    // main candidate is a two-handed weapon that hurts the goal, but it
    // must still be equipped (blocking the off-hand) rather than left empty
    // in favor of the shield. (Updated for Task 2: the old behavior let the
    // main hand go empty so the shield could be worn.)
    let mut resolved = Resolved::new();
    resolved.insert(
        "Cursed Greatsword".into(),
        make_cached_2h("Cursed Greatsword", &[(Stat::CriticalRating, -10)]),
    );
    resolved.insert(
        "Shield".into(),
        make_cached("Shield", Slot::OffHand, &[(Stat::CriticalRating, 100)]),
    );
    let result = optimize_ok(
        &resolved,
        &["Cursed Greatsword".to_string(), "Shield".to_string()],
        &[goal(Stat::CriticalRating, 0)],
    );
    assert_eq!(
        item_at(&result.gear_set, Slot::MainHand).name,
        "Cursed Greatsword"
    );
    assert_eq!(
        item_at(&result.gear_set, Slot::OffHand).name,
        "[empty Off-hand]",
        "a two-handed main blocks the off-hand even when a shield exists"
    );
    assert_eq!(result.gear_set.total(&Stat::CriticalRating), -10);
}

#[test]
fn test_one_handed_with_negative_off_hand_still_requires_real_off() {
    // Real-items-required: when a real off-hand item exists it must be worn
    // rather than leaving the off-hand empty, even if it hurts the goal.
    // (Updated for Task 2: the old behavior preferred the empty off-hand.)
    let mut resolved = Resolved::new();
    resolved.insert(
        "Sword".into(),
        make_cached("Sword", Slot::MainHand, &[(Stat::CriticalRating, 100)]),
    );
    resolved.insert(
        "Cursed Shield".into(),
        make_cached(
            "Cursed Shield",
            Slot::OffHand,
            &[(Stat::CriticalRating, -40)],
        ),
    );
    let result = optimize_ok(
        &resolved,
        &["Sword".to_string(), "Cursed Shield".to_string()],
        &[goal(Stat::CriticalRating, 0)],
    );
    assert_eq!(item_at(&result.gear_set, Slot::MainHand).name, "Sword");
    assert_eq!(
        item_at(&result.gear_set, Slot::OffHand).name,
        "Cursed Shield",
        "a real off-hand must be worn rather than left empty"
    );
    assert_eq!(result.gear_set.total(&Stat::CriticalRating), 60);
}

#[test]
fn test_combined_hand_pool_of_twelve_is_allowed() {
    // The two hand slots share one combined cap of 12. Six main-hand items
    // plus six off-hand items is exactly at the cap and must be accepted.
    // (Updated for Task 3: the old per-slot cap of 8 no longer applies to
    // the hand slots.)
    let mut resolved = Resolved::new();
    let mut names: Vec<String> = Vec::new();
    for i in 1..=6usize {
        let main = format!("Main{}", i);
        let cached = if i % 2 == 0 {
            make_cached_2h(&main, &[(Stat::CriticalRating, i as i64 * 10)])
        } else {
            make_cached(
                &main,
                Slot::MainHand,
                &[(Stat::CriticalRating, i as i64 * 10)],
            )
        };
        resolved.insert(main.clone(), cached);
        names.push(main);
        let off = format!("Off{}", i);
        resolved.insert(
            off.clone(),
            make_cached(&off, Slot::OffHand, &[(Stat::CriticalRating, i as i64)]),
        );
        names.push(off);
    }
    let result = optimize(
        &resolved,
        &names,
        &[goal(Stat::CriticalRating, 0)],
        &StatMap::new(),
    );
    assert!(
        result.is_ok(),
        "12 combined hand candidates must be within the cap"
    );
    // Best: Main6 (60, two-handed) beats Main5 (50, 1H) + Off6 (6) = 56.
    let result = result.unwrap();
    assert_eq!(result.gear_set.total(&Stat::CriticalRating), 60);
}

#[test]
fn test_thirteen_combined_hand_candidates_is_refused() {
    // Thirteen real hand items (7 main-hand + 6 off-hand) exceed the
    // combined cap of 12 and must be refused with a message stating the
    // count, the cap, and the counted categories. (Updated for Task 3: the
    // old test refused 9 main-hand items under the per-slot cap.)
    let mut resolved = Resolved::new();
    let mut names: Vec<String> = Vec::new();
    for i in 1..=7usize {
        let name = format!("Main{}", i);
        resolved.insert(
            name.clone(),
            make_cached(&name, Slot::MainHand, &[(Stat::CriticalRating, i as i64)]),
        );
        names.push(name);
    }
    for i in 1..=6usize {
        let name = format!("Off{}", i);
        resolved.insert(
            name.clone(),
            make_cached(&name, Slot::OffHand, &[(Stat::CriticalRating, i as i64)]),
        );
        names.push(name);
    }
    let err = optimize(
        &resolved,
        &names,
        &[goal(Stat::CriticalRating, 0)],
        &StatMap::new(),
    )
    .unwrap_err();
    assert_eq!(
        *err,
        OptimizeError::TooManyHandCandidates { count: 13, max: 12 }
    );
    let message = err.message();
    assert!(
        message.contains("13"),
        "message states the count: {message}"
    );
    assert!(message.contains("12"), "message states the cap: {message}");
    assert!(
        message.contains("Main-hand-only")
            && message.contains("Off-hand-only")
            && message.contains("Either-hand"),
        "message names the counted categories: {message}"
    );
}

#[test]
fn test_missing_hand_slots_emit_placeholder_warnings() {
    let mut resolved = Resolved::new();
    resolved.insert(
        "Helm".into(),
        make_cached("Helm", Slot::Head, &[(Stat::CriticalRating, 100)]),
    );
    let result = optimize_ok(
        &resolved,
        &["Helm".to_string()],
        &[goal(Stat::CriticalRating, 0)],
    );
    for label in ["Main-hand", "Off-hand"] {
        assert!(
            result
                .warnings
                .iter()
                .any(|w| w.contains(label) && w.contains("no candidates found")),
            "expected placeholder warning for {}: {:?}",
            label,
            result.warnings
        );
    }
    assert_eq!(
        item_at(&result.gear_set, Slot::MainHand).name,
        "[empty Main-hand]"
    );
    assert_eq!(
        item_at(&result.gear_set, Slot::OffHand).name,
        "[empty Off-hand]"
    );
}

// ── Either-hand hand-pool tests (Task 2) ──────────────────────────────────

#[test]
fn test_either_hand_item_selectable_in_main_hand() {
    // An Either-hand item paired with an off-hand-only item is best worn in
    // the main hand so both real items can be equipped together.
    let mut resolved = Resolved::new();
    resolved.insert(
        "Versatile Mace".into(),
        make_cached_either("Versatile Mace", &[(Stat::CriticalRating, 100)]),
    );
    resolved.insert(
        "Shield".into(),
        make_cached("Shield", Slot::OffHand, &[(Stat::CriticalRating, 50)]),
    );
    let result = optimize_ok(
        &resolved,
        &["Versatile Mace".to_string(), "Shield".to_string()],
        &[goal(Stat::CriticalRating, 0)],
    );
    assert_eq!(
        item_at(&result.gear_set, Slot::MainHand).name,
        "Versatile Mace"
    );
    assert_eq!(item_at(&result.gear_set, Slot::OffHand).name, "Shield");
    assert_eq!(result.gear_set.total(&Stat::CriticalRating), 150);
}

#[test]
fn test_either_hand_item_selectable_in_off_hand() {
    // A main-hand-only item alongside an Either-hand item pushes the
    // Either-hand item into the off-hand so both are equipped.
    let mut resolved = Resolved::new();
    resolved.insert(
        "Sword".into(),
        make_cached("Sword", Slot::MainHand, &[(Stat::CriticalRating, 100)]),
    );
    resolved.insert(
        "Versatile Mace".into(),
        make_cached_either("Versatile Mace", &[(Stat::CriticalRating, 50)]),
    );
    let result = optimize_ok(
        &resolved,
        &["Sword".to_string(), "Versatile Mace".to_string()],
        &[goal(Stat::CriticalRating, 0)],
    );
    assert_eq!(item_at(&result.gear_set, Slot::MainHand).name, "Sword");
    assert_eq!(item_at(&result.gear_set, Slot::OffHand).name, "Versatile Mace");
    assert_eq!(result.gear_set.total(&Stat::CriticalRating), 150);
}

#[test]
fn test_one_either_hand_instance_cannot_dual_wield_but_two_copies_can() {
    // A single owned Either-hand instance fills only one hand, so a goal
    // that needs both hands' worth is infeasible; two owned copies with
    // distinct instance keys may dual-wield to reach it.
    let goals = vec![goal(Stat::CriticalRating, 200)];

    let mut one = Resolved::new();
    one.insert(
        instance_key(1, Slot::OffHand, "Versatile Mace"),
        make_cached_either("Versatile Mace", &[(Stat::CriticalRating, 100)]),
    );
    let one_names = vec![instance_key(1, Slot::OffHand, "Versatile Mace")];
    let one_result = optimize_ok(&one, &one_names, &goals);
    assert!(!one_result.feasible, "one instance cannot fill both hands");
    assert_eq!(one_result.gear_set.total(&Stat::CriticalRating), 100);

    let mut two = one;
    two.insert(
        instance_key(2, Slot::OffHand, "Versatile Mace"),
        make_cached_either("Versatile Mace", &[(Stat::CriticalRating, 100)]),
    );
    let two_names = vec![
        instance_key(1, Slot::OffHand, "Versatile Mace"),
        instance_key(2, Slot::OffHand, "Versatile Mace"),
    ];
    let two_result = optimize_ok(&two, &two_names, &goals);
    assert!(two_result.feasible, "two copies may dual-wield");
    assert_eq!(
        item_at(&two_result.gear_set, Slot::MainHand).name,
        "Versatile Mace"
    );
    assert_eq!(
        item_at(&two_result.gear_set, Slot::OffHand).name,
        "Versatile Mace"
    );
    assert_eq!(two_result.gear_set.total(&Stat::CriticalRating), 200);
}

#[test]
fn test_all_zero_real_main_hand_beats_empty_placeholder_on_tie() {
    // A real main-hand item contributing nothing still beats the empty
    // placeholder: real-items-required means the placeholder is not even
    // offered while a real main exists, so the build shows the real item.
    let mut resolved = Resolved::new();
    resolved.insert(
        "Blank Sword".into(),
        make_cached("Blank Sword", Slot::MainHand, &[(Stat::CriticalRating, 0)]),
    );
    let result = optimize_ok(
        &resolved,
        &["Blank Sword".to_string()],
        &[goal(Stat::CriticalRating, 0)],
    );
    assert_eq!(item_at(&result.gear_set, Slot::MainHand).name, "Blank Sword");
    assert_eq!(
        item_at(&result.gear_set, Slot::OffHand).name,
        "[empty Off-hand]"
    );
    assert_eq!(result.gear_set.total(&Stat::CriticalRating), 0);
}

#[test]
fn test_empty_placeholder_selected_when_hand_pool_is_truly_empty() {
    // With no main-hand-eligible item at all, the empty main-hand
    // placeholder becomes selectable so a real off-hand item can be worn.
    let mut resolved = Resolved::new();
    resolved.insert(
        "Shield".into(),
        make_cached("Shield", Slot::OffHand, &[(Stat::CriticalRating, 40)]),
    );
    let result = optimize_ok(
        &resolved,
        &["Shield".to_string()],
        &[goal(Stat::CriticalRating, 0)],
    );
    assert_eq!(
        item_at(&result.gear_set, Slot::MainHand).name,
        "[empty Main-hand]"
    );
    assert_eq!(item_at(&result.gear_set, Slot::OffHand).name, "Shield");
    assert_eq!(result.gear_set.total(&Stat::CriticalRating), 40);
}

fn run_fuzzer_cases(case_count: usize, seed: u64) {
    let stats = [
        Stat::CriticalRating,
        Stat::TacticalMastery,
        Stat::Finesse,
        Stat::TacticalMitigation,
    ];
    let families = [
        Slot::Head,
        Slot::Chest,
        Slot::Legs,
        Slot::Wrist1,
        Slot::Finger1,
        Slot::Ear1,
        Slot::MainHand,
        Slot::OffHand,
    ];
    let mut rng = Lcg::new(seed);

    for case_idx in 0..case_count {
        let mut resolved = Resolved::new();
        let mut names = Vec::new();
        let family_count = rng.range_usize(2, 4);
        let mut selected_families = Vec::new();
        while selected_families.len() < family_count {
            let family = families[rng.range_usize(0, families.len() - 1)];
            if !selected_families.contains(&family) {
                selected_families.push(family);
            }
        }

        let mut instance_idx = 0usize;
        for family in selected_families {
            let candidate_count = rng.range_usize(1, 4);
            for local_idx in 0..candidate_count {
                let slot = match family {
                    Slot::Wrist1 if rng.chance(1, 2) => Slot::Wrist2,
                    Slot::Finger1 if rng.chance(1, 2) => Slot::Finger2,
                    Slot::Ear1 if rng.chance(1, 2) => Slot::Ear2,
                    other => other,
                };
                let name = format!("case{}_item{}_{}", case_idx, instance_idx, local_idx);
                let key = instance_key(instance_idx, slot, &name);
                instance_idx += 1;
                let item_stats: Vec<(Stat, i64)> = stats
                    .iter()
                    .map(|stat| (*stat, rng.range_i64(-3, 15)))
                    .collect();
                // Half of the main-hand candidates are two-handed and
                // half of the off-hand candidates are Either-hand so the
                // fuzzer exercises every legal hand combination against
                // the oracle.
                let cached = if family == Slot::MainHand && rng.chance(1, 2) {
                    make_cached_2h(&name, &item_stats)
                } else if slot == Slot::OffHand && rng.chance(1, 2) {
                    make_cached_either(&name, &item_stats)
                } else {
                    make_cached(&name, slot, &item_stats)
                };
                resolved.insert(key.clone(), cached);
                names.push(key);
            }
        }

        let goal_count = rng.range_usize(1, 3);
        let mut goals = Vec::new();
        while goals.len() < goal_count {
            let stat = stats[rng.range_usize(0, stats.len() - 1)];
            if goals.iter().any(|goal: &StatGoal| goal.stat == stat) {
                continue;
            }
            let minimum = if rng.chance(1, 5) {
                0
            } else {
                rng.range_i64(1, 20)
            };
            goals.push(goal(stat, minimum));
        }

        let production = optimize_ok(&resolved, &names, &goals);
        let oracle = oracle_optimize(&resolved, &names, &goals);
        let production_totals = result_goal_totals(&production, &goals);
        let oracle_totals = result_goal_totals(&oracle, &goals);
        if production.feasible != oracle.feasible
            || compare_builds(&production_totals, &oracle_totals, &goals) != Rel::Equal
        {
            panic!(
                "fuzzer mismatch case {case_idx}\ngoals: {:?}\nnames: {:?}\nresolved: {:#?}\nproduction feasible/totals: {:?} {:?}\noracle feasible/totals: {:?} {:?}",
                goals,
                names,
                resolved,
                production.feasible,
                production_totals,
                oracle.feasible,
                oracle_totals,
            );
        }
    }
}

#[test]
fn differential_fuzzer_matches_oracle_smoke() {
    // Smoke-check the production search against the brute-force oracle on a modest randomized corpus.
    run_fuzzer_cases(250, 0x5eed_1234_abcd_9876);
}

#[test]
fn candidate_keys_differ_by_index() {
    let ring = make_cached("Ring", Slot::Finger2, &[]);
    assert_eq!(optimizer_candidate_key(7, &ring), "0007::Finger::Ring");
    assert_ne!(optimizer_candidate_key(7, &ring), optimizer_candidate_key(70, &ring));
    assert_eq!(optimizer_candidate_key(12345, &ring), "12345::Finger::Ring");
}

#[test]
fn stat_bound_accepts_the_limit_and_refuses_beyond_it() {
    let at = make_cached("At", Slot::Head, &[(Stat::Morale, STAT_LIMIT), (Stat::Power, -STAT_LIMIT)]);
    let over = make_cached("Over", Slot::Chest, &[(Stat::Might, STAT_LIMIT + 1)]);
    assert!(at.stats.is_bounded());
    assert!(!over.stats.is_bounded());
    assert!(resolved_within_limit(&[("a".to_string(), at.duplicate())]));
    assert!(!resolved_within_limit(&[("a".to_string(), at), ("b".to_string(), over)]));
    assert!(resolved_within_limit(&[]));
}

#[test]
fn candidate_order_does_not_change_the_result() {
    let mut resolved = Resolved::new();
    let items = vec![
        make_cached("Helm A", Slot::Head, &[(Stat::CriticalRating, 10), (Stat::Morale, 5)]),
        make_cached("Helm B", Slot::Head, &[(Stat::CriticalRating, 10), (Stat::Morale, 5)]),
        make_cached("Ring", Slot::Finger1, &[(Stat::Morale, 7)]),
        make_cached("Ring", Slot::Finger1, &[(Stat::Morale, 7)]),
        make_cached("Boots", Slot::Feet, &[(Stat::CriticalRating, 3)]),
    ];
    let mut names = Vec::new();
    for (idx, it) in items.iter().enumerate() {
        let key = optimizer_candidate_key(idx, it);
        resolved.insert(key.clone(), it.duplicate());
        names.push(key);
    }
    let goals = vec![StatGoal { stat: Stat::CriticalRating, minimum: 12 }, StatGoal { stat: Stat::Morale, minimum: 0 }];
    let forward = optimize_ok(&resolved, &names, &goals);
    let mut reversed = names.clone();
    reversed.reverse();
    let backward = optimize_ok(&resolved, &reversed, &goals);
    for slot in Slot::all() {
        let a = forward.gear_set.items[lgo::gear::slot_index(slot)].as_ref().map(|it| (it.name.clone(), it.stats));
        let b = backward.gear_set.items[lgo::gear::slot_index(slot)].as_ref().map(|it| (it.name.clone(), it.stats));
        assert_eq!(a.map(|x| x.0), b.map(|x| x.0), "slot {:?}", slot);
    }
    assert_eq!(forward.feasible, backward.feasible);
    assert_eq!(forward.failed_minima, backward.failed_minima);
    assert_eq!(forward.warnings, backward.warnings);
}

#[test]
fn comparator_key_puts_met_flags_before_clamped_and_raw_totals() {
    let goals = vec![StatGoal { stat: Stat::CriticalRating, minimum: 100 }, StatGoal { stat: Stat::Morale, minimum: 0 }];
    // Meeting the first goal wins over any raw surplus.
    assert_eq!(compare_builds(&[100, 0], &[99, 1_000_000], &goals), Rel::Greater);
    // Both met: clamped totals tie, so the raw totals decide.
    assert_eq!(compare_builds(&[150, 5], &[100, 9], &goals), Rel::Greater);
    assert_eq!(compare_builds(&[100, 9], &[150, 5], &goals), Rel::Less);
    assert_eq!(compare_builds(&[120, 7], &[120, 7], &goals), Rel::Equal);
}
