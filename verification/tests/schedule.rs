use charge_sim::schedule::{pair_schedule, tick_plan, Step};

#[test]
fn pairs_of_four() {
    assert_eq!(pair_schedule(4), vec![(0, 1), (0, 2), (0, 3), (1, 2), (1, 3), (2, 3)]);
}

#[test]
fn no_pairs_below_two() {
    assert!(pair_schedule(0).is_empty());
    assert!(pair_schedule(1).is_empty());
    assert_eq!(pair_schedule(2), vec![(0, 1)]);
}

#[test]
fn each_pair_once() {
    for n in 0..40usize {
        let pairs = pair_schedule(n);
        assert_eq!(pairs.len(), n * n.saturating_sub(1) / 2);
        let mut seen = vec![false; n * n];
        for (a, b) in pairs {
            assert!(a < b && b < n);
            assert!(!seen[a * n + b]);
            seen[a * n + b] = true;
        }
        for a in 0..n {
            for b in (a + 1)..n {
                assert!(seen[a * n + b]);
            }
        }
    }
}

#[test]
fn plan_of_two_free_charges() {
    assert_eq!(
        tick_plan(&vec![false, false]),
        vec![
            Step::Pair { first: 0, second: 1 },
            Step::Field { charge: 0 },
            Step::Field { charge: 1 },
            Step::Integrate { charge: 0 },
            Step::Integrate { charge: 1 },
            Step::Reset { charge: 0 },
            Step::Reset { charge: 1 },
            Step::Clock,
        ]
    );
}

#[test]
fn plan_without_charges() {
    assert_eq!(tick_plan(&vec![]), vec![Step::Clock]);
}

#[test]
fn plan_of_one_fixed_charge() {
    assert_eq!(
        tick_plan(&vec![true]),
        vec![Step::Field { charge: 0 }, Step::Reset { charge: 0 }, Step::Clock]
    );
}

#[test]
fn plan_with_fixed_charges() {
    assert_eq!(
        tick_plan(&vec![true, false, true]),
        vec![
            Step::Pair { first: 0, second: 1 },
            Step::Pair { first: 0, second: 2 },
            Step::Pair { first: 1, second: 2 },
            Step::Field { charge: 0 },
            Step::Field { charge: 1 },
            Step::Field { charge: 2 },
            Step::Integrate { charge: 1 },
            Step::Reset { charge: 0 },
            Step::Reset { charge: 1 },
            Step::Reset { charge: 2 },
            Step::Clock,
        ]
    );
}

#[test]
fn a_fixed_charge_is_never_moved() {
    for bits in 0..256u32 {
        let fixed: Vec<bool> = (0..8u32).map(|i| bits & (1 << i) != 0).collect();
        let plan = tick_plan(&fixed);
        for c in 0..8usize {
            let moves: usize =
                plan.iter().filter(|s| **s == Step::Integrate { charge: c }).count();
            let fields: usize = plan.iter().filter(|s| **s == Step::Field { charge: c }).count();
            let resets: usize = plan.iter().filter(|s| **s == Step::Reset { charge: c }).count();
            assert_eq!(moves, if fixed[c] { 0 } else { 1 });
            assert_eq!(fields, 1);
            assert_eq!(resets, 1);
        }
        assert_eq!(plan.len(), 28 + 8 + fixed.iter().filter(|f| !**f).count() + 8 + 1);
        assert_eq!(plan.last(), Some(&Step::Clock));
    }
}

#[test]
fn forces_come_before_moves_and_moves_before_resets() {
    let plan = tick_plan(&vec![false, true, false, false]);
    let rank = |s: &Step| -> u8 {
        match s {
            Step::Pair { .. } => 0,
            Step::Field { .. } => 1,
            Step::Integrate { .. } => 2,
            Step::Reset { .. } => 3,
            Step::Clock => 4,
        }
    };
    for w in plan.windows(2) {
        assert!(rank(&w[0]) <= rank(&w[1]));
    }
}

#[test]
fn every_tick_has_the_same_plan() {
    let fixed = vec![false, true, false];
    assert_eq!(tick_plan(&fixed), tick_plan(&fixed));
}
