use scalar_astar::action::Action;
use scalar_astar::config::SearchConfig;
use scalar_astar::point::Point;
use scalar_astar::search::SearchResult;
use scalar_astar::search::search;

// One coordinate unit, in ticks: every test uses a fixed-point scale of
// 10^9 ticks per unit, so a precision of 1e-6 units is 1000 ticks.
const UNIT: i64 = 1_000_000_000;

fn unit_config(precision: u64, step: i64) -> SearchConfig {
    SearchConfig { anchor_low: 0, anchor_high: UNIT, step, precision, move_cost: UNIT as u64 }
}

#[test]
fn immediate_termination_start_equals_goal() {
    // start = goal = 0.5, precision = 1e-6, step = 0.00589375
    let cfg = unit_config(1_000, 5_893_750);
    let s = Point::new(500_000_000);
    let r = search(s, s, &cfg, 10_000);
    match r {
        SearchResult::Found(path, actions) => {
            assert_eq!(path, vec![s]);
            assert_eq!(actions, vec![Action::NoAction]);
        },
        other => panic!("expected Found, got {:?}", other),
    }
}

#[test]
fn found_path_reaches_goal_precision() {
    // start = 0.0, goal = 1.0, precision = 0.01, step = 0.1
    let cfg = unit_config(10_000_000, 100_000_000);
    let start = Point::new(0);
    let goal = Point::new(UNIT);
    let r = search(start, goal, &cfg, 50_000);
    match r {
        SearchResult::Found(path, actions) => {
            assert!(!path.is_empty());
            assert_eq!(path.len(), actions.len());
            assert_eq!(path[0], start);
            let last = path[path.len() - 1];
            assert!(last.distance_to(&goal) < cfg.precision);
        },
        other => panic!("expected Found, got {:?}", other),
    }
}

#[test]
fn edge_actions_match_path() {
    let cfg = unit_config(10_000_000, 100_000_000);
    let start = Point::new(0);
    let goal = Point::new(UNIT);
    match search(start, goal, &cfg, 50_000) {
        SearchResult::Found(path, actions) => {
            assert_eq!(path.len(), actions.len());
            // every action but the terminal entry is the move that produced
            // the next state from its predecessor
            for i in 0..path.len() - 1 {
                let stepped = scalar_astar::moves::apply_action(path[i], actions[i], &cfg);
                assert_eq!(stepped, path[i + 1]);
            }
        },
        other => panic!("expected Found, got {:?}", other),
    }
}

#[test]
fn determinism_repeated_invocations() {
    let cfg = unit_config(10_000_000, 100_000_000);
    let start = Point::new(0);
    let goal = Point::new(UNIT);
    let a = search(start, goal, &cfg, 50_000);
    let b = search(start, goal, &cfg, 50_000);
    assert_eq!(a, b);
    let c = search(Point::new(500_000_000), Point::new(700_000_000), &cfg, 50_000);
    let d = search(Point::new(500_000_000), Point::new(700_000_000), &cfg, 50_000);
    assert_eq!(c, d);
}

#[test]
fn precision_sweep_found_within_budget() {
    // precisions from 1e-3 down to 1e-9 units; the goal is reachable by
    // interpolation, so every sweep ends in Found well under the budget
    let start = Point::new(500_000_000);
    let goal = Point::new(750_000_000);
    for precision in [1_000_000u64, 100_000, 10_000, 1_000, 100, 10, 1] {
        let cfg = unit_config(precision, 5_893_750);
        match search(start, goal, &cfg, 10_000) {
            SearchResult::Found(path, _) => {
                let last = path[path.len() - 1];
                assert!(last.distance_to(&goal) < precision);
            },
            other => panic!("precision {}: expected Found, got {:?}", precision, other),
        }
    }
}

#[test]
fn exhausted_when_no_move_leaves_start() {
    // both anchors on the start and a zero step: all four successors are
    // the start itself, so the frontier drains without reaching the goal
    let cfg = SearchConfig { anchor_low: 0, anchor_high: 0, step: 0, precision: 1, move_cost: 1 };
    let r = search(Point::new(0), Point::new(100), &cfg, 10_000);
    assert_eq!(r, SearchResult::Exhausted);
}

#[test]
fn out_of_budget_before_first_expansion() {
    let cfg = unit_config(1_000, 5_893_750);
    let s = Point::new(500_000_000);
    let r = search(s, s, &cfg, 0);
    assert_eq!(r, SearchResult::OutOfBudget);
}

#[test]
fn out_of_budget_mid_search() {
    // far too few expansions allowed to cross from 0.0 to 1.0
    let cfg = unit_config(10_000_000, 100_000_000);
    let r = search(Point::new(0), Point::new(UNIT), &cfg, 2);
    assert_eq!(r, SearchResult::OutOfBudget);
}

#[test]
fn goal_reached_by_mixed_moves() {
    // a goal off the interpolation lattice still gets approached by mixing
    // halvings and constant steps
    let cfg = unit_config(10_000_000, 5_893_750);
    let start = Point::new(500_000_000);
    let goal = Point::new(610_000_000);
    match search(start, goal, &cfg, 50_000) {
        SearchResult::Found(path, _) => {
            let last = path[path.len() - 1];
            assert!(last.distance_to(&goal) < cfg.precision);
        },
        other => panic!("expected Found, got {:?}", other),
    }
}
