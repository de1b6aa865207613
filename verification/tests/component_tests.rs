use scalar_astar::action::Action;
use scalar_astar::config::SearchConfig;
use scalar_astar::frontier::Frontier;
use scalar_astar::frontier::FrontierEntry;
use scalar_astar::ledger::Ledger;
use scalar_astar::moves::apply_action;
use scalar_astar::moves::successors;
use scalar_astar::point::Point;
use scalar_astar::point::heuristic;

fn demo_config() -> SearchConfig {
    SearchConfig {
        anchor_low: 0,
        anchor_high: 1_000_000_000,
        step: 5_893_750,
        precision: 1_000,
        move_cost: 1_000_000_000,
    }
}

#[test]
fn distance_is_absolute_difference() {
    let a = Point::new(300);
    let b = Point::new(-450);
    assert_eq!(a.distance_to(&b), 750);
    assert_eq!(b.distance_to(&a), 750);
    assert_eq!(a.distance_to(&a), 0);
    assert_eq!(heuristic(&a, &b), 750);
    // the widest representable gap still fits the unsigned result
    let lo = Point::new(i64::MIN);
    let hi = Point::new(i64::MAX);
    assert_eq!(lo.distance_to(&hi), u64::MAX);
}

#[test]
fn successors_are_exactly_four_labeled_moves() {
    let cfg = demo_config();
    let s = successors(&Point::new(600_000_000), &cfg);
    assert_eq!(s.len(), 4);
    assert_eq!(s[0], (Point::new(300_000_000), Action::HalfLeft));
    assert_eq!(s[1], (Point::new(800_000_000), Action::HalfRight));
    assert_eq!(s[2], (Point::new(594_106_250), Action::ConstantLeft));
    assert_eq!(s[3], (Point::new(605_893_750), Action::ConstantRight));
}

#[test]
fn midpoint_rounds_toward_negative_infinity() {
    let cfg = demo_config();
    // (1 + 0) / 2 rounds down to 0
    assert_eq!(apply_action(Point::new(1), Action::HalfLeft, &cfg), Point::new(0));
    // (-3 + 0) / 2 rounds down to -2
    assert_eq!(apply_action(Point::new(-3), Action::HalfLeft, &cfg), Point::new(-2));
}

#[test]
fn step_moves_saturate_at_range_edges() {
    let cfg = demo_config();
    let near_top = Point::new(i64::MAX - 10);
    assert_eq!(apply_action(near_top, Action::ConstantRight, &cfg), Point::new(i64::MAX));
    let near_bottom = Point::new(i64::MIN + 10);
    assert_eq!(apply_action(near_bottom, Action::ConstantLeft, &cfg), Point::new(i64::MIN));
}

#[test]
fn action_labels() {
    assert_eq!(Action::NoAction.label(), "none");
    assert_eq!(Action::HalfLeft.label(), "half_left");
    assert_eq!(Action::HalfRight.label(), "half_right");
    assert_eq!(Action::ConstantLeft.label(), "constant_left");
    assert_eq!(Action::ConstantRight.label(), "constant_right");
}

#[test]
fn frontier_pops_lowest_f_score_first() {
    let mut q = Frontier::new();
    q.push(FrontierEntry { point: Point::new(1), f_score: 5 });
    q.push(FrontierEntry { point: Point::new(2), f_score: 3 });
    q.push(FrontierEntry { point: Point::new(3), f_score: 7 });
    q.push(FrontierEntry { point: Point::new(4), f_score: 3 });
    assert_eq!(q.len(), 4);
    let first = q.pop_min().unwrap();
    assert_eq!(first.f_score, 3);
    assert_eq!(first.point, Point::new(2));
    let second = q.pop_min().unwrap();
    assert_eq!(second.f_score, 3);
    assert_eq!(second.point, Point::new(4));
    assert_eq!(q.pop_min().unwrap().f_score, 5);
    assert_eq!(q.pop_min().unwrap().f_score, 7);
    assert!(q.pop_min().is_none());
    assert_eq!(q.len(), 0);
}

#[test]
fn relaxation_only_ever_improves_g_scores() {
    let start = Point::new(0);
    let next = Point::new(500);
    let mut ledger = Ledger::new(start, 77);
    // first discovery: recorded, and the state must be enqueued
    let pushed = ledger.relax(start, next, Action::HalfRight, 5, 1_005);
    assert!(pushed);
    assert_eq!(ledger.get(next).unwrap().g_score, 5);
    assert!(ledger.is_open(next));
    // a strictly better cost replaces the record, without re-enqueueing
    let pushed = ledger.relax(start, next, Action::ConstantRight, 3, 1_003);
    assert!(!pushed);
    assert_eq!(ledger.get(next).unwrap().g_score, 3);
    // an equal or worse tentative cost changes nothing
    let pushed = ledger.relax(start, next, Action::HalfLeft, 3, 999);
    assert!(!pushed);
    assert_eq!(ledger.get(next).unwrap().g_score, 3);
    let pushed = ledger.relax(start, next, Action::HalfLeft, 7, 999);
    assert!(!pushed);
    assert_eq!(ledger.get(next).unwrap().g_score, 3);
    assert_eq!(ledger.get(next).unwrap().f_score, 1_003);
}

#[test]
fn closing_removes_open_membership_only() {
    let start = Point::new(42);
    let mut ledger = Ledger::new(start, 9);
    assert!(ledger.is_open(start));
    ledger.close(start);
    assert!(!ledger.is_open(start));
    let e = ledger.get(start).unwrap();
    assert_eq!(e.g_score, 0);
    assert_eq!(e.f_score, 9);
    assert!(e.came_from.is_none());
}
