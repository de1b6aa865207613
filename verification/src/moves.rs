//! The successor generator: a fixed set of four labeled moves, each a pure
//! function of the current state and the configured constants.

use crate::action::Action;
use crate::config::SearchConfig;
use crate::point::Point;
use vstd::arithmetic::div_mod::lemma_fundamental_div_mod;
use vstd::arithmetic::div_mod::lemma_fundamental_div_mod_converse;
use vstd::prelude::*;

verus! {

/// Coordinates saturate at the ends of the tick range instead of wrapping:
/// a step move that would leave the representable range stops at its edge.
pub open spec fn clamp_ticks(v: int) -> int {
    if v < i64::MIN as int {
        i64::MIN as int
    } else if v > i64::MAX as int {
        i64::MAX as int
    } else {
        v
    }
}

/// The interpolation rule: the midpoint of a coordinate and an anchor,
/// rounded down to a whole tick.
pub open spec fn midpoint_ticks(x: int, a: int) -> int {
    (x + a) / 2
}

/// What each move does to a coordinate. `NoAction` labels no edge and
/// leaves the coordinate in place.
pub open spec fn apply_move(a: Action, x: int, cfg: SearchConfig) -> int {
    match a {
        Action::NoAction => x,
        Action::HalfLeft => midpoint_ticks(x, cfg.anchor_low as int),
        Action::HalfRight => midpoint_ticks(x, cfg.anchor_high as int),
        Action::ConstantLeft => clamp_ticks(x - cfg.step as int),
        Action::ConstantRight => clamp_ticks(x + cfg.step as int),
    }
}

/// Half of the coordinate span: shifting by this maps the signed tick range
/// onto the unsigned one, so the midpoint can be taken without leaving the
/// range of any machine integer.
const HALF_SPAN: i128 = 9223372036854775808;

fn midpoint(x: i64, a: i64) -> (r: i64)
    ensures
        r as int == midpoint_ticks(x as int, a as int),
{
    let ux: u128 = (x as i128 + HALF_SPAN) as u128;
    let ua: u128 = (a as i128 + HALF_SPAN) as u128;
    let q: u128 = (ux + ua) / 2;
    let shifted: i128 = (q as i128) - HALF_SPAN;
    proof {
        let n = x as int + a as int;
        lemma_fundamental_div_mod(n, 2);
        lemma_fundamental_div_mod_converse(
            n + 0x20000000000000000,
            2,
            n / 2 + 0x10000000000000000,
            n % 2,
        );
    }
    shifted as i64
}

fn step_by(x: i64, delta: i64, up: bool) -> (r: i64)
    ensures
        up ==> r as int == clamp_ticks(x as int + delta as int),
        !up ==> r as int == clamp_ticks(x as int - delta as int),
{
    let s: i128 = if up {
        x as i128 + delta as i128
    } else {
        x as i128 - delta as i128
    };
    if s < i64::MIN as i128 {
        i64::MIN
    } else if s > i64::MAX as i128 {
        i64::MAX
    } else {
        s as i64
    }
}

/// Applies one move to a state.
pub fn apply_action(p: Point, action: Action, cfg: &SearchConfig) -> (r: Point)
    ensures
        r.ticks as int == apply_move(action, p.ticks as int, *cfg),
{
    match action {
        Action::NoAction => p,
        Action::HalfLeft => Point { ticks: midpoint(p.ticks, cfg.anchor_low) },
        Action::HalfRight => Point { ticks: midpoint(p.ticks, cfg.anchor_high) },
        Action::ConstantLeft => Point { ticks: step_by(p.ticks, cfg.step, false) },
        Action::ConstantRight => Point { ticks: step_by(p.ticks, cfg.step, true) },
    }
}

/// The labeled candidate successors of a state: always exactly four, in a
/// fixed order, independent of search history. Nothing is filtered here;
/// visitation and cost checks are the search driver's job.
pub fn successors(current: &Point, cfg: &SearchConfig) -> (r: Vec<(Point, Action)>)
    ensures
        r@.len() == 4,
        forall|i: int|
            0 <= i < 4 ==> (#[trigger] r@[i]).0.ticks as int == apply_move(
                r@[i].1,
                current.ticks as int,
                *cfg,
            ),
        r@[0].1 == Action::HalfLeft,
        r@[1].1 == Action::HalfRight,
        r@[2].1 == Action::ConstantLeft,
        r@[3].1 == Action::ConstantRight,
{
    let mut r: Vec<(Point, Action)> = Vec::new();
    r.push((apply_action(*current, Action::HalfLeft, cfg), Action::HalfLeft));
    r.push((apply_action(*current, Action::HalfRight, cfg), Action::HalfRight));
    r.push((apply_action(*current, Action::ConstantLeft, cfg), Action::ConstantLeft));
    r.push((apply_action(*current, Action::ConstantRight, cfg), Action::ConstantRight));
    r
}

} // verus!
