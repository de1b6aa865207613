//! The cost/score ledger and open-set membership: for every discovered
//! state, the best known path cost from the start (g-score), the total
//! estimated cost (f-score), the (predecessor, action) pair through which
//! that best cost was achieved, and whether the state is currently a live
//! frontier candidate. All of it is updated together, one relaxation at a
//! time.

use crate::action::Action;
use crate::config::SearchConfig;
use crate::moves::apply_move;
use crate::point::Point;
use std::collections::HashMap;
use vstd::prelude::*;

verus! {

broadcast use vstd::std_specs::hash::group_hash_axioms;

/// Everything the ledger records about one state.
#[derive(Clone, Copy, Debug)]
pub struct LedgerEntry {
    /// Best known number of moves from the start to this state.
    pub g_score: u64,
    /// Best known total estimated cost: g-score times the per-move cost,
    /// plus the heuristic distance to the goal.
    pub f_score: u128,
    /// Through which predecessor and move the best g-score was achieved;
    /// `None` only for the start state.
    pub came_from: Option<(Point, Action)>,
    /// Whether the state is a live frontier candidate: set when the state
    /// is discovered or re-relaxed to a better cost, cleared when it is
    /// popped for expansion.
    pub open: bool,
}

/// The ledger itself, keyed by the exact tick value of each state.
pub struct Ledger {
    map: HashMap<i64, LedgerEntry>,
}

/// The per-state part of the ledger's well-formedness: a state without a
/// predecessor is the start; any other state was produced from a recorded
/// state by its recorded move, at a strictly larger path cost.
pub open spec fn wf_entry(m: Map<i64, LedgerEntry>, k: i64, cfg: SearchConfig, start: Point) -> bool {
    match m[k].came_from {
        None => k == start.ticks,
        Some((p, a)) => {
            &&& m.contains_key(p.ticks)
            &&& k as int == apply_move(a, p.ticks as int, cfg)
            &&& m[k].g_score >= m[p.ticks].g_score + 1
        },
    }
}

/// Well-formedness of the whole ledger: the start is recorded at cost zero
/// with no predecessor, and every back pointer leads to a recorded state
/// through a genuine move, strictly downhill in g-score. Walking back
/// pointers therefore terminates, at the start.
pub open spec fn ledger_wf(m: Map<i64, LedgerEntry>, cfg: SearchConfig, start: Point) -> bool {
    &&& m.contains_key(start.ticks)
    &&& m[start.ticks].g_score == 0
    &&& m[start.ticks].came_from is None
    &&& forall|k: i64| #[trigger] m.contains_key(k) ==> wf_entry(m, k, cfg, start)
}

impl View for Ledger {
    type V = Map<i64, LedgerEntry>;

    closed spec fn view(&self) -> Map<i64, LedgerEntry> {
        self.map@
    }
}

impl Ledger {
    /// A fresh ledger for one search invocation, seeded with the start
    /// state at g-score zero, open, with the given initial f-score.
    pub fn new(start: Point, start_f: u128) -> (r: Ledger)
        ensures
            r@ == Map::<i64, LedgerEntry>::empty().insert(
                start.ticks,
                LedgerEntry { g_score: 0, f_score: start_f, came_from: None, open: true },
            ),
    {
        let mut map: HashMap<i64, LedgerEntry> = HashMap::new();
        map.insert(
            start.ticks,
            LedgerEntry { g_score: 0, f_score: start_f, came_from: None, open: true },
        );
        Ledger { map }
    }

    /// The recorded entry of a state, if the state has been discovered.
    pub fn get(&self, p: Point) -> (r: Option<LedgerEntry>)
        ensures
            match r {
                Some(e) => self@.contains_key(p.ticks) && e == self@[p.ticks],
                None => !self@.contains_key(p.ticks),
            },
    {
        match self.map.get(&p.ticks) {
            Some(e) => Some(*e),
            None => None,
        }
    }

    /// Whether a state is currently a live frontier candidate.
    pub fn is_open(&self, p: Point) -> (r: bool)
        ensures
            r == (self@.contains_key(p.ticks) && self@[p.ticks].open),
    {
        match self.map.get(&p.ticks) {
            Some(e) => e.open,
            None => false,
        }
    }

    /// Removes a state from the open set as it is popped for expansion;
    /// its scores and back pointer stay untouched.
    pub fn close(&mut self, p: Point)
        requires
            old(self)@.contains_key(p.ticks),
        ensures
            final(self)@ == old(self)@.insert(
                p.ticks,
                LedgerEntry {
                    g_score: old(self)@[p.ticks].g_score,
                    f_score: old(self)@[p.ticks].f_score,
                    came_from: old(self)@[p.ticks].came_from,
                    open: false,
                },
            ),
    {
        let e = match self.map.get(&p.ticks) {
            Some(e) => *e,
            None => vstd::pervasive::unreached(),
        };
        self.map.insert(
            p.ticks,
            LedgerEntry {
                g_score: e.g_score,
                f_score: e.f_score,
                came_from: e.came_from,
                open: false,
            },
        );
    }

    /// One relaxation step. If the tentative cost strictly beats the best
    /// known cost of `next` (an unknown state counts as infinitely costly),
    /// the whole entry is rewritten — cost, estimate and back pointer
    /// together — and `next` joins the open set; the result says whether it
    /// was not already a member, i.e. whether the caller must enqueue a new
    /// frontier entry. Otherwise nothing changes.
    ///
    /// A recorded g-score only ever moves strictly down: relaxation never
    /// worsens a cost, as the last clause states on its own.
    pub fn relax(
        &mut self,
        current: Point,
        next: Point,
        action: Action,
        tentative_g: u64,
        new_f: u128,
    ) -> (pushed: bool)
        ensures
            (if !old(self)@.contains_key(next.ticks) || tentative_g < old(self)@[next.ticks].g_score {
                &&& final(self)@ == old(self)@.insert(
                    next.ticks,
                    LedgerEntry {
                        g_score: tentative_g,
                        f_score: new_f,
                        came_from: Some((current, action)),
                        open: true,
                    },
                )
                &&& pushed == !(old(self)@.contains_key(next.ticks) && old(
                    self,
                )@[next.ticks].open)
            } else {
                &&& final(self)@ == old(self)@
                &&& !pushed
            }),
            old(self)@.contains_key(next.ticks) && final(self)@[next.ticks].g_score != old(
                self,
            )@[next.ticks].g_score ==> final(self)@[next.ticks].g_score < old(
                self,
            )@[next.ticks].g_score,
    {
        let (better, was_open) = match self.map.get(&next.ticks) {
            Some(e) => (tentative_g < e.g_score, e.open),
            None => (true, false),
        };
        if better {
            self.map.insert(
                next.ticks,
                LedgerEntry {
                    g_score: tentative_g,
                    f_score: new_f,
                    came_from: Some((current, action)),
                    open: true,
                },
            );
            !was_open
        } else {
            false
        }
    }
}

/// The ledger a search starts from is well formed.
pub proof fn lemma_seed_wf(m: Map<i64, LedgerEntry>, cfg: SearchConfig, start: Point, start_f: u128)
    requires
        m == Map::<i64, LedgerEntry>::empty().insert(
            start.ticks,
            LedgerEntry { g_score: 0, f_score: start_f, came_from: None, open: true },
        ),
    ensures
        ledger_wf(m, cfg, start),
{
}

/// Closing a state touches only its membership flag, so well-formedness
/// carries over.
pub proof fn lemma_close_preserves_wf(
    m0: Map<i64, LedgerEntry>,
    m1: Map<i64, LedgerEntry>,
    cfg: SearchConfig,
    start: Point,
    p: Point,
)
    requires
        ledger_wf(m0, cfg, start),
        m0.contains_key(p.ticks),
        m1 == m0.insert(
            p.ticks,
            LedgerEntry {
                g_score: m0[p.ticks].g_score,
                f_score: m0[p.ticks].f_score,
                came_from: m0[p.ticks].came_from,
                open: false,
            },
        ),
    ensures
        ledger_wf(m1, cfg, start),
{
    assert forall|k: i64| #[trigger] m1.contains_key(k) implies wf_entry(m1, k, cfg, start) by {
        assert(m0.contains_key(k));
        assert(wf_entry(m0, k, cfg, start));
        assert(m1[k].came_from == m0[k].came_from);
        assert(m1[k].g_score == m0[k].g_score);
    }
}

/// An accepted relaxation keeps the ledger well formed: the rewritten state
/// records a genuine move from a recorded predecessor, one move dearer, and
/// every older back pointer only gets more slack, never less.
pub proof fn lemma_relax_preserves_wf(
    m0: Map<i64, LedgerEntry>,
    m1: Map<i64, LedgerEntry>,
    cfg: SearchConfig,
    start: Point,
    current: Point,
    next: Point,
    action: Action,
    tentative_g: u64,
    new_f: u128,
)
    requires
        ledger_wf(m0, cfg, start),
        m0.contains_key(current.ticks),
        tentative_g as int == m0[current.ticks].g_score as int + 1,
        next.ticks as int == apply_move(action, current.ticks as int, cfg),
        !m0.contains_key(next.ticks) || tentative_g < m0[next.ticks].g_score,
        m1 == m0.insert(
            next.ticks,
            LedgerEntry {
                g_score: tentative_g,
                f_score: new_f,
                came_from: Some((current, action)),
                open: true,
            },
        ),
    ensures
        ledger_wf(m1, cfg, start),
{
    assert(next.ticks != start.ticks);
    assert(current.ticks != next.ticks);
    assert forall|k: i64| #[trigger] m1.contains_key(k) implies wf_entry(m1, k, cfg, start) by {
        if k == next.ticks {
            assert(m1.contains_key(current.ticks));
            assert(m1[current.ticks] == m0[current.ticks]);
        } else {
            assert(m0.contains_key(k));
            assert(wf_entry(m0, k, cfg, start));
            match m0[k].came_from {
                None => {},
                Some((p, a)) => {
                    if p.ticks == next.ticks {
                        assert(m0.contains_key(p.ticks));
                        assert(tentative_g < m0[p.ticks].g_score);
                        assert(m1[k].g_score >= m1[p.ticks].g_score + 1);
                    }
                },
            }
        }
    }
}

} // verus!
