//! The priority frontier: a min-priority collection of heap entries ordered
//! by f-score, with lazy deletion. Entries are immutable once pushed, and a
//! state may be referenced by several stale entries; whether a popped entry
//! is still live is the ledger's call, not the frontier's.

use crate::point::Point;
use vstd::prelude::*;

verus! {

/// One frontier entry: a state paired with the total estimated cost it had
/// when it was enqueued. A state's authoritative current score lives in the
/// ledger, never here.
#[derive(Clone, Copy, Debug)]
pub struct FrontierEntry {
    pub point: Point,
    pub f_score: u128,
}

/// A min-priority queue over `FrontierEntry`, keyed by `f_score`. Ties pop
/// in a fixed, deterministic order (the entry that currently sits first).
pub struct Frontier {
    entries: Vec<FrontierEntry>,
}

impl View for Frontier {
    type V = Seq<FrontierEntry>;

    closed spec fn view(&self) -> Seq<FrontierEntry> {
        self.entries@
    }
}

/// The position the next pop takes: the first index attaining the minimal
/// f-score of the contents. This is what makes tie-breaking deterministic.
pub open spec fn first_min_index(s: Seq<FrontierEntry>) -> int
    decreases s.len(),
{
    if s.len() <= 1 {
        0
    } else {
        let rest = first_min_index(s.drop_first()) + 1;
        if s[0].f_score <= s[rest].f_score {
            0
        } else {
            rest
        }
    }
}

/// `first_min_index` indeed names the first position of a minimal f-score.
pub proof fn lemma_first_min_index_props(s: Seq<FrontierEntry>)
    requires
        s.len() > 0,
    ensures
        0 <= first_min_index(s) < s.len(),
        forall|j: int|
            0 <= j < s.len() ==> s[first_min_index(s)].f_score <= (#[trigger] s[j]).f_score,
        forall|j: int|
            0 <= j < first_min_index(s) ==> (#[trigger] s[j]).f_score > s[first_min_index(
                s,
            )].f_score,
    decreases s.len(),
{
    if s.len() > 1 {
        let tail = s.drop_first();
        lemma_first_min_index_props(tail);
        assert(forall|j: int| 0 <= j < tail.len() ==> tail[j] == s[j + 1]);
        let rest = first_min_index(tail) + 1;
        assert forall|j: int| 0 <= j < s.len() implies s[first_min_index(s)].f_score <= (
        #[trigger] s[j]).f_score by {
            if j > 0 {
                assert(s[j] == tail[j - 1]);
            }
        }
        assert forall|j: int| 0 <= j < first_min_index(s) implies (#[trigger] s[j]).f_score
            > s[first_min_index(s)].f_score by {
            if j > 0 {
                assert(s[j] == tail[j - 1]);
            }
        }
    }
}

impl Frontier {
    pub fn new() -> (r: Frontier)
        ensures
            r@ == Seq::<FrontierEntry>::empty(),
    {
        Frontier { entries: Vec::new() }
    }

    pub fn len(&self) -> (r: usize)
        ensures
            r == self@.len(),
    {
        self.entries.len()
    }

    pub fn push(&mut self, e: FrontierEntry)
        ensures
            final(self)@ == old(self)@.push(e),
    {
        self.entries.push(e);
    }

    /// Removes and returns an entry with the lowest f-score; `None` exactly
    /// when the frontier is empty. The popped entry is the first one that
    /// attains the minimum, so repeated runs on equal contents pop alike.
    pub fn pop_min(&mut self) -> (r: Option<FrontierEntry>)
        ensures
            match r {
                None => old(self)@.len() == 0 && final(self)@ == old(self)@,
                Some(e) => {
                    &&& old(self)@.len() > 0
                    &&& final(self)@.len() == old(self)@.len() - 1
                    &&& 0 <= first_min_index(old(self)@) < old(self)@.len()
                    &&& e == old(self)@[first_min_index(old(self)@)]
                    &&& final(self)@ == old(self)@.update(
                        first_min_index(old(self)@),
                        old(self)@.last(),
                    ).drop_last()
                    &&& forall|j: int|
                        0 <= j < old(self)@.len() ==> e.f_score <= (#[trigger] old(
                            self,
                        )@[j]).f_score
                },
            },
    {
        if self.entries.len() == 0 {
            return None;
        }
        let mut best: usize = 0;
        let mut idx: usize = 1;
        while idx < self.entries.len()
            invariant
                0 < idx <= self.entries@.len(),
                0 <= best < idx,
                forall|j: int|
                    0 <= j < best ==> (#[trigger] self.entries@[j]).f_score
                        > self.entries@[best as int].f_score,
                forall|j: int|
                    0 <= j < idx ==> self.entries@[best as int].f_score <= (#[trigger] self
                        .entries@[j]).f_score,
            decreases self.entries@.len() - idx,
        {
            if self.entries[idx].f_score < self.entries[best].f_score {
                best = idx;
            }
            idx += 1;
        }
        proof {
            lemma_first_min_index_props(self.entries@);
            let fmi = first_min_index(self.entries@);
            if best < fmi {
                assert(self.entries@[best as int].f_score > self.entries@[fmi].f_score);
                assert(self.entries@[fmi].f_score <= self.entries@[best as int].f_score);
                assert(false);
            }
            if fmi < best {
                assert(self.entries@[fmi].f_score > self.entries@[best as int].f_score);
                assert(self.entries@[best as int].f_score <= self.entries@[fmi].f_score);
                assert(false);
            }
        }
        let e = self.entries.swap_remove(best);
        Some(e)
    }
}

} // verus!
