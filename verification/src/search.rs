//! The search driver — the main best-first loop — and the back-pointer
//! path reconstructor.

use crate::action::Action;
use crate::config::SearchConfig;
use crate::frontier::Frontier;
use crate::frontier::FrontierEntry;
use crate::frontier::first_min_index;
use crate::ledger::Ledger;
use crate::ledger::LedgerEntry;
use crate::ledger::ledger_wf;
use crate::ledger::lemma_close_preserves_wf;
use crate::ledger::lemma_relax_preserves_wf;
use crate::ledger::lemma_seed_wf;
use crate::ledger::wf_entry;
use crate::moves::apply_move;
use crate::moves::successors;
use crate::point::Point;
use crate::point::dist;
use crate::point::heuristic;
use vstd::prelude::*;

verus! {

/// The terminal outcomes of one search invocation.
#[derive(Debug, PartialEq, Eq)]
pub enum SearchResult {
    /// A state within the configured precision of the goal was reached.
    /// The first sequence holds the states from start to terminal; the
    /// second, of the same length, holds one action label per entry: the
    /// label at position `i` is the move that produced the state at
    /// position `i + 1`. The label at the terminal position is *not* an
    /// edge: it is whatever move was examined last during the most recent
    /// expansion (initially `NoAction`), an unreliable side observation
    /// kept as-is rather than silently redefined.
    Found(Vec<Point>, Vec<Action>),
    /// The frontier emptied without any state ever passing the proximity
    /// test.
    Exhausted,
    /// The expansion budget ran out before either of the above.
    OutOfBudget,
}

/// Everything a `Found` result promises about its two sequences: aligned
/// lengths, the path starting at the start state, the terminal state within
/// the goal precision, and every action label except the terminal one being
/// the genuine move from its state to the next.
pub open spec fn found_path_ok(
    path: Seq<Point>,
    actions: Seq<Action>,
    start: Point,
    goal: Point,
    cfg: SearchConfig,
) -> bool {
    &&& path.len() >= 1
    &&& actions.len() == path.len()
    &&& path[0] == start
    &&& dist(path.last().ticks as int, goal.ticks as int) < cfg.precision
    &&& forall|i: int|
        0 <= i < path.len() - 1 ==> (#[trigger] path[i + 1]).ticks as int == apply_move(
            actions[i],
            path[i].ticks as int,
            cfg,
        )
}

/// The inputs on which a search must end at once: the start itself already
/// passes the proximity test, and at least one expansion is allowed.
pub open spec fn trivially_found(
    start: Point,
    goal: Point,
    cfg: SearchConfig,
    max_expansions: u64,
) -> bool {
    dist(start.ticks as int, goal.ticks as int) < cfg.precision && max_expansions >= 1
}

/// Walks the ledger's back pointers from a terminal state to the start,
/// producing the ordered state sequence and the parallel action sequence.
/// The terminal position of the action sequence receives `last_action`,
/// the caller's side observation, not a ledger entry.
pub fn reconstruct_path(
    ledger: &Ledger,
    terminal: Point,
    last_action: Action,
    cfg: &SearchConfig,
    start: Ghost<Point>,
) -> (r: (Vec<Point>, Vec<Action>))
    requires
        ledger_wf(ledger@, *cfg, start@),
        ledger@.contains_key(terminal.ticks),
    ensures
        r.0@.len() >= 1,
        r.1@.len() == r.0@.len(),
        r.0@[0] == start@,
        r.0@.last() == terminal,
        r.1@.last() == last_action,
        forall|i: int|
            0 <= i < r.0@.len() - 1 ==> (#[trigger] r.0@[i + 1]).ticks as int == apply_move(
                r.1@[i],
                r.0@[i].ticks as int,
                *cfg,
            ),
        forall|i: int|
            0 <= i < r.0@.len() - 1 ==> ledger@.contains_key((#[trigger] r.0@[i + 1]).ticks)
                && ledger@[r.0@[i + 1].ticks].came_from == Some((r.0@[i], r.1@[i])),
        chain_ok(ledger@, r.0@, r.1@, terminal),
        r.0@.len() <= ledger@[terminal.ticks].g_score + 1,
        ledger@[terminal.ticks].came_from is None ==> r.0@ =~= seq![terminal] && r.1@ =~= seq![
            last_action,
        ],
{
    let mut cur = terminal;
    let mut path: Vec<Point> = Vec::new();
    let mut actions: Vec<Action> = Vec::new();
    path.push(terminal);
    actions.push(last_action);
    loop
        invariant
            ledger_wf(ledger@, *cfg, start@),
            ledger@.contains_key(cur.ticks),
            path@.len() >= 1,
            actions@.len() == path@.len(),
            path@[0] == cur,
            path@.last() == terminal,
            actions@.last() == last_action,
            forall|i: int|
                0 <= i < path@.len() - 1 ==> (#[trigger] path@[i + 1]).ticks as int == apply_move(
                    actions@[i],
                    path@[i].ticks as int,
                    *cfg,
                ),
            forall|i: int|
                0 <= i < path@.len() - 1 ==> ledger@.contains_key((#[trigger] path@[i + 1]).ticks)
                    && ledger@[path@[i + 1].ticks].came_from == Some((path@[i], actions@[i])),
            path@.len() + ledger@[cur.ticks].g_score <= ledger@[terminal.ticks].g_score + 1,
            ledger@[terminal.ticks].came_from is None ==> cur == terminal && path@ =~= seq![
                terminal,
            ] && actions@ =~= seq![last_action],
        ensures
            ledger@[cur.ticks].came_from is None,
        decreases ledger@[cur.ticks].g_score,
    {
        let entry = match ledger.get(cur) {
            Some(e) => e,
            None => vstd::pervasive::unreached(),
        };
        match entry.came_from {
            None => {
                break ;
            },
            Some((p, a)) => {
                proof {
                    assert(wf_entry(ledger@, cur.ticks, *cfg, start@));
                }
                let ghost pre_path = path@;
                let ghost pre_actions = actions@;
                path.insert(0, p);
                actions.insert(0, a);
                proof {
                    assert(path@ =~= seq![p] + pre_path);
                    assert(actions@ =~= seq![a] + pre_actions);
                    assert forall|i: int| 0 <= i < path@.len() - 1 implies (#[trigger] path@[i
                        + 1]).ticks as int == apply_move(actions@[i], path@[i].ticks as int, *cfg) by {
                        if i == 0 {
                            assert(path@[1] == cur);
                            assert(cur.ticks as int == apply_move(a, p.ticks as int, *cfg));
                        } else {
                            assert(path@[i + 1] == pre_path[i]);
                            assert(path@[i] == pre_path[i - 1]);
                            assert(actions@[i] == pre_actions[i - 1]);
                            assert((#[trigger] pre_path[(i - 1) + 1]).ticks as int == apply_move(
                                pre_actions[i - 1],
                                pre_path[i - 1].ticks as int,
                                *cfg,
                            ));
                        }
                    }
                    assert forall|i: int| 0 <= i < path@.len() - 1 implies ledger@.contains_key(
                        (#[trigger] path@[i + 1]).ticks,
                    ) && ledger@[path@[i + 1].ticks].came_from == Some((path@[i], actions@[i])) by {
                        if i == 0 {
                            assert(path@[1] == cur);
                        } else {
                            assert(path@[i + 1] == pre_path[i]);
                            assert(path@[i] == pre_path[i - 1]);
                            assert(actions@[i] == pre_actions[i - 1]);
                            assert(ledger@.contains_key((#[trigger] pre_path[(i - 1) + 1]).ticks)
                                && ledger@[pre_path[(i - 1) + 1].ticks].came_from == Some(
                                (pre_path[i - 1], pre_actions[i - 1]),
                            ));
                        }
                    }
                }
                cur = p;
            },
        }
    }
    proof {
        assert(wf_entry(ledger@, cur.ticks, *cfg, start@));
        assert(cur == start@);
    }
    (path, actions)
}

/// A back-pointer chain through a ledger: a nonempty state sequence ending
/// at `terminal`, with a same-length action sequence, where every state but
/// the first carries the ledger's recorded (predecessor, action) pair for
/// it. This is exactly what `reconstruct_path` promises of its output.
pub open spec fn chain_ok(
    m: Map<i64, LedgerEntry>,
    path: Seq<Point>,
    actions: Seq<Action>,
    terminal: Point,
) -> bool {
    &&& path.len() >= 1
    &&& actions.len() == path.len()
    &&& path.last() == terminal
    &&& forall|i: int|
        0 <= i < path.len() - 1 ==> m.contains_key((#[trigger] path[i + 1]).ticks)
            && m[path[i + 1].ticks].came_from == Some((path[i], actions[i]))
}

/// Determinism of path reconstruction: in a well-formed ledger, the chain
/// of back pointers from a terminal state to the start is unique, so two
/// reconstructions over the same ledger, from the same terminal state and
/// with the same terminal side observation, are the same path and the same
/// action sequence.
pub proof fn lemma_reconstruction_unique(
    m: Map<i64, LedgerEntry>,
    cfg: SearchConfig,
    start: Point,
    terminal: Point,
    path1: Seq<Point>,
    actions1: Seq<Action>,
    path2: Seq<Point>,
    actions2: Seq<Action>,
)
    requires
        ledger_wf(m, cfg, start),
        chain_ok(m, path1, actions1, terminal),
        chain_ok(m, path2, actions2, terminal),
        path1[0] == start,
        path2[0] == start,
        actions1.last() == actions2.last(),
    ensures
        path1 =~= path2,
        actions1 =~= actions2,
    decreases path1.len(),
{
    if path1.len() == 1 {
        // the whole first chain is [start], so the terminal is the start,
        // which has no back pointer: the second chain cannot be longer
        assert(terminal == start);
        if path2.len() >= 2 {
            let j = path2.len() - 2;
            assert(m[(path2[j + 1]).ticks].came_from == Some((path2[j], actions2[j])));
            assert(wf_entry(m, start.ticks, cfg, start));
            assert(false);
        }
        assert(path1 =~= path2);
        assert(actions1 =~= actions2);
    } else {
        // both chains end at the same terminal, whose single recorded back
        // pointer forces their last edges to agree
        if path2.len() == 1 {
            assert(terminal == start);
            let j = path1.len() - 2;
            assert(m[(path1[j + 1]).ticks].came_from == Some((path1[j], actions1[j])));
            assert(wf_entry(m, start.ticks, cfg, start));
            assert(false);
        }
        let i = path1.len() - 2;
        let j = path2.len() - 2;
        assert(path1[i + 1] == terminal);
        assert(path2[j + 1] == terminal);
        assert(m[(path1[i + 1]).ticks].came_from == Some((path1[i], actions1[i])));
        assert(m[(path2[j + 1]).ticks].came_from == Some((path2[j], actions2[j])));
        let prev = path1[i];
        assert(path2[j] == prev);
        let sub_path1 = path1.drop_last();
        let sub_actions1 = actions1.drop_last();
        let sub_path2 = path2.drop_last();
        let sub_actions2 = actions2.drop_last();
        assert(chain_ok(m, sub_path1, sub_actions1, prev));
        assert(chain_ok(m, sub_path2, sub_actions2, prev));
        lemma_reconstruction_unique(
            m,
            cfg,
            start,
            prev,
            sub_path1,
            sub_actions1,
            sub_path2,
            sub_actions2,
        );
        assert(path1 =~= sub_path1.push(terminal));
        assert(path2 =~= sub_path2.push(terminal));
        assert(actions1 =~= sub_actions1.push(actions1.last()));
        assert(actions2 =~= sub_actions2.push(actions2.last()));
        assert(path1 =~= path2);
        assert(actions1 =~= actions2);
    }
}

/// What `run_model` says one invocation returns: the ghost counterpart of
/// `SearchResult`, over mathematical sequences.
pub enum ModelOutcome {
    Found(Seq<Point>, Seq<Action>),
    Exhausted,
    OutOfBudget,
}

/// The move examined at each position of a successor list.
pub open spec fn succ_action(i: int) -> Action {
    if i == 0 {
        Action::HalfLeft
    } else if i == 1 {
        Action::HalfRight
    } else if i == 2 {
        Action::ConstantLeft
    } else {
        Action::ConstantRight
    }
}

/// One relaxation, on the mathematical state: what `Ledger::relax` plus the
/// conditional frontier push do for one labeled successor of `current`.
pub open spec fn relax_step_model(
    m: Map<i64, LedgerEntry>,
    fr: Seq<FrontierEntry>,
    current: Point,
    goal: Point,
    cfg: SearchConfig,
    tentative: u64,
    act: Action,
) -> (Map<i64, LedgerEntry>, Seq<FrontierEntry>) {
    let n_ticks = apply_move(act, current.ticks as int, cfg) as i64;
    let n_pt = Point { ticks: n_ticks };
    let new_f = (tentative * cfg.move_cost + dist(n_ticks as int, goal.ticks as int)) as u128;
    if !m.contains_key(n_ticks) || tentative < m[n_ticks].g_score {
        (
            m.insert(
                n_ticks,
                LedgerEntry {
                    g_score: tentative,
                    f_score: new_f,
                    came_from: Some((current, act)),
                    open: true,
                },
            ),
            if m.contains_key(n_ticks) && m[n_ticks].open {
                fr
            } else {
                fr.push(FrontierEntry { point: n_pt, f_score: new_f })
            },
        )
    } else {
        (m, fr)
    }
}

/// The first `i` relaxations of one expansion, in successor order.
pub open spec fn relax_seq_model(
    m: Map<i64, LedgerEntry>,
    fr: Seq<FrontierEntry>,
    current: Point,
    goal: Point,
    cfg: SearchConfig,
    tentative: u64,
    i: int,
) -> (Map<i64, LedgerEntry>, Seq<FrontierEntry>)
    decreases i,
{
    if i <= 0 {
        (m, fr)
    } else {
        let prev = relax_seq_model(m, fr, current, goal, cfg, tentative, i - 1);
        relax_step_model(prev.0, prev.1, current, goal, cfg, tentative, succ_action(i - 1))
    }
}

/// The back-pointer walk, on the mathematical state: the state sequence
/// from the start to `cur` and the edge actions along it (one fewer than
/// the states). The fuel only serves termination; a g-score's worth always
/// suffices in a well-formed ledger.
pub open spec fn walk_model(m: Map<i64, LedgerEntry>, cur: Point, fuel: nat) -> (
    Seq<Point>,
    Seq<Action>,
)
    decreases fuel,
{
    if m.contains_key(cur.ticks) {
        match m[cur.ticks].came_from {
            None => (seq![cur], Seq::<Action>::empty()),
            Some((p, a)) => if fuel == 0 {
                (seq![cur], Seq::<Action>::empty())
            } else {
                let rest = walk_model(m, p, (fuel - 1) as nat);
                (rest.0.push(cur), rest.1.push(a))
            },
        }
    } else {
        (seq![cur], Seq::<Action>::empty())
    }
}

/// In a well-formed ledger, the walk with enough fuel yields a back-pointer
/// chain from the start, whatever action ends the action sequence.
pub proof fn lemma_walk_model_chain(
    m: Map<i64, LedgerEntry>,
    cfg: SearchConfig,
    start: Point,
    cur: Point,
    fuel: nat,
    tail: Action,
)
    requires
        ledger_wf(m, cfg, start),
        m.contains_key(cur.ticks),
        fuel >= m[cur.ticks].g_score,
    ensures
        chain_ok(m, walk_model(m, cur, fuel).0, walk_model(m, cur, fuel).1.push(tail), cur),
        walk_model(m, cur, fuel).0[0] == start,
        walk_model(m, cur, fuel).1.push(tail).last() == tail,
    decreases fuel,
{
    assert(wf_entry(m, cur.ticks, cfg, start));
    match m[cur.ticks].came_from {
        None => {
            assert(cur == start);
        },
        Some((p, a)) => {
            assert(m[cur.ticks].g_score >= m[p.ticks].g_score + 1);
            lemma_walk_model_chain(m, cfg, start, p, (fuel - 1) as nat, a);
            let rest = walk_model(m, p, (fuel - 1) as nat);
            let path = walk_model(m, cur, fuel).0;
            let actions = walk_model(m, cur, fuel).1.push(tail);
            assert(path =~= rest.0.push(cur));
            assert(actions =~= rest.1.push(a).push(tail));
            assert forall|i: int| 0 <= i < path.len() - 1 implies m.contains_key(
                (#[trigger] path[i + 1]).ticks,
            ) && m[path[i + 1].ticks].came_from == Some((path[i], actions[i])) by {
                let rest_actions = rest.1.push(a);
                if i < path.len() - 2 {
                    assert(path[i + 1] == rest.0[i + 1]);
                    assert(path[i] == rest.0[i]);
                    assert(actions[i] == rest_actions[i]);
                    assert(m.contains_key((#[trigger] rest.0[i + 1]).ticks) && m[rest.0[i
                        + 1].ticks].came_from == Some((rest.0[i], rest_actions[i])));
                } else {
                    assert(path[i + 1] == cur);
                    assert(path[i] == rest.0.last());
                }
            }
        },
    }
}

/// The whole search, on the mathematical state: pop the first minimal
/// frontier entry, drop it if stale, test the budget and the goal
/// proximity, otherwise close and relax the four successors and go on.
/// This pins every step, so it also pins the result: `search` returning
/// whatever this function computes *is* determinism, tie-breaking included.
pub open spec fn run_model(
    m: Map<i64, LedgerEntry>,
    fr: Seq<FrontierEntry>,
    last_action: Action,
    expanded: u64,
    goal: Point,
    cfg: SearchConfig,
    max_expansions: u64,
) -> ModelOutcome
    decreases max_expansions - expanded, fr.len(),
    via run_model_decreases
{
    if expanded > max_expansions {
        ModelOutcome::OutOfBudget
    } else if fr.len() == 0 {
        ModelOutcome::Exhausted
    } else {
        let node = fr[first_min_index(fr)];
        let fr1 = fr.update(first_min_index(fr), fr.last()).drop_last();
        let current = node.point;
        if !(m.contains_key(current.ticks) && m[current.ticks].open) {
            run_model(m, fr1, last_action, expanded, goal, cfg, max_expansions)
        } else if expanded == max_expansions {
            ModelOutcome::OutOfBudget
        } else if dist(current.ticks as int, goal.ticks as int) < cfg.precision {
            let w = walk_model(m, current, m[current.ticks].g_score as nat);
            ModelOutcome::Found(w.0, w.1.push(last_action))
        } else {
            let m1 = m.insert(
                current.ticks,
                LedgerEntry {
                    g_score: m[current.ticks].g_score,
                    f_score: m[current.ticks].f_score,
                    came_from: m[current.ticks].came_from,
                    open: false,
                },
            );
            let tentative = (m[current.ticks].g_score + 1) as u64;
            let step = relax_seq_model(m1, fr1, current, goal, cfg, tentative, 4);
            run_model(
                step.0,
                step.1,
                Action::ConstantRight,
                (expanded + 1) as u64,
                goal,
                cfg,
                max_expansions,
            )
        }
    }
}

/// The f-score the start state is seeded with: zero moves so far, plus the
/// heuristic distance to the goal.
pub open spec fn init_f(start: Point, goal: Point) -> u128 {
    dist(start.ticks as int, goal.ticks as int) as u128
}

/// The ledger a search starts from.
pub open spec fn model_init_map(start: Point, goal: Point) -> Map<i64, LedgerEntry> {
    Map::<i64, LedgerEntry>::empty().insert(
        start.ticks,
        LedgerEntry { g_score: 0, f_score: init_f(start, goal), came_from: None, open: true },
    )
}

/// The frontier a search starts from.
pub open spec fn model_init_frontier(start: Point, goal: Point) -> Seq<FrontierEntry> {
    seq![FrontierEntry { point: start, f_score: init_f(start, goal) }]
}

/// The whole search as one mathematical function of its inputs. `search`
/// returns exactly this, which is the determinism statement: two
/// invocations on equal inputs return equal results, tie-breaking included.
pub open spec fn search_model(
    start: Point,
    goal: Point,
    cfg: SearchConfig,
    max_expansions: u64,
) -> ModelOutcome {
    run_model(
        model_init_map(start, goal),
        model_init_frontier(start, goal),
        Action::NoAction,
        0,
        goal,
        cfg,
        max_expansions,
    )
}

#[via_fn]
proof fn run_model_decreases(
    m: Map<i64, LedgerEntry>,
    fr: Seq<FrontierEntry>,
    last_action: Action,
    expanded: u64,
    goal: Point,
    cfg: SearchConfig,
    max_expansions: u64,
) {
    if expanded <= max_expansions && fr.len() > 0 {
        crate::frontier::lemma_first_min_index_props(fr);
    }
}

/// The A* driver. Starting from `start`, it repeatedly pops the live
/// frontier entry with the lowest f-score, stops as soon as a popped state
/// lies within `cfg.precision` of `goal`, and otherwise relaxes the state's
/// four successors at one move of cost each. Stale frontier entries —
/// states no longer in the open set — are discarded unprocessed.
///
/// `max_expansions` bounds how many live states may be expanded, making the
/// liveness gap of the unbounded formulation explicit at the boundary; a
/// caller wanting effectively unbounded behaviour passes the largest value.
///
/// What the result promises:
/// - any `Found` result satisfies `found_path_ok`: the path starts at
///   `start`, ends within `cfg.precision` of `goal`, and each action label
///   but the terminal one is the genuine move along the path;
/// - a `Found` path never has more states than expansions were allowed;
/// - the result is exactly `search_model` of the inputs — the whole search
///   is one mathematical function, so equal inputs give equal results;
/// - on inputs where the start itself passes the proximity test (and one
///   expansion is allowed), the result is exactly `Found` of the
///   one-element path, with the single, never-assigned action label.
pub fn search(start: Point, goal: Point, cfg: &SearchConfig, max_expansions: u64) -> (r:
    SearchResult)
    ensures
        (r matches SearchResult::Found(path, actions) ==> found_path_ok(
            path@,
            actions@,
            start,
            goal,
            *cfg,
        )),
        (r matches SearchResult::Found(path, actions) ==> path@.len() <= max_expansions),
        (match r {
            SearchResult::Found(path, actions) => search_model(start, goal, *cfg, max_expansions)
                == ModelOutcome::Found(path@, actions@),
            SearchResult::Exhausted => search_model(start, goal, *cfg, max_expansions)
                == ModelOutcome::Exhausted,
            SearchResult::OutOfBudget => search_model(start, goal, *cfg, max_expansions)
                == ModelOutcome::OutOfBudget,
        }),
        trivially_found(start, goal, *cfg, max_expansions) ==> (r matches SearchResult::Found(
            path,
            actions,
        ) && path@ =~= seq![start] && actions@ =~= seq![Action::NoAction]),
{
    let h0 = heuristic(&start, &goal);
    let f0: u128 = h0 as u128;
    let mut ledger = Ledger::new(start, f0);
    let mut frontier = Frontier::new();
    frontier.push(FrontierEntry { point: start, f_score: f0 });
    let mut last_action = Action::NoAction;
    let mut expanded: u64 = 0;
    let ghost init_ledger = ledger@;
    proof {
        lemma_seed_wf(ledger@, *cfg, start, f0);
        assert(f0 == init_f(start, goal));
        assert(init_ledger == model_init_map(start, goal));
        assert(frontier@ =~= model_init_frontier(start, goal));
    }
    loop
        invariant
            ledger_wf(ledger@, *cfg, start),
            forall|k: i64| #[trigger] ledger@.contains_key(k) ==> ledger@[k].g_score <= expanded,
            expanded <= max_expansions,
            init_ledger == Map::<i64, LedgerEntry>::empty().insert(
                start.ticks,
                LedgerEntry { g_score: 0, f_score: f0, came_from: None, open: true },
            ),
            run_model(ledger@, frontier@, last_action, expanded, goal, *cfg, max_expansions)
                == search_model(start, goal, *cfg, max_expansions),
            trivially_found(start, goal, *cfg, max_expansions) ==> {
                &&& expanded == 0
                &&& frontier@ =~= seq![FrontierEntry { point: start, f_score: f0 }]
                &&& ledger@ == init_ledger
                &&& last_action == Action::NoAction
            },
        decreases max_expansions - expanded, frontier@.len(),
    {
        let ghost pre_ledger = ledger@;
        let ghost pre_frontier = frontier@;
        let ghost pre_last_action = last_action;
        let ghost pre_expanded = expanded;
        let popped = frontier.pop_min();
        let node = match popped {
            None => {
                proof {
                    assert(run_model(
                        ledger@,
                        pre_frontier,
                        last_action,
                        expanded,
                        goal,
                        *cfg,
                        max_expansions,
                    ) == ModelOutcome::Exhausted);
                }
                return SearchResult::Exhausted;
            },
            Some(n) => n,
        };
        let current = node.point;
        proof {
            if trivially_found(start, goal, *cfg, max_expansions) {
                assert(node == FrontierEntry { point: start, f_score: f0 });
            }
        }
        if !ledger.is_open(current) {
            // a stale heap entry: the state was already expanded, or a
            // better relaxation superseded this entry
            proof {
                assert(run_model(
                    ledger@,
                    pre_frontier,
                    last_action,
                    expanded,
                    goal,
                    *cfg,
                    max_expansions,
                ) == run_model(
                    ledger@,
                    frontier@,
                    last_action,
                    expanded,
                    goal,
                    *cfg,
                    max_expansions,
                ));
            }
            continue ;
        }
        if expanded == max_expansions {
            proof {
                assert(run_model(
                    ledger@,
                    pre_frontier,
                    last_action,
                    expanded,
                    goal,
                    *cfg,
                    max_expansions,
                ) == ModelOutcome::OutOfBudget);
            }
            return SearchResult::OutOfBudget;
        }
        expanded = expanded + 1;
        let d = current.distance_to(&goal);
        if d < cfg.precision {
            proof {
                lemma_walk_model_chain(
                    ledger@,
                    *cfg,
                    start,
                    current,
                    ledger@[current.ticks].g_score as nat,
                    last_action,
                );
            }
            let (path, taken) = reconstruct_path(&ledger, current, last_action, cfg, Ghost(start));
            proof {
                let w = walk_model(ledger@, current, ledger@[current.ticks].g_score as nat);
                lemma_reconstruction_unique(
                    ledger@,
                    *cfg,
                    start,
                    current,
                    path@,
                    taken@,
                    w.0,
                    w.1.push(pre_last_action),
                );
                assert(run_model(
                    ledger@,
                    pre_frontier,
                    pre_last_action,
                    pre_expanded,
                    goal,
                    *cfg,
                    max_expansions,
                ) == ModelOutcome::Found(w.0, w.1.push(pre_last_action)));
                assert(path@ == w.0);
                assert(taken@ == w.1.push(pre_last_action));
            }
            return SearchResult::Found(path, taken);
        }
        let ghost pre_close = ledger@;
        ledger.close(current);
        proof {
            lemma_close_preserves_wf(pre_close, ledger@, *cfg, start, current);
        }
        let succs = successors(&current, cfg);
        let cur_g = match ledger.get(current) {
            Some(e) => e.g_score,
            None => vstd::pervasive::unreached(),
        };
        let tentative: u64 = cur_g + 1;
        let ghost m1 = ledger@;
        let ghost fr1 = frontier@;
        let mut i: usize = 0;
        while i < 4
            invariant
                ledger_wf(ledger@, *cfg, start),
                forall|k: i64| #[trigger] ledger@.contains_key(k) ==> ledger@[k].g_score
                    <= expanded,
                expanded <= max_expansions,
                !trivially_found(start, goal, *cfg, max_expansions),
                ledger@.contains_key(current.ticks),
                cur_g == ledger@[current.ticks].g_score,
                cur_g < expanded,
                tentative == cur_g + 1,
                succs@.len() == 4,
                forall|j: int|
                    0 <= j < 4 ==> (#[trigger] succs@[j]).0.ticks as int == apply_move(
                        succs@[j].1,
                        current.ticks as int,
                        *cfg,
                    ),
                succs@[0].1 == Action::HalfLeft,
                succs@[1].1 == Action::HalfRight,
                succs@[2].1 == Action::ConstantLeft,
                succs@[3].1 == Action::ConstantRight,
                i <= 4,
                ledger@ == relax_seq_model(m1, fr1, current, goal, *cfg, tentative, i as int).0,
                frontier@ == relax_seq_model(m1, fr1, current, goal, *cfg, tentative, i as int).1,
                i > 0 ==> last_action == succ_action(i as int - 1),
            decreases 4 - i,
        {
            let (n_pt, n_act) = succs[i];
            let h = n_pt.distance_to(&goal);
            proof {
                assert((tentative as u128) * (cfg.move_cost as u128) <= (u64::MAX as u128) * (
                u64::MAX as u128)) by (nonlinear_arith)
                    requires
                        tentative <= u64::MAX,
                        cfg.move_cost <= u64::MAX,
                ;
            }
            let new_f: u128 = (tentative as u128) * (cfg.move_cost as u128) + (h as u128);
            let ghost pre = ledger@;
            let ghost pre_fr = frontier@;
            let pushed = ledger.relax(current, n_pt, n_act, tentative, new_f);
            proof {
                if !pre.contains_key(n_pt.ticks) || tentative < pre[n_pt.ticks].g_score {
                    lemma_relax_preserves_wf(
                        pre,
                        ledger@,
                        *cfg,
                        start,
                        current,
                        n_pt,
                        n_act,
                        tentative,
                        new_f,
                    );
                    assert(current.ticks != n_pt.ticks);
                    assert forall|k: i64| #[trigger] ledger@.contains_key(k) implies ledger@[k].g_score
                        <= expanded by {
                        if k != n_pt.ticks {
                            assert(pre.contains_key(k));
                        }
                    }
                }
            }
            if pushed {
                frontier.push(FrontierEntry { point: n_pt, f_score: new_f });
            }
            proof {
                assert(n_act == succ_action(i as int));
                assert(n_pt.ticks as int == apply_move(n_act, current.ticks as int, *cfg));
                assert(apply_move(n_act, current.ticks as int, *cfg) as i64 == n_pt.ticks);
                assert(Point { ticks: n_pt.ticks } == n_pt);
                assert(new_f as int == tentative * cfg.move_cost + dist(
                    n_pt.ticks as int,
                    goal.ticks as int,
                ));
                assert(relax_seq_model(m1, fr1, current, goal, *cfg, tentative, i as int + 1)
                    == relax_step_model(pre, pre_fr, current, goal, *cfg, tentative, succ_action(
                    i as int,
                )));
                assert(ledger@ == relax_step_model(
                    pre,
                    pre_fr,
                    current,
                    goal,
                    *cfg,
                    tentative,
                    succ_action(i as int),
                ).0);
                assert(frontier@ == relax_step_model(
                    pre,
                    pre_fr,
                    current,
                    goal,
                    *cfg,
                    tentative,
                    succ_action(i as int),
                ).1);
            }
            last_action = n_act;
            i = i + 1;
        }
        proof {
            assert(run_model(
                pre_ledger,
                pre_frontier,
                pre_last_action,
                pre_expanded,
                goal,
                *cfg,
                max_expansions,
            ) == run_model(
                ledger@,
                frontier@,
                Action::ConstantRight,
                expanded,
                goal,
                *cfg,
                max_expansions,
            ));
        }
    }
}

} // verus!
