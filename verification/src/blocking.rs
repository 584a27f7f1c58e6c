//! Possible deadlocks in the relationship graph: a quick look for cycles
//! among the edges over which tasks can block one another.
//!
//! This is a hint for people who look at the graph. Each search stops at the
//! first cycle it meets, so of several cycles that overlap only one may be
//! reported. What the tasks really wait for is the deadlock detector's
//! business.

use std::collections::HashSet;
use vstd::prelude::*;
use crate::graph::{
    blocks, leaving_targets, lemma_edge_is_neighbour, lemma_neighbour_is_edge, GraphState,
    RelationshipType, TaskGraph,
};
use crate::inspector::with_id;
use crate::lookup::{
    lemma_first_match, lemma_fits, lemma_push_contains, lemma_push_no_duplicates,
    lemma_room_for_one,
};
use crate::reach::{lemma_edge_reaches, lemma_reaches_from};
use crate::task::{lemma_mirrors_push, mirrors, TaskId};

verus! {

broadcast use vstd::std_specs::hash::group_hash_axioms;

impl GraphState {
    /// Whether the edge from `a` to `b` closes a cycle of edges that block:
    /// there is such an edge, and `b` is `a` itself or leads back to `a`.
    pub open spec fn closes_cycle(self, a: TaskId, b: TaskId) -> bool {
        self.edge(blocks(), a, b) && (a == b || self.reaches(blocks(), b, a))
    }

    /// Whether every edge that blocks and leaves the task at place `k` of
    /// `done` leads to a task at an earlier place.
    pub open spec fn settled_at(self, done: Seq<TaskId>, k: int) -> bool {
        forall|b: TaskId| #[trigger]
            self.edge(blocks(), done[k], b) ==> done.subrange(0, k).contains(b)
    }

    /// Whether `done` lists tasks so that every edge that blocks leads from
    /// a later place to an earlier one.
    pub open spec fn is_settled(self, done: Seq<TaskId>) -> bool {
        &&& done.no_duplicates()
        &&& forall|k: int| 0 <= k < done.len() ==> #[trigger] self.settled_at(done, k)
    }

    /// Whether every path of edges that block, from a task that the graph
    /// knows, names no task twice: no cycle can be reached.
    pub open spec fn is_free_of_cycles(self) -> bool {
        forall|path: Seq<TaskId>|
            #![trigger self.is_path(blocks(), path)]
            path.len() > 0 && self.knows(path[0]) && self.is_path(blocks(), path)
                ==> path.no_duplicates()
    }
}

impl GraphState {
    /// Whether the search that began at `start` could report `pair`: the
    /// graph knows `start`, the pair is the two ends of an edge that closes
    /// a cycle of edges that block, and the first of the two is `start` or
    /// is reached from `start` over such edges.
    pub open spec fn is_report(self, start: TaskId, pair: Seq<TaskId>) -> bool {
        &&& self.knows(start)
        &&& pair.len() == 2
        &&& self.closes_cycle(pair[0], pair[1])
        &&& (pair[0] == start || self.reaches(blocks(), start, pair[0]))
    }

    /// Whether `pairs` can be what the searches from `starts` reported: one
    /// pair for each search, and no two searches from the same task.
    pub open spec fn are_reports(self, starts: Seq<TaskId>, pairs: Seq<Seq<TaskId>>) -> bool {
        &&& starts.len() == pairs.len()
        &&& starts.no_duplicates()
        &&& forall|i: int| 0 <= i < pairs.len() ==> #[trigger] self.is_report(starts[i], pairs[i])
    }
}

/// The pairs as values.
pub open spec fn pairs_of(cycles: Seq<Vec<TaskId>>) -> Seq<Seq<TaskId>> {
    cycles.map_values(|pair: Vec<TaskId>| pair@)
}

/// A path and a path from its last task on are one path.
proof fn lemma_paths_join(graph: GraphState, first: Seq<TaskId>, second: Seq<TaskId>)
    requires
        graph.is_path(blocks(), first),
        graph.is_path(blocks(), second),
        first.len() > 0,
        second.len() > 0,
        graph.edge(blocks(), first.last(), second[0]),
    ensures
        graph.is_path(blocks(), first + second),
{
    let joined = first + second;
    assert forall|i: int| 0 <= i < joined.len() - 1 implies #[trigger] graph.steps(
        blocks(),
        joined,
        i,
    ) by {
        if i < first.len() - 1 {
            assert(graph.steps(blocks(), first, i));
        } else if i == first.len() - 1 {
            assert(joined[i] == first.last() && joined[i + 1] == second[0]);
        } else {
            assert(graph.steps(blocks(), second, i - first.len()));
            assert(joined[i] == second[i - first.len()] && joined[i + 1] == second[i
                - first.len() + 1]);
        }
    }
}

/// Where a search could report a pair, a cycle can be reached from a task
/// that the graph knows.
pub proof fn lemma_report_shows_cycle(graph: GraphState, start: TaskId, pair: Seq<TaskId>)
    requires
        graph.is_report(start, pair),
    ensures
        !graph.is_free_of_cycles(),
{
    let a = pair[0];
    let b = pair[1];
    let there = if a == start {
        seq![start]
    } else {
        choose|path: Seq<TaskId>| graph.leads(blocks(), path, start, a)
    };
    assert(graph.is_path(blocks(), there) && there.len() > 0 && there[0] == start
        && there.last() == a) by {
        if a == start {
            assert(there.len() == 1);
        }
    }
    let back = if a == b {
        seq![a]
    } else {
        choose|path: Seq<TaskId>| graph.leads(blocks(), path, b, a)
    };
    assert(graph.is_path(blocks(), back) && back.len() > 0 && back[0] == b && back.last() == a) by {
        if a == b {
            assert(back.len() == 1);
        }
    }
    lemma_paths_join(graph, there, back);
    let round = there + back;
    assert(round[0] == start);
    assert(round[there.len() - 1] == a);
    assert(round[round.len() - 1] == a);
    assert(graph.is_path(blocks(), round));
    if graph.is_free_of_cycles() {
        assert(round.no_duplicates());
        assert(false);
    }
}

/// Whether the searches so far have left nothing open: what was visited is
/// on the stack or done, never both, and what is done is settled.
pub open spec fn is_tidy(
    graph: GraphState,
    visited: Seq<TaskId>,
    stack: Seq<TaskId>,
    done: Seq<TaskId>,
) -> bool {
    &&& graph.is_settled(done)
    &&& forall|t: TaskId| #[trigger] visited.contains(t) <==> (stack.contains(t) || done.contains(t))
    &&& forall|t: TaskId| !(stack.contains(t) && #[trigger] done.contains(t))
}

/// Whether `stack` is a path of edges that block.
pub open spec fn is_stack(graph: GraphState, stack: Seq<TaskId>) -> bool {
    graph.is_path(blocks(), stack) && stack.no_duplicates()
}

/// Along a path that begins among settled tasks, every task is settled and
/// stands before the one it follows.
proof fn lemma_path_descends(graph: GraphState, done: Seq<TaskId>, path: Seq<TaskId>, k: int)
    requires
        graph.is_settled(done),
        graph.is_path(blocks(), path),
        path.len() > 0,
        done.contains(path[0]),
        0 <= k < path.len(),
    ensures
        done.contains(path[k]),
        k > 0 ==> done.index_of(path[k]) < done.index_of(path[k - 1]),
    decreases k,
{
    if k > 0 {
        lemma_path_descends(graph, done, path, k - 1);
        let before = done.index_of(path[k - 1]);
        assert(graph.settled_at(done, before));
        assert(graph.steps(blocks(), path, k - 1));
        let early = done.subrange(0, before);
        assert(early.contains(path[k]));
        let j = choose|j: int| 0 <= j < early.len() && early[j] == path[k];
        assert(done[j] == path[k]);
        assert(done.contains(path[k]));
        assert(done.index_of(path[k]) == j);
    }
}

/// Along a path that begins among settled tasks, a later task stands before
/// every earlier one.
proof fn lemma_path_descends_far(
    graph: GraphState,
    done: Seq<TaskId>,
    path: Seq<TaskId>,
    a: int,
    b: int,
)
    requires
        graph.is_settled(done),
        graph.is_path(blocks(), path),
        done.contains(path[0]),
        0 <= a < b < path.len(),
    ensures
        done.index_of(path[b]) < done.index_of(path[a]),
    decreases b - a,
{
    lemma_path_descends(graph, done, path, b);
    if a + 1 < b {
        lemma_path_descends_far(graph, done, path, a, b - 1);
    }
}

/// Where everything that the graph knows is settled, no cycle can be
/// reached.
proof fn lemma_settled_is_free(graph: GraphState, done: Seq<TaskId>)
    requires
        graph.is_settled(done),
        forall|i: int| 0 <= i < graph.tasks.len() ==> done.contains(#[trigger] graph.tasks[i].id),
    ensures
        graph.is_free_of_cycles(),
{
    assert forall|path: Seq<TaskId>|
        #![trigger graph.is_path(blocks(), path)]
        path.len() > 0 && graph.knows(path[0]) && graph.is_path(
            blocks(),
            path,
        ) implies path.no_duplicates() by {
        lemma_first_match(graph.tasks, with_id(path[0]));
        let f = crate::lookup::first_match(graph.tasks, with_id(path[0]));
        assert(graph.tasks[f].id == path[0]);
        assert forall|a: int, b: int| 0 <= a < path.len() && 0 <= b < path.len() && a != b implies path[a]
            != path[b] by {
            if a < b {
                lemma_path_descends_far(graph, done, path, a, b);
            } else {
                lemma_path_descends_far(graph, done, path, b, a);
            }
        }
    }
}

/// The part of a stack from a place on is a way from the task at that place
/// to the task on top.
proof fn lemma_stack_leads(graph: GraphState, stack: Seq<TaskId>, from: int)
    requires
        is_stack(graph, stack),
        0 <= from < stack.len() - 1,
    ensures
        graph.reaches(blocks(), stack[from], stack.last()),
{
    let path = stack.subrange(from, stack.len() as int);
    assert forall|i: int| 0 <= i < path.len() - 1 implies #[trigger] graph.steps(blocks(), path, i) by {
        assert(graph.steps(blocks(), stack, from + i));
    }
    assert(graph.leads(blocks(), path, stack[from], stack.last()));
}

fn can_block(kind: RelationshipType) -> (b: bool)
    ensures
        b == blocks()(kind),
{
    match kind {
        RelationshipType::SharedResource => true,
        RelationshipType::AwaitsOn => true,
        _ => false,
    }
}

impl TaskGraph {
    /// Searches from `task_id`, depth first, for an edge that leads back
    /// to a task on the stack. The first such edge is returned as the pair
    /// of its ends.
    fn find_cycle(
        &self,
        task_id: TaskId,
        visited: &mut HashSet<u64>,
        stack: &mut HashSet<u64>,
        Ghost(seen): Ghost<Seq<TaskId>>,
        Ghost(below): Ghost<Seq<TaskId>>,
        Ghost(done): Ghost<Seq<TaskId>>,
        Ghost(tidy): Ghost<bool>,
    ) -> (found: (Option<Vec<TaskId>>, Ghost<Seq<TaskId>>, Ghost<Seq<TaskId>>))
        requires
            self.wf(),
            mirrors(old(visited)@, seen),
            mirrors(old(stack)@, below),
            seen.no_duplicates(),
            forall|t: TaskId| #[trigger] seen.contains(t) ==> self@.nodes().contains(t),
            self@.nodes().contains(task_id),
            !seen.contains(task_id),
            is_stack(self@, below),
            forall|t: TaskId| #[trigger] below.contains(t) ==> seen.contains(t),
            below.len() > 0 ==> self@.edge(blocks(), below.last(), task_id),
            tidy ==> is_tidy(self@, seen, below, done),
        ensures
            mirrors(final(visited)@, found.2@),
            found.2@.no_duplicates(),
            forall|t: TaskId| #[trigger] found.2@.contains(t) ==> self@.nodes().contains(t),
            forall|t: TaskId| seen.contains(t) ==> found.2@.contains(t),
            found.2@.contains(task_id),
            found.2@.len() >= seen.len(),
            match found.0 {
                Some(pair) => {
                    &&& pair@.len() == 2
                    &&& self@.closes_cycle(pair@[0], pair@[1])
                    &&& (pair@[0] == task_id || self@.reaches(blocks(), task_id, pair@[0]))
                },
                None => {
                    &&& final(stack)@ == old(stack)@
                    &&& tidy ==> is_tidy(self@, found.2@, below, found.1@)
                    &&& tidy ==> found.1@.contains(task_id)
                },
            },
        decreases self@.nodes().len() - seen.len(),
    {
        let ghost graph = self@;
        proof {
            lemma_room_for_one(seen, graph.nodes(), task_id);
            lemma_push_contains(seen, task_id);
            lemma_push_no_duplicates(seen, task_id);
            lemma_push_contains(below, task_id);
            assert(!below.contains(task_id));
            lemma_push_no_duplicates(below, task_id);
            lemma_mirrors_push(visited@, seen, task_id);
            lemma_mirrors_push(stack@, below, task_id);
        }
        visited.insert(task_id.0);
        stack.insert(task_id.0);
        let ghost on = below.push(task_id);
        let mut order: Ghost<Seq<TaskId>> = Ghost(seen.push(task_id));
        proof {
            assert forall|i: int| 0 <= i < on.len() - 1 implies #[trigger] graph.steps(
                blocks(),
                on,
                i,
            ) by {
                if i < below.len() - 1 {
                    assert(graph.steps(blocks(), below, i));
                }
            }
            if tidy {
                assert(!done.contains(task_id));
            }
        }
        let mut done_now: Ghost<Seq<TaskId>> = Ghost(done);
        let ghost all = leaving_targets(graph.relationships, task_id);
        let gone = self.neighbours(task_id);
        let empty: Vec<(TaskId, RelationshipType)> = Vec::new();
        let related: &Vec<(TaskId, RelationshipType)> = match gone {
            Some(list) => list,
            None => &empty,
        };
        assert(related@ =~= all);
        let n: usize = related.len();
        for i in 0..n
            invariant
                self.wf(),
                graph == self@,
                related@ == all,
                all == leaving_targets(graph.relationships, task_id),
                n == related@.len(),
                seen.no_duplicates(),
                mirrors(old(stack)@, below),
                on == below.push(task_id),
                !below.contains(task_id),
                mirrors(stack@, on),
                mirrors(visited@, order@),
                is_stack(graph, on),
                seen.len() < graph.nodes().len(),
                order@.len() > seen.len(),
                order@.no_duplicates(),
                forall|t: TaskId| #[trigger] order@.contains(t) ==> graph.nodes().contains(t),
                forall|t: TaskId| seen.contains(t) ==> order@.contains(t),
                order@.contains(task_id),
                forall|t: TaskId| #[trigger] on.contains(t) ==> order@.contains(t),
                tidy ==> is_tidy(graph, order@, on, done_now@),
                tidy ==> forall|k: int|
                    0 <= k < i && blocks()((#[trigger] all[k]).1) ==> done_now@.contains(all[k].0),
        {
            let (next, kind) = related[i];
            if can_block(kind) {
                proof {
                    let j = lemma_neighbour_is_edge(graph.relationships, task_id, i as int);
                    assert(graph.joins(blocks(), j, task_id, next));
                    assert(graph.edge(blocks(), task_id, next));
                    assert(graph.nodes()[graph.tasks.len() + graph.relationships.len() + j]
                        == next);
                }
                if !visited.contains(&next.0) {
                    let ghost before = done_now@;
                    let ghost so_far = order@;
                    proof {
                        assert(!so_far.contains(next));
                        lemma_room_for_one(so_far, graph.nodes(), next);
                    }
                    let (inner, deeper, further) = self.find_cycle(
                        next,
                        visited,
                        stack,
                        Ghost(so_far),
                        Ghost(on),
                        Ghost(done_now@),
                        Ghost(tidy),
                    );
                    match inner {
                        Some(pair) => {
                            proof {
                                lemma_fits(seen, further@);
                                assert(graph.edge(blocks(), task_id, next));
                                if pair@[0] == next {
                                    lemma_edge_reaches(graph, blocks(), task_id, next);
                                } else {
                                    lemma_reaches_from(graph, blocks(), task_id, next, pair@[0]);
                                }
                            }
                            return (Some(pair), Ghost(done), further);
                        },
                        None => {
                            proof {
                                assert forall|t: TaskId| seen.contains(t) implies further@.contains(
                                    t,
                                ) by {
                                    assert(so_far.contains(t));
                                }
                                if tidy {
                                    assert forall|k: int|
                                        0 <= k < i + 1 && blocks()(
                                            (#[trigger] all[k]).1,
                                        ) implies deeper@.contains(all[k].0) by {
                                        let b = all[k].0;
                                        if k < i {
                                            assert(before.contains(b));
                                            assert(so_far.contains(b));
                                            assert(further@.contains(b));
                                            assert(on.contains(b) || deeper@.contains(b));
                                            if on.contains(b) {
                                                assert(!before.contains(b));
                                            }
                                        }
                                    }
                                }
                            }
                            done_now = deeper;
                            order = further;
                        },
                    }
                } else {
                    if stack.contains(&next.0) {
                        let mut pair: Vec<TaskId> = Vec::new();
                        pair.push(task_id);
                        pair.push(next);
                        proof {
                            assert(graph.edge(blocks(), task_id, next));
                            assert(on.contains(next));
                            if next != task_id {
                                let at = choose|k: int| 0 <= k < on.len() && on[k] == next;
                                assert(on.last() == task_id);
                                lemma_stack_leads(graph, on, at);
                            }
                            lemma_fits(seen, order@);
                        }
                        return (Some(pair), Ghost(done), order);
                    }
                    proof {
                        assert(order@.contains(next));
                        assert(!on.contains(next));
                        if tidy {
                            assert(done_now@.contains(next));
                        }
                    }
                }
            }
        }
        stack.remove(&task_id.0);
        let ghost finished = done_now@.push(task_id);
        proof {
            assert(stack@ =~= old(stack)@) by {
                assert forall|raw: u64| stack@.contains(raw) <==> old(stack)@.contains(raw) by {
                    assert(on.contains(TaskId(raw)) <==> (below.contains(TaskId(raw)) || TaskId(raw)
                        == task_id));
                }
            }
            lemma_fits(seen, order@);
            if tidy {
                let d = done_now@;
                lemma_push_contains(d, task_id);
                assert(!d.contains(task_id)) by {
                    assert(on.contains(task_id));
                }
                lemma_push_no_duplicates(d, task_id);
                assert forall|k: int| 0 <= k < finished.len() implies #[trigger] graph.settled_at(
                    finished,
                    k,
                ) by {
                    if k < d.len() {
                        assert(graph.settled_at(d, k));
                        assert(finished.subrange(0, k) =~= d.subrange(0, k));
                    } else {
                        assert(finished.subrange(0, k) =~= d);
                        assert forall|b: TaskId| #[trigger]
                            graph.edge(blocks(), finished[k], b) implies d.contains(b) by {
                            let j = choose|j: int|
                                0 <= j < graph.relationships.len() && graph.joins(
                                    blocks(),
                                    j,
                                    task_id,
                                    b,
                                );
                            let at = lemma_edge_is_neighbour(graph.relationships, j);
                            assert(all[at] == (b, graph.relationships[j].relationship_type));
                        }
                    }
                }
                assert forall|t: TaskId| #[trigger] order@.contains(t) <==> (below.contains(t)
                    || finished.contains(t)) by {
                    assert(on.contains(t) <==> (below.contains(t) || t == task_id));
                }
                assert forall|t: TaskId| !(below.contains(t) && #[trigger] finished.contains(
                    t,
                )) by {
                    if below.contains(t) {
                        assert(on.contains(t));
                    }
                }
            }
        }
        (None, Ghost(finished), order)
    }

    /// Looks for cycles among the edges of shared use and of awaiting. A
    /// search goes out from each task that the graph knows and that no
    /// earlier search has reached, and reports the first edge that leads
    /// back to a task on its way, as the pair of the edge's ends. So there
    /// is at most one pair for each search; each pair closes a cycle that
    /// can be reached from the task where its search began; and nothing is
    /// reported exactly if no cycle can be reached from a known task.
    pub fn detect_potential_deadlocks(&self) -> (cycles: Vec<Vec<TaskId>>)
        requires
            self.wf(),
        ensures
            exists|starts: Seq<TaskId>| #[trigger] self@.are_reports(starts, pairs_of(cycles@)),
            cycles@.len() == 0 <==> self@.is_free_of_cycles(),
    {
        let ghost graph = self@;
        let mut cycles: Vec<Vec<TaskId>> = Vec::new();
        let mut visited: HashSet<u64> = HashSet::new();
        let mut order: Ghost<Seq<TaskId>> = Ghost(Seq::empty());
        let mut done: Ghost<Seq<TaskId>> = Ghost(Seq::empty());
        let mut starts: Ghost<Seq<TaskId>> = Ghost(Seq::empty());
        let tasks = self.known_tasks();
        let n: usize = tasks.len();
        assert(pairs_of(cycles@) =~= Seq::<Seq<TaskId>>::empty());
        for i in 0..n
            invariant
                self.wf(),
                graph == self@,
                tasks@ == graph.tasks,
                n == tasks@.len(),
                mirrors(visited@, order@),
                order@.no_duplicates(),
                forall|t: TaskId| #[trigger] order@.contains(t) ==> graph.nodes().contains(t),
                forall|j: int| 0 <= j < i ==> order@.contains(#[trigger] tasks@[j].id),
                graph.are_reports(starts@, pairs_of(cycles@)),
                forall|t: TaskId| #[trigger] starts@.contains(t) ==> order@.contains(t),
                cycles@.len() == 0 ==> is_tidy(graph, order@, Seq::<TaskId>::empty(), done@),
        {
            let id = tasks[i].id;
            if !visited.contains(&id.0) {
                proof {
                    assert(!order@.contains(id));
                    assert(graph.nodes()[i as int] == id);
                    assert(graph.knows(id)) by {
                        lemma_first_match(graph.tasks, with_id(id));
                        let f = crate::lookup::first_match(graph.tasks, with_id(id));
                        if f >= graph.tasks.len() {
                            assert(!with_id(id)(graph.tasks[i as int]));
                        }
                    }
                }
                let mut stack: HashSet<u64> = HashSet::new();
                let ghost tidy = cycles@.len() == 0;
                let ghost before = pairs_of(cycles@);
                let ghost begun = starts@;
                let (found, finished, further) = self.find_cycle(
                    id,
                    &mut visited,
                    &mut stack,
                    Ghost(order@),
                    Ghost(Seq::empty()),
                    Ghost(done@),
                    Ghost(tidy),
                );
                order = further;
                match found {
                    Some(pair) => {
                        let ghost reported = pair@;
                        cycles.push(pair);
                        proof {
                            starts@ = begun.push(id);
                            let after = pairs_of(cycles@);
                            assert(after =~= before.push(reported));
                            lemma_push_contains(begun, id);
                            assert(!begun.contains(id));
                            lemma_push_no_duplicates(begun, id);
                            assert forall|j: int| 0 <= j < after.len() implies #[trigger] graph.is_report(
                                starts@[j],
                                after[j],
                            ) by {
                                if j < before.len() {
                                    assert(graph.is_report(begun[j], before[j]));
                                }
                            }
                        }
                    },
                    None => {
                        done = finished;
                    },
                }
            }
        }
        proof {
            if cycles@.len() == 0 {
                assert forall|j: int| 0 <= j < graph.tasks.len() implies done@.contains(
                    #[trigger] graph.tasks[j].id,
                ) by {
                    assert(order@.contains(tasks@[j].id));
                }
                lemma_settled_is_free(graph, done@);
            } else {
                assert(graph.is_report(starts@[0], pairs_of(cycles@)[0]));
                lemma_report_shows_cycle(graph, starts@[0], pairs_of(cycles@)[0]);
            }
        }
        cycles
    }
}

} // verus!
