//! The critical path: the longest chain of tasks that hold one another up.

use std::collections::HashSet;
use vstd::prelude::*;
use crate::graph::{
    holds_up, leaving_targets, lemma_edge_is_neighbour, lemma_neighbour_is_edge, lemma_node_ids,
    GraphState, RelationshipType, TaskGraph,
};
use crate::inspector::with_id;
use crate::lookup::{lemma_first_match, lemma_set_has_room};
use crate::task::TaskId;

verus! {

broadcast use vstd::std_specs::hash::group_hash_axioms;

impl GraphState {
    /// Whether `path` is a chain of edges that hold up, begins at `start`
    /// and names no task of `barred`.
    pub open spec fn is_chain_from(self, path: Seq<TaskId>, start: TaskId, barred: Set<u64>) -> bool {
        &&& path.len() > 0
        &&& path[0] == start
        &&& self.is_chain(holds_up(), path)
        &&& forall|t: TaskId| #[trigger] path.contains(t) ==> !barred.contains(t.0)
    }

    /// Whether `path` is a chain of edges that hold up and begins at a task
    /// that the graph knows.
    pub open spec fn is_critical_chain(self, path: Seq<TaskId>) -> bool {
        &&& path.len() > 0
        &&& self.knows(path[0])
        &&& self.is_chain(holds_up(), path)
    }
}

/// The start of an edge is a node.
proof fn lemma_known_is_node(graph: GraphState, i: int)
    requires
        0 <= i < graph.tasks.len(),
    ensures
        graph.nodes().contains(graph.tasks[i].id),
{
    assert(graph.nodes()[i] == graph.tasks[i].id);
}

/// The end of an edge is a node.
proof fn lemma_target_is_node(graph: GraphState, i: int)
    requires
        0 <= i < graph.relationships.len(),
    ensures
        graph.nodes().contains(graph.relationships[i].to),
{
    let at = graph.tasks.len() + graph.relationships.len() + i;
    assert(graph.nodes()[at] == graph.relationships[i].to);
}

/// A chain with one more task in front, from which an edge leads to the
/// chain's first task, is a chain.
proof fn lemma_chain_grows(
    graph: GraphState,
    rest: Seq<TaskId>,
    first: TaskId,
    barred: Set<u64>,
    i: int,
)
    requires
        0 <= i < graph.relationships.len(),
        !barred.contains(first.0),
        graph.joins(holds_up(), i, first, rest[0]),
        graph.is_chain_from(rest, rest[0], barred.insert(first.0)),
    ensures
        graph.is_chain_from(rest.insert(0, first), first, barred),
{
    let path = rest.insert(0, first);
    assert forall|k: int| 0 <= k < path.len() - 1 implies #[trigger] graph.steps(
        holds_up(),
        path,
        k,
    ) by {
        if k == 0 {
            assert(path[1] == rest[0]);
        } else {
            assert(graph.steps(holds_up(), rest, k - 1));
            assert(path[k] == rest[k - 1] && path[k + 1] == rest[k]);
        }
    }
    assert forall|a: int, b: int| 0 <= a < path.len() && 0 <= b < path.len() && a != b implies path[a]
        != path[b] by {
        if a == 0 {
            assert(rest.contains(rest[b - 1]));
        } else if b == 0 {
            assert(rest.contains(rest[a - 1]));
        } else {
            assert(rest[a - 1] != rest[b - 1]);
        }
    }
    assert forall|t: TaskId| #[trigger] path.contains(t) implies !barred.contains(t.0) by {
        let k = choose|k: int| 0 <= k < path.len() && path[k] == t;
        if k > 0 {
            assert(rest.contains(rest[k - 1]));
        }
    }
}

/// A chain of more than one task, without its first task, is a chain from
/// its second task that does not name the first.
proof fn lemma_chain_shrinks(graph: GraphState, path: Seq<TaskId>, barred: Set<u64>)
    requires
        path.len() > 1,
        graph.is_chain_from(path, path[0], barred),
    ensures
        graph.is_chain_from(path.drop_first(), path[1], barred.insert(path[0].0)),
        graph.edge(holds_up(), path[0], path[1]),
{
    let rest = path.drop_first();
    assert(graph.steps(holds_up(), path, 0));
    assert forall|k: int| 0 <= k < rest.len() - 1 implies #[trigger] graph.steps(
        holds_up(),
        rest,
        k,
    ) by {
        assert(graph.steps(holds_up(), path, k + 1));
    }
    assert forall|t: TaskId| #[trigger] rest.contains(t) implies !barred.insert(
        path[0].0,
    ).contains(t.0) by {
        let k = choose|k: int| 0 <= k < rest.len() && rest[k] == t;
        assert(path[k + 1] == t);
        assert(path.contains(t));
        assert(path[0] != path[k + 1]);
    }
}

fn holds_up_kind(kind: RelationshipType) -> (b: bool)
    ensures
        b == holds_up()(kind),
{
    match kind {
        RelationshipType::Dependency => true,
        RelationshipType::DataFlow => true,
        RelationshipType::AwaitsOn => true,
        _ => false,
    }
}

impl TaskGraph {
    /// The longest chain that begins at `task_id` and names no task of
    /// `visited`: empty if `task_id` is itself one of them. Every chain is
    /// tried, so the time grows with the number of chains.
    fn find_longest_path(&self, task_id: TaskId, visited: &mut HashSet<u64>) -> (longest: Vec<
        TaskId,
    >)
        requires
            self.wf(),
            old(visited)@.subset_of(self@.node_ids()),
            self@.nodes().contains(task_id),
        ensures
            final(visited)@ == old(visited)@,
            old(visited)@.contains(task_id.0) ==> longest@.len() == 0,
            !old(visited)@.contains(task_id.0) ==> self@.is_chain_from(
                longest@,
                task_id,
                old(visited)@,
            ),
            forall|other: Seq<TaskId>| #[trigger]
                self@.is_chain_from(other, task_id, old(visited)@) ==> other.len()
                    <= longest@.len(),
        decreases self@.node_ids().len() - old(visited)@.len(),
    {
        let ghost graph = self@;
        let ghost barred = visited@;
        if visited.contains(&task_id.0) {
            proof {
                assert forall|other: Seq<TaskId>| #[trigger]
                    graph.is_chain_from(other, task_id, barred) implies other.len() <= 0 by {
                    assert(other.contains(other[0]));
                }
            }
            return Vec::new();
        }
        proof {
            lemma_node_ids(graph);
            lemma_set_has_room(barred, graph.node_ids(), task_id.0);
        }
        visited.insert(task_id.0);
        let ghost inner = visited@;
        let mut longest: Vec<TaskId> = Vec::new();
        longest.push(task_id);
        proof {
            assert(longest@[0] == task_id);
            assert(longest@.contains(task_id) && longest@.len() == 1);
            assert forall|t: TaskId| #[trigger] longest@.contains(t) implies t == task_id by {
                let k = choose|k: int| 0 <= k < longest@.len() && longest@[k] == t;
            }
        }
        let ghost all = leaving_targets(graph.relationships, task_id);
        let gone = self.neighbours(task_id);
        let empty: Vec<(TaskId, RelationshipType)> = Vec::new();
        let related: &Vec<(TaskId, RelationshipType)> = match gone {
            Some(list) => list,
            None => &empty,
        };
        assert(related@ =~= all);
        let n: usize = related.len();
        for i in 0..n
            invariant
                self.wf(),
                graph == self@,
                related@ == all,
                all == leaving_targets(graph.relationships, task_id),
                n == related@.len(),
                barred == old(visited)@,
                barred.finite(),
                inner == barred.insert(task_id.0),
                inner.len() == barred.len() + 1,
                visited@ == inner,
                !barred.contains(task_id.0),
                inner.subset_of(graph.node_ids()),
                barred.len() < graph.node_ids().len(),
                graph.is_chain_from(longest@, task_id, barred),
                forall|k: int, other: Seq<TaskId>|
                    0 <= k < i && holds_up()(all[k].1) && #[trigger] graph.is_chain_from(
                        other,
                        all[k].0,
                        inner,
                    ) ==> other.len() + 1 <= longest@.len(),
        {
            let (next, kind) = related[i];
            if holds_up_kind(kind) {
                let ghost j = 0int;
                proof {
                    j = lemma_neighbour_is_edge(graph.relationships, task_id, i as int);
                    lemma_target_is_node(graph, j);
                }
                let mut path = self.find_longest_path(next, visited);
                if path.len() >= longest.len() {
                    proof {
                        assert(graph.joins(holds_up(), j, task_id, next));
                        assert(path@.len() > 0);
                        lemma_chain_grows(graph, path@, task_id, barred, j);
                    }
                    path.insert(0, task_id);
                    longest = path;
                }
            }
        }
        visited.remove(&task_id.0);
        proof {
            assert(visited@ =~= barred);
            assert forall|other: Seq<TaskId>| #[trigger]
                graph.is_chain_from(other, task_id, barred) implies other.len()
                <= longest@.len() by {
                if other.len() > 1 {
                    lemma_chain_shrinks(graph, other, barred);
                    let j = choose|j: int|
                        0 <= j < graph.relationships.len() && graph.joins(
                            holds_up(),
                            j,
                            other[0],
                            other[1],
                        );
                    let k = lemma_edge_is_neighbour(graph.relationships, j);
                    assert(all[k] == (other[1], graph.relationships[j].relationship_type));
                    assert(graph.is_chain_from(other.drop_first(), all[k].0, inner));
                }
            }
        }
        longest
    }

    /// The critical path: a longest chain of tasks, each held up by the
    /// next through a dependency, a flow of data or an await, that begins
    /// at a task the graph knows. No such chain is longer than the one
    /// returned; where several are as long, any of them may come. It is
    /// empty only if the graph knows no task.
    pub fn find_critical_path(&self) -> (longest: Vec<TaskId>)
        requires
            self.wf(),
        ensures
            longest@.len() == 0 || self@.is_critical_chain(longest@),
            forall|other: Seq<TaskId>| #[trigger]
                self@.is_critical_chain(other) ==> other.len() <= longest@.len(),
    {
        let ghost graph = self@;
        let mut longest: Vec<TaskId> = Vec::new();
        let mut visited: HashSet<u64> = HashSet::new();
        let tasks = self.known_tasks();
        let n: usize = tasks.len();
        for i in 0..n
            invariant
                self.wf(),
                graph == self@,
                tasks@ == graph.tasks,
                n == tasks@.len(),
                visited@ == Set::<u64>::empty(),
                longest@.len() == 0 || graph.is_critical_chain(longest@),
                forall|j: int, other: Seq<TaskId>|
                    0 <= j < i && #[trigger] graph.is_chain_from(other, tasks@[j].id, visited@)
                        ==> other.len() <= longest@.len(),
        {
            proof {
                lemma_known_is_node(graph, i as int);
            }
            let path = self.find_longest_path(tasks[i].id, &mut visited);
            proof {
                assert(!visited@.contains(tasks@[i as int].id.0));
                assert(graph.knows(tasks@[i as int].id)) by {
                    lemma_first_match(graph.tasks, with_id(tasks@[i as int].id));
                    let f = crate::lookup::first_match(graph.tasks, with_id(tasks@[i as int].id));
                    if f >= graph.tasks.len() {
                        assert(!with_id(tasks@[i as int].id)(graph.tasks[i as int]));
                    }
                }
            }
            if path.len() > longest.len() {
                longest = path;
            }
        }
        proof {
            assert forall|other: Seq<TaskId>| #[trigger]
                graph.is_critical_chain(other) implies other.len() <= longest@.len() by {
                lemma_first_match(graph.tasks, with_id(other[0]));
                let j = crate::lookup::first_match(graph.tasks, with_id(other[0]));
                assert(tasks@[j].id == other[0]);
                assert(graph.is_chain_from(other, tasks@[j].id, visited@));
            }
        }
        longest
    }
}

} // verus!
