//! What can be reached in the relationship graph: the tasks that a task
//! depends on, the tasks that share a resource, and the pairs of tasks that
//! talk over a channel.

use std::collections::{HashSet, VecDeque};
use vstd::prelude::*;
use vstd::string::*;
use crate::graph::{
    depends, leaving_targets, lemma_edge_is_neighbour, lemma_neighbour_is_edge, GraphState,
    Relationship, RelationshipType, TaskGraph,
};
use crate::lookup::{lemma_fits, lemma_push_contains, lemma_push_no_duplicates};
use crate::task::{lemma_mirrors_push, mirrors, TaskId};

verus! {

broadcast use vstd::std_specs::hash::group_hash_axioms;

/// The text of an optional name.
pub open spec fn text_of(name: Option<String>) -> Option<Seq<char>> {
    match name {
        Some(n) => Some(n@),
        None => None,
    }
}

impl GraphState {
    /// Whether `path` leads from `from` to `to` over one or more edges of
    /// the `kinds`.
    pub open spec fn leads(
        self,
        kinds: spec_fn(RelationshipType) -> bool,
        path: Seq<TaskId>,
        from: TaskId,
        to: TaskId,
    ) -> bool {
        &&& path.len() >= 2
        &&& path[0] == from
        &&& path.last() == to
        &&& self.is_path(kinds, path)
    }

    /// Whether `to` can be reached from `from` over one or more edges of
    /// the `kinds`.
    pub open spec fn reaches(
        self,
        kinds: spec_fn(RelationshipType) -> bool,
        from: TaskId,
        to: TaskId,
    ) -> bool {
        exists|path: Seq<TaskId>| self.leads(kinds, path, from, to)
    }

    /// Whether the edge at place `i` is one of shared use of the resource
    /// `name`, with `task` at one of its ends.
    pub open spec fn shares(self, i: int, name: Seq<char>, task: TaskId) -> bool {
        let r = self.relationships[i];
        &&& r.relationship_type is SharedResource
        &&& text_of(r.resource_name) == Some(name)
        &&& (r.from == task || r.to == task)
    }

    /// Whether `task` is at one end of an edge of shared use of the resource
    /// `name`.
    pub open spec fn uses(self, name: Seq<char>, task: TaskId) -> bool {
        exists|i: int| 0 <= i < self.relationships.len() && self.shares(i, name, task)
    }

    /// The ends of the edges.
    pub open spec fn targets(self) -> Seq<TaskId> {
        self.relationships.map_values(|r: Relationship| r.to)
    }
}

/// The list with `task` at its end, if it is not in the list already.
pub open spec fn with_new(tasks: Seq<TaskId>, task: TaskId) -> Seq<TaskId> {
    if tasks.contains(task) {
        tasks
    } else {
        tasks.push(task)
    }
}

/// Whether the edge is one of shared use of the resource `name`.
pub open spec fn is_shared_use(edge: Relationship, name: Seq<char>) -> bool {
    edge.relationship_type is SharedResource && text_of(edge.resource_name) == Some(name)
}

/// The tasks at the ends of the edges of shared use of the resource `name`,
/// each once, in the order in which the edges name them first.
pub open spec fn sharers(edges: Seq<Relationship>, name: Seq<char>) -> Seq<TaskId>
    decreases edges.len(),
{
    if edges.len() == 0 {
        Seq::empty()
    } else {
        let before = sharers(edges.drop_last(), name);
        let edge = edges.last();
        if is_shared_use(edge, name) {
            with_new(with_new(before, edge.from), edge.to)
        } else {
            before
        }
    }
}

/// Whether a sending edge and a receiving edge are the two halves of one
/// conversation: they go over the same channel, and the task that is sent
/// to is the one that receives.
pub open spec fn pairs_with(send: Relationship, receive: Relationship) -> bool {
    &&& receive.relationship_type is ChannelReceive
    &&& text_of(send.resource_name) == text_of(receive.resource_name)
    &&& send.to == receive.from
}

/// For one sending edge, the pairs it makes with the receiving edges among
/// `edges`, in the order of those edges: who sends, and who is received
/// from in the end.
pub open spec fn pairs_of(send: Relationship, edges: Seq<Relationship>) -> Seq<(TaskId, TaskId)>
    decreases edges.len(),
{
    if edges.len() == 0 {
        Seq::empty()
    } else {
        let rest = pairs_of(send, edges.drop_last());
        if pairs_with(send, edges.last()) {
            rest.push((send.from, edges.last().to))
        } else {
            rest
        }
    }
}

/// The pairs of the sending edges among the first `upto` edges with all
/// receiving edges, in the order of the sending edges.
pub open spec fn channel_pairs(edges: Seq<Relationship>, upto: nat) -> Seq<(TaskId, TaskId)>
    decreases upto,
{
    if upto == 0 {
        Seq::empty()
    } else {
        let rest = channel_pairs(edges, (upto - 1) as nat);
        if edges[upto - 1].relationship_type is ChannelSend {
            rest + pairs_of(edges[upto - 1], edges)
        } else {
            rest
        }
    }
}

/// An edge is a way of one step.
pub proof fn lemma_edge_reaches(graph: GraphState, kinds: spec_fn(RelationshipType) -> bool, a: TaskId, b: TaskId)
    requires
        graph.edge(kinds, a, b),
    ensures
        graph.reaches(kinds, a, b),
{
    let path = seq![a, b];
    assert forall|i: int| 0 <= i < path.len() - 1 implies #[trigger] graph.steps(kinds, path, i) by {
        assert(path[0] == a && path[1] == b);
    }
    assert(graph.leads(kinds, path, a, b));
}

/// An edge and a way from its end are a way.
pub proof fn lemma_reaches_from(
    graph: GraphState,
    kinds: spec_fn(RelationshipType) -> bool,
    a: TaskId,
    b: TaskId,
    c: TaskId,
)
    requires
        graph.edge(kinds, a, b),
        graph.reaches(kinds, b, c),
    ensures
        graph.reaches(kinds, a, c),
{
    let path = choose|path: Seq<TaskId>| graph.leads(kinds, path, b, c);
    let longer = path.insert(0, a);
    assert forall|i: int| 0 <= i < longer.len() - 1 implies #[trigger] graph.steps(
        kinds,
        longer,
        i,
    ) by {
        if i > 0 {
            assert(graph.steps(kinds, path, i - 1));
            assert(longer[i] == path[i - 1] && longer[i + 1] == path[i]);
        } else {
            assert(longer[0] == a && longer[1] == path[0]);
        }
    }
    assert(longer.last() == path.last());
    assert(graph.leads(kinds, longer, a, c));
}

/// A way and one more edge are a way.
pub proof fn lemma_reaches_on(
    graph: GraphState,
    kinds: spec_fn(RelationshipType) -> bool,
    a: TaskId,
    b: TaskId,
    c: TaskId,
)
    requires
        graph.reaches(kinds, a, b),
        graph.edge(kinds, b, c),
    ensures
        graph.reaches(kinds, a, c),
{
    let path = choose|path: Seq<TaskId>| graph.leads(kinds, path, a, b);
    let longer = path.push(c);
    assert forall|i: int| 0 <= i < longer.len() - 1 implies #[trigger] graph.steps(
        kinds,
        longer,
        i,
    ) by {
        if i < path.len() - 1 {
            assert(graph.steps(kinds, path, i));
        }
    }
    assert(graph.leads(kinds, longer, a, c));
}

/// Whether `found` holds whatever an edge of the `kinds` leads to from
/// `start` or from a task of `found`.
pub open spec fn is_closed(
    graph: GraphState,
    kinds: spec_fn(RelationshipType) -> bool,
    start: TaskId,
    found: Seq<TaskId>,
) -> bool {
    forall|a: TaskId, b: TaskId|
        (a == start || found.contains(a)) && #[trigger] graph.edge(kinds, a, b) ==> found.contains(
            b,
        )
}

/// What is closed holds every task of every way from the start.
proof fn lemma_closed_holds_way(
    graph: GraphState,
    kinds: spec_fn(RelationshipType) -> bool,
    start: TaskId,
    found: Seq<TaskId>,
    path: Seq<TaskId>,
    k: int,
)
    requires
        is_closed(graph, kinds, start, found),
        graph.is_path(kinds, path),
        path.len() >= 2,
        path[0] == start,
        1 <= k < path.len(),
    ensures
        found.contains(path[k]),
    decreases k,
{
    assert(graph.steps(kinds, path, k - 1));
    if k > 1 {
        lemma_closed_holds_way(graph, kinds, start, found, path, k - 1);
    }
}

fn is_dependency(kind: RelationshipType) -> (b: bool)
    ensures
        b == depends()(kind),
{
    match kind {
        RelationshipType::Dependency => true,
        RelationshipType::AwaitsOn => true,
        _ => false,
    }
}

fn same_text(a: &Option<String>, b: &Option<String>) -> (same: bool)
    ensures
        same == (text_of(*a) == text_of(*b)),
{
    match (a, b) {
        (Some(x), Some(y)) => *x == *y,
        (None, None) => true,
        _ => false,
    }
}

impl TaskGraph {
    /// Adds to `found`, and to the end of the queue, the tasks that `cur`
    /// depends on directly and that were not found before.
    fn expand(
        &self,
        start: TaskId,
        cur: TaskId,
        found: &mut Vec<TaskId>,
        seen: &mut HashSet<u64>,
        queue: &mut VecDeque<TaskId>,
    )
        requires
            self.wf(),
            mirrors(old(seen)@, old(found)@),
            old(found)@.no_duplicates(),
            forall|t: TaskId| #[trigger]
                old(found)@.contains(t) ==> self@.reaches(depends(), start, t)
                    && self@.targets().contains(t),
            cur == start || self@.reaches(depends(), start, cur),
        ensures
            mirrors(final(seen)@, final(found)@),
            final(found)@.no_duplicates(),
            forall|t: TaskId| #[trigger]
                final(found)@.contains(t) ==> self@.reaches(depends(), start, t)
                    && self@.targets().contains(t),
            final(found)@.len() >= old(found)@.len(),
            final(found)@.subrange(0, old(found)@.len() as int) == old(found)@,
            final(queue)@ == old(queue)@ + final(found)@.subrange(
                old(found)@.len() as int,
                final(found)@.len() as int,
            ),
            forall|b: TaskId| #[trigger]
                self@.edge(depends(), cur, b) ==> final(found)@.contains(b),
    {
        let ghost graph = self@;
        let ghost before = found@;
        let ghost waiting = queue@;
        let ghost all = leaving_targets(graph.relationships, cur);
        assert(queue@ =~= waiting + found@.subrange(before.len() as int, found@.len() as int));
        match self.neighbours(cur) {
            Some(related) => {
                let n: usize = related.len();
                for i in 0..n
                    invariant
                        graph == self@,
                        related@ == all,
                        all == leaving_targets(graph.relationships, cur),
                        n == related@.len(),
                        cur == start || graph.reaches(depends(), start, cur),
                        mirrors(seen@, found@),
                        found@.no_duplicates(),
                        forall|t: TaskId| #[trigger]
                            found@.contains(t) ==> graph.reaches(depends(), start, t)
                                && graph.targets().contains(t),
                        found@.len() >= before.len(),
                        found@.subrange(0, before.len() as int) == before,
                        queue@ == waiting + found@.subrange(
                            before.len() as int,
                            found@.len() as int,
                        ),
                        forall|k: int|
                            0 <= k < i && depends()((#[trigger] all[k]).1) ==> found@.contains(
                                all[k].0,
                            ),
                {
                    let ghost so_far = found@;
                    let (next, kind) = related[i];
                    if is_dependency(kind) {
                        if !seen.contains(&next.0) {
                            proof {
                                assert(!so_far.contains(next));
                                lemma_mirrors_push(seen@, so_far, next);
                            }
                            seen.insert(next.0);
                            found.push(next);
                            queue.push_back(next);
                            proof {
                                lemma_push_contains(so_far, next);
                                lemma_push_no_duplicates(so_far, next);
                                let j = lemma_neighbour_is_edge(
                                    graph.relationships,
                                    cur,
                                    i as int,
                                );
                                assert(graph.joins(depends(), j, cur, next));
                                assert(graph.edge(depends(), cur, next));
                                if cur == start {
                                    lemma_edge_reaches(graph, depends(), start, next);
                                } else {
                                    lemma_reaches_on(graph, depends(), start, cur, next);
                                }
                                assert(graph.targets()[j] == next);
                                assert(found@.subrange(0, before.len() as int) =~= before);
                                assert(queue@ =~= waiting + found@.subrange(
                                    before.len() as int,
                                    found@.len() as int,
                                ));
                            }
                        } else {
                            assert(so_far.contains(next));
                        }
                    }
                }
            },
            None => {},
        }
        proof {
            assert forall|b: TaskId| #[trigger]
                graph.edge(depends(), cur, b) implies found@.contains(b) by {
                let j = choose|j: int|
                    0 <= j < graph.relationships.len() && graph.joins(depends(), j, cur, b);
                let k = lemma_edge_is_neighbour(graph.relationships, j);
                assert(all[k] == (b, graph.relationships[j].relationship_type));
            }
        }
    }

    /// The tasks that `task_id` depends on, directly or through others: all
    /// that can be reached from it over dependencies and awaits, each once.
    /// The task itself is among them only if it depends on itself.
    pub fn find_transitive_dependencies(&self, task_id: TaskId) -> (found: Vec<TaskId>)
        requires
            self.wf(),
        ensures
            found@.no_duplicates(),
            forall|t: TaskId|
                found@.contains(t) <==> self@.reaches(depends(), task_id, t),
    {
        let ghost graph = self@;
        let mut found: Vec<TaskId> = Vec::new();
        let mut seen: HashSet<u64> = HashSet::new();
        let mut queue: VecDeque<TaskId> = VecDeque::new();
        queue.push_back(task_id);
        let ghost mut head: int = 0;
        assert(queue@ =~= (seq![task_id] + found@).subrange(head, found@.len() as int + 1));
        while queue.len() > 0
            invariant
                self.wf(),
                graph == self@,
                0 <= head <= found@.len() + 1,
                queue@ == (seq![task_id] + found@).subrange(head, found@.len() as int + 1),
                mirrors(seen@, found@),
                found@.no_duplicates(),
                forall|t: TaskId| #[trigger]
                    found@.contains(t) ==> graph.reaches(depends(), task_id, t)
                        && graph.targets().contains(t),
                forall|k: int, b: TaskId|
                    0 <= k < head && #[trigger] graph.edge(
                        depends(),
                        (seq![task_id] + found@)[k],
                        b,
                    ) ==> found@.contains(b),
            decreases graph.targets().len() + 1 - head,
        {
            proof {
                lemma_fits(found@, graph.targets());
            }
            let ghost before = found@;
            let ghost all = seq![task_id] + before;
            let taken = queue.pop_front();
            let cur = taken.unwrap();
            assert(cur == all[head]);
            proof {
                if head > 0 {
                    assert(before[head - 1] == cur);
                    assert(before.contains(cur));
                }
            }
            self.expand(task_id, cur, &mut found, &mut seen, &mut queue);
            proof {
                let after = seq![task_id] + found@;
                assert forall|k: int| 0 <= k < all.len() implies after[k] == all[k] by {
                    if k > 0 {
                        assert(found@.subrange(0, before.len() as int)[k - 1] == found@[k - 1]);
                    }
                }
                assert forall|t: TaskId| before.contains(t) implies found@.contains(t) by {
                    let k = choose|k: int| 0 <= k < before.len() && before[k] == t;
                    assert(found@.subrange(0, before.len() as int)[k] == found@[k]);
                }
                assert forall|k: int, b: TaskId|
                    0 <= k < head + 1 && #[trigger] graph.edge(depends(), after[k], b) implies found@.contains(
                    b,
                ) by {
                    assert(after[k] == all[k]);
                    if k < head {
                        assert(graph.edge(depends(), all[k], b));
                        assert(before.contains(b));
                    }
                }
                assert(queue@ =~= after.subrange(head + 1, found@.len() as int + 1));
                head = head + 1;
            }
        }
        proof {
            let all = seq![task_id] + found@;
            assert(head == found@.len() + 1) by {
                assert(queue@.len() == 0);
            }
            assert(is_closed(graph, depends(), task_id, found@)) by {
                assert forall|a: TaskId, b: TaskId|
                    (a == task_id || found@.contains(a)) && #[trigger] graph.edge(
                        depends(),
                        a,
                        b,
                    ) implies found@.contains(b) by {
                    if a == task_id {
                        assert(all[0] == a);
                        assert(graph.edge(depends(), all[0], b));
                    } else {
                        let k = choose|k: int| 0 <= k < found@.len() && found@[k] == a;
                        assert(all[k + 1] == a);
                        assert(graph.edge(depends(), all[k + 1], b));
                    }
                }
            }
            assert forall|t: TaskId| graph.reaches(depends(), task_id, t) implies found@.contains(
                t,
            ) by {
                let path = choose|path: Seq<TaskId>| graph.leads(depends(), path, task_id, t);
                lemma_closed_holds_way(graph, depends(), task_id, found@, path, path.len() - 1);
            }
        }
        found
    }

    /// The tasks at the ends of the edges of shared use of the resource
    /// `resource_name`, each once, in the order in which the edges name
    /// them first.
    pub fn find_tasks_sharing_resource(&self, resource_name: &str) -> (tasks: Vec<TaskId>)
        ensures
            tasks@ == sharers(self@.relationships, resource_name@),
            tasks@.no_duplicates(),
            forall|t: TaskId| tasks@.contains(t) <==> self@.uses(resource_name@, t),
    {
        let ghost graph = self@;
        let wanted = String::from_str(resource_name);
        let mut tasks: Vec<TaskId> = Vec::new();
        let mut seen: HashSet<u64> = HashSet::new();
        let edges = self.edges();
        let n: usize = edges.len();
        for i in 0..n
            invariant
                graph == self@,
                edges@ == graph.relationships,
                n == edges@.len(),
                wanted@ == resource_name@,
                mirrors(seen@, tasks@),
                tasks@ == sharers(edges@.take(i as int), wanted@),
                tasks@.no_duplicates(),
                forall|t: TaskId| #[trigger] tasks@.contains(t) ==> graph.uses(wanted@, t),
                forall|j: int, t: TaskId|
                    0 <= j < i && #[trigger] graph.shares(j, wanted@, t) ==> tasks@.contains(t),
        {
            proof {
                assert(edges@.take(i + 1).drop_last() == edges@.take(i as int));
                assert(edges@.take(i + 1).last() == edges@[i as int]);
            }
            let edge = &edges[i];
            let named: bool = match &edge.resource_name {
                Some(name) => *name == wanted,
                None => false,
            };
            if edge.relationship_type == RelationshipType::SharedResource && named {
                proof {
                    assert(graph.shares(i as int, wanted@, edge.from));
                    assert(graph.shares(i as int, wanted@, edge.to));
                }
                if !seen.contains(&edge.from.0) {
                    proof {
                        assert(!tasks@.contains(edge.from));
                        lemma_push_contains(tasks@, edge.from);
                        lemma_push_no_duplicates(tasks@, edge.from);
                        lemma_mirrors_push(seen@, tasks@, edge.from);
                    }
                    seen.insert(edge.from.0);
                    tasks.push(edge.from);
                } else {
                    assert(tasks@.contains(edge.from));
                }
                if !seen.contains(&edge.to.0) {
                    proof {
                        assert(!tasks@.contains(edge.to));
                        lemma_push_contains(tasks@, edge.to);
                        lemma_push_no_duplicates(tasks@, edge.to);
                        lemma_mirrors_push(seen@, tasks@, edge.to);
                    }
                    seen.insert(edge.to.0);
                    tasks.push(edge.to);
                } else {
                    assert(tasks@.contains(edge.to));
                }
            }
        }
        assert(edges@.take(n as int) == edges@);
        tasks
    }

    /// The pairs of tasks that talk over a channel: for every sending edge
    /// and every receiving edge over the same channel, where the task that
    /// is sent to is the one that receives, the sender and the task that is
    /// received from. The pairs come in the order of the sending edges, and
    /// for one sending edge in the order of the receiving edges.
    pub fn find_channel_pairs(&self) -> (pairs: Vec<(TaskId, TaskId)>)
        ensures
            pairs@ == channel_pairs(self@.relationships, self@.relationships.len()),
    {
        let mut pairs: Vec<(TaskId, TaskId)> = Vec::new();
        let edges = self.edges();
        let n: usize = edges.len();
        for s in 0..n
            invariant
                edges@ == self@.relationships,
                n == edges@.len(),
                pairs@ == channel_pairs(edges@, s as nat),
        {
            if edges[s].relationship_type == RelationshipType::ChannelSend {
                let ghost base = pairs@;
                for r in 0..n
                    invariant
                        n == edges@.len(),
                        s < n,
                        pairs@ == base + pairs_of(edges@[s as int], edges@.take(r as int)),
                {
                    proof {
                        assert(edges@.take(r + 1).drop_last() == edges@.take(r as int));
                        assert(edges@.take(r + 1).last() == edges@[r as int]);
                    }
                    if edges[r].relationship_type == RelationshipType::ChannelReceive && same_text(
                        &edges[s].resource_name,
                        &edges[r].resource_name,
                    ) && edges[s].to == edges[r].from {
                        pairs.push((edges[s].from, edges[r].to));
                        assert(pairs@ =~= base + pairs_of(edges@[s as int], edges@.take(r + 1)));
                    }
                }
                assert(edges@.take(n as int) == edges@);
            }
        }
        pairs
    }
}

} // verus!
