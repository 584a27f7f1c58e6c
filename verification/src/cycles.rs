//! Deadlocks: the cycles of the wait-for graph.
//!
//! A task waits for at most one resource, and a resource has at most one
//! holder, so every task is blocked by at most one other. Following the
//! blockers from a task either ends, or runs into a cycle. A task is
//! deadlocked when following its blockers leads back to the task itself.

use std::collections::HashSet;
use vstd::prelude::*;
use vstd::string::*;
use crate::deadlock::{DeadlockDetector, DetectorState, ResourceId, WaitEdge};
use crate::task::{lemma_mirrors_push, mirrors, TaskId};

verus! {

/// A cycle of tasks that wait for one another.
#[derive(Debug)]
pub struct DeadlockCycle {
    /// The tasks of the cycle; each waits for the next, and the last for the
    /// first.
    pub tasks: Vec<TaskId>,
    /// For each task, the resource that it waits for.
    pub resources: Vec<ResourceId>,
    /// For each task, whom it waits for and for what.
    pub chain: Vec<WaitEdge>,
}

/// A cycle as a value.
pub struct CycleView {
    pub tasks: Seq<TaskId>,
    pub resources: Seq<ResourceId>,
    pub chain: Seq<WaitEdge>,
}

impl View for DeadlockCycle {
    type V = CycleView;

    open spec fn view(&self) -> CycleView {
        CycleView { tasks: self.tasks@, resources: self.resources@, chain: self.chain@ }
    }
}

/// The line that says one edge of a cycle. The first line of a cycle is
/// marked with an arrow.
pub open spec fn edge_line(edge: WaitEdge, first: bool) -> Seq<char> {
    "  "@ + (if first {
        "→"@
    } else {
        " "@
    }) + " Task "@ + edge.task.text() + " → "@ + edge.resource.text() + " → Task "@
        + edge.holder.text() + "\n"@
}

/// The lines that say the edges of a cycle.
pub open spec fn chain_lines(chain: Seq<WaitEdge>) -> Seq<char>
    decreases chain.len(),
{
    if chain.len() == 0 {
        Seq::empty()
    } else {
        chain_lines(chain.drop_last()) + edge_line(chain.last(), chain.len() == 1)
    }
}

impl CycleView {
    /// What is said of the cycle: a heading, a line for each edge, and how
    /// many tasks and resources there are.
    pub open spec fn description(self) -> Seq<char> {
        "Deadlock cycle detected:\n"@ + chain_lines(self.chain) + "\n"@ + crate::text::decimal(
            self.tasks.len(),
        ) + " tasks and "@ + crate::text::decimal(self.resources.len())
            + " resources involved"@
    }
}

fn push_edge_line(out: &mut String, edge: &WaitEdge, first: bool)
    ensures
        final(out)@ == old(out)@ + edge_line(*edge, first),
{
    out.append("  ");
    if first {
        out.append("→");
    } else {
        out.append(" ");
    }
    out.append(" Task ");
    edge.task.push_to(out);
    out.append(" → ");
    edge.resource.push_to(out);
    out.append(" → Task ");
    edge.holder.push_to(out);
    out.append("\n");
    assert(out@ =~= old(out)@ + edge_line(*edge, first));
}

impl DeadlockCycle {
    /// Says the cycle in words, for people to read.
    pub fn describe(&self) -> (text: String)
        ensures
            text@ == self@.description(),
    {
        let mut text = String::from_str("Deadlock cycle detected:\n");
        let n: usize = self.chain.len();
        for i in 0..n
            invariant
                n == self.chain@.len(),
                text@ == "Deadlock cycle detected:\n"@ + chain_lines(self.chain@.take(i as int)),
        {
            proof {
                assert(self.chain@.take(i + 1).drop_last() == self.chain@.take(i as int));
                assert(self.chain@.take(i + 1).last() == self.chain@[i as int]);
            }
            push_edge_line(&mut text, &self.chain[i], i == 0);
            assert(text@ =~= "Deadlock cycle detected:\n"@ + chain_lines(
                self.chain@.take(i + 1),
            ));
        }
        assert(self.chain@.take(n as int) == self.chain@);
        text.append("\n");
        crate::text::push_decimal(&mut text, self.tasks.len() as u64);
        text.append(" tasks and ");
        crate::text::push_decimal(&mut text, self.resources.len() as u64);
        text.append(" resources involved");
        assert(text@ =~= self@.description());
        text
    }
}

/// The place after `i` in a round of `n` places.
pub open spec fn next_place(i: int, n: int) -> int {
    if i + 1 == n {
        0
    } else {
        i + 1
    }
}

impl DetectorState {
    /// The task that is reached from `task` by following the blockers for
    /// `steps` steps, if the way does not end before.
    pub open spec fn walk(self, task: TaskId, steps: nat) -> Option<TaskId>
        decreases steps,
    {
        if steps == 0 {
            Some(task)
        } else {
            match self.blocker(task) {
                Some(next) => self.walk(next, (steps - 1) as nat),
                None => None,
            }
        }
    }

    /// Whether following the blockers from `task` leads back to `task`.
    pub open spec fn deadlocked(self, task: TaskId) -> bool {
        exists|steps: nat| steps > 0 && self.walk(task, steps) == Some(task)
    }

    /// Whether the task at place `i` of `cycle` waits for the resource
    /// listed with it, the task at the next place holds that resource, and
    /// the edge at place `i` says so.
    pub open spec fn links(self, cycle: CycleView, i: int) -> bool {
        let n = cycle.tasks.len() as int;
        &&& self.waits_for(cycle.tasks[i]) == Some(cycle.resources[i])
        &&& self.holder_of(cycle.resources[i]) == Some(cycle.tasks[next_place(i, n)])
        &&& cycle.chain[i] == (WaitEdge {
            task: cycle.tasks[i],
            resource: cycle.resources[i],
            holder: cycle.tasks[next_place(i, n)],
        })
    }

    /// Whether `cycle` is a cycle of this state: it names at least one task
    /// and none twice, and each task is linked to the next, the last to the
    /// first.
    pub open spec fn is_cycle(self, cycle: CycleView) -> bool {
        let n = cycle.tasks.len() as int;
        &&& n > 0
        &&& cycle.tasks.no_duplicates()
        &&& cycle.resources.len() == n
        &&& cycle.chain.len() == n
        &&& forall|i: int| 0 <= i < n ==> #[trigger] self.links(cycle, i)
    }
}

/// Whether some cycle of `cycles` names `task`.
pub open spec fn reported(cycles: Seq<CycleView>, task: TaskId) -> bool {
    exists|i: int| 0 <= i < cycles.len() && (#[trigger] cycles[i]).tasks.contains(task)
}

/// Whether no task is named by two cycles of `cycles`.
pub open spec fn disjoint(cycles: Seq<CycleView>) -> bool {
    forall|i: int, j: int, task: TaskId|
        0 <= i < j < cycles.len() ==> !(#[trigger] cycles[i].tasks.contains(task)
            && #[trigger] cycles[j].tasks.contains(task))
}

/// Whether `cycles` are the deadlocks of `state`: each is a cycle of the
/// state, no task is in two of them, and every deadlocked task is in one.
pub open spec fn are_the_deadlocks(state: DetectorState, cycles: Seq<CycleView>) -> bool {
    &&& forall|i: int| 0 <= i < cycles.len() ==> state.is_cycle(#[trigger] cycles[i])
    &&& disjoint(cycles)
    &&& forall|task: TaskId| state.deadlocked(task) ==> reported(cycles, task)
}

/// Walking on: `a + b` steps are `a` steps and then `b` more.
pub proof fn lemma_walk_on(state: DetectorState, task: TaskId, a: nat, b: nat)
    ensures
        state.walk(task, a + b) == match state.walk(task, a) {
            Some(mid) => state.walk(mid, b),
            None => None,
        },
    decreases a,
{
    if a > 0 {
        match state.blocker(task) {
            Some(next) => {
                lemma_walk_on(state, next, (a - 1) as nat, b);
                assert((a - 1) as nat + b == (a + b - 1) as nat);
            },
            None => {},
        }
    }
}

/// A task that comes back to itself after some steps comes back after any
/// number of rounds of as many steps.
proof fn lemma_rounds(state: DetectorState, task: TaskId, steps: nat, rounds: nat)
    requires
        state.walk(task, steps) == Some(task),
    ensures
        state.walk(task, steps * rounds) == Some(task),
    decreases rounds,
{
    if rounds == 0 {
        assert(steps * rounds == 0) by (nonlinear_arith)
            requires
                rounds == 0,
        ;
    } else {
        lemma_rounds(state, task, steps, (rounds - 1) as nat);
        assert(steps * rounds == steps * ((rounds - 1) as nat) + steps) by (nonlinear_arith)
            requires
                rounds > 0,
        ;
        lemma_walk_on(state, task, steps * ((rounds - 1) as nat), steps);
    }
}

/// Whoever is reached from a deadlocked task reaches that task in turn.
pub proof fn lemma_deadlock_returns(state: DetectorState, task: TaskId, far: nat, other: TaskId) -> (back:
    nat)
    requires
        state.deadlocked(task),
        state.walk(task, far) == Some(other),
    ensures
        state.walk(other, back) == Some(task),
{
    let steps = choose|steps: nat| steps > 0 && state.walk(task, steps) == Some(task);
    let rounds = far + 1;
    lemma_rounds(state, task, steps, rounds);
    assert(steps * rounds >= far) by (nonlinear_arith)
        requires
            steps > 0,
            rounds == far + 1,
    ;
    let back = (steps * rounds - far) as nat;
    lemma_walk_on(state, task, far, back);
    assert(far + back == steps * rounds);
    back
}

/// Whoever is reached from a deadlocked task is deadlocked too.
pub proof fn lemma_deadlock_spreads(state: DetectorState, task: TaskId, far: nat, other: TaskId)
    requires
        state.deadlocked(task),
        state.walk(task, far) == Some(other),
    ensures
        state.deadlocked(other),
{
    let back = lemma_deadlock_returns(state, task, far, other);
    lemma_walk_on(state, other, back, far);
    if back + far == 0 {
        assert(other == task);
    } else {
        assert(state.walk(other, back + far) == Some(other));
    }
}

/// A task that nobody blocks is not deadlocked.
pub proof fn lemma_free_task(state: DetectorState, task: TaskId)
    requires
        state.blocker(task).is_none(),
    ensures
        !state.deadlocked(task),
{
}

/// In a cycle, each task is blocked by the next.
pub proof fn lemma_cycle_edge(state: DetectorState, cycle: CycleView, i: int)
    requires
        state.is_cycle(cycle),
        0 <= i < cycle.tasks.len(),
    ensures
        state.blocker(cycle.tasks[i]) == Some(
            cycle.tasks[next_place(i, cycle.tasks.len() as int)],
        ),
{
    assert(state.links(cycle, i));
}

/// Whoever is reached from a task of a cycle is a task of the cycle.
pub proof fn lemma_cycle_is_closed(
    state: DetectorState,
    cycle: CycleView,
    task: TaskId,
    steps: nat,
    other: TaskId,
)
    requires
        state.is_cycle(cycle),
        cycle.tasks.contains(task),
        state.walk(task, steps) == Some(other),
    ensures
        cycle.tasks.contains(other),
    decreases steps,
{
    if steps > 0 {
        let i = choose|i: int| 0 <= i < cycle.tasks.len() && cycle.tasks[i] == task;
        let next = cycle.tasks[next_place(i, cycle.tasks.len() as int)];
        lemma_cycle_edge(state, cycle, i);
        lemma_cycle_is_closed(state, cycle, next, (steps - 1) as nat, other);
    }
}

/// From a task of a cycle, as many steps as lie between two places lead
/// from the one place to the other.
proof fn lemma_cycle_steps(state: DetectorState, cycle: CycleView, i: int, steps: nat)
    requires
        state.is_cycle(cycle),
        0 <= i < cycle.tasks.len(),
        i + steps <= cycle.tasks.len(),
    ensures
        state.walk(cycle.tasks[i], steps) == Some(
            cycle.tasks[if i + steps == cycle.tasks.len() {
                0
            } else {
                i + steps
            }],
        ),
    decreases steps,
{
    let n = cycle.tasks.len() as int;
    if steps > 0 {
        lemma_cycle_edge(state, cycle, i);
        if i + 1 < n {
            lemma_cycle_steps(state, cycle, i + 1, (steps - 1) as nat);
        } else {
            assert(steps == 1);
            assert(state.walk(cycle.tasks[0], 0) == Some(cycle.tasks[0]));
        }
    }
}

/// Every task of a cycle is deadlocked: the detector reports no deadlock
/// that is not one.
pub proof fn lemma_cycle_tasks_are_deadlocked(state: DetectorState, cycle: CycleView, task: TaskId)
    requires
        state.is_cycle(cycle),
        cycle.tasks.contains(task),
    ensures
        state.deadlocked(task),
{
    let n = cycle.tasks.len();
    let i = choose|i: int| 0 <= i < cycle.tasks.len() && cycle.tasks[i] == task;
    // to the end of the list and round to the first place, then on to place i
    lemma_cycle_steps(state, cycle, i, (n - i) as nat);
    lemma_cycle_steps(state, cycle, 0, i as nat);
    lemma_walk_on(state, task, (n - i) as nat, i as nat);
    assert((n - i) as nat + i as nat == n);
    assert(state.walk(task, n) == Some(task));
}

} // verus!

verus! {

broadcast use vstd::std_specs::hash::group_hash_axioms;


/// The holder of a resource, or a task that stands for none.
pub open spec fn holder_or_nobody(resource: crate::deadlock::ResourceView) -> TaskId {
    match resource.holder {
        Some(holder) => holder,
        None => TaskId(0),
    }
}

impl DetectorState {
    /// The tasks that can take part in a wait: those that wait, and those
    /// that hold a resource.
    pub open spec fn nodes(self) -> Seq<TaskId> {
        self.waiting.map_values(|w: crate::deadlock::Waiting| w.task) + self.resources.map_values(
            |r: crate::deadlock::ResourceView| holder_or_nobody(r),
        )
    }
}

/// The cycles as values.
pub open spec fn views(cycles: Seq<DeadlockCycle>) -> Seq<CycleView> {
    cycles.map_values(|c: DeadlockCycle| c@)
}

/// A task that waits is a node.
proof fn lemma_waiting_is_node(state: DetectorState, j: int)
    requires
        0 <= j < state.waiting.len(),
    ensures
        state.nodes().contains(state.waiting[j].task),
{
    assert(state.nodes()[j] == state.waiting[j].task);
}

/// A task that blocks another is a node.
proof fn lemma_blocker_is_node(state: DetectorState, resource: ResourceId, holder: TaskId)
    requires
        state.holder_of(resource) == Some(holder),
    ensures
        state.nodes().contains(holder),
{
    let p = crate::deadlock::resource_with(resource);
    crate::lookup::lemma_first_match(state.resources, p);
    let i = crate::lookup::first_match(state.resources, p);
    assert(state.nodes()[state.waiting.len() + i] == holder);
}

/// Whether the task at place `i` of a walk waits for the resource listed
/// with it, and the task at the next place, or `tip` after the last place,
/// holds that resource.
pub open spec fn walks_on(
    state: DetectorState,
    path: Seq<TaskId>,
    wanted: Seq<ResourceId>,
    tip: TaskId,
    i: int,
) -> bool {
    &&& state.waits_for(path[i]) == Some(wanted[i])
    &&& state.holder_of(wanted[i]) == Some(
        if i + 1 < path.len() {
            path[i + 1]
        } else {
            tip
        },
    )
}

/// Whether `path` is a walk that leads to `tip`.
pub open spec fn is_walk(
    state: DetectorState,
    path: Seq<TaskId>,
    wanted: Seq<ResourceId>,
    tip: TaskId,
) -> bool {
    &&& wanted.len() == path.len()
    &&& forall|i: int| 0 <= i < path.len() ==> #[trigger] walks_on(state, path, wanted, tip, i)
}

/// Every task of a walk reaches the tip.
proof fn lemma_walk_reaches_tip(
    state: DetectorState,
    path: Seq<TaskId>,
    wanted: Seq<ResourceId>,
    tip: TaskId,
    i: int,
)
    requires
        is_walk(state, path, wanted, tip),
        0 <= i < path.len(),
    ensures
        state.walk(path[i], (path.len() - i) as nat) == Some(tip),
    decreases path.len() - i,
{
    assert(walks_on(state, path, wanted, tip, i));
    if i + 1 < path.len() {
        lemma_walk_reaches_tip(state, path, wanted, tip, i + 1);
    } else {
        assert(state.walk(tip, 0) == Some(tip));
    }
}

/// A deadlocked task that reaches a task of a cycle is a task of that cycle.
proof fn lemma_joins_cycle(
    state: DetectorState,
    cycle: CycleView,
    task: TaskId,
    far: nat,
    member: TaskId,
)
    requires
        state.is_cycle(cycle),
        cycle.tasks.contains(member),
        state.walk(task, far) == Some(member),
        state.deadlocked(task),
    ensures
        cycle.tasks.contains(task),
{
    let back = lemma_deadlock_returns(state, task, far, member);
    lemma_cycle_is_closed(state, cycle, member, back, task);
}

/// What holds between the walks of a detection: nothing is visited twice,
/// only nodes are visited, every cycle found is one, no task is in two of
/// them, every task of a cycle was visited, and every visited task is in a
/// cycle or not deadlocked.
pub open spec fn explored(state: DetectorState, visited: Seq<TaskId>, cycles: Seq<CycleView>) -> bool {
    &&& visited.no_duplicates()
    &&& forall|t: TaskId| #[trigger] visited.contains(t) ==> state.nodes().contains(t)
    &&& forall|i: int| 0 <= i < cycles.len() ==> state.is_cycle(#[trigger] cycles[i])
    &&& disjoint(cycles)
    &&& forall|t: TaskId| #[trigger] reported(cycles, t) ==> visited.contains(t)
    &&& forall|t: TaskId|
        #[trigger] visited.contains(t) ==> reported(cycles, t) || !state.deadlocked(t)
}

fn place_in(path: &Vec<TaskId>, task: TaskId) -> (i: usize)
    ensures
        i <= path@.len(),
        i < path@.len() ==> path@[i as int] == task,
        i == path@.len() ==> !path@.contains(task),
{
    let n: usize = path.len();
    let mut i: usize = 0;
    while i < n && path[i] != task
        invariant
            n == path@.len(),
            i <= n,
            forall|j: int| 0 <= j < i ==> path@[j] != task,
        decreases n - i,
    {
        i = i + 1;
    }
    i
}

/// The cycle that a walk closes when its tip is the task at place `from`.
fn close_cycle(path: &Vec<TaskId>, wanted: &Vec<ResourceId>, from: usize) -> (cycle: DeadlockCycle)
    requires
        from < path@.len(),
        wanted@.len() == path@.len(),
    ensures
        cycle@.tasks == path@.subrange(from as int, path@.len() as int),
        cycle@.resources == wanted@.subrange(from as int, path@.len() as int),
        cycle@.chain.len() == path@.len() - from,
        forall|i: int|
            0 <= i < path@.len() - from ==> #[trigger] cycle@.chain[i] == (WaitEdge {
                task: path@[from + i],
                resource: wanted@[from + i],
                holder: path@[from + next_place(i, path@.len() - from)],
            }),
{
    let n: usize = path.len();
    let mut tasks: Vec<TaskId> = Vec::new();
    let mut resources: Vec<ResourceId> = Vec::new();
    let mut chain: Vec<WaitEdge> = Vec::new();
    for k in from..n
        invariant
            n == path@.len(),
            wanted@.len() == n,
            from < n,
            tasks@ == path@.subrange(from as int, k as int),
            resources@ == wanted@.subrange(from as int, k as int),
            chain@.len() == k - from,
            forall|i: int|
                0 <= i < k - from ==> #[trigger] chain@[i] == (WaitEdge {
                    task: path@[from + i],
                    resource: wanted@[from + i],
                    holder: path@[from + next_place(i, n - from)],
                }),
    {
        let holder = if k + 1 < n {
            path[k + 1]
        } else {
            path[from]
        };
        tasks.push(path[k]);
        resources.push(wanted[k]);
        chain.push(WaitEdge { task: path[k], resource: wanted[k], holder });
        assert(tasks@ =~= path@.subrange(from as int, k + 1));
        assert(resources@ =~= wanted@.subrange(from as int, k + 1));
    }
    DeadlockCycle { tasks, resources, chain }
}

impl DeadlockDetector {
    /// Follows the blockers from `start` until the way ends, joins what was
    /// visited before, or comes back to itself; in the last case the cycle
    /// is added to `cycles`.
    fn explore(
        &self,
        start: TaskId,
        visited: &mut HashSet<u64>,
        cycles: &mut Vec<DeadlockCycle>,
        Ghost(seen): Ghost<Seq<TaskId>>,
    ) -> (order: Ghost<Seq<TaskId>>)
        requires
            self.wf(),
            mirrors(old(visited)@, seen),
            explored(self@, seen, views(old(cycles)@)),
            self@.nodes().contains(start),
            !seen.contains(start),
        ensures
            mirrors(final(visited)@, order@),
            explored(self@, order@, views(final(cycles)@)),
            order@.contains(start),
            forall|t: TaskId| seen.contains(t) ==> order@.contains(t),
    {
        let ghost state = self@;
        let ghost found = views(cycles@);
        let mut order: Ghost<Seq<TaskId>> = Ghost(seen);
        let mut path: Vec<TaskId> = Vec::new();
        let mut wanted: Vec<ResourceId> = Vec::new();
        let mut cur = start;
        let mut walking = true;
        while walking
            invariant
                self.wf(),
                state == self@,
                mirrors(visited@, order@),
                order@.no_duplicates(),
                forall|t: TaskId| #[trigger] order@.contains(t) ==> state.nodes().contains(t),
                forall|t: TaskId| seen.contains(t) ==> order@.contains(t),
                walking ==> views(cycles@) == found,
                explored(state, seen, found),
                is_walk(state, path@, wanted@, cur),
                path@.no_duplicates(),
                forall|t: TaskId|
                    #[trigger] path@.contains(t) ==> order@.contains(t) && !seen.contains(t),
                forall|t: TaskId|
                    #[trigger] order@.contains(t) ==> seen.contains(t) || path@.contains(t)
                        || !walking,
                walking ==> !order@.contains(cur) && state.nodes().contains(cur),
                walking ==> path@.len() > 0 || cur == start,
                !walking ==> order@.contains(start),
                path@.len() > 0 ==> path@[0] == start,
                !walking ==> explored(state, order@, views(cycles@)),
            decreases state.nodes().len() - order@.len(),
        {
            let edge = self.blocker_of(cur);
            proof {
                crate::lookup::lemma_room_for_one(order@, state.nodes(), cur);
            }
            let ghost before = order@;
            proof {
                lemma_mirrors_push(visited@, before, cur);
            }
            visited.insert(cur.0);
            proof {
                order@ = before.push(cur);
                crate::lookup::lemma_push_contains(before, cur);
                crate::lookup::lemma_push_no_duplicates(before, cur);
                assert(order@.contains(start)) by {
                    if path@.len() > 0 {
                        assert(path@.contains(path@[0]));
                    }
                }
            }
            match edge {
                None => {
                    walking = false;
                    proof {
                        lemma_free_task(state, cur);
                        assert forall|t: TaskId| #[trigger]
                            order@.contains(t) implies reported(found, t) || !state.deadlocked(
                            t,
                        ) by {
                            if t == cur {
                            } else if path@.contains(t) {
                                let i = choose|i: int| 0 <= i < path@.len() && path@[i] == t;
                                lemma_walk_reaches_tip(state, path@, wanted@, cur, i);
                                if state.deadlocked(t) {
                                    lemma_deadlock_spreads(
                                        state,
                                        t,
                                        (path@.len() - i) as nat,
                                        cur,
                                    );
                                }
                            } else {
                                assert(before.contains(t));
                                assert(seen.contains(t));
                            }
                        }
                        assert(views(cycles@) == found);
                    }
                },
                Some((resource, next)) => {
                    let ghost walked = path@;
                    let ghost walked_wanted = wanted@;
                    path.push(cur);
                    wanted.push(resource);
                    proof {
                        lemma_blocker_is_node(state, resource, next);
                        assert forall|i: int| 0 <= i < path@.len() implies #[trigger] walks_on(
                            state,
                            path@,
                            wanted@,
                            next,
                            i,
                        ) by {
                            if i < walked.len() {
                                assert(walks_on(state, walked, walked_wanted, cur, i));
                            }
                        }
                        assert(path@ == walked.push(cur));
                        crate::lookup::lemma_push_contains(walked, cur);
                        assert(!walked.contains(cur)) by {
                            if walked.contains(cur) {
                                assert(before.contains(cur));
                            }
                        }
                        crate::lookup::lemma_push_no_duplicates(walked, cur);
                    }
                    if !visited.contains(&next.0) {
                        cur = next;
                    } else {
                        let from: usize = place_in(&path, next);
                        if from < path.len() {
                            let cycle = close_cycle(&path, &wanted, from);
                            let ghost added = cycle@;
                            cycles.push(cycle);
                            proof {
                                let all = views(cycles@);
                                assert(all =~= found.push(added));
                                let n = added.tasks.len() as int;
                                assert forall|i: int| 0 <= i < n implies #[trigger] state.links(
                                    added,
                                    i,
                                ) by {
                                    assert(walks_on(state, path@, wanted@, next, from + i));
                                }
                                assert(added.tasks.no_duplicates()) by {
                                    assert forall|a: int, b: int|
                                        0 <= a < added.tasks.len() && 0 <= b < added.tasks.len()
                                            && a != b implies added.tasks[a] != added.tasks[b] by {
                                        assert(path@[from + a] != path@[from + b]);
                                    }
                                }
                                assert(added.resources.len() == n);
                                assert(added.chain.len() == n);
                                assert(state.is_cycle(added));
                                assert forall|t: TaskId| added.tasks.contains(t) implies path@.contains(
                                    t,
                                ) by {
                                    let k = choose|k: int|
                                        0 <= k < added.tasks.len() && added.tasks[k] == t;
                                    assert(path@[from + k] == t);
                                }
                                assert forall|t: TaskId| #[trigger]
                                    reported(all, t) implies order@.contains(t) by {
                                    let i = choose|i: int|
                                        0 <= i < all.len() && (#[trigger] all[i]).tasks.contains(t);
                                    if i < found.len() {
                                        assert(found[i].tasks.contains(t));
                                        assert(reported(found, t));
                                    }
                                }
                                assert forall|i: int, j: int, t: TaskId|
                                    0 <= i < j < all.len() implies !(#[trigger] all[i].tasks.contains(
                                    t,
                                ) && #[trigger] all[j].tasks.contains(t)) by {
                                    if j == found.len() && all[i].tasks.contains(t) {
                                        assert(found[i].tasks.contains(t));
                                        assert(reported(found, t));
                                    }
                                }
                                assert forall|t: TaskId| #[trigger]
                                    order@.contains(t) implies reported(all, t)
                                    || !state.deadlocked(t) by {
                                    if reported(found, t) {
                                        let i = choose|i: int|
                                            0 <= i < found.len() && (
                                            #[trigger] found[i]).tasks.contains(t);
                                        assert(all[i].tasks.contains(t));
                                    } else if path@.contains(t) && state.deadlocked(t) {
                                        let i = choose|i: int|
                                            0 <= i < path@.len() && path@[i] == t;
                                        lemma_walk_reaches_tip(state, path@, wanted@, next, i);
                                        assert(added.tasks[0] == next);
                                        lemma_joins_cycle(
                                            state,
                                            added,
                                            t,
                                            (path@.len() - i) as nat,
                                            next,
                                        );
                                        assert(all[found.len() as int].tasks.contains(t));
                                    }
                                }
                                assert forall|i: int| 0 <= i < all.len() implies state.is_cycle(
                                    #[trigger] all[i],
                                ) by {
                                    if i < found.len() {
                                        assert(all[i] == found[i]);
                                    }
                                }
                            }
                        } else {
                            proof {
                                assert(seen.contains(next));
                                assert forall|t: TaskId| #[trigger]
                                    order@.contains(t) implies reported(found, t)
                                    || !state.deadlocked(t) by {
                                    if path@.contains(t) && state.deadlocked(t) {
                                        let i = choose|i: int|
                                            0 <= i < path@.len() && path@[i] == t;
                                        lemma_walk_reaches_tip(state, path@, wanted@, next, i);
                                        let far = (path@.len() - i) as nat;
                                        lemma_deadlock_spreads(state, t, far, next);
                                        assert(reported(found, next));
                                        let c = choose|c: int|
                                            0 <= c < found.len() && (
                                            #[trigger] found[c]).tasks.contains(next);
                                        lemma_joins_cycle(state, found[c], t, far, next);
                                    }
                                }
                            }
                        }
                        cur = next;
                        walking = false;
                    }
                },
            }
        }
        order
    }

    /// Finds the deadlocks: the cycles among the tasks that wait for one
    /// another. Every cycle that is returned is a cycle of waits that stand
    /// as they are recorded, no task is in two of them, and every task that
    /// is deadlocked is in one. Nothing is changed, and a wait for an
    /// unknown or a free resource is passed over.
    pub fn detect_deadlocks(&self) -> (cycles: Vec<DeadlockCycle>)
        requires
            self.wf(),
        ensures
            are_the_deadlocks(self@, views(cycles@)),
    {
        let mut cycles: Vec<DeadlockCycle> = Vec::new();
        let mut visited: HashSet<u64> = HashSet::new();
        let mut order: Ghost<Seq<TaskId>> = Ghost(Seq::empty());
        let waits = self.waits();
        let n: usize = waits.len();
        assert(views(cycles@) =~= Seq::<CycleView>::empty());
        for s in 0..n
            invariant
                self.wf(),
                n == waits@.len(),
                waits@ == self@.waiting,
                mirrors(visited@, order@),
                explored(self@, order@, views(cycles@)),
                forall|j: int| 0 <= j < s ==> order@.contains(#[trigger] waits@[j].task),
        {
            let start = waits[s].task;
            proof {
                lemma_waiting_is_node(self@, s as int);
            }
            if !visited.contains(&start.0) {
                let further = self.explore(start, &mut visited, &mut cycles, Ghost(order@));
                order = further;
            }
        }
        proof {
            let state = self@;
            assert forall|task: TaskId| state.deadlocked(task) implies reported(
                views(cycles@),
                task,
            ) by {
                let p = crate::deadlock::wait_of(task);
                crate::lookup::lemma_first_match(state.waiting, p);
                let j = crate::lookup::first_match(state.waiting, p);
                if j < state.waiting.len() {
                    assert(waits@[j].task == task);
                    assert(order@.contains(task));
                } else {
                    lemma_free_task(state, task);
                }
            }
        }
        cycles
    }
}

} // verus!
