//! The relationship graph: edges of several kinds between tasks, and what
//! can be read off them.

use std::collections::HashMap;
use vstd::prelude::*;
use vstd::string::*;
use crate::inspector::{raw_id_of, task_id_of, with_id};
use crate::lookup::{
    distinct_by, first_match, has_match, is_index, lemma_first_match, lemma_index_finds,
    lemma_index_push, upsert,
};
use crate::task::{copy_text, TaskId, TaskInfo};

verus! {

broadcast use vstd::std_specs::hash::group_hash_axioms;

/// How one task is related to another.
#[derive(Debug, Clone, Copy, PartialEq, Eq, Hash, Structural)]
pub enum RelationshipType {
    /// The first task created the second.
    Spawned,
    /// The first task sends to the second over a channel.
    ChannelSend,
    /// The first task receives from the second over a channel.
    ChannelReceive,
    /// The two tasks use one resource.
    SharedResource,
    /// Data passes from the first task to the second.
    DataFlow,
    /// The first task awaits the end of the second.
    AwaitsOn,
    /// The first task needs the second to finish.
    Dependency,
}

impl RelationshipType {
    /// How the kind is written between the names of two tasks.
    pub open spec fn text(self) -> Seq<char> {
        match self {
            RelationshipType::Spawned => "spawned"@,
            RelationshipType::ChannelSend => "sends →"@,
            RelationshipType::ChannelReceive => "← receives"@,
            RelationshipType::SharedResource => "shares resource"@,
            RelationshipType::DataFlow => "data →"@,
            RelationshipType::AwaitsOn => "awaits"@,
            RelationshipType::Dependency => "depends on"@,
        }
    }

    pub fn to_string(&self) -> (s: String)
        ensures
            s@ == self.text(),
    {
        match self {
            RelationshipType::Spawned => String::from_str("spawned"),
            RelationshipType::ChannelSend => String::from_str("sends →"),
            RelationshipType::ChannelReceive => String::from_str("← receives"),
            RelationshipType::SharedResource => String::from_str("shares resource"),
            RelationshipType::DataFlow => String::from_str("data →"),
            RelationshipType::AwaitsOn => String::from_str("awaits"),
            RelationshipType::Dependency => String::from_str("depends on"),
        }
    }
}

/// The kinds that hold a task up: the edges of the critical path.
pub open spec fn holds_up() -> spec_fn(RelationshipType) -> bool {
    |kind: RelationshipType|
        kind is Dependency || kind is DataFlow || kind is AwaitsOn
}

/// The kinds that make one task depend on another.
pub open spec fn depends() -> spec_fn(RelationshipType) -> bool {
    |kind: RelationshipType| kind is Dependency || kind is AwaitsOn
}

/// The kinds over which tasks can block one another.
pub open spec fn blocks() -> spec_fn(RelationshipType) -> bool {
    |kind: RelationshipType| kind is SharedResource || kind is AwaitsOn
}

/// An edge of the graph.
#[derive(Debug)]
pub struct Relationship {
    pub from: TaskId,
    pub to: TaskId,
    pub relationship_type: RelationshipType,
    /// The resource or channel that the edge goes over.
    pub resource_name: Option<String>,
    pub data_description: Option<String>,
}

impl Clone for Relationship {
    fn clone(&self) -> (copy: Relationship)
        ensures
            copy == *self,
    {
        Relationship {
            from: self.from,
            to: self.to,
            relationship_type: self.relationship_type,
            resource_name: copy_text(&self.resource_name),
            data_description: copy_text(&self.data_description),
        }
    }
}

/// The edges of the given kind.
pub open spec fn of_kind(kind: RelationshipType) -> spec_fn(Relationship) -> bool {
    |r: Relationship| r.relationship_type == kind
}

/// The edges that leave the given task.
pub open spec fn leaving(task: TaskId) -> spec_fn(Relationship) -> bool {
    |r: Relationship| r.from == task
}

/// The edges that reach the given task.
pub open spec fn reaching(task: TaskId) -> spec_fn(Relationship) -> bool {
    |r: Relationship| r.to == task
}

/// Where an edge goes, and its kind.
pub open spec fn target() -> spec_fn(Relationship) -> (TaskId, RelationshipType) {
    |r: Relationship| (r.to, r.relationship_type)
}

/// Where an edge comes from, and its kind.
pub open spec fn source() -> spec_fn(Relationship) -> (TaskId, RelationshipType) {
    |r: Relationship| (r.from, r.relationship_type)
}

/// The ends of the edges that leave `task`, each with the kind of its edge,
/// in the order of the edges.
pub open spec fn leaving_targets(edges: Seq<Relationship>, task: TaskId) -> Seq<
    (TaskId, RelationshipType),
> {
    edges.filter(leaving(task)).map_values(target())
}

/// The starts of the edges that reach `task`, each with the kind of its
/// edge, in the order of the edges.
pub open spec fn reaching_sources(edges: Seq<Relationship>, task: TaskId) -> Seq<
    (TaskId, RelationshipType),
> {
    edges.filter(reaching(task)).map_values(source())
}

/// Whether `map` holds, under the raw identifier of each task that has
/// neighbours, the list of the ends of the edges that leave it.
pub open spec fn is_adjacency(
    map: Map<u64, Vec<(TaskId, RelationshipType)>>,
    edges: Seq<Relationship>,
) -> bool {
    forall|k: u64|
        #![trigger map.contains_key(k)]
        #![trigger leaving_targets(edges, TaskId(k))]
        if map.contains_key(k) {
            map[k]@ == leaving_targets(edges, TaskId(k))
        } else {
            leaving_targets(edges, TaskId(k)).len() == 0
        }
}

/// Whether `map` holds, under the raw identifier of each task that edges
/// reach, the list of the starts of those edges.
pub open spec fn is_reverse_adjacency(
    map: Map<u64, Vec<(TaskId, RelationshipType)>>,
    edges: Seq<Relationship>,
) -> bool {
    forall|k: u64|
        #![trigger map.contains_key(k)]
        #![trigger reaching_sources(edges, TaskId(k))]
        if map.contains_key(k) {
            map[k]@ == reaching_sources(edges, TaskId(k))
        } else {
            reaching_sources(edges, TaskId(k)).len() == 0
        }
}

/// With one more edge, the list of the task that the edge leaves has one
/// more entry, and every other list is as it was.
pub proof fn lemma_leaving_push(edges: Seq<Relationship>, edge: Relationship, task: TaskId)
    ensures
        leaving_targets(edges.push(edge), task) == if edge.from == task {
            leaving_targets(edges, task).push((edge.to, edge.relationship_type))
        } else {
            leaving_targets(edges, task)
        },
{
    reveal(Seq::filter);
    edges.lemma_filter_push(edge, leaving(task));
    if leaving(task)(edge) {
        assert(edges.filter(leaving(task)).push(edge).map_values(target())
            =~= edges.filter(leaving(task)).map_values(target()).push(target()(edge)));
    }
}

/// With one more edge, the list of the task that the edge reaches has one
/// more entry, and every other list is as it was.
pub proof fn lemma_reaching_push(edges: Seq<Relationship>, edge: Relationship, task: TaskId)
    ensures
        reaching_sources(edges.push(edge), task) == if edge.to == task {
            reaching_sources(edges, task).push((edge.from, edge.relationship_type))
        } else {
            reaching_sources(edges, task)
        },
{
    reveal(Seq::filter);
    edges.lemma_filter_push(edge, reaching(task));
    if reaching(task)(edge) {
        assert(edges.filter(reaching(task)).push(edge).map_values(source())
            =~= edges.filter(reaching(task)).map_values(source()).push(source()(edge)));
    }
}

/// Every entry of the list of a task stands for an edge that leaves the
/// task.
pub proof fn lemma_neighbour_is_edge(edges: Seq<Relationship>, task: TaskId, k: int) -> (j: int)
    requires
        0 <= k < leaving_targets(edges, task).len(),
    ensures
        0 <= j < edges.len(),
        edges[j].from == task,
        (edges[j].to, edges[j].relationship_type) == leaving_targets(edges, task)[k],
{
    let left = edges.filter(leaving(task));
    assert(left.len() == leaving_targets(edges, task).len());
    edges.lemma_filter_pred(leaving(task), k);
    assert(left.contains(left[k]));
    edges.lemma_filter_contains_rev(leaving(task), left[k]);
    let j = choose|j: int| 0 <= j < edges.len() && edges[j] == left[k];
    assert(leaving_targets(edges, task)[k] == target()(left[k]));
    j
}

/// Every edge that leaves a task has its entry in the list of the task.
pub proof fn lemma_edge_is_neighbour(edges: Seq<Relationship>, j: int) -> (k: int)
    requires
        0 <= j < edges.len(),
    ensures
        0 <= k < leaving_targets(edges, edges[j].from).len(),
        leaving_targets(edges, edges[j].from)[k] == (edges[j].to, edges[j].relationship_type),
{
    let task = edges[j].from;
    let left = edges.filter(leaving(task));
    edges.lemma_filter_contains(leaving(task), j);
    let k = choose|k: int| 0 <= k < left.len() && left[k] == edges[j];
    assert(leaving_targets(edges, task)[k] == target()(left[k]));
    k
}

/// Puts `entry` at the end of the list under `key`, which is new if there
/// was none.
fn link(
    map: &mut HashMap<u64, Vec<(TaskId, RelationshipType)>>,
    key: u64,
    entry: (TaskId, RelationshipType),
)
    ensures
        final(map)@.contains_key(key),
        final(map)@[key]@ == (if old(map)@.contains_key(key) {
            old(map)@[key]@
        } else {
            Seq::empty()
        }).push(entry),
        forall|k: u64|
            k != key ==> (#[trigger] final(map)@.contains_key(k) == old(map)@.contains_key(k)),
        forall|k: u64|
            k != key && old(map)@.contains_key(k) ==> #[trigger] final(map)@[k] == old(map)@[k],
{
    let mut list: Vec<(TaskId, RelationshipType)> = match map.remove(&key) {
        Some(list) => list,
        None => Vec::new(),
    };
    list.push(entry);
    map.insert(key, list);
}

/// What a graph holds.
pub struct GraphState {
    /// The edges, in the order in which they were added. An edge is never
    /// changed or removed.
    pub relationships: Seq<Relationship>,
    /// What is known of the tasks, one entry for each identifier.
    pub tasks: Seq<TaskInfo>,
}

impl GraphState {
    /// Whether an edge of one of the `kinds` goes from `a` to `b`.
    pub open spec fn edge(self, kinds: spec_fn(RelationshipType) -> bool, a: TaskId, b: TaskId) -> bool {
        exists|i: int|
            0 <= i < self.relationships.len() && self.joins(kinds, i, a, b)
    }

    /// Whether the edge at place `i` is of one of the `kinds` and goes from
    /// `a` to `b`.
    pub open spec fn joins(
        self,
        kinds: spec_fn(RelationshipType) -> bool,
        i: int,
        a: TaskId,
        b: TaskId,
    ) -> bool {
        &&& self.relationships[i].from == a
        &&& self.relationships[i].to == b
        &&& kinds(self.relationships[i].relationship_type)
    }

    /// Whether an edge of one of the `kinds` goes from place `i` of `path`
    /// to the next place.
    pub open spec fn steps(self, kinds: spec_fn(RelationshipType) -> bool, path: Seq<TaskId>, i: int) -> bool {
        self.edge(kinds, path[i], path[i + 1])
    }

    /// Whether each task of `path` is joined to the next by an edge of one
    /// of the `kinds`.
    pub open spec fn is_path(self, kinds: spec_fn(RelationshipType) -> bool, path: Seq<TaskId>) -> bool {
        forall|i: int| 0 <= i < path.len() - 1 ==> #[trigger] self.steps(kinds, path, i)
    }

    /// Whether `path` is a path that names no task twice.
    pub open spec fn is_chain(self, kinds: spec_fn(RelationshipType) -> bool, path: Seq<TaskId>) -> bool {
        self.is_path(kinds, path) && path.no_duplicates()
    }

    /// Whether the graph knows the task: `add_task` was called for it.
    pub open spec fn knows(self, task: TaskId) -> bool {
        has_match(self.tasks, with_id(task))
    }

    /// The raw identifiers of the tasks that an edge names or the graph
    /// knows.
    pub open spec fn node_ids(self) -> Set<u64> {
        self.nodes().map_values(|t: TaskId| t.0).to_set()
    }

    /// Every task that an edge names or the graph knows.
    pub open spec fn nodes(self) -> Seq<TaskId> {
        self.tasks.map_values(task_id_of()) + self.relationships.map_values(
            |r: Relationship| r.from,
        ) + self.relationships.map_values(|r: Relationship| r.to)
    }
}

/// A node's raw identifier is among the raw identifiers of the nodes, of
/// which there are finitely many.
pub proof fn lemma_node_ids(graph: GraphState)
    ensures
        graph.node_ids().finite(),
        forall|t: TaskId| #[trigger] graph.nodes().contains(t) ==> graph.node_ids().contains(t.0),
{
    let raw = graph.nodes().map_values(|t: TaskId| t.0);
    vstd::seq_lib::seq_to_set_is_finite(raw);
    assert forall|t: TaskId| #[trigger] graph.nodes().contains(t) implies graph.node_ids().contains(
        t.0,
    ) by {
        let k = choose|k: int| 0 <= k < graph.nodes().len() && graph.nodes()[k] == t;
        assert(raw[k] == t.0);
        assert(raw.contains(t.0));
    }
}

fn copy_pairs(list: &Vec<(TaskId, RelationshipType)>) -> (copy: Vec<(TaskId, RelationshipType)>)
    ensures
        copy@ == list@,
{
    let mut copy: Vec<(TaskId, RelationshipType)> = Vec::new();
    let n: usize = list.len();
    for i in 0..n
        invariant
            n == list@.len(),
            copy@ == list@.take(i as int),
    {
        copy.push(list[i]);
        assert(copy@ =~= list@.take(i + 1));
    }
    assert(list@.take(n as int) == list@);
    copy
}

/// The tasks and the edges between them. Tasks and edges stand in the order
/// in which they were added; hash maps find the entry of a task, and the
/// neighbours of a task in both directions.
#[derive(Debug)]
pub struct TaskGraph {
    relationships: Vec<Relationship>,
    tasks: Vec<TaskInfo>,
    index: HashMap<u64, usize>,
    adjacency: HashMap<u64, Vec<(TaskId, RelationshipType)>>,
    reverse_adjacency: HashMap<u64, Vec<(TaskId, RelationshipType)>>,
}

impl View for TaskGraph {
    type V = GraphState;

    closed spec fn view(&self) -> GraphState {
        GraphState { relationships: self.relationships@, tasks: self.tasks@ }
    }
}

impl TaskGraph {
    /// The index says of every task where its entry stands.
    pub closed spec fn indexed(&self) -> bool {
        is_index(self.index@, self.tasks@.map_values(raw_id_of()))
    }

    /// The lists of neighbours say what the edges say.
    pub closed spec fn linked(&self) -> bool {
        &&& is_adjacency(self.adjacency@, self.relationships@)
        &&& is_reverse_adjacency(self.reverse_adjacency@, self.relationships@)
    }

    /// No identifier has two entries among the tasks, and the index and the
    /// lists of neighbours are in step with the tasks and the edges.
    pub open spec fn wf(&self) -> bool {
        distinct_by(self@.tasks, task_id_of()) && self.indexed() && self.linked()
    }

    pub fn new() -> (graph: TaskGraph)
        ensures
            graph.wf(),
            graph@.relationships == Seq::<Relationship>::empty(),
            graph@.tasks == Seq::<TaskInfo>::empty(),
    {
        let graph = TaskGraph {
            relationships: Vec::new(),
            tasks: Vec::new(),
            index: HashMap::new(),
            adjacency: HashMap::new(),
            reverse_adjacency: HashMap::new(),
        };
        proof {
            reveal(Seq::filter);
            assert forall|k: u64| leaving_targets(graph.relationships@, TaskId(k)).len() == 0 by {
                assert(graph.relationships@.filter(leaving(TaskId(k))).len() == 0);
            }
            assert forall|k: u64| reaching_sources(graph.relationships@, TaskId(k)).len() == 0 by {
                assert(graph.relationships@.filter(reaching(TaskId(k))).len() == 0);
            }
        }
        graph
    }

    fn position(&self, task_id: TaskId) -> (i: usize)
        requires
            self.indexed(),
        ensures
            i == first_match(self@.tasks, with_id(task_id)),
            i <= self@.tasks.len(),
    {
        proof {
            lemma_index_finds(
                self.index@,
                self.tasks@,
                raw_id_of(),
                with_id(task_id),
                task_id.0,
            );
        }
        match self.index.get(&task_id.0) {
            Some(i) => *i,
            None => self.tasks.len(),
        }
    }

    /// Stores what is known of a task. An entry with the same identifier is
    /// replaced.
    pub fn add_task(&mut self, task: TaskInfo)
        requires
            old(self).wf(),
        ensures
            final(self).wf(),
            final(self)@.tasks == upsert(old(self)@.tasks, with_id(task.id), task),
            final(self)@.relationships == old(self)@.relationships,
    {
        proof {
            crate::lookup::lemma_upsert_keeps_distinct(
                self@.tasks,
                task_id_of(),
                with_id(task.id),
                task,
            );
        }
        let i: usize = self.position(task.id);
        let ghost keys = self.tasks@.map_values(raw_id_of());
        proof {
            lemma_first_match(self.tasks@, with_id(task.id));
        }
        if i == self.tasks.len() {
            proof {
                if self.index@.contains_key(task.id.0) {
                    assert(keys[self.index@[task.id.0] as int] == task.id.0);
                }
                lemma_index_push(self.index@, keys, task.id.0);
            }
            self.index.insert(task.id.0, i);
            self.tasks.push(task);
            assert(self.tasks@.map_values(raw_id_of()) =~= keys.push(task.id.0));
        } else {
            self.tasks[i] = task;
            assert(self.tasks@.map_values(raw_id_of()) =~= keys);
        }
    }

    /// Adds an edge. Neither of its tasks has to be known.
    pub fn add_relationship(&mut self, relationship: Relationship)
        requires
            old(self).wf(),
        ensures
            final(self).wf(),
            final(self)@.relationships == old(self)@.relationships.push(relationship),
            final(self)@.tasks == old(self)@.tasks,
    {
        let from = relationship.from;
        let to = relationship.to;
        let kind = relationship.relationship_type;
        let ghost edges = self.relationships@;
        link(&mut self.adjacency, from.0, (to, kind));
        link(&mut self.reverse_adjacency, to.0, (from, kind));
        self.relationships.push(relationship);
        proof {
            let longer = self.relationships@;
            assert(longer == edges.push(relationship));
            assert forall|k: u64|
                #![trigger self.adjacency@.contains_key(k)]
                #![trigger leaving_targets(longer, TaskId(k))]
                if self.adjacency@.contains_key(k) {
                    self.adjacency@[k]@ == leaving_targets(longer, TaskId(k))
                } else {
                    leaving_targets(longer, TaskId(k)).len() == 0
                } by {
                lemma_leaving_push(edges, relationship, TaskId(k));
                assert(old(self).adjacency@.contains_key(k) || !old(self).adjacency@.contains_key(
                    k,
                ));
                if k != from.0 {
                    assert(self.adjacency@.contains_key(k) == old(self).adjacency@.contains_key(
                        k,
                    ));
                } else {
                    assert(TaskId(k) == from);
                }
            }
            assert forall|k: u64|
                #![trigger self.reverse_adjacency@.contains_key(k)]
                #![trigger reaching_sources(longer, TaskId(k))]
                if self.reverse_adjacency@.contains_key(k) {
                    self.reverse_adjacency@[k]@ == reaching_sources(longer, TaskId(k))
                } else {
                    reaching_sources(longer, TaskId(k)).len() == 0
                } by {
                lemma_reaching_push(edges, relationship, TaskId(k));
                if k != to.0 {
                    assert(self.reverse_adjacency@.contains_key(k)
                        == old(self).reverse_adjacency@.contains_key(k));
                } else {
                    assert(TaskId(k) == to);
                }
            }
        }
    }

    /// The edges of one kind, in the order in which they were added.
    pub fn get_relationships_by_type(&self, rel_type: RelationshipType) -> (found: Vec<
        &Relationship,
    >)
        ensures
            found@.len() == self@.relationships.filter(of_kind(rel_type)).len(),
            forall|i: int|
                0 <= i < found@.len() ==> *found@[i] == self@.relationships.filter(
                    of_kind(rel_type),
                )[i],
    {
        let mut found: Vec<&Relationship> = Vec::new();
        let n: usize = self.relationships.len();
        proof {
            reveal(Seq::filter);
        }
        for i in 0..n
            invariant
                n == self.relationships@.len(),
                found@.len() == self.relationships@.take(i as int).filter(of_kind(rel_type)).len(),
                forall|j: int|
                    0 <= j < found@.len() ==> *found@[j] == self.relationships@.take(
                        i as int,
                    ).filter(of_kind(rel_type))[j],
        {
            proof {
                assert(self.relationships@.take(i + 1) == self.relationships@.take(i as int).push(
                    self.relationships@[i as int],
                ));
                self.relationships@.take(i as int).lemma_filter_push(
                    self.relationships@[i as int],
                    of_kind(rel_type),
                );
            }
            if self.relationships[i].relationship_type == rel_type {
                found.push(&self.relationships[i]);
            }
        }
        assert(self.relationships@.take(n as int) == self.relationships@);
        found
    }

    /// The tasks that the edges from `task_id` go to, each with the kind of
    /// its edge, in the order in which the edges were added.
    pub fn get_related_tasks(&self, task_id: TaskId) -> (related: Vec<(TaskId, RelationshipType)>)
        requires
            self.wf(),
        ensures
            related@ == self@.relationships.filter(leaving(task_id)).map_values(target()),
    {
        match self.neighbours(task_id) {
            Some(list) => copy_pairs(list),
            None => Vec::new(),
        }
    }

    /// The tasks that the edges to `task_id` come from, each with the kind
    /// of its edge, in the order in which the edges were added.
    pub fn get_dependent_tasks(&self, task_id: TaskId) -> (dependents: Vec<
        (TaskId, RelationshipType),
    >)
        requires
            self.wf(),
        ensures
            dependents@ == self@.relationships.filter(reaching(task_id)).map_values(source()),
    {
        assert(TaskId(task_id.0) == task_id);
        match self.reverse_adjacency.get(&task_id.0) {
            Some(list) => copy_pairs(list),
            None => {
                assert(reaching_sources(self.relationships@, TaskId(task_id.0)).len() == 0);
                Vec::new()
            },
        }
    }

    /// The ends of the edges that leave `task_id`, each with the kind of
    /// its edge, in the order of the edges; none where no edge leaves it.
    pub(crate) fn neighbours(&self, task_id: TaskId) -> (list: Option<
        &Vec<(TaskId, RelationshipType)>,
    >)
        requires
            self.wf(),
        ensures
            match list {
                Some(list) => list@ == leaving_targets(self@.relationships, task_id),
                None => leaving_targets(self@.relationships, task_id).len() == 0,
            },
    {
        assert(TaskId(task_id.0) == task_id);
        let list = self.adjacency.get(&task_id.0);
        proof {
            if list.is_none() {
                assert(leaving_targets(self.relationships@, TaskId(task_id.0)).len() == 0);
            }
        }
        list
    }

    /// What is known of a task.
    pub fn get_task(&self, task_id: &TaskId) -> (found: Option<&TaskInfo>)
        requires
            self.wf(),
        ensures
            match found {
                Some(task) => Some(*task) == crate::lookup::lookup(self@.tasks, with_id(*task_id)),
                None => !self@.knows(*task_id),
            },
    {
        let i: usize = self.position(*task_id);
        if i < self.tasks.len() {
            Some(&self.tasks[i])
        } else {
            None
        }
    }

    /// The edges, in the order in which they were added.
    pub(crate) fn edges(&self) -> (edges: &Vec<Relationship>)
        ensures
            edges@ == self@.relationships,
    {
        &self.relationships
    }

    /// What is known of the tasks.
    pub(crate) fn known_tasks(&self) -> (tasks: &Vec<TaskInfo>)
        ensures
            tasks@ == self@.tasks,
    {
        &self.tasks
    }
}

} // verus!
