//! The deadlock detector: which task holds which resource, which task waits
//! for which, and the cycles among the tasks that wait for one another.

use std::collections::HashMap;
use vstd::prelude::*;
use vstd::string::*;
pub use crate::cycles::DeadlockCycle;
use crate::ids::IdGenerator;
use crate::lookup::{
    distinct_by, first_match, has_match, is_index, lemma_first_match, lemma_first_match_is,
    lemma_index_finds, lemma_index_push, lookup, upsert, without_first,
};
use crate::task::TaskId;
use crate::text::{decimal, push_decimal};

verus! {

broadcast use vstd::std_specs::hash::group_hash_axioms;

/// The identifier of a resource.
#[derive(Debug, Clone, Copy, PartialEq, Eq, Hash, Structural)]
pub struct ResourceId(pub u64);

impl ResourceId {
    /// The next identifier of `ids`.
    pub fn new(ids: &mut IdGenerator) -> (id: ResourceId)
        requires
            old(ids).has_next(),
        ensures
            id.0 == old(ids).next,
            *final(ids) == old(ids).after(1),
    {
        ResourceId(ids.allocate())
    }

    pub fn as_u64(&self) -> (raw: u64)
        ensures
            raw == self.0,
    {
        self.0
    }

    /// How the identifier is written: `Resource#` and the number.
    pub open spec fn text(self) -> Seq<char> {
        "Resource#"@ + decimal(self.0 as nat)
    }

    /// Appends the identifier as it is written.
    pub fn push_to(&self, out: &mut String)
        ensures
            final(out)@ == old(out)@ + self.text(),
    {
        out.append("Resource#");
        push_decimal(out, self.0);
        assert(out@ =~= old(out)@ + self.text());
    }

    pub fn to_string(&self) -> (s: String)
        ensures
            s@ == self.text(),
    {
        let mut s = String::new();
        self.push_to(&mut s);
        assert(s@ =~= self.text());
        s
    }
}

/// What kind of thing a resource is.
#[derive(Debug, PartialEq, Eq)]
pub enum ResourceKind {
    Mutex,
    RwLock,
    Semaphore,
    Channel,
    /// Something else, with its name.
    Other(String),
}

impl Clone for ResourceKind {
    fn clone(&self) -> (copy: ResourceKind)
        ensures
            copy == *self,
    {
        match self {
            ResourceKind::Mutex => ResourceKind::Mutex,
            ResourceKind::RwLock => ResourceKind::RwLock,
            ResourceKind::Semaphore => ResourceKind::Semaphore,
            ResourceKind::Channel => ResourceKind::Channel,
            ResourceKind::Other(name) => ResourceKind::Other(name.clone()),
        }
    }
}

impl ResourceKind {
    /// How the kind is written: its name.
    pub open spec fn text(self) -> Seq<char> {
        match self {
            ResourceKind::Mutex => "Mutex"@,
            ResourceKind::RwLock => "RwLock"@,
            ResourceKind::Semaphore => "Semaphore"@,
            ResourceKind::Channel => "Channel"@,
            ResourceKind::Other(name) => name@,
        }
    }

    pub fn to_string(&self) -> (s: String)
        ensures
            s@ == self.text(),
    {
        match self {
            ResourceKind::Mutex => String::from_str("Mutex"),
            ResourceKind::RwLock => String::from_str("RwLock"),
            ResourceKind::Semaphore => String::from_str("Semaphore"),
            ResourceKind::Channel => String::from_str("Channel"),
            ResourceKind::Other(name) => name.clone(),
        }
    }
}

/// What the detector keeps of one resource. A resource has at most one
/// holder at a time.
#[derive(Debug)]
pub struct ResourceInfo {
    pub id: ResourceId,
    pub kind: ResourceKind,
    pub name: String,
    /// The task that holds the resource.
    pub holder: Option<TaskId>,
    /// The tasks that wait for the resource, in the order in which they
    /// began to wait.
    pub waiters: Vec<TaskId>,
    /// Where the resource lies in memory, for people to read.
    pub address: Option<usize>,
}

/// A resource as a value.
pub struct ResourceView {
    pub id: ResourceId,
    pub kind: ResourceKind,
    pub name: String,
    pub holder: Option<TaskId>,
    pub waiters: Seq<TaskId>,
    pub address: Option<usize>,
}

impl View for ResourceInfo {
    type V = ResourceView;

    open spec fn view(&self) -> ResourceView {
        ResourceView {
            id: self.id,
            kind: self.kind,
            name: self.name,
            holder: self.holder,
            waiters: self.waiters@,
            address: self.address,
        }
    }
}

fn copy_tasks(tasks: &Vec<TaskId>) -> (copy: Vec<TaskId>)
    ensures
        copy@ == tasks@,
{
    let mut copy: Vec<TaskId> = Vec::new();
    let n: usize = tasks.len();
    for i in 0..n
        invariant
            n == tasks@.len(),
            copy@ == tasks@.take(i as int),
    {
        copy.push(tasks[i]);
        assert(copy@ =~= tasks@.take(i + 1));
    }
    assert(tasks@.take(n as int) == tasks@);
    copy
}

/// The tasks that are not `task`.
pub open spec fn other_than(task: TaskId) -> spec_fn(TaskId) -> bool {
    |t: TaskId| t != task
}

/// The tasks of `tasks` other than `task`, in their order.
pub open spec fn others(tasks: Seq<TaskId>, task: TaskId) -> Seq<TaskId> {
    tasks.filter(other_than(task))
}

fn without_task(tasks: &Vec<TaskId>, task: TaskId) -> (rest: Vec<TaskId>)
    ensures
        rest@ == others(tasks@, task),
{
    let mut rest: Vec<TaskId> = Vec::new();
    let n: usize = tasks.len();
    proof {
        reveal(Seq::filter);
    }
    for i in 0..n
        invariant
            n == tasks@.len(),
            rest@ == others(tasks@.take(i as int), task),
    {
        proof {
            assert(tasks@.take(i + 1) == tasks@.take(i as int).push(tasks@[i as int]));
            tasks@.take(i as int).lemma_filter_push(tasks@[i as int], other_than(task));
        }
        if tasks[i] != task {
            rest.push(tasks[i]);
        }
    }
    assert(tasks@.take(n as int) == tasks@);
    rest
}

fn contains_task(tasks: &Vec<TaskId>, task: TaskId) -> (found: bool)
    ensures
        found == tasks@.contains(task),
{
    let n: usize = tasks.len();
    for i in 0..n
        invariant
            n == tasks@.len(),
            forall|j: int| 0 <= j < i ==> tasks@[j] != task,
    {
        if tasks[i] == task {
            return true;
        }
    }
    false
}

impl Clone for ResourceInfo {
    fn clone(&self) -> (copy: ResourceInfo)
        ensures
            copy@ == self@,
    {
        ResourceInfo {
            id: self.id,
            kind: self.kind.clone(),
            name: self.name.clone(),
            holder: self.holder,
            waiters: copy_tasks(&self.waiters),
            address: self.address,
        }
    }
}

impl ResourceInfo {
    /// A free resource under the next identifier of `ids`.
    pub fn new(kind: ResourceKind, name: String, ids: &mut IdGenerator) -> (info: ResourceInfo)
        requires
            old(ids).has_next(),
        ensures
            *final(ids) == old(ids).after(1),
            info@ == (ResourceView {
                id: ResourceId(old(ids).next),
                kind,
                name,
                holder: None,
                waiters: Seq::empty(),
                address: None,
            }),
    {
        ResourceInfo {
            id: ResourceId::new(ids),
            kind,
            name,
            holder: None,
            waiters: Vec::new(),
            address: None,
        }
    }

    pub fn with_address(self, address: usize) -> (info: ResourceInfo)
        ensures
            info@ == (ResourceView { address: Some(address), ..self@ }),
    {
        let mut info = self;
        info.address = Some(address);
        info
    }

    pub fn is_held(&self) -> (held: bool)
        ensures
            held == self@.holder.is_some(),
    {
        self.holder.is_some()
    }

    pub fn has_waiters(&self) -> (waited: bool)
        ensures
            waited == (self@.waiters.len() > 0),
    {
        self.waiters.len() > 0
    }

    pub fn to_string(&self) -> (s: String)
        ensures
            s@ == self@.text(),
    {
        let mut s = self.kind.to_string();
        s.append(" '");
        s.append(self.name.as_str());
        s.append("' (");
        self.id.push_to(&mut s);
        s.append(")");
        match self.address {
            Some(address) => {
                s.append(" @ 0x");
                crate::text::push_hexadecimal(&mut s, address as u64);
            },
            None => {},
        }
        assert(s@ =~= self@.text());
        s
    }
}

impl ResourceView {
    /// How the resource is written: its kind, its name in quotes and its
    /// identifier in brackets, and its address in hexadecimal where it is
    /// known.
    pub open spec fn text(self) -> Seq<char> {
        self.kind.text() + " '"@ + self.name@ + "' ("@ + self.id.text() + ")"@ + (match self.address {
            Some(address) => " @ 0x"@ + crate::text::hexadecimal(address as nat),
            None => Seq::empty(),
        })
    }
}

/// That `task` waits for `resource`, which `holder` holds.
#[derive(Debug, Clone, Copy, PartialEq, Eq, Structural)]
pub struct WaitEdge {
    pub task: TaskId,
    pub resource: ResourceId,
    pub holder: TaskId,
}

/// The resource that a task waits for.
#[derive(Debug, Clone, Copy, PartialEq, Eq, Structural)]
pub struct Waiting {
    pub task: TaskId,
    pub resource: ResourceId,
}

/// The resource with the given identifier.
pub open spec fn resource_with(id: ResourceId) -> spec_fn(ResourceView) -> bool {
    |r: ResourceView| r.id == id
}

/// The wait of the given task.
pub open spec fn wait_of(task: TaskId) -> spec_fn(Waiting) -> bool {
    |w: Waiting| w.task == task
}

/// The raw identifier of a resource.
pub open spec fn resource_raw_id() -> spec_fn(ResourceView) -> u64 {
    |r: ResourceView| r.id.0
}

/// The identifier of a resource.
pub open spec fn resource_id_of() -> spec_fn(ResourceView) -> ResourceId {
    |r: ResourceView| r.id
}

/// The raw identifier of the task of a wait.
pub open spec fn waiting_raw_id() -> spec_fn(Waiting) -> u64 {
    |w: Waiting| w.task.0
}

/// The task of a wait.
pub open spec fn waiting_task() -> spec_fn(Waiting) -> TaskId {
    |w: Waiting| w.task
}

/// What a detector holds.
pub struct DetectorState {
    /// The resources, one entry for each identifier, in the order in which
    /// the identifiers were first registered.
    pub resources: Seq<ResourceView>,
    /// For each task that waits, the one resource it waits for.
    pub waiting: Seq<Waiting>,
    /// Whether anything is recorded.
    pub enabled: bool,
}

impl DetectorState {
    /// The state of a new detector.
    pub open spec fn initial() -> DetectorState {
        DetectorState { resources: Seq::empty(), waiting: Seq::empty(), enabled: true }
    }

    /// No resource has two entries, and no task waits twice.
    pub open spec fn wf(self) -> bool {
        &&& distinct_by(self.resources, resource_id_of())
        &&& distinct_by(self.waiting, waiting_task())
    }

    /// The entry of a resource, if it has one.
    pub open spec fn resource(self, id: ResourceId) -> Option<ResourceView> {
        lookup(self.resources, resource_with(id))
    }

    /// The resource that a task waits for, if it waits.
    pub open spec fn waits_for(self, task: TaskId) -> Option<ResourceId> {
        match lookup(self.waiting, wait_of(task)) {
            Some(w) => Some(w.resource),
            None => None,
        }
    }

    /// The task that holds a resource, if the resource is known and held.
    pub open spec fn holder_of(self, id: ResourceId) -> Option<TaskId> {
        match self.resource(id) {
            Some(r) => r.holder,
            None => None,
        }
    }

    /// The task that a task waits for: the holder of the resource that it
    /// waits for. A wait for an unknown or a free resource blocks nothing.
    pub open spec fn blocker(self, task: TaskId) -> Option<TaskId> {
        match self.waits_for(task) {
            Some(r) => self.holder_of(r),
            None => None,
        }
    }

    /// `then` while recording is on, and the state as it is while it is off.
    pub open spec fn when_enabled(self, then: DetectorState) -> DetectorState {
        if self.enabled {
            then
        } else {
            self
        }
    }

    /// The resource stored, in the place of an entry of the same identifier
    /// where there is one.
    pub open spec fn registered(self, info: ResourceView) -> DetectorState {
        DetectorState { resources: upsert(self.resources, resource_with(info.id), info), ..self }
    }

    /// The task no longer waits for anything. If the resource is known, the
    /// task holds it and is not among those that wait for it.
    pub open spec fn acquired(self, task: TaskId, id: ResourceId) -> DetectorState {
        let i = first_match(self.resources, resource_with(id));
        DetectorState {
            waiting: without_first(self.waiting, wait_of(task)),
            resources: if i < self.resources.len() {
                self.resources.update(
                    i,
                    ResourceView {
                        holder: Some(task),
                        waiters: others(self.resources[i].waiters, task),
                        ..self.resources[i]
                    },
                )
            } else {
                self.resources
            },
            ..self
        }
    }

    /// If the task holds the resource, the resource is free. Otherwise
    /// nothing changes.
    pub open spec fn released(self, task: TaskId, id: ResourceId) -> DetectorState {
        let i = first_match(self.resources, resource_with(id));
        if i < self.resources.len() && self.resources[i].holder == Some(task) {
            DetectorState {
                resources: self.resources.update(
                    i,
                    ResourceView { holder: None, ..self.resources[i] },
                ),
                ..self
            }
        } else {
            self
        }
    }

    /// The task waits for the resource, and for nothing else. If the
    /// resource is known, the task is among those that wait for it, once.
    pub open spec fn waiting_for(self, task: TaskId, id: ResourceId) -> DetectorState {
        let i = first_match(self.resources, resource_with(id));
        DetectorState {
            waiting: upsert(self.waiting, wait_of(task), Waiting { task, resource: id }),
            resources: if i < self.resources.len() && !self.resources[i].waiters.contains(task) {
                self.resources.update(
                    i,
                    ResourceView {
                        waiters: self.resources[i].waiters.push(task),
                        ..self.resources[i]
                    },
                )
            } else {
                self.resources
            },
            ..self
        }
    }

    /// No resources and no waits.
    pub open spec fn cleared(self) -> DetectorState {
        DetectorState { resources: Seq::empty(), waiting: Seq::empty(), ..self }
    }
}

/// The resources, their holders, and the tasks that wait. Resources and
/// waits stand in the order in which they came; hash maps find the entry
/// of a resource and the wait of a task.
#[derive(Debug)]
pub struct DeadlockDetector {
    resources: Vec<ResourceInfo>,
    index: HashMap<u64, usize>,
    task_waiting: Vec<Waiting>,
    waiting_index: HashMap<u64, usize>,
    enabled: bool,
}

impl View for DeadlockDetector {
    type V = DetectorState;

    closed spec fn view(&self) -> DetectorState {
        DetectorState {
            resources: self.resources@.map_values(|r: ResourceInfo| r@),
            waiting: self.task_waiting@,
            enabled: self.enabled,
        }
    }
}

impl DeadlockDetector {
    /// The indexes say of every resource, and of every task that waits,
    /// where its entry stands.
    pub closed spec fn indexed(&self) -> bool {
        &&& is_index(self.index@, self@.resources.map_values(resource_raw_id()))
        &&& is_index(self.waiting_index@, self.task_waiting@.map_values(waiting_raw_id()))
    }

    /// What the detector holds is well formed, and its index is in step
    /// with its resources.
    pub open spec fn wf(&self) -> bool {
        self@.wf() && self.indexed()
    }

    pub fn new() -> (detector: DeadlockDetector)
        ensures
            detector.wf(),
            detector@ == DetectorState::initial(),
    {
        let detector = DeadlockDetector {
            resources: Vec::new(),
            index: HashMap::new(),
            task_waiting: Vec::new(),
            waiting_index: HashMap::new(),
            enabled: true,
        };
        assert(detector@.resources =~= Seq::empty());
        detector
    }

    pub fn enable(&mut self)
        ensures
            final(self)@ == (DetectorState { enabled: true, ..old(self)@ }),
            old(self).wf() ==> final(self).wf(),
    {
        self.enabled = true;
    }

    pub fn disable(&mut self)
        ensures
            final(self)@ == (DetectorState { enabled: false, ..old(self)@ }),
            old(self).wf() ==> final(self).wf(),
    {
        self.enabled = false;
    }

    pub fn is_enabled(&self) -> (enabled: bool)
        ensures
            enabled == self@.enabled,
    {
        self.enabled
    }

    fn resource_position(&self, id: ResourceId) -> (i: usize)
        requires
            self.indexed(),
        ensures
            i == first_match(self@.resources, resource_with(id)),
            i <= self.resources@.len(),
            self.resources@.len() == self@.resources.len(),
    {
        proof {
            lemma_index_finds(
                self.index@,
                self@.resources,
                resource_raw_id(),
                resource_with(id),
                id.0,
            );
        }
        match self.index.get(&id.0) {
            Some(i) => *i,
            None => self.resources.len(),
        }
    }

    fn waiting_position(&self, task: TaskId) -> (i: usize)
        requires
            self.indexed(),
        ensures
            i == first_match(self@.waiting, wait_of(task)),
            i <= self.task_waiting@.len(),
    {
        proof {
            lemma_index_finds(
                self.waiting_index@,
                self.task_waiting@,
                waiting_raw_id(),
                wait_of(task),
                task.0,
            );
        }
        match self.waiting_index.get(&task.0) {
            Some(i) => *i,
            None => self.task_waiting.len(),
        }
    }

    /// Takes the wait at place `w` out of the list, and moves the places
    /// of the waits behind it up in the index.
    fn forget_wait(&mut self, w: usize)
        requires
            old(self).indexed(),
            w < old(self).task_waiting@.len(),
        ensures
            final(self).indexed(),
            final(self).task_waiting@ == old(self).task_waiting@.remove(w as int),
            final(self).resources == old(self).resources,
            final(self).enabled == old(self).enabled,
    {
        let ghost before = self.task_waiting@.map_values(waiting_raw_id());
        let gone = self.task_waiting.remove(w);
        self.waiting_index.remove(&gone.task.0);
        let ghost keys = self.task_waiting@.map_values(waiting_raw_id());
        let n: usize = self.task_waiting.len();
        proof {
            assert(keys =~= before.remove(w as int));
            assert forall|a: int, b: int| 0 <= a < b < before.len() implies before[a] != before[b] by {
                assert(old(self).waiting_index@[before[a]] == a);
                assert(old(self).waiting_index@[before[b]] == b);
            }
            assert forall|x: u64| #[trigger] self.waiting_index@.contains_key(x) implies exists|
                i: int,
            |
                0 <= i < keys.len() && keys[i] == x by {
                let at = old(self).waiting_index@[x] as int;
                assert(before[at] == x);
                if at < w {
                    assert(keys[at] == x);
                } else {
                    assert(at != w);
                    assert(keys[at - 1] == x);
                }
            }
            assert forall|i: int| 0 <= i < keys.len() implies self.waiting_index@.contains_key(
                #[trigger] keys[i],
            ) && self.waiting_index@[keys[i]] == (if i < w {
                i
            } else {
                i + 1
            }) by {
                let from = if i < w {
                    i
                } else {
                    i + 1
                };
                assert(keys[i] == before[from]);
                assert(old(self).waiting_index@.contains_key(before[from]));
                assert(before[from] != before[w as int]);
            }
        }
        for j in w..n
            invariant
                n == self.task_waiting@.len(),
                w <= n,
                keys == self.task_waiting@.map_values(waiting_raw_id()),
                self.resources == old(self).resources,
                self.index == old(self).index,
                self.enabled == old(self).enabled,
                self.task_waiting@ == old(self).task_waiting@.remove(w as int),
                forall|a: int, b: int| 0 <= a < b < keys.len() ==> keys[a] != keys[b],
                forall|x: u64| #[trigger]
                    self.waiting_index@.contains_key(x) ==> exists|i: int|
                        0 <= i < keys.len() && keys[i] == x,
                forall|i: int|
                    0 <= i < keys.len() ==> self.waiting_index@.contains_key(#[trigger] keys[i])
                        && self.waiting_index@[keys[i]] == (if i < j {
                        i
                    } else {
                        i + 1
                    }),
        {
            let ghost so_far = self.waiting_index@;
            self.waiting_index.insert(self.task_waiting[j].task.0, j);
            proof {
                assert(self.waiting_index@ == so_far.insert(keys[j as int], j));
                assert forall|x: u64| #[trigger]
                    self.waiting_index@.contains_key(x) implies exists|i: int|
                    0 <= i < keys.len() && keys[i] == x by {
                    if x != keys[j as int] {
                        assert(so_far.contains_key(x));
                    }
                }
                assert forall|i: int| 0 <= i < keys.len() implies self.waiting_index@.contains_key(
                    #[trigger] keys[i],
                ) && self.waiting_index@[keys[i]] == (if i < j + 1 {
                    i
                } else {
                    i + 1
                }) by {
                    assert(so_far.contains_key(keys[i]));
                    if i != j {
                        assert(keys[i] != keys[j as int]);
                    }
                }
            }
        }
        proof {
            assert forall|k: u64| #[trigger]
                self.waiting_index@.contains_key(k) implies self.waiting_index@[k] < keys.len()
                && keys[self.waiting_index@[k] as int] == k by {
                let i = choose|i: int| 0 <= i < keys.len() && keys[i] == k;
                assert(self.waiting_index@[keys[i]] == i);
            }
        }
    }

    /// The waits, in the order in which their tasks first waited.
    pub(crate) fn waits(&self) -> (waits: &Vec<Waiting>)
        ensures
            waits@ == self@.waiting,
    {
        &self.task_waiting
    }

    /// How many resources there are.
    pub(crate) fn resource_count(&self) -> (n: usize)
        ensures
            n == self@.resources.len(),
    {
        self.resources.len()
    }

    /// What the task waits for, and who holds it.
    pub(crate) fn blocker_of(&self, task: TaskId) -> (edge: Option<(ResourceId, TaskId)>)
        requires
            self.wf(),
        ensures
            match edge {
                Some((resource, holder)) => self@.waits_for(task) == Some(resource)
                    && self@.holder_of(resource) == Some(holder),
                None => self@.blocker(task).is_none(),
            },
    {
        let w: usize = self.waiting_position(task);
        if w == self.task_waiting.len() {
            return None;
        }
        let resource = self.task_waiting[w].resource;
        let i: usize = self.resource_position(resource);
        if i == self.resources.len() {
            return None;
        }
        match self.resources[i].holder {
            Some(holder) => Some((resource, holder)),
            None => None,
        }
    }

    /// Stores a resource. An entry with the same identifier is replaced.
    /// While recording is off nothing is stored.
    pub fn register_resource(&mut self, info: ResourceInfo) -> (id: ResourceId)
        requires
            old(self).wf(),
        ensures
            final(self).wf(),
            id == info.id,
            final(self)@ == old(self)@.when_enabled(old(self)@.registered(info@)),
    {
        let id = info.id;
        if !self.enabled {
            return id;
        }
        proof {
            crate::lookup::lemma_upsert_keeps_distinct(
                self@.resources,
                resource_id_of(),
                resource_with(id),
                info@,
            );
        }
        let i: usize = self.resource_position(id);
        let ghost keys = self@.resources.map_values(resource_raw_id());
        proof {
            lemma_first_match(self@.resources, resource_with(id));
        }
        if i == self.resources.len() {
            proof {
                if self.index@.contains_key(id.0) {
                    assert(keys[self.index@[id.0] as int] == id.0);
                }
                lemma_index_push(self.index@, keys, id.0);
            }
            self.index.insert(id.0, i);
            self.resources.push(info);
            assert(self@.resources.map_values(resource_raw_id()) =~= keys.push(id.0));
        } else {
            self.resources[i] = info;
            assert(self@.resources.map_values(resource_raw_id()) =~= keys);
        }
        assert(self@.resources =~= old(self)@.registered(info@).resources);
        id
    }

    /// Records that the task has the resource: it no longer waits for
    /// anything, and it holds the resource if the resource is known.
    pub fn acquire(&mut self, task_id: TaskId, resource_id: ResourceId)
        requires
            old(self).wf(),
        ensures
            final(self).wf(),
            final(self)@ == old(self)@.when_enabled(old(self)@.acquired(task_id, resource_id)),
    {
        if !self.enabled {
            return ;
        }
        let w: usize = self.waiting_position(task_id);
        if w < self.task_waiting.len() {
            self.forget_wait(w);
        }
        let i: usize = self.resource_position(resource_id);
        if i < self.resources.len() {
            let rest = without_task(&self.resources[i].waiters, task_id);
            self.resources[i].holder = Some(task_id);
            self.resources[i].waiters = rest;
        }
        proof {
            let before = old(self)@;
            let after = before.acquired(task_id, resource_id);
            assert(self@.resources =~= after.resources);
            assert(self@.resources.map_values(resource_raw_id()) =~= before.resources.map_values(
                resource_raw_id(),
            ));
            assert(self@.waiting =~= after.waiting);
            lemma_first_match(before.waiting, wait_of(task_id));
            assert forall|a: int, b: int| 0 <= a < b < after.waiting.len() implies waiting_task()(
                after.waiting[a],
            ) != waiting_task()(after.waiting[b]) by {
                let skip = |k: int| if has_match(before.waiting, wait_of(task_id)) && k >= w {
                    k + 1
                } else {
                    k
                };
                assert(after.waiting[a] == before.waiting[skip(a)]);
                assert(after.waiting[b] == before.waiting[skip(b)]);
                assert(waiting_task()(before.waiting[skip(a)]) != waiting_task()(
                    before.waiting[skip(b)],
                ));
            }
            assert forall|a: int, b: int| 0 <= a < b < after.resources.len() implies resource_id_of()(
                after.resources[a],
            ) != resource_id_of()(after.resources[b]) by {
                assert(resource_id_of()(before.resources[a]) != resource_id_of()(
                    before.resources[b],
                ));
            }
        }
    }

    /// Records that the task gave the resource back. Nothing happens if the
    /// task does not hold it.
    pub fn release(&mut self, task_id: TaskId, resource_id: ResourceId)
        requires
            old(self).wf(),
        ensures
            final(self).wf(),
            final(self)@ == old(self)@.when_enabled(old(self)@.released(task_id, resource_id)),
    {
        if !self.enabled {
            return ;
        }
        let i: usize = self.resource_position(resource_id);
        if i < self.resources.len() {
            let held: bool = match self.resources[i].holder {
                Some(h) => h == task_id,
                None => false,
            };
            if held {
                self.resources[i].holder = None;
            }
        }
        proof {
            let before = old(self)@;
            let after = before.released(task_id, resource_id);
            assert(self@.resources =~= after.resources);
            assert(self@.resources.map_values(resource_raw_id()) =~= before.resources.map_values(
                resource_raw_id(),
            ));
            assert forall|a: int, b: int| 0 <= a < b < after.resources.len() implies resource_id_of()(
                after.resources[a],
            ) != resource_id_of()(after.resources[b]) by {
                assert(resource_id_of()(before.resources[a]) != resource_id_of()(
                    before.resources[b],
                ));
            }
        }
    }

    /// Records that the task waits for the resource. A task waits for one
    /// resource at a time: an earlier wait of the task is forgotten.
    pub fn wait_for(&mut self, task_id: TaskId, resource_id: ResourceId)
        requires
            old(self).wf(),
        ensures
            final(self).wf(),
            final(self)@ == old(self)@.when_enabled(
                old(self)@.waiting_for(task_id, resource_id),
            ),
    {
        if !self.enabled {
            return ;
        }
        let wait = Waiting { task: task_id, resource: resource_id };
        proof {
            crate::lookup::lemma_upsert_keeps_distinct(
                self@.waiting,
                waiting_task(),
                wait_of(task_id),
                wait,
            );
        }
        let w: usize = self.waiting_position(task_id);
        let ghost keys = self.task_waiting@.map_values(waiting_raw_id());
        proof {
            lemma_first_match(self@.waiting, wait_of(task_id));
        }
        if w == self.task_waiting.len() {
            proof {
                if self.waiting_index@.contains_key(task_id.0) {
                    assert(keys[self.waiting_index@[task_id.0] as int] == task_id.0);
                }
                lemma_index_push(self.waiting_index@, keys, task_id.0);
            }
            self.waiting_index.insert(task_id.0, w);
            self.task_waiting.push(wait);
            assert(self.task_waiting@.map_values(waiting_raw_id()) =~= keys.push(task_id.0));
        } else {
            self.task_waiting[w] = wait;
            assert(self.task_waiting@.map_values(waiting_raw_id()) =~= keys);
        }
        let i: usize = self.resource_position(resource_id);
        if i < self.resources.len() {
            if !contains_task(&self.resources[i].waiters, task_id) {
                self.resources[i].waiters.push(task_id);
            }
        }
        proof {
            let before = old(self)@;
            let after = before.waiting_for(task_id, resource_id);
            assert(self@.resources =~= after.resources);
            assert(self@.resources.map_values(resource_raw_id()) =~= before.resources.map_values(
                resource_raw_id(),
            ));
            assert forall|a: int, b: int| 0 <= a < b < after.resources.len() implies resource_id_of()(
                after.resources[a],
            ) != resource_id_of()(after.resources[b]) by {
                assert(resource_id_of()(before.resources[a]) != resource_id_of()(
                    before.resources[b],
                ));
            }
        }
    }

    /// Copies of all resources, in the order in which their identifiers were
    /// first registered.
    pub fn get_resources(&self) -> (all: Vec<ResourceInfo>)
        ensures
            all@.map_values(|r: ResourceInfo| r@) == self@.resources,
    {
        let mut all: Vec<ResourceInfo> = Vec::new();
        let n: usize = self.resources.len();
        for i in 0..n
            invariant
                n == self.resources@.len(),
                all@.len() == i,
                forall|j: int| 0 <= j < i ==> all@[j]@ == self.resources@[j]@,
        {
            all.push(self.resources[i].clone());
        }
        assert(all@.map_values(|r: ResourceInfo| r@) =~= self@.resources);
        all
    }

    /// A copy of the entry of a resource.
    pub fn get_resource(&self, id: ResourceId) -> (found: Option<ResourceInfo>)
        requires
            self.wf(),
        ensures
            match found {
                Some(r) => self@.resource(id) == Some(r@),
                None => self@.resource(id).is_none(),
            },
    {
        let i: usize = self.resource_position(id);
        if i < self.resources.len() {
            Some(self.resources[i].clone())
        } else {
            None
        }
    }

    /// Forgets every resource and every wait.
    pub fn clear(&mut self)
        ensures
            final(self).wf(),
            final(self)@ == old(self)@.cleared(),
    {
        self.resources.clear();
        self.index.clear();
        self.task_waiting.clear();
        self.waiting_index.clear();
        assert(self@.resources =~= Seq::empty());
    }
}

} // verus!
