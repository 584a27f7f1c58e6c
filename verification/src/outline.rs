//! The relationship graph in words: its edges by kind, its critical path,
//! and the resources that tasks share.

use vstd::prelude::*;
use vstd::string::*;
use crate::graph::{of_kind, GraphState, Relationship, RelationshipType, TaskGraph};
use crate::inspector::with_id;
use crate::lookup::lookup;
use crate::reach::{sharers, text_of};
use crate::task::{TaskId, TaskInfo};
use crate::text::{decimal, push_decimal};

verus! {

/// The names of the resources of the edges of shared use, each once, in
/// the order in which the edges name them first.
pub open spec fn shared_names(edges: Seq<Relationship>) -> Seq<Seq<char>>
    decreases edges.len(),
{
    if edges.len() == 0 {
        Seq::empty()
    } else {
        let before = shared_names(edges.drop_last());
        let edge = edges.last();
        match text_of(edge.resource_name) {
            Some(name) => if edge.relationship_type is SharedResource && !before.contains(name) {
                before.push(name)
            } else {
                before
            },
            None => before,
        }
    }
}

/// The texts of the names.
pub open spec fn texts(names: Seq<&String>) -> Seq<Seq<char>> {
    names.map_values(|name: &String| name@)
}

impl GraphState {
    /// The name of a task, or a question mark for a task that the graph
    /// does not know.
    pub open spec fn name_of(self, task: TaskId) -> Seq<char> {
        match lookup(self.tasks, with_id(task)) {
            Some(info) => info.name@,
            None => "?"@,
        }
    }

    /// The line that says an edge: the names of its tasks with the kind
    /// between them, and the resource in brackets.
    pub open spec fn relation_line(self, edge: Relationship) -> Seq<char> {
        "  "@ + self.name_of(edge.from) + " "@ + edge.relationship_type.text() + " "@
            + self.name_of(edge.to) + (match edge.resource_name {
            Some(resource) => " ("@ + resource@ + ")"@,
            None => Seq::empty(),
        }) + "\n"@
    }

    /// The lines that say the edges.
    pub open spec fn relation_lines(self, edges: Seq<Relationship>) -> Seq<char>
        decreases edges.len(),
    {
        if edges.len() == 0 {
            Seq::empty()
        } else {
            self.relation_lines(edges.drop_last()) + self.relation_line(edges.last())
        }
    }

    /// The part for one kind of edge: a heading and the edges of the kind,
    /// or nothing where there is no such edge.
    pub open spec fn section(self, kind: RelationshipType) -> Seq<char> {
        let edges = self.relationships.filter(of_kind(kind));
        if edges.len() == 0 {
            Seq::empty()
        } else {
            "\n"@ + kind.text() + " Relationships:\n"@ + self.relation_lines(edges)
        }
    }

    /// The parts for the kinds of edges, in the order in which the kinds
    /// are listed.
    pub open spec fn sections(self) -> Seq<char> {
        self.section(RelationshipType::Spawned) + self.section(RelationshipType::ChannelSend)
            + self.section(RelationshipType::ChannelReceive) + self.section(
            RelationshipType::SharedResource,
        ) + self.section(RelationshipType::DataFlow) + self.section(RelationshipType::AwaitsOn)
            + self.section(RelationshipType::Dependency)
    }

    /// The line for a task of the critical path: its name and state, or
    /// nothing for a task that the graph does not know.
    pub open spec fn path_entry(self, task: TaskId) -> Seq<char> {
        match lookup(self.tasks, with_id(task)) {
            Some(info) => "  → "@ + info.name@ + " ("@ + info.state.debug() + ")\n"@,
            None => Seq::empty(),
        }
    }

    /// The lines for the tasks of a path.
    pub open spec fn path_entries(self, path: Seq<TaskId>) -> Seq<char>
        decreases path.len(),
    {
        if path.len() == 0 {
            Seq::empty()
        } else {
            self.path_entries(path.drop_last()) + self.path_entry(path.last())
        }
    }

    /// The part for the critical path, or nothing for an empty path.
    pub open spec fn critical_part(self, path: Seq<TaskId>) -> Seq<char> {
        if path.len() == 0 {
            Seq::empty()
        } else {
            "\nCritical Path:\n"@ + self.path_entries(path)
        }
    }

    /// The line for a task that shares a resource: its name, or nothing for
    /// a task that the graph does not know.
    pub open spec fn member_line(self, task: TaskId) -> Seq<char> {
        match lookup(self.tasks, with_id(task)) {
            Some(info) => "    - "@ + info.name@ + "\n"@,
            None => Seq::empty(),
        }
    }

    /// The lines for the tasks that share a resource.
    pub open spec fn member_lines(self, tasks: Seq<TaskId>) -> Seq<char>
        decreases tasks.len(),
    {
        if tasks.len() == 0 {
            Seq::empty()
        } else {
            self.member_lines(tasks.drop_last()) + self.member_line(tasks.last())
        }
    }

    /// The part for one shared resource: its name, how many tasks use it,
    /// and the tasks.
    pub open spec fn resource_block(self, name: Seq<char>) -> Seq<char> {
        let users = sharers(self.relationships, name);
        "  "@ + name + " (accessed by "@ + decimal(users.len()) + " tasks):\n"@
            + self.member_lines(users)
    }

    /// The parts for the shared resources.
    pub open spec fn resource_blocks(self, names: Seq<Seq<char>>) -> Seq<char>
        decreases names.len(),
    {
        if names.len() == 0 {
            Seq::empty()
        } else {
            self.resource_blocks(names.drop_last()) + self.resource_block(names.last())
        }
    }

    /// The part for the shared resources, or nothing where no edge of
    /// shared use names a resource.
    pub open spec fn shared_part(self) -> Seq<char> {
        let names = shared_names(self.relationships);
        if names.len() == 0 {
            Seq::empty()
        } else {
            "\nShared Resources:\n"@ + self.resource_blocks(names)
        }
    }

    /// The graph in words, with `path` as the critical path.
    pub open spec fn outline(self, path: Seq<TaskId>) -> Seq<char> {
        "Task Relationship Graph\n"@ + "=======================\n\n"@ + self.sections()
            + self.critical_part(path) + self.shared_part()
    }
}

fn has_text(names: &Vec<&String>, name: &String) -> (found: bool)
    ensures
        found == texts(names@).contains(name@),
{
    let n: usize = names.len();
    for i in 0..n
        invariant
            n == names@.len(),
            forall|j: int| 0 <= j < i ==> texts(names@)[j] != name@,
    {
        if *names[i] == *name {
            assert(texts(names@)[i as int] == name@);
            return true;
        }
    }
    false
}

impl TaskGraph {
    fn push_name(&self, out: &mut String, task: TaskId)
        requires
            self.wf(),
        ensures
            final(out)@ == old(out)@ + self@.name_of(task),
    {
        match self.get_task(&task) {
            Some(info) => out.append(info.name.as_str()),
            None => out.append("?"),
        }
    }

    fn push_relation_line(&self, out: &mut String, edge: &Relationship)
        requires
            self.wf(),
        ensures
            final(out)@ == old(out)@ + self@.relation_line(*edge),
    {
        out.append("  ");
        self.push_name(out, edge.from);
        out.append(" ");
        let kind = edge.relationship_type.to_string();
        out.append(kind.as_str());
        out.append(" ");
        self.push_name(out, edge.to);
        match &edge.resource_name {
            Some(resource) => {
                out.append(" (");
                out.append(resource.as_str());
                out.append(")");
            },
            None => {},
        }
        out.append("\n");
        assert(out@ =~= old(out)@ + self@.relation_line(*edge));
    }

    fn push_section(&self, out: &mut String, kind: RelationshipType)
        requires
            self.wf(),
        ensures
            final(out)@ == old(out)@ + self@.section(kind),
    {
        let found = self.get_relationships_by_type(kind);
        let ghost edges = self@.relationships.filter(of_kind(kind));
        let n: usize = found.len();
        if n > 0 {
            out.append("\n");
            let name = kind.to_string();
            out.append(name.as_str());
            out.append(" Relationships:\n");
            let ghost head = out@;
            for i in 0..n
                invariant
                    self.wf(),
                    n == found@.len(),
                    n == edges.len(),
                    forall|j: int| 0 <= j < n ==> *found@[j] == edges[j],
                    out@ == head + self@.relation_lines(edges.take(i as int)),
            {
                proof {
                    assert(edges.take(i + 1).drop_last() == edges.take(i as int));
                    assert(edges.take(i + 1).last() == edges[i as int]);
                }
                self.push_relation_line(out, found[i]);
                assert(out@ =~= head + self@.relation_lines(edges.take(i + 1)));
            }
            assert(edges.take(n as int) == edges);
            assert(out@ =~= old(out)@ + self@.section(kind));
        } else {
            assert(out@ =~= old(out)@ + self@.section(kind));
        }
    }

    fn push_path_entry(&self, out: &mut String, task: TaskId)
        requires
            self.wf(),
        ensures
            final(out)@ == old(out)@ + self@.path_entry(task),
    {
        match self.get_task(&task) {
            Some(info) => {
                out.append("  → ");
                out.append(info.name.as_str());
                out.append(" (");
                info.state.push_debug(out);
                out.append(")\n");
                assert(out@ =~= old(out)@ + self@.path_entry(task));
            },
            None => {
                assert(out@ =~= old(out)@ + self@.path_entry(task));
            },
        }
    }

    fn push_member_line(&self, out: &mut String, task: TaskId)
        requires
            self.wf(),
        ensures
            final(out)@ == old(out)@ + self@.member_line(task),
    {
        match self.get_task(&task) {
            Some(info) => {
                out.append("    - ");
                out.append(info.name.as_str());
                out.append("\n");
                assert(out@ =~= old(out)@ + self@.member_line(task));
            },
            None => {
                assert(out@ =~= old(out)@ + self@.member_line(task));
            },
        }
    }

    fn push_resource_block(&self, out: &mut String, name: &String)
        requires
            self.wf(),
        ensures
            final(out)@ == old(out)@ + self@.resource_block(name@),
    {
        let users = self.find_tasks_sharing_resource(name.as_str());
        out.append("  ");
        out.append(name.as_str());
        out.append(" (accessed by ");
        push_decimal(out, users.len() as u64);
        out.append(" tasks):\n");
        let ghost head = out@;
        let n: usize = users.len();
        for i in 0..n
            invariant
                self.wf(),
                n == users@.len(),
                out@ == head + self@.member_lines(users@.take(i as int)),
        {
            proof {
                assert(users@.take(i + 1).drop_last() == users@.take(i as int));
                assert(users@.take(i + 1).last() == users@[i as int]);
            }
            self.push_member_line(out, users[i]);
            assert(out@ =~= head + self@.member_lines(users@.take(i + 1)));
        }
        assert(users@.take(n as int) == users@);
        assert(out@ =~= old(out)@ + self@.resource_block(name@));
    }

    fn shared_resource_names(&self) -> (names: Vec<&String>)
        ensures
            texts(names@) == shared_names(self@.relationships),
    {
        let mut names: Vec<&String> = Vec::new();
        let edges = self.edges();
        let n: usize = edges.len();
        assert(texts(names@) =~= shared_names(edges@.take(0)));
        for i in 0..n
            invariant
                n == edges@.len(),
                edges@ == self@.relationships,
                texts(names@) == shared_names(edges@.take(i as int)),
        {
            proof {
                assert(edges@.take(i + 1).drop_last() == edges@.take(i as int));
                assert(edges@.take(i + 1).last() == edges@[i as int]);
            }
            if edges[i].relationship_type == RelationshipType::SharedResource {
                match &edges[i].resource_name {
                    Some(name) => {
                        if !has_text(&names, name) {
                            let ghost before = texts(names@);
                            names.push(name);
                            assert(texts(names@) =~= before.push(name@));
                        }
                    },
                    None => {},
                }
            }
        }
        assert(edges@.take(n as int) == edges@);
        names
    }

    fn push_sections(&self, out: &mut String)
        requires
            self.wf(),
        ensures
            final(out)@ == old(out)@ + self@.sections(),
    {
        self.push_section(out, RelationshipType::Spawned);
        self.push_section(out, RelationshipType::ChannelSend);
        self.push_section(out, RelationshipType::ChannelReceive);
        self.push_section(out, RelationshipType::SharedResource);
        self.push_section(out, RelationshipType::DataFlow);
        self.push_section(out, RelationshipType::AwaitsOn);
        self.push_section(out, RelationshipType::Dependency);
        assert(out@ =~= old(out)@ + self@.sections());
    }

    fn push_critical_part(&self, out: &mut String, path: &Vec<TaskId>)
        requires
            self.wf(),
        ensures
            final(out)@ == old(out)@ + self@.critical_part(path@),
    {
        let k: usize = path.len();
        if k > 0 {
            out.append("\nCritical Path:\n");
            let ghost top = out@;
            for i in 0..k
                invariant
                    self.wf(),
                    k == path@.len(),
                    out@ == top + self@.path_entries(path@.take(i as int)),
            {
                proof {
                    assert(path@.take(i + 1).drop_last() == path@.take(i as int));
                    assert(path@.take(i + 1).last() == path@[i as int]);
                }
                self.push_path_entry(out, path[i]);
                assert(out@ =~= top + self@.path_entries(path@.take(i + 1)));
            }
            assert(path@.take(k as int) == path@);
            assert(out@ =~= old(out)@ + self@.critical_part(path@));
        } else {
            assert(out@ =~= old(out)@ + self@.critical_part(path@));
        }
    }

    fn push_shared_part(&self, out: &mut String)
        requires
            self.wf(),
        ensures
            final(out)@ == old(out)@ + self@.shared_part(),
    {
        let names = self.shared_resource_names();
        let m: usize = names.len();
        if m > 0 {
            out.append("\nShared Resources:\n");
            let ghost top = out@;
            for i in 0..m
                invariant
                    self.wf(),
                    m == names@.len(),
                    out@ == top + self@.resource_blocks(texts(names@).take(i as int)),
            {
                proof {
                    let all = texts(names@);
                    assert(all.take(i + 1).drop_last() == all.take(i as int));
                    assert(all.take(i + 1).last() == names@[i as int]@);
                }
                self.push_resource_block(out, names[i]);
                assert(out@ =~= top + self@.resource_blocks(texts(names@).take(i + 1)));
            }
            assert(texts(names@).take(m as int) == texts(names@));
            assert(out@ =~= old(out)@ + self@.shared_part());
        } else {
            assert(out@ =~= old(out)@ + self@.shared_part());
        }
    }

    /// The graph in words, with the given path as the critical path.
    pub fn to_text_with(&self, path: &Vec<TaskId>) -> (output: String)
        requires
            self.wf(),
        ensures
            output@ == self@.outline(path@),
    {
        let mut output = String::new();
        output.append("Task Relationship Graph\n");
        output.append("=======================\n\n");
        self.push_sections(&mut output);
        self.push_critical_part(&mut output, path);
        self.push_shared_part(&mut output);
        assert(output@ =~= self@.outline(path@));
        output
    }

    /// The graph in words, with a critical path.
    pub fn to_text(&self) -> (output: String)
        requires
            self.wf(),
        ensures
            exists|path: Seq<TaskId>|
                self@.is_critical_path(path) && output@ == #[trigger] self@.outline(path),
    {
        let path = self.find_critical_path();
        let output = self.to_text_with(&path);
        assert(self@.is_critical_path(path@));
        output
    }
}

} // verus!
