//! The relationship graph as a drawing: its text in the language of
//! Graphviz.

use vstd::prelude::*;
use vstd::string::*;
use crate::graph::{GraphState, Relationship, RelationshipType, TaskGraph};
use crate::task::{TaskId, TaskInfo, TaskState};
use crate::text::{decimal, push_decimal};

verus! {

impl RelationshipType {
    /// How the edges of the kind are drawn.
    pub open spec fn dot_style(self) -> Seq<char> {
        match self {
            RelationshipType::Spawned => "solid"@,
            RelationshipType::ChannelSend => "dashed"@,
            RelationshipType::ChannelReceive => "dashed"@,
            RelationshipType::SharedResource => "dotted"@,
            RelationshipType::DataFlow => "bold"@,
            RelationshipType::AwaitsOn => "solid"@,
            RelationshipType::Dependency => "solid"@,
        }
    }

    /// In which colour the edges of the kind are drawn.
    pub open spec fn dot_color(self) -> Seq<char> {
        match self {
            RelationshipType::Spawned => "black"@,
            RelationshipType::ChannelSend => "blue"@,
            RelationshipType::ChannelReceive => "blue"@,
            RelationshipType::SharedResource => "red"@,
            RelationshipType::DataFlow => "green"@,
            RelationshipType::AwaitsOn => "purple"@,
            RelationshipType::Dependency => "orange"@,
        }
    }

    /// What is written at the edges of the kind.
    pub open spec fn dot_label(self) -> Seq<char> {
        match self {
            RelationshipType::Spawned => "spawned"@,
            RelationshipType::ChannelSend => "→ channel"@,
            RelationshipType::ChannelReceive => "channel →"@,
            RelationshipType::SharedResource => "shares"@,
            RelationshipType::DataFlow => "data →"@,
            RelationshipType::AwaitsOn => "awaits"@,
            RelationshipType::Dependency => "depends"@,
        }
    }

    fn style_name(self) -> (s: &'static str)
        ensures
            s@ == self.dot_style(),
    {
        match self {
            RelationshipType::Spawned => "solid",
            RelationshipType::ChannelSend => "dashed",
            RelationshipType::ChannelReceive => "dashed",
            RelationshipType::SharedResource => "dotted",
            RelationshipType::DataFlow => "bold",
            RelationshipType::AwaitsOn => "solid",
            RelationshipType::Dependency => "solid",
        }
    }

    fn color_name(self) -> (s: &'static str)
        ensures
            s@ == self.dot_color(),
    {
        match self {
            RelationshipType::Spawned => "black",
            RelationshipType::ChannelSend => "blue",
            RelationshipType::ChannelReceive => "blue",
            RelationshipType::SharedResource => "red",
            RelationshipType::DataFlow => "green",
            RelationshipType::AwaitsOn => "purple",
            RelationshipType::Dependency => "orange",
        }
    }

    fn label_name(self) -> (s: &'static str)
        ensures
            s@ == self.dot_label(),
    {
        match self {
            RelationshipType::Spawned => "spawned",
            RelationshipType::ChannelSend => "→ channel",
            RelationshipType::ChannelReceive => "channel →",
            RelationshipType::SharedResource => "shares",
            RelationshipType::DataFlow => "data →",
            RelationshipType::AwaitsOn => "awaits",
            RelationshipType::Dependency => "depends",
        }
    }
}

/// The colour in which a task in the given state is drawn.
pub open spec fn state_color(state: TaskState) -> Seq<char> {
    match state {
        TaskState::Pending => "lightgray"@,
        TaskState::Running => "lightblue"@,
        TaskState::Blocked { .. } => "yellow"@,
        TaskState::Completed => "lightgreen"@,
        TaskState::Failed => "lightcoral"@,
    }
}

fn color_of(state: &TaskState) -> (s: &'static str)
    ensures
        s@ == state_color(*state),
{
    match state {
        TaskState::Pending => "lightgray",
        TaskState::Running => "lightblue",
        TaskState::Blocked { .. } => "yellow",
        TaskState::Completed => "lightgreen",
        TaskState::Failed => "lightcoral",
    }
}

/// The line that draws a task: its name and state in a box of the colour of
/// its state.
pub open spec fn node_line(task: TaskInfo) -> Seq<char> {
    "  t"@ + decimal(task.id.0 as nat) + " [label=\""@ + task.name@ + "\n"@ + task.state.debug()
        + "\", fillcolor="@ + state_color(task.state) + ", style=\"filled,rounded\"];\n"@
}

/// The lines that draw the tasks.
pub open spec fn node_lines(tasks: Seq<TaskInfo>) -> Seq<char>
    decreases tasks.len(),
{
    if tasks.len() == 0 {
        Seq::empty()
    } else {
        node_lines(tasks.drop_last()) + node_line(tasks.last())
    }
}

/// What is written at an edge: the word for its kind, and under it the
/// resource that the edge goes over.
pub open spec fn edge_label(edge: Relationship) -> Seq<char> {
    match edge.resource_name {
        Some(resource) => edge.relationship_type.dot_label() + "\n"@ + resource@,
        None => edge.relationship_type.dot_label(),
    }
}

/// The line that draws an edge.
pub open spec fn edge_line(edge: Relationship) -> Seq<char> {
    "  t"@ + decimal(edge.from.0 as nat) + " -> t"@ + decimal(edge.to.0 as nat) + " [label=\""@
        + edge_label(edge) + "\", style="@ + edge.relationship_type.dot_style() + ", color="@
        + edge.relationship_type.dot_color() + "];\n"@
}

/// The lines that draw the edges.
pub open spec fn edge_lines(edges: Seq<Relationship>) -> Seq<char>
    decreases edges.len(),
{
    if edges.len() == 0 {
        Seq::empty()
    } else {
        edge_lines(edges.drop_last()) + edge_line(edges.last())
    }
}

/// The line that marks one step of the critical path.
pub open spec fn step_line(from: TaskId, to: TaskId) -> Seq<char> {
    "  t"@ + decimal(from.0 as nat) + " -> t"@ + decimal(to.0 as nat)
        + " [color=red, penwidth=3.0, constraint=false];\n"@
}

/// The lines that mark the steps of a path.
pub open spec fn step_lines(path: Seq<TaskId>) -> Seq<char>
    decreases path.len(),
{
    if path.len() < 2 {
        Seq::empty()
    } else {
        step_lines(path.drop_last()) + step_line(path[path.len() - 2], path[path.len() - 1])
    }
}

/// The part that marks the critical path, if the path has a step.
pub open spec fn highlight(path: Seq<TaskId>) -> Seq<char> {
    if path.len() > 1 {
        "\n  // Critical path\n"@ + step_lines(path)
    } else {
        Seq::empty()
    }
}

impl GraphState {
    /// The drawing of the graph with `path` marked as the critical path.
    pub open spec fn dot_text(self, path: Seq<TaskId>) -> Seq<char> {
        "digraph TaskGraph {\n"@ + "  rankdir=LR;\n"@ + "  node [shape=box, style=rounded];\n\n"@
            + node_lines(self.tasks) + "\n"@ + edge_lines(self.relationships) + highlight(path)
            + "}\n"@
    }

    /// Whether `path` is a critical path of the graph: empty where the
    /// graph knows no task, else a chain of edges that hold up, from a task
    /// that the graph knows, than which no such chain is longer.
    pub open spec fn is_critical_path(self, path: Seq<TaskId>) -> bool {
        &&& path.len() == 0 || self.is_critical_chain(path)
        &&& forall|other: Seq<TaskId>| #[trigger]
            self.is_critical_chain(other) ==> other.len() <= path.len()
    }
}

fn push_node_line(out: &mut String, task: &TaskInfo)
    ensures
        final(out)@ == old(out)@ + node_line(*task),
{
    out.append("  t");
    push_decimal(out, task.id.0);
    out.append(" [label=\"");
    out.append(task.name.as_str());
    out.append("\n");
    task.state.push_debug(out);
    out.append("\", fillcolor=");
    out.append(color_of(&task.state));
    out.append(", style=\"filled,rounded\"];\n");
    assert(out@ =~= old(out)@ + node_line(*task));
}

fn push_edge_line(out: &mut String, edge: &Relationship)
    ensures
        final(out)@ == old(out)@ + edge_line(*edge),
{
    out.append("  t");
    push_decimal(out, edge.from.0);
    out.append(" -> t");
    push_decimal(out, edge.to.0);
    out.append(" [label=\"");
    let ghost before = out@;
    out.append(edge.relationship_type.label_name());
    match &edge.resource_name {
        Some(resource) => {
            out.append("\n");
            out.append(resource.as_str());
        },
        None => {},
    }
    assert(out@ =~= before + edge_label(*edge));
    out.append("\", style=");
    out.append(edge.relationship_type.style_name());
    out.append(", color=");
    out.append(edge.relationship_type.color_name());
    out.append("];\n");
    assert(out@ =~= old(out)@ + edge_line(*edge));
}

fn push_step_line(out: &mut String, from: TaskId, to: TaskId)
    ensures
        final(out)@ == old(out)@ + step_line(from, to),
{
    out.append("  t");
    push_decimal(out, from.0);
    out.append(" -> t");
    push_decimal(out, to.0);
    out.append(" [color=red, penwidth=3.0, constraint=false];\n");
    assert(out@ =~= old(out)@ + step_line(from, to));
}

impl TaskGraph {
    /// The drawing of the graph with the given path marked.
    pub fn to_dot_with(&self, path: &Vec<TaskId>) -> (dot: String)
        ensures
            dot@ == self@.dot_text(path@),
    {
        let mut dot = String::from_str("digraph TaskGraph {\n");
        dot.append("  rankdir=LR;\n");
        dot.append("  node [shape=box, style=rounded];\n\n");
        let ghost head = dot@;
        let tasks = self.known_tasks();
        let n: usize = tasks.len();
        for i in 0..n
            invariant
                n == tasks@.len(),
                dot@ == head + node_lines(tasks@.take(i as int)),
        {
            proof {
                assert(tasks@.take(i + 1).drop_last() == tasks@.take(i as int));
                assert(tasks@.take(i + 1).last() == tasks@[i as int]);
            }
            push_node_line(&mut dot, &tasks[i]);
            assert(dot@ =~= head + node_lines(tasks@.take(i + 1)));
        }
        assert(tasks@.take(n as int) == tasks@);
        dot.append("\n");
        let ghost middle = dot@;
        let edges = self.edges();
        let m: usize = edges.len();
        for i in 0..m
            invariant
                m == edges@.len(),
                dot@ == middle + edge_lines(edges@.take(i as int)),
        {
            proof {
                assert(edges@.take(i + 1).drop_last() == edges@.take(i as int));
                assert(edges@.take(i + 1).last() == edges@[i as int]);
            }
            push_edge_line(&mut dot, &edges[i]);
            assert(dot@ =~= middle + edge_lines(edges@.take(i + 1)));
        }
        assert(edges@.take(m as int) == edges@);
        let ghost drawn = dot@;
        let k: usize = path.len();
        if k > 1 {
            dot.append("\n  // Critical path\n");
            let ghost marked = dot@;
            assert(step_lines(path@.take(1)) =~= Seq::<char>::empty());
            for i in 1..k
                invariant
                    k == path@.len(),
                    dot@ == marked + step_lines(path@.take(i as int)),
            {
                proof {
                    assert(path@.take(i + 1).drop_last() == path@.take(i as int));
                }
                push_step_line(&mut dot, path[i - 1], path[i]);
                assert(dot@ =~= marked + step_lines(path@.take(i + 1)));
            }
            assert(path@.take(k as int) == path@);
            assert(dot@ =~= drawn + highlight(path@));
        }
        assert(dot@ =~= drawn + highlight(path@));
        dot.append("}\n");
        assert(dot@ =~= self@.dot_text(path@));
        dot
    }

    /// The drawing of the graph, with a critical path marked.
    pub fn to_dot(&self) -> (dot: String)
        requires
            self.wf(),
        ensures
            exists|path: Seq<TaskId>|
                self@.is_critical_path(path) && dot@ == #[trigger] self@.dot_text(path),
    {
        let path = self.find_critical_path();
        let dot = self.to_dot_with(&path);
        assert(self@.is_critical_path(path@));
        dot
    }
}

} // verus!
