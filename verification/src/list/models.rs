//! What the task overview shows: groups with an optional header, each with
//! its tasks' full names and descriptions.
use vstd::prelude::*;
use crate::task_list::models::opt_chars;

verus! {

/// How the overview is laid out.
#[derive(Debug)]
pub struct RenderConfig {
    pub min_gap: usize,
    pub task_indent: usize,
    pub header_indent: usize,
    pub span_token: char,
    pub use_colors: bool,
}

impl Default for RenderConfig {
    fn default() -> (r: Self)
        ensures
            r.min_gap == 4,
            r.task_indent == 4,
            r.header_indent == 2,
            r.span_token == '.',
            r.use_colors,
    {
        RenderConfig { min_gap: 4, task_indent: 4, header_indent: 2, span_token: '.', use_colors: true }
    }
}

#[derive(Debug)]
pub struct ListGroupHeader {
    pub name: Option<String>,
}

#[derive(Debug)]
pub struct ListTask {
    pub name: String,
    pub description: Option<String>,
}

#[derive(Debug)]
pub struct ListGroup {
    pub header: ListGroupHeader,
    pub tasks: Vec<ListTask>,
}

#[derive(Debug)]
pub struct List {
    pub description: Option<String>,
    pub groups: Vec<ListGroup>,
}

/// A listed task as plain values.
pub struct ListTaskView {
    pub name: Seq<char>,
    pub description: Option<Seq<char>>,
}

/// A listed group as plain values.
pub struct ListGroupView {
    pub header: Option<Seq<char>>,
    pub tasks: Seq<ListTaskView>,
}

/// A list as plain values.
pub struct ListView {
    pub description: Option<Seq<char>>,
    pub groups: Seq<ListGroupView>,
}

impl View for ListTask {
    type V = ListTaskView;

    open spec fn view(&self) -> ListTaskView {
        ListTaskView { name: self.name@, description: opt_chars(self.description) }
    }
}

impl View for ListGroup {
    type V = ListGroupView;

    open spec fn view(&self) -> ListGroupView {
        ListGroupView { header: opt_chars(self.header.name), tasks: self.tasks@.map_values(|t: ListTask| t@) }
    }
}

impl View for List {
    type V = ListView;

    open spec fn view(&self) -> ListView {
        ListView { description: opt_chars(self.description), groups: self.groups@.map_values(|g: ListGroup| g@) }
    }
}

} // verus!
