//! From a task list to the groups of the overview: one group per task
//! group, depth first, each named by the path that leads to it and listing
//! its visible tasks under their full names.
use vstd::prelude::*;
use crate::text::{chars_of, clone_opt_string, clone_strings, string_from_chars};
use crate::task_list::path_order::strings_view;
use crate::task_list::models::{
    lemma_shapes_of, lemma_visible_views, opt_chars, shape, tasks_view, visible_tasks, visible_views, GroupShape, Task,
    TaskCollection, TaskGroup, TaskList, TaskView,
};
use crate::list::models::{List, ListGroup, ListGroupHeader, ListGroupView, ListTask, ListTaskView};

verus! {

/// The segments joined by the separator.
pub open spec fn join(parts: Seq<Seq<char>>, sep: Seq<char>) -> Seq<char>
    decreases parts.len(),
{
    if parts.len() == 0 {
        Seq::empty()
    } else if parts.len() == 1 {
        parts[0]
    } else {
        join(parts.drop_last(), sep) + sep + parts.last()
    }
}

/// A task as the overview lists it.
pub open spec fn list_task_of(t: TaskView, sep: Seq<char>) -> ListTaskView {
    ListTaskView { name: join(t.path, sep), description: t.description }
}

/// The listed tasks: the visible ones, in order.
pub open spec fn list_tasks_of(s: Seq<TaskView>, sep: Seq<char>) -> Seq<ListTaskView> {
    visible_views(s).map_values(|t: TaskView| list_task_of(t, sep))
}

/// The groups of the overview for a group reached by `path`: its own tasks
/// first, named by the path (no name at the root), then those of its
/// subgroups in order.
pub open spec fn list_groups(g: GroupShape, sep: Seq<char>, path: Seq<Seq<char>>) -> Seq<ListGroupView>
    decreases g,
{
    seq![ListGroupView {
        header: if path.len() == 0 { None } else { Some(join(path, sep)) },
        tasks: list_tasks_of(g.direct, sep),
    }] + sub_list_groups(g.subs, sep, path)
}

/// The groups of the overview for named subgroups, in order.
pub open spec fn sub_list_groups(subs: Seq<(Seq<char>, GroupShape)>, sep: Seq<char>, path: Seq<Seq<char>>) -> Seq<ListGroupView>
    decreases subs,
{
    if subs.len() == 0 {
        Seq::empty()
    } else {
        sub_list_groups(subs.drop_last(), sep, path) + list_groups(subs.last().1, sep, path.push(subs.last().0))
    }
}

/// Appends the characters of a string.
fn push_str_chars(v: &mut Vec<char>, s: &str)
    ensures
        final(v)@ == old(v)@ + s@,
{
    let cs = chars_of(s);
    let mut i: usize = 0;
    while i < cs.len()
        invariant
            i <= cs@.len(),
            v@ == old(v)@ + cs@.take(i as int),
        decreases cs@.len() - i,
    {
        v.push(cs[i]);
        assert(cs@.take(i + 1) == cs@.take(i as int).push(cs@[i as int]));
        i = i + 1;
    }
    assert(cs@.take(cs@.len() as int) == cs@);
}

/// The strings joined by the separator.
pub fn join_strings(parts: &Vec<String>, sep: &str) -> (r: String)
    ensures
        r@ == join(strings_view(parts@), sep@),
{
    let ghost pv = strings_view(parts@);
    let mut out: Vec<char> = Vec::new();
    let mut i: usize = 0;
    while i < parts.len()
        invariant
            pv == strings_view(parts@),
            i <= parts@.len(),
            out@ == join(pv.take(i as int), sep@),
        decreases parts@.len() - i,
    {
        assert(pv.take(i + 1).drop_last() == pv.take(i as int));
        assert(pv.take(i + 1).last() == parts@[i as int]@);
        if i > 0 {
            push_str_chars(&mut out, sep);
        } else {
            assert(pv.take(1)[0] == parts@[0]@);
        }
        push_str_chars(&mut out, parts[i].as_str());
        i = i + 1;
    }
    assert(pv.take(parts@.len() as int) == pv);
    string_from_chars(&out)
}

/// The overview group of a collection of tasks under an optional name.
fn tasks_to_list_group(tasks: TaskCollection, separator: &str, groupname: Option<String>) -> (r: ListGroup)
    ensures
        r@ == (ListGroupView { header: opt_chars(groupname), tasks: list_tasks_of(tasks_view(tasks.tasks@), separator@) }),
{
    let visible = tasks.get_visible_tasks();
    proof {
        lemma_visible_views(tasks.tasks@);
    }
    let ghost vis = visible_views(tasks_view(tasks.tasks@));
    proof {
        assert forall|k: int| 0 <= k < visible@.len() implies #[trigger] vis[k] == visible@[k]@ by {
            assert(tasks_view(visible_tasks(tasks.tasks@))[k] == visible_tasks(tasks.tasks@)[k]@);
        }
    }
    let mut listed: Vec<ListTask> = Vec::new();
    let mut i: usize = 0;
    while i < visible.len()
        invariant
            i <= visible@.len(),
            vis.len() == visible@.len(),
            forall|k: int| 0 <= k < visible@.len() ==> #[trigger] vis[k] == visible@[k]@,
            listed@.len() == i,
            forall|k: int| 0 <= k < i ==> #[trigger] listed@[k]@ == list_task_of(vis[k], separator@),
        decreases visible@.len() - i,
    {
        let t: &Task = visible[i];
        let name = join_strings(&t.path, separator);
        let description = clone_opt_string(&t.description);
        listed.push(ListTask { name, description });
        i = i + 1;
    }
    let r = ListGroup { header: ListGroupHeader { name: groupname }, tasks: listed };
    assert(r@.tasks == list_tasks_of(tasks_view(tasks.tasks@), separator@));
    r
}

/// The views of overview groups.
pub open spec fn groups_view(s: Seq<ListGroup>) -> Seq<ListGroupView> {
    s.map_values(|g: ListGroup| g@)
}

impl TaskGroup {
    /// The overview groups of this group and its subgroups, depth first.
    pub fn to_list_groups(self, separator: &str) -> (r: Vec<ListGroup>)
        ensures
            groups_view(r@) == list_groups(shape(self), separator@, Seq::empty()),
    {
        let empty: Vec<String> = Vec::new();
        assert(strings_view(empty@) == Seq::<Seq<char>>::empty());
        self.to_list_groups_recursive(separator, empty)
    }

    fn to_list_groups_recursive(self, separator: &str, path: Vec<String>) -> (r: Vec<ListGroup>)
        ensures
            groups_view(r@) == list_groups(shape(self), separator@, strings_view(path@)),
        decreases self,
    {
        let ghost me = self;
        let ghost sh = shape(self);
        let ghost pv = strings_view(path@);
        let groupname = if path.len() == 0 {
            None
        } else {
            Some(join_strings(&path, separator))
        };
        let first = tasks_to_list_group(self.direct_tasks, separator, groupname);
        let mut out: Vec<ListGroup> = Vec::new();
        out.push(first);
        proof {
            lemma_shapes_of(me.subgroups.entries@);
        }
        let ghost es = me.subgroups.entries@;
        assert(groups_view(out@) == seq![first@]);
        for e in it: self.subgroups.entries.into_iter()
            invariant
                it.seq() == es,
                es == me.subgroups.entries@,
                sh == shape(me),
                pv == strings_view(path@),
                sh.subs.len() == es.len(),
                forall|i: int| 0 <= i < es.len() ==> #[trigger] sh.subs[i] == (es[i].0@, shape(es[i].1)),
                groups_view(out@) == seq![first@] + sub_list_groups(sh.subs.take(it.index() as int), separator@, pv),
        {
            let ghost i = it.index() as int;
            assert(e == es[i]);
            let (key, group) = e;
            assert(decreases_to!(me => group));
            let mut new_path = clone_strings(&path);
            new_path.push(key);
            assert(strings_view(new_path@) == pv.push(sh.subs[i].0));
            let mut sub = group.to_list_groups_recursive(separator, new_path);
            let ghost out0 = out@;
            let ghost sub0 = sub@;
            out.append(&mut sub);
            assert(groups_view(out0 + sub0) == groups_view(out0) + groups_view(sub0));
            assert(sh.subs.take(i + 1).drop_last() == sh.subs.take(i));
            assert(sh.subs.take(i + 1).last() == sh.subs[i]);
        }
        assert(sh.subs.take(es.len() as int) == sh.subs);
        out
    }
}

impl TaskList {
    /// The overview of the task list: its description and its groups.
    pub fn to_list(self) -> (r: List)
        ensures
            r@.description == opt_chars(self.description),
            r@.groups == list_groups(shape(self.root), self.separator@, Seq::empty()),
    {
        let description = clone_opt_string(&self.description);
        let groups = self.root.to_list_groups(self.separator.as_str());
        let r = List { description, groups };
        assert(r@.groups == groups_view(r.groups@));
        r
    }
}

} // verus!
