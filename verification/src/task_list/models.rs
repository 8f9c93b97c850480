//! Tasks and ordered collections of tasks.
use vstd::prelude::*;
use crate::task_list::path_order::{
    lemma_path_lt_asymmetric, lemma_path_lt_total, lemma_path_lt_transitive, path_less, path_lt,
    strings_view,
};

verus! {

/// A runnable task: the path of subcommand names that leads to a leaf
/// command, its description, and whether it is hidden from the overview.
#[derive(Debug, Clone, PartialEq, Eq)]
pub struct Task {
    pub path: Vec<String>,
    pub description: Option<String>,
    pub hidden: bool,
}

impl Task {
    /// The path as character sequences.
    pub open spec fn path_view(&self) -> Seq<Seq<char>> {
        strings_view(self.path@)
    }
}

/// A task as plain values.
pub struct TaskView {
    pub path: Seq<Seq<char>>,
    pub description: Option<Seq<char>>,
    pub hidden: bool,
}

/// The characters of an optional string.
pub open spec fn opt_chars(o: Option<String>) -> Option<Seq<char>> {
    match o {
        Some(s) => Some(s@),
        None => None,
    }
}

impl View for Task {
    type V = TaskView;

    open spec fn view(&self) -> TaskView {
        TaskView { path: self.path_view(), description: opt_chars(self.description), hidden: self.hidden }
    }
}

/// The views of a sequence of tasks.
pub open spec fn tasks_view(s: Seq<Task>) -> Seq<TaskView> {
    s.map_values(|t: Task| t@)
}

/// Number of tasks of `s` that come before `t`: the place where a sorted
/// insertion puts `t`, before every task with the same path (where a binary
/// search by path finds the task with the same path, when there is one).
pub open spec fn insert_pos(s: Seq<TaskView>, t: TaskView) -> int
    decreases s.len(),
{
    if s.len() == 0 {
        0
    } else {
        insert_pos(s.drop_last(), t) + if path_lt(s.last().path, t.path) {
            1int
        } else {
            0int
        }
    }
}

/// `s` with `t` inserted in path order.
pub open spec fn sorted_insert(s: Seq<TaskView>, t: TaskView) -> Seq<TaskView> {
    s.insert(insert_pos(s, t), t)
}

/// `acc` with every task of `ts` inserted in path order, one after the other.
pub open spec fn sorted_insert_all(acc: Seq<TaskView>, ts: Seq<TaskView>) -> Seq<TaskView>
    decreases ts.len(),
{
    if ts.len() == 0 {
        acc
    } else {
        sorted_insert(sorted_insert_all(acc, ts.drop_last()), ts.last())
    }
}

/// Inserting the tasks of `a + b` is inserting those of `a`, then those of `b`.
pub proof fn lemma_sorted_insert_all_concat(acc: Seq<TaskView>, a: Seq<TaskView>, b: Seq<TaskView>)
    ensures
        sorted_insert_all(acc, a + b) == sorted_insert_all(sorted_insert_all(acc, a), b),
    decreases b.len(),
{
    if b.len() == 0 {
        assert(a + b == a);
    } else {
        assert((a + b).drop_last() == a + b.drop_last());
        assert((a + b).last() == b.last());
        lemma_sorted_insert_all_concat(acc, a, b.drop_last());
    }
}

/// In a sorted sequence, the position that splits the tasks before `t` from
/// the others is `insert_pos`.
pub proof fn lemma_insert_pos_split(s: Seq<TaskView>, t: TaskView, p: int)
    requires
        0 <= p <= s.len(),
        forall|i: int| 0 <= i < p ==> path_lt(#[trigger] s[i].path, t.path),
        forall|i: int| p <= i < s.len() ==> !path_lt(#[trigger] s[i].path, t.path),
    ensures
        insert_pos(s, t) == p,
    decreases s.len(),
{
    if s.len() > 0 {
        if p == s.len() {
            lemma_insert_pos_split(s.drop_last(), t, p - 1);
        } else {
            lemma_insert_pos_split(s.drop_last(), t, p);
        }
    }
}

/// Inserting tasks one by one in path order loses and adds no task: the
/// result holds the tasks already there and the inserted ones, counted with
/// repetition.
pub proof fn sorted_insertion_keeps_every_task(acc: Seq<TaskView>, ts: Seq<TaskView>)
    ensures
        sorted_insert_all(acc, ts).to_multiset() == acc.to_multiset().add(ts.to_multiset()),
    decreases ts.len(),
{
    broadcast use vstd::multiset::group_multiset_axioms;
    broadcast use vstd::seq_lib::group_to_multiset_ensures;

    if ts.len() == 0 {
        assert(ts.to_multiset() =~= vstd::multiset::Multiset::empty());
        assert(acc.to_multiset().add(ts.to_multiset()) =~= acc.to_multiset());
    } else {
        let prev = sorted_insert_all(acc, ts.drop_last());
        sorted_insertion_keeps_every_task(acc, ts.drop_last());
        lemma_insert_pos_bounds(prev, ts.last());
        vstd::seq_lib::to_multiset_insert(prev, insert_pos(prev, ts.last()), ts.last());
        assert(ts == ts.drop_last().push(ts.last()));
        assert(acc.to_multiset().add(ts.to_multiset()) =~= acc.to_multiset().add(ts.drop_last().to_multiset()).insert(
            ts.last(),
        ));
    }
}

/// The insertion place lies within the sequence.
proof fn lemma_insert_pos_bounds(s: Seq<TaskView>, t: TaskView)
    ensures
        0 <= insert_pos(s, t) <= s.len(),
    decreases s.len(),
{
    if s.len() > 0 {
        lemma_insert_pos_bounds(s.drop_last(), t);
    }
}

/// Every task comes before or together with every later one.
pub open spec fn sorted_by_path(s: Seq<Task>) -> bool {
    forall|i: int, j: int| 0 <= i < j < s.len() ==> !path_lt(#[trigger] s[j].path_view(), #[trigger] s[i].path_view())
}

/// The tasks of `s` that are not hidden, in order.
pub open spec fn visible_tasks(s: Seq<Task>) -> Seq<Task>
    decreases s.len(),
{
    if s.len() == 0 {
        Seq::empty()
    } else if s.last().hidden {
        visible_tasks(s.drop_last())
    } else {
        visible_tasks(s.drop_last()).push(s.last())
    }
}

/// Number of tasks of `s` that are not hidden.
pub open spec fn visible_count(s: Seq<Task>) -> nat {
    visible_tasks(s).len()
}

/// A sequence of tasks.  `insert_task_sorted` keeps a sorted collection
/// sorted; `from_tasks` keeps the order it is given.
#[derive(Debug)]
pub struct TaskCollection {
    pub tasks: Vec<Task>,
}

impl Default for TaskCollection {
    fn default() -> (r: Self)
        ensures
            r.tasks@ == Seq::<Task>::empty(),
    {
        TaskCollection { tasks: Vec::new() }
    }
}

/// Visible tasks of a prefix grow by the next task when it is visible.
pub proof fn lemma_visible_tasks_step(s: Seq<Task>, i: int)
    requires
        0 <= i < s.len(),
    ensures
        visible_tasks(s.take(i + 1)) == if s[i].hidden {
            visible_tasks(s.take(i))
        } else {
            visible_tasks(s.take(i)).push(s[i])
        },
{
    assert(s.take(i + 1).drop_last() == s.take(i));
}

impl TaskCollection {
    pub fn new() -> (r: Self)
        ensures
            r.tasks@ == Seq::<Task>::empty(),
    {
        TaskCollection { tasks: Vec::new() }
    }

    /// Wraps the tasks as they are, in the order given.
    pub fn from_tasks(tasks: Vec<Task>) -> (r: Self)
        ensures
            r.tasks@ == tasks@,
    {
        TaskCollection { tasks }
    }

    /// Inserts a task where a binary search by path places it.  In a
    /// collection sorted by path the task lands after every task that comes
    /// before it and before every other task (so before a task with the same
    /// path), and the collection stays sorted.
    pub fn insert_task_sorted(&mut self, new_task: Task)
        ensures
            exists|pos: int|
                0 <= pos <= old(self).tasks@.len() && final(self).tasks@ == old(self).tasks@.insert(
                    pos,
                    new_task,
                ) && (sorted_by_path(old(self).tasks@) ==> (forall|i: int|
                    0 <= i < pos ==> path_lt(#[trigger] old(self).tasks@[i].path_view(), new_task.path_view()))
                    && (forall|i: int|
                    pos <= i < old(self).tasks@.len() ==> !path_lt(
                        #[trigger] old(self).tasks@[i].path_view(),
                        new_task.path_view(),
                    ))),
            final(self).tasks@.to_multiset() == old(self).tasks@.to_multiset().insert(new_task),
            sorted_by_path(old(self).tasks@) ==> sorted_by_path(final(self).tasks@),
            sorted_by_path(old(self).tasks@) ==> tasks_view(final(self).tasks@) == sorted_insert(
                tasks_view(old(self).tasks@),
                new_task@,
            ),
    {
        let ghost s = self.tasks@;
        let ghost np = new_task.path_view();
        let mut lo: usize = 0;
        let mut hi: usize = self.tasks.len();
        while lo < hi
            invariant
                s == self.tasks@,
                np == new_task.path_view(),
                lo <= hi <= s.len(),
                sorted_by_path(s) ==> forall|i: int| 0 <= i < lo ==> path_lt(#[trigger] s[i].path_view(), np),
                sorted_by_path(s) ==> forall|i: int| hi <= i < s.len() ==> !path_lt(#[trigger] s[i].path_view(), np),
            decreases hi - lo,
        {
            let mid = lo + (hi - lo) / 2;
            if path_less(&self.tasks[mid].path, &new_task.path) {
                proof {
                    if sorted_by_path(s) {
                        assert forall|i: int| 0 <= i < mid + 1 implies path_lt(#[trigger] s[i].path_view(), np) by {
                            if i < mid {
                                assert(!path_lt(s[mid as int].path_view(), s[i].path_view()));
                                lemma_path_lt_total(s[i].path_view(), s[mid as int].path_view());
                                lemma_path_lt_transitive(s[i].path_view(), s[mid as int].path_view(), np);
                            }
                        }
                    }
                }
                lo = mid + 1;
            } else {
                proof {
                    if sorted_by_path(s) {
                        assert forall|i: int| mid <= i < s.len() implies !path_lt(#[trigger] s[i].path_view(), np) by {
                            if i > mid {
                                assert(!path_lt(s[i].path_view(), s[mid as int].path_view()));
                                lemma_path_lt_total(s[i].path_view(), s[mid as int].path_view());
                                if path_lt(s[i].path_view(), np) {
                                    lemma_path_lt_transitive(s[mid as int].path_view(), s[i].path_view(), np);
                                }
                            }
                        }
                    }
                }
                hi = mid;
            }
        }
        self.tasks.insert(lo, new_task);
        proof {
            let r = self.tasks@;
            assert(r == s.insert(lo as int, new_task));
            vstd::seq_lib::to_multiset_insert(s, lo as int, new_task);
            if sorted_by_path(s) {
                let sv = tasks_view(s);
                assert forall|i: int| 0 <= i < lo implies path_lt(#[trigger] sv[i].path, new_task@.path) by {
                    assert(sv[i].path == s[i].path_view());
                }
                assert forall|i: int| lo <= i < sv.len() implies !path_lt(#[trigger] sv[i].path, new_task@.path) by {
                    assert(sv[i].path == s[i].path_view());
                }
                lemma_insert_pos_split(sv, new_task@, lo as int);
                assert(tasks_view(r) == sv.insert(lo as int, new_task@));
                assert forall|i: int, j: int| 0 <= i < j < r.len() implies !path_lt(
                    #[trigger] r[j].path_view(),
                    #[trigger] r[i].path_view(),
                ) by {
                    if j < lo {
                        assert(r[i] == s[i] && r[j] == s[j]);
                    } else if j == lo {
                        assert(r[i] == s[i]);
                        assert(path_lt(s[i].path_view(), np));
                        lemma_path_lt_asymmetric(s[i].path_view(), np);
                    } else if i < lo {
                        assert(r[i] == s[i] && r[j] == s[j - 1]);
                    } else if i == lo {
                        assert(r[j] == s[j - 1]);
                    } else {
                        assert(r[i] == s[i - 1] && r[j] == s[j - 1]);
                    }
                }
            }
        }
    }

    /// The tasks, in order.
    pub fn tasks(&self) -> (r: &[Task])
        ensures
            r@ == self.tasks@,
    {
        self.tasks.as_slice()
    }

    /// The tasks, in order, given up by the collection.
    pub fn into_tasks(self) -> (r: Vec<Task>)
        ensures
            r@ == self.tasks@,
    {
        self.tasks
    }

    pub fn len(&self) -> (r: usize)
        ensures
            r == self.tasks@.len(),
    {
        self.tasks.len()
    }

    pub fn is_empty(&self) -> (r: bool)
        ensures
            r == (self.tasks@.len() == 0),
    {
        self.tasks.len() == 0
    }

    /// The tasks that are not hidden, in order.
    pub fn get_visible_tasks(&self) -> (r: Vec<&Task>)
        ensures
            r@.len() == visible_tasks(self.tasks@).len(),
            forall|i: int| 0 <= i < r@.len() ==> *r@[i] == #[trigger] visible_tasks(self.tasks@)[i],
    {
        let mut r: Vec<&Task> = Vec::new();
        let mut i: usize = 0;
        while i < self.tasks.len()
            invariant
                i <= self.tasks@.len(),
                r@.len() == visible_tasks(self.tasks@.take(i as int)).len(),
                forall|k: int| 0 <= k < r@.len() ==> *r@[k] == #[trigger] visible_tasks(self.tasks@.take(i as int))[k],
            decreases self.tasks@.len() - i,
        {
            proof {
                lemma_visible_tasks_step(self.tasks@, i as int);
            }
            if !self.tasks[i].hidden {
                r.push(&self.tasks[i]);
            }
            i = i + 1;
        }
        assert(self.tasks@.take(self.tasks@.len() as int) == self.tasks@);
        r
    }

    /// Number of tasks that are not hidden.
    pub fn get_number_of_visible_tasks(&self) -> (r: usize)
        ensures
            r == visible_count(self.tasks@),
    {
        let mut n: usize = 0;
        let mut i: usize = 0;
        while i < self.tasks.len()
            invariant
                i <= self.tasks@.len(),
                n == visible_count(self.tasks@.take(i as int)),
                n <= i,
            decreases self.tasks@.len() - i,
        {
            proof {
                lemma_visible_tasks_step(self.tasks@, i as int);
            }
            if !self.tasks[i].hidden {
                n = n + 1;
            }
            i = i + 1;
        }
        assert(self.tasks@.take(self.tasks@.len() as int) == self.tasks@);
        n
    }
}


/// The task views of `s` that are not hidden, in order.
pub open spec fn visible_views(s: Seq<TaskView>) -> Seq<TaskView>
    decreases s.len(),
{
    if s.len() == 0 {
        Seq::empty()
    } else if s.last().hidden {
        visible_views(s.drop_last())
    } else {
        visible_views(s.drop_last()).push(s.last())
    }
}

/// Visibility reads the same on tasks and on their views.
pub proof fn lemma_visible_views(s: Seq<Task>)
    ensures
        visible_views(tasks_view(s)) == tasks_view(visible_tasks(s)),
        visible_views(tasks_view(s)).len() == visible_count(s),
    decreases s.len(),
{
    if s.len() > 0 {
        assert(tasks_view(s).drop_last() == tasks_view(s.drop_last()));
        lemma_visible_views(s.drop_last());
        assert(tasks_view(visible_tasks(s.drop_last()).push(s.last())) == tasks_view(
            visible_tasks(s.drop_last()),
        ).push(s.last()@));
    }
}

/// A group of tasks as plain values: the tasks listed directly, and the
/// named subgroups in order.
pub struct GroupShape {
    pub direct: Seq<TaskView>,
    pub subs: Seq<(Seq<char>, GroupShape)>,
}

/// Named subgroups in the order they were added, as an insertion-ordered
/// map held as a vector of name and group pairs; no name occurs twice in a
/// map built by the grouping.
#[derive(Debug)]
pub struct SubgroupMap {
    pub entries: Vec<(String, TaskGroup)>,
}

/// A group of tasks: the tasks listed directly under it, and its subgroups.
#[derive(Debug)]
pub struct TaskGroup {
    pub direct_tasks: TaskCollection,
    pub subgroups: SubgroupMap,
}

/// The configuration of a task overview and its grouped tasks.
#[derive(Debug)]
pub struct TaskList {
    pub description: Option<String>,
    pub max_groupsize: usize,
    pub max_depth: usize,
    pub separator: String,
    pub root: TaskGroup,
}

/// A group as plain values.
pub open spec fn shape(g: TaskGroup) -> GroupShape
    decreases g,
{
    GroupShape { direct: tasks_view(g.direct_tasks.tasks@), subs: shapes_of(g.subgroups.entries@) }
}

/// Named subgroups as plain values.
pub open spec fn shapes_of(es: Seq<(String, TaskGroup)>) -> Seq<(Seq<char>, GroupShape)>
    decreases es,
{
    if es.len() == 0 {
        Seq::empty()
    } else {
        shapes_of(es.drop_last()).push((es.last().0@, shape(es.last().1)))
    }
}

/// The view of subgroups has one entry per subgroup, with its name.
pub proof fn lemma_shapes_of(es: Seq<(String, TaskGroup)>)
    ensures
        shapes_of(es).len() == es.len(),
        forall|i: int| 0 <= i < es.len() ==> #[trigger] shapes_of(es)[i] == (es[i].0@, shape(es[i].1)),
    decreases es.len(),
{
    if es.len() > 0 {
        lemma_shapes_of(es.drop_last());
    }
}

impl SubgroupMap {
    /// The names of the subgroups, in order.
    pub open spec fn keys_view(&self) -> Seq<Seq<char>> {
        self.entries@.map_values(|e: (String, TaskGroup)| e.0@)
    }

    pub fn new() -> (r: Self)
        ensures
            r.entries@.len() == 0,
    {
        SubgroupMap { entries: Vec::new() }
    }

    pub fn len(&self) -> (r: usize)
        ensures
            r == self.entries@.len(),
    {
        self.entries.len()
    }

    pub fn is_empty(&self) -> (r: bool)
        ensures
            r == (self.entries@.len() == 0),
    {
        self.entries.len() == 0
    }

    /// Whether a subgroup has this name.
    pub fn contains_key(&self, key: &str) -> (r: bool)
        ensures
            r == self.keys_view().contains(key@),
    {
        let mut i: usize = 0;
        while i < self.entries.len()
            invariant
                i <= self.entries@.len(),
                forall|j: int| 0 <= j < i ==> self.entries@[j].0@ != key@,
            decreases self.entries@.len() - i,
        {
            if crate::text::str_eq(self.entries[i].0.as_str(), key) {
                assert(self.keys_view()[i as int] == key@);
                return true;
            }
            i = i + 1;
        }
        proof {
            if self.keys_view().contains(key@) {
                let j = choose|j: int| 0 <= j < self.keys_view().len() && self.keys_view()[j] == key@;
                assert(self.entries@[j].0@ == key@);
            }
        }
        false
    }

    /// The subgroup with this name, if any (the first one, should a name
    /// occur twice).
    pub fn get(&self, key: &str) -> (r: Option<&TaskGroup>)
        ensures
            r is Some <==> self.keys_view().contains(key@),
            r matches Some(g) ==> exists|j: int|
                0 <= j < self.entries@.len() && self.entries@[j].0@ == key@ && self.entries@[j].1 == *g && forall|k: int|
                    0 <= k < j ==> #[trigger] self.entries@[k].0@ != key@,
    {
        let mut i: usize = 0;
        while i < self.entries.len()
            invariant
                i <= self.entries@.len(),
                forall|j: int| 0 <= j < i ==> self.entries@[j].0@ != key@,
            decreases self.entries@.len() - i,
        {
            if crate::text::str_eq(self.entries[i].0.as_str(), key) {
                assert(self.keys_view()[i as int] == key@);
                return Some(&self.entries[i].1);
            }
            i = i + 1;
        }
        proof {
            if self.keys_view().contains(key@) {
                let j = choose|j: int| 0 <= j < self.keys_view().len() && self.keys_view()[j] == key@;
                assert(self.entries@[j].0@ == key@);
            }
        }
        None
    }
}

} // verus!
