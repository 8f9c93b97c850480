//! Collecting the tasks of a command tree and building the task list.
use vstd::prelude::*;
use crate::text::{clone_opt_string, clone_strings, str_eq};
use crate::task_list::path_order::strings_view;
use crate::task_list::models::{
    lemma_sorted_insert_all_concat, opt_chars, shape, sorted_by_path, sorted_insert_all, tasks_view, visible_views, Task,
    TaskCollection, TaskList, TaskView,
};
use crate::task_list::grouping::{
    all_defined, create_grouping, group_keys, grouping, grouping_defined, key_at, lemma_group_keys_absent,
    lemma_group_keys_distinct, needs_split, paths_reach, tasks_with_key,
};

verus! {

/// A command as the task list reads it: its name, short and long
/// description, whether it is hidden, and its subcommands in order.
#[derive(Debug)]
pub struct CommandInfo {
    pub name: String,
    pub about: Option<String>,
    pub long_about: Option<String>,
    pub hidden: bool,
    pub subcommands: Vec<CommandInfo>,
}

/// The tasks of a command reached by `path`, depth first in the order of
/// the subcommands: a command without subcommands is one task.
pub open spec fn leaf_tasks(c: CommandInfo, path: Seq<Seq<char>>) -> Seq<TaskView>
    decreases c, 1int, 0int,
{
    if c.subcommands@.len() == 0 {
        seq![TaskView { path: path, description: opt_chars(c.about), hidden: c.hidden }]
    } else {
        subcommand_tasks(c, path, c.subcommands@.len() as int)
    }
}

/// The tasks of the first `k` subcommands of `c`.
pub open spec fn subcommand_tasks(c: CommandInfo, path: Seq<Seq<char>>, k: int) -> Seq<TaskView>
    decreases c, 0int, k,
{
    if k <= 0 || k > c.subcommands@.len() {
        Seq::empty()
    } else {
        subcommand_tasks(c, path, k - 1) + leaf_tasks(
            c.subcommands@[k - 1],
            path.push(c.subcommands@[k - 1].name@),
        )
    }
}

/// The tasks of a command tree as the task list holds them: the tasks of
/// the root, inserted one by one in path order.
pub open spec fn collected_tasks(c: CommandInfo) -> Seq<TaskView> {
    sorted_insert_all(Seq::empty(), leaf_tasks(c, Seq::empty()))
}

/// The description of a task list: the long description if there is one,
/// else the short one.
pub open spec fn command_description(c: CommandInfo) -> Option<String> {
    if c.long_about is Some {
        c.long_about
    } else {
        c.about
    }
}

/// Task views of references to tasks.
pub open spec fn refs_view(s: Seq<&Task>) -> Seq<TaskView> {
    s.map_values(|t: &Task| t@)
}

/// The groupings of all keys are defined exactly when each of them is.
pub proof fn lemma_all_defined_iff(
    s: Seq<TaskView>,
    depth: int,
    max_depth: nat,
    max_groupsize: nat,
    keys: Seq<Seq<char>>,
)
    ensures
        all_defined(s, depth, max_depth, max_groupsize, keys) <==> forall|j: int|
            0 <= j < keys.len() ==> grouping_defined(
                tasks_with_key(s, depth, #[trigger] keys[j]),
                depth + 1,
                max_depth,
                max_groupsize,
            ),
    decreases keys.len(),
{
    if keys.len() > 0 {
        let kd = keys.drop_last();
        lemma_all_defined_iff(s, depth, max_depth, max_groupsize, kd);
        if all_defined(s, depth, max_depth, max_groupsize, keys) {
            assert forall|j: int| 0 <= j < keys.len() implies grouping_defined(
                tasks_with_key(s, depth, #[trigger] keys[j]),
                depth + 1,
                max_depth,
                max_groupsize,
            ) by {
                if j < keys.len() - 1 {
                    assert(kd[j] == keys[j]);
                }
            }
        }
        if forall|j: int|
            0 <= j < keys.len() ==> grouping_defined(
                tasks_with_key(s, depth, #[trigger] keys[j]),
                depth + 1,
                max_depth,
                max_groupsize,
            ) {
            assert forall|j: int| 0 <= j < kd.len() implies grouping_defined(
                tasks_with_key(s, depth, #[trigger] kd[j]),
                depth + 1,
                max_depth,
                max_groupsize,
            ) by {
                assert(kd[j] == keys[j]);
            }
            assert(keys.last() == keys[keys.len() - 1]);
        }
    }
}

impl TaskCollection {
    /// The tasks of a command tree whose root is reached by `current_path`,
    /// inserted in path order.
    pub fn from_command(command: &CommandInfo, current_path: Vec<String>) -> (r: Self)
        ensures
            sorted_by_path(r.tasks@),
            tasks_view(r.tasks@) == sorted_insert_all(Seq::empty(), leaf_tasks(*command, strings_view(current_path@))),
    {
        let mut collection = TaskCollection::new();
        assert(tasks_view(collection.tasks@) == Seq::<TaskView>::empty());
        collection.extract_tasks_recursive(command, current_path);
        collection
    }

    fn extract_tasks_recursive(&mut self, command: &CommandInfo, current_path: Vec<String>)
        requires
            sorted_by_path(old(self).tasks@),
        ensures
            sorted_by_path(final(self).tasks@),
            tasks_view(final(self).tasks@) == sorted_insert_all(
                tasks_view(old(self).tasks@),
                leaf_tasks(*command, strings_view(current_path@)),
            ),
        decreases command,
    {
        let ghost acc = tasks_view(self.tasks@);
        let ghost pv = strings_view(current_path@);
        if command.subcommands.len() == 0 {
            let task = Task { path: current_path, description: clone_opt_string(&command.about), hidden: command.hidden };
            self.insert_task_sorted(task);
            let ghost one = seq![TaskView { path: pv, description: opt_chars(command.about), hidden: command.hidden }];
            assert(one.drop_last() == Seq::<TaskView>::empty());
            assert(task@ == one.last());
            assert(leaf_tasks(*command, pv) == one);
            assert(sorted_insert_all(acc, Seq::<TaskView>::empty()) == acc);
        } else {
            let n = command.subcommands.len();
            let mut i: usize = 0;
            while i < n
                invariant
                    n == command.subcommands@.len(),
                    i <= n,
                    pv == strings_view(current_path@),
                    sorted_by_path(self.tasks@),
                    tasks_view(self.tasks@) == sorted_insert_all(acc, subcommand_tasks(*command, pv, i as int)),
                decreases n - i,
            {
                let sub = &command.subcommands[i];
                let mut new_path = clone_strings(&current_path);
                new_path.push(sub.name.clone());
                assert(strings_view(new_path@) == pv.push(sub.name@));
                let ghost before = subcommand_tasks(*command, pv, i as int);
                self.extract_tasks_recursive(sub, new_path);
                proof {
                    lemma_sorted_insert_all_concat(acc, before, leaf_tasks(*sub, pv.push(sub.name@)));
                }
                i = i + 1;
            }
            assert(subcommand_tasks(*command, pv, n as int) == leaf_tasks(*command, pv));
        }
    }

    /// Whether `grouping_defined` holds of the tasks at `depth`.
    pub fn grouping_is_defined(&self, depth: usize, max_depth: usize, max_groupsize: usize) -> (r: bool)
        ensures
            r == grouping_defined(tasks_view(self.tasks@), depth as int, max_depth as nat, max_groupsize as nat),
    {
        let mut refs: Vec<&Task> = Vec::new();
        let mut i: usize = 0;
        while i < self.tasks.len()
            invariant
                i <= self.tasks@.len(),
                refs_view(refs@) == tasks_view(self.tasks@.take(i as int)),
            decreases self.tasks@.len() - i,
        {
            let ghost old_refs = refs@;
            refs.push(&self.tasks[i]);
            assert(self.tasks@.take(i + 1) == self.tasks@.take(i as int).push(self.tasks@[i as int]));
            assert(refs_view(refs@) == refs_view(old_refs).push(self.tasks@[i as int]@));
            assert(tasks_view(self.tasks@.take(i + 1)) == tasks_view(self.tasks@.take(i as int)).push(self.tasks@[i as int]@));
            i = i + 1;
        }
        assert(self.tasks@.take(self.tasks@.len() as int) == self.tasks@);
        grouping_defined_refs(&refs, depth, max_depth, max_groupsize)
    }
}

/// Number of tasks that are not hidden among references to tasks.
fn visible_refs(tasks: &Vec<&Task>) -> (r: usize)
    ensures
        r == visible_views(refs_view(tasks@)).len(),
{
    let ghost s = refs_view(tasks@);
    let mut n: usize = 0;
    let mut i: usize = 0;
    while i < tasks.len()
        invariant
            s == refs_view(tasks@),
            i <= tasks@.len(),
            n == visible_views(s.take(i as int)).len(),
            n <= i,
        decreases tasks@.len() - i,
    {
        assert(s.take(i + 1).drop_last() == s.take(i as int));
        assert(s.take(i + 1).last() == tasks@[i as int]@);
        if !tasks[i].hidden {
            n = n + 1;
        }
        i = i + 1;
    }
    assert(s.take(tasks@.len() as int) == s);
    n
}

/// `grouping_defined`, decided on references to the tasks.
fn grouping_defined_refs(tasks: &Vec<&Task>, depth: usize, max_depth: usize, max_groupsize: usize) -> (r: bool)
    ensures
        r == grouping_defined(refs_view(tasks@), depth as int, max_depth as nat, max_groupsize as nat),
    decreases max_depth,
{
    let ghost s = refs_view(tasks@);
    let visible = visible_refs(tasks);
    if max_depth == 0 || visible <= max_groupsize {
        return true;
    }
    assert(needs_split(s, max_depth as nat, max_groupsize as nat));
    let mut i: usize = 0;
    while i < tasks.len()
        invariant
            s == refs_view(tasks@),
            i <= tasks@.len(),
            forall|m: int| 0 <= m < i ==> depth < #[trigger] s[m].path.len(),
            needs_split(s, max_depth as nat, max_groupsize as nat),
        decreases tasks@.len() - i,
    {
        assert(s[i as int].path.len() == tasks@[i as int].path@.len());
        if tasks[i].path.len() <= depth {
            assert(!paths_reach(s, depth as int));
            return false;
        }
        i = i + 1;
    }
    assert(paths_reach(s, depth as int));
    assert(s.len() > 0);
    assert(s[0].path.len() == tasks@[0].path@.len());
    assert(tasks@[0].path@.len() == tasks@[0].path.len());
    let mut groups: Vec<(&String, Vec<&Task>)> = Vec::new();
    let mut k: usize = 0;
    while k < tasks.len()
        invariant
            s == refs_view(tasks@),
            k <= tasks@.len(),
            paths_reach(s, depth as int),
            groups@.len() == group_keys(s.take(k as int), depth as int).len(),
            forall|j: int|
                0 <= j < groups@.len() ==> #[trigger] groups@[j].0@ == group_keys(s.take(k as int), depth as int)[j],
            forall|j: int|
                0 <= j < groups@.len() ==> refs_view(#[trigger] groups@[j].1@) == tasks_with_key(
                    s.take(k as int),
                    depth as int,
                    groups@[j].0@,
                ),
        decreases tasks@.len() - k,
    {
        let ghost pre = s.take(k as int);
        let ghost post = s.take(k + 1);
        assert(post.drop_last() == pre);
        assert(post.last() == s[k as int]);
        let t: &Task = tasks[k];
        assert(s[k as int] == t@);
        assert(depth < s[k as int].path.len());
        assert(t@.path.len() == t.path@.len());
        let key: &String = &t.path[depth];
        assert(key@ == key_at(s[k as int], depth as int));
        let mut j: usize = 0;
        while j < groups.len() && !str_eq(groups[j].0.as_str(), key.as_str())
            invariant
                j <= groups@.len(),
                forall|m: int| 0 <= m < j ==> (#[trigger] groups@[m]).0@ != key@,
            decreases groups@.len() - j,
        {
            j = j + 1;
        }
        proof {
            lemma_group_keys_distinct(pre, depth as int);
        }
        if j < groups.len() {
            let ghost old_groups = groups@;
            groups[j].1.push(t);
            proof {
                assert(group_keys(pre, depth as int)[j as int] == key@);
                assert(group_keys(pre, depth as int).contains(key@));
                assert forall|m: int| 0 <= m < groups@.len() implies refs_view(#[trigger] groups@[m].1@)
                    == tasks_with_key(post, depth as int, groups@[m].0@) by {
                    if m != j {
                        assert(groups@[m] == old_groups[m]);
                        assert(group_keys(pre, depth as int)[m] != group_keys(pre, depth as int)[j as int]);
                    } else {
                        assert(groups@[m].1@ == old_groups[m].1@.push(t));
                        assert(refs_view(old_groups[m].1@.push(t)) == refs_view(old_groups[m].1@).push(t@));
                    }
                }
            }
        } else {
            let ghost old_groups = groups@;
            let mut bucket: Vec<&Task> = Vec::new();
            bucket.push(t);
            groups.push((key, bucket));
            proof {
                if group_keys(pre, depth as int).contains(key@) {
                    let m = choose|m: int| 0 <= m < group_keys(pre, depth as int).len() && group_keys(pre, depth as int)[m] == key@;
                    assert(old_groups[m].0@ == key@);
                }
                lemma_group_keys_absent(pre, depth as int, key@);
                assert forall|m: int| 0 <= m < groups@.len() implies refs_view(#[trigger] groups@[m].1@)
                    == tasks_with_key(post, depth as int, groups@[m].0@) by {
                    if m < old_groups.len() {
                        assert(groups@[m] == old_groups[m]);
                        assert(old_groups[m].0@ == group_keys(pre, depth as int)[m]);
                    } else {
                        assert(refs_view(bucket@) == seq![t@]);
                        assert(tasks_with_key(pre, depth as int, key@) == Seq::<TaskView>::empty());
                        assert(Seq::<TaskView>::empty().push(t@) == seq![t@]);
                    }
                }
            }
        }
        k = k + 1;
    }
    assert(s.take(tasks@.len() as int) == s);
    let ghost keys = group_keys(s, depth as int);
    proof {
        lemma_all_defined_iff(s, depth as int, (max_depth - 1) as nat, max_groupsize as nat, keys);
    }
    let mut j: usize = 0;
    while j < groups.len()
        invariant
            j <= groups@.len(),
            groups@.len() == keys.len(),
            forall|m: int| 0 <= m < groups@.len() ==> #[trigger] groups@[m].0@ == keys[m],
            forall|m: int| 0 <= m < groups@.len() ==> refs_view(#[trigger] groups@[m].1@) == tasks_with_key(s, depth as int, groups@[m].0@),
            forall|m: int| 0 <= m < j ==> grouping_defined(
                tasks_with_key(s, depth as int, #[trigger] keys[m]),
                depth + 1,
                (max_depth - 1) as nat,
                max_groupsize as nat,
            ),
            depth < usize::MAX,
            max_depth > 0,
            needs_split(s, max_depth as nat, max_groupsize as nat),
            paths_reach(s, depth as int),
            s == refs_view(tasks@),
            keys == group_keys(s, depth as int),
        decreases groups@.len() - j,
    {
        assert(refs_view(groups@[j as int].1@) == tasks_with_key(s, depth as int, keys[j as int]));
        if !grouping_defined_refs(&groups[j].1, depth + 1, max_depth - 1, max_groupsize) {
            proof {
                lemma_all_defined_iff(s, depth as int, (max_depth - 1) as nat, max_groupsize as nat, keys);
            }
            assert(!all_defined(s, depth as int, (max_depth - 1) as nat, max_groupsize as nat, keys));
            return false;
        }
        j = j + 1;
    }
    proof {
        lemma_all_defined_iff(s, depth as int, (max_depth - 1) as nat, max_groupsize as nat, keys);
    }
    true
}

impl TaskList {
    /// Collects the tasks of a command tree and groups them.  The grouping
    /// must read no segment past the end of a path (see
    /// `TaskList::try_from_command` for the function that tests this).
    pub fn from_command(command: &CommandInfo, separator: String, max_groupsize: usize, max_depth: usize) -> (r: Self)
        requires
            grouping_defined(collected_tasks(*command), 0, max_depth as nat, max_groupsize as nat),
        ensures
            r.description == command_description(*command),
            r.max_groupsize == max_groupsize,
            r.max_depth == max_depth,
            r.separator == separator,
            shape(r.root) == grouping(collected_tasks(*command), 0, max_depth as nat, max_groupsize as nat),
    {
        let empty: Vec<String> = Vec::new();
        assert(strings_view(empty@) == Seq::<Seq<char>>::empty());
        let task_collection = TaskCollection::from_command(command, empty);
        let root_group = create_grouping(task_collection, 0, max_depth, max_groupsize);
        let description = match &command.long_about {
            Some(d) => Some(d.clone()),
            None => clone_opt_string(&command.about),
        };
        TaskList { description, max_groupsize, max_depth, separator, root: root_group }
    }

    /// `TaskList::from_command` where the grouping is defined, `None` where
    /// it would read a segment past the end of a path.
    pub fn try_from_command(command: &CommandInfo, separator: String, max_groupsize: usize, max_depth: usize) -> (r: Option<Self>)
        ensures
            r is Some <==> grouping_defined(collected_tasks(*command), 0, max_depth as nat, max_groupsize as nat),
            r matches Some(l) ==> {
                &&& l.description == command_description(*command)
                &&& l.max_groupsize == max_groupsize
                &&& l.max_depth == max_depth
                &&& l.separator == separator
                &&& shape(l.root) == grouping(collected_tasks(*command), 0, max_depth as nat, max_groupsize as nat)
            },
    {
        let empty: Vec<String> = Vec::new();
        assert(strings_view(empty@) == Seq::<Seq<char>>::empty());
        let probe = TaskCollection::from_command(command, empty);
        if probe.grouping_is_defined(0, max_depth, max_groupsize) {
            Some(TaskList::from_command(command, separator, max_groupsize, max_depth))
        } else {
            None
        }
    }
}

} // verus!
