//! Grouping of tasks for the overview: a group with more visible tasks than
//! the group size limit is split by the path segment at the current depth,
//! as long as the depth limit allows; subgroups left with at most one
//! visible task and no subgroups of their own are merged back.
use vstd::prelude::*;
use crate::text::str_eq;
use crate::task_list::models::{
    lemma_shapes_of, lemma_visible_views, shape, shapes_of, tasks_view, visible_views, GroupShape,
    SubgroupMap, Task, TaskCollection, TaskGroup, TaskView,
};

verus! {

/// The segment of a task's path at a depth.
pub open spec fn key_at(t: TaskView, depth: int) -> Seq<char> {
    t.path[depth]
}

/// The distinct segments at `depth` of the tasks of `s`, in the order of
/// their first occurrence.
pub open spec fn group_keys(s: Seq<TaskView>, depth: int) -> Seq<Seq<char>>
    decreases s.len(),
{
    if s.len() == 0 {
        Seq::empty()
    } else {
        let ks = group_keys(s.drop_last(), depth);
        if ks.contains(key_at(s.last(), depth)) {
            ks
        } else {
            ks.push(key_at(s.last(), depth))
        }
    }
}

/// The tasks of `s` whose segment at `depth` is `k`, in order.
pub open spec fn tasks_with_key(s: Seq<TaskView>, depth: int, k: Seq<char>) -> Seq<TaskView>
    decreases s.len(),
{
    if s.len() == 0 {
        Seq::empty()
    } else if key_at(s.last(), depth) == k {
        tasks_with_key(s.drop_last(), depth, k).push(s.last())
    } else {
        tasks_with_key(s.drop_last(), depth, k)
    }
}

/// Whether tasks are split into subgroups: depth is left and there are more
/// visible tasks than a group may hold.
pub open spec fn needs_split(s: Seq<TaskView>, max_depth: nat, max_groupsize: nat) -> bool {
    max_depth > 0 && visible_views(s).len() > max_groupsize
}

/// A subgroup that is merged back into its parent: at most one visible task
/// and no subgroups.
pub open spec fn collapsible(g: GroupShape) -> bool {
    visible_views(g.direct).len() <= 1 && g.subs.len() == 0
}

/// The grouping of `s` at `depth`.
pub open spec fn grouping(s: Seq<TaskView>, depth: int, max_depth: nat, max_groupsize: nat) -> GroupShape
    decreases max_depth, 1int, 0int,
{
    if !needs_split(s, max_depth, max_groupsize) {
        GroupShape { direct: s, subs: Seq::empty() }
    } else {
        let cs = candidates(s, depth, (max_depth - 1) as nat, max_groupsize, group_keys(s, depth));
        GroupShape { direct: collapsed_tasks(cs), subs: kept_groups(cs) }
    }
}

/// The grouping, one level deeper, of the tasks of each key.
pub open spec fn candidates(
    s: Seq<TaskView>,
    depth: int,
    max_depth: nat,
    max_groupsize: nat,
    keys: Seq<Seq<char>>,
) -> Seq<(Seq<char>, GroupShape)>
    decreases max_depth + 1, 0int, keys.len(),
{
    if keys.len() == 0 {
        Seq::empty()
    } else {
        candidates(s, depth, max_depth, max_groupsize, keys.drop_last()).push(
            (keys.last(), grouping(tasks_with_key(s, depth, keys.last()), depth + 1, max_depth, max_groupsize)),
        )
    }
}

/// The tasks of the merged subgroups, in order.
pub open spec fn collapsed_tasks(cs: Seq<(Seq<char>, GroupShape)>) -> Seq<TaskView>
    decreases cs.len(),
{
    if cs.len() == 0 {
        Seq::empty()
    } else if collapsible(cs.last().1) {
        collapsed_tasks(cs.drop_last()) + cs.last().1.direct
    } else {
        collapsed_tasks(cs.drop_last())
    }
}

/// The subgroups that stay, in order.
pub open spec fn kept_groups(cs: Seq<(Seq<char>, GroupShape)>) -> Seq<(Seq<char>, GroupShape)>
    decreases cs.len(),
{
    if cs.len() == 0 {
        Seq::empty()
    } else if collapsible(cs.last().1) {
        kept_groups(cs.drop_last())
    } else {
        kept_groups(cs.drop_last()).push(cs.last())
    }
}

/// Every task has a segment at `depth`.
pub open spec fn paths_reach(s: Seq<TaskView>, depth: int) -> bool {
    forall|i: int| 0 <= i < s.len() ==> depth < #[trigger] s[i].path.len()
}

/// The grouping reads no segment past the end of a path (where it would
/// stop with an index out of bounds).
pub open spec fn grouping_defined(s: Seq<TaskView>, depth: int, max_depth: nat, max_groupsize: nat) -> bool
    decreases max_depth, 1int, 0int,
{
    !needs_split(s, max_depth, max_groupsize) || (paths_reach(s, depth) && all_defined(
        s,
        depth,
        (max_depth - 1) as nat,
        max_groupsize,
        group_keys(s, depth),
    ))
}

/// The grouping of the tasks of each key is defined.
pub open spec fn all_defined(
    s: Seq<TaskView>,
    depth: int,
    max_depth: nat,
    max_groupsize: nat,
    keys: Seq<Seq<char>>,
) -> bool
    decreases max_depth + 1, 0int, keys.len(),
{
    keys.len() == 0 || (all_defined(s, depth, max_depth, max_groupsize, keys.drop_last()) && grouping_defined(
        tasks_with_key(s, depth, keys.last()),
        depth + 1,
        max_depth,
        max_groupsize,
    ))
}

/// No key occurs twice.
pub proof fn lemma_group_keys_distinct(s: Seq<TaskView>, depth: int)
    ensures
        group_keys(s, depth).no_duplicates(),
    decreases s.len(),
{
    if s.len() > 0 {
        lemma_group_keys_distinct(s.drop_last(), depth);
    }
}

/// Every key belongs to a task; a segment that is no key belongs to none.
pub proof fn lemma_group_keys_absent(s: Seq<TaskView>, depth: int, k: Seq<char>)
    ensures
        !group_keys(s, depth).contains(k) ==> tasks_with_key(s, depth, k) == Seq::<TaskView>::empty(),
    decreases s.len(),
{
    if s.len() > 0 {
        lemma_group_keys_absent(s.drop_last(), depth, k);
        let ks = group_keys(s.drop_last(), depth);
        if !group_keys(s, depth).contains(k) {
            if ks.contains(k) {
                let j = choose|j: int| 0 <= j < ks.len() && ks[j] == k;
                assert(group_keys(s, depth)[j] == k);
            }
            if key_at(s.last(), depth) == k {
                if ks.contains(k) {
                } else {
                    assert(group_keys(s, depth).last() == k);
                }
            }
        }
    }
}

/// The groupings of all keys are defined when that of the whole is.
pub proof fn lemma_all_defined(
    s: Seq<TaskView>,
    depth: int,
    max_depth: nat,
    max_groupsize: nat,
    keys: Seq<Seq<char>>,
    j: int,
)
    requires
        all_defined(s, depth, max_depth, max_groupsize, keys),
        0 <= j < keys.len(),
    ensures
        grouping_defined(tasks_with_key(s, depth, keys[j]), depth + 1, max_depth, max_groupsize),
    decreases keys.len(),
{
    if j < keys.len() - 1 {
        lemma_all_defined(s, depth, max_depth, max_groupsize, keys.drop_last(), j);
    }
}

/// Splits a group of tasks into subgroups by the path segment at `depth`,
/// and those subgroups in turn, as `grouping` describes.
pub fn create_grouping(tasks: TaskCollection, depth: usize, max_depth: usize, max_groupsize: usize) -> (r: TaskGroup)
    requires
        grouping_defined(tasks_view(tasks.tasks@), depth as int, max_depth as nat, max_groupsize as nat),
    ensures
        shape(r) == grouping(tasks_view(tasks.tasks@), depth as int, max_depth as nat, max_groupsize as nat),
    decreases max_depth,
{
    let ghost all = tasks.tasks@;
    let ghost s = tasks_view(all);
    let visible_count = tasks.get_number_of_visible_tasks();
    proof {
        lemma_visible_views(all);
    }
    if max_depth == 0 || visible_count <= max_groupsize {
        let r = TaskGroup { direct_tasks: tasks, subgroups: SubgroupMap::new() };
        assert(shapes_of(r.subgroups.entries@) == Seq::<(Seq<char>, GroupShape)>::empty());
        return r;
    }
    assert(s.len() > 0);
    assert(depth < s[0].path.len());
    assert(s[0].path.len() == all[0].path@.len());
    assert(all[0].path@.len() == all[0].path.len());
    // Tasks by the segment at `depth`, keys in order of first occurrence.
    let mut groups: Vec<(String, Vec<Task>)> = Vec::new();
    for t in it: tasks.tasks.into_iter()
        invariant
            it.seq() == all,
            s == tasks_view(all),
            paths_reach(s, depth as int),
            groups@.len() == group_keys(s.take(it.index() as int), depth as int).len(),
            forall|j: int|
                0 <= j < groups@.len() ==> #[trigger] groups@[j].0@ == group_keys(s.take(it.index() as int), depth as int)[j],
            forall|j: int|
                0 <= j < groups@.len() ==> tasks_view(#[trigger] groups@[j].1@) == tasks_with_key(
                    s.take(it.index() as int),
                    depth as int,
                    groups@[j].0@,
                ),
    {
        let ghost i = it.index() as int;
        let ghost pre = s.take(i);
        let ghost post = s.take(i + 1);
        assert(post.drop_last() == pre);
        assert(post.last() == s[i]);
        assert(s[i] == t@);
        assert(depth < s[i].path.len());
        assert(t@.path.len() == t.path@.len());
        let key = t.path[depth].clone();
        assert(key@ == key_at(s[i], depth as int));
        let mut j: usize = 0;
        while j < groups.len() && !str_eq(groups[j].0.as_str(), key.as_str())
            invariant
                j <= groups@.len(),
                forall|m: int| 0 <= m < j ==> (#[trigger] groups@[m]).0@ != key@,
            decreases groups@.len() - j,
        {
            j = j + 1;
        }
        proof {
            lemma_group_keys_distinct(pre, depth as int);
        }
        if j < groups.len() {
            let ghost old_groups = groups@;
            groups[j].1.push(t);
            proof {
                assert(group_keys(pre, depth as int)[j as int] == key@);
                assert(group_keys(pre, depth as int).contains(key@));
                assert forall|m: int| 0 <= m < groups@.len() implies tasks_view(#[trigger] groups@[m].1@)
                    == tasks_with_key(post, depth as int, groups@[m].0@) by {
                    if m != j {
                        assert(groups@[m] == old_groups[m]);
                        assert(group_keys(pre, depth as int)[m] != group_keys(pre, depth as int)[j as int]);
                    } else {
                        assert(groups@[m].1@ == old_groups[m].1@.push(t));
                        assert(tasks_view(old_groups[m].1@.push(t)) == tasks_view(old_groups[m].1@).push(t@));
                    }
                }
            }
        } else {
            let ghost old_groups = groups@;
            let mut bucket: Vec<Task> = Vec::new();
            bucket.push(t);
            groups.push((key, bucket));
            proof {
                if group_keys(pre, depth as int).contains(key@) {
                    let m = choose|m: int| 0 <= m < group_keys(pre, depth as int).len() && group_keys(pre, depth as int)[m] == key@;
                    assert(old_groups[m].0@ == key@);
                }
                lemma_group_keys_absent(pre, depth as int, key@);
                assert forall|m: int| 0 <= m < groups@.len() implies tasks_view(#[trigger] groups@[m].1@)
                    == tasks_with_key(post, depth as int, groups@[m].0@) by {
                    if m < old_groups.len() {
                        assert(groups@[m] == old_groups[m]);
                        assert(old_groups[m].0@ == group_keys(pre, depth as int)[m]);
                    } else {
                        assert(tasks_view(bucket@) == seq![t@]);
                        assert(tasks_with_key(pre, depth as int, key@) == Seq::<TaskView>::empty());
                        assert(Seq::<TaskView>::empty().push(t@) == seq![t@]);
                    }
                }
            }
        }
    }
    let ghost keys = group_keys(s, depth as int);
    let ghost md: nat = (max_depth - 1) as nat;
    let ghost g0 = groups@;
    assert(s.take(all.len() as int) == s);
    proof {
        assert(grouping_defined(s, depth as int, max_depth as nat, max_groupsize as nat));
    }
    let mut direct: Vec<Task> = Vec::new();
    let mut subs: Vec<(String, TaskGroup)> = Vec::new();
    for g in it2: groups.into_iter()
        invariant
            it2.seq() == g0,
            g0.len() == keys.len(),
            forall|j: int| 0 <= j < g0.len() ==> #[trigger] g0[j].0@ == keys[j],
            forall|j: int| 0 <= j < g0.len() ==> tasks_view(#[trigger] g0[j].1@) == tasks_with_key(s, depth as int, g0[j].0@),
            all_defined(s, depth as int, md, max_groupsize as nat, keys),
            md == max_depth - 1,
            depth < usize::MAX,
            tasks_view(direct@) == collapsed_tasks(candidates(s, depth as int, md, max_groupsize as nat, keys.take(it2.index() as int))),
            shapes_of(subs@) == kept_groups(candidates(s, depth as int, md, max_groupsize as nat, keys.take(it2.index() as int))),
    {
        let ghost j = it2.index() as int;
        assert(g == g0[j]);
        let (key, bucket) = g;
        proof {
            lemma_all_defined(s, depth as int, md, max_groupsize as nat, keys, j);
        }
        let sub = create_grouping(TaskCollection { tasks: bucket }, depth + 1, max_depth - 1, max_groupsize);
        let ghost c = (keys[j], grouping(tasks_with_key(s, depth as int, keys[j]), depth + 1, md, max_groupsize as nat));
        assert(keys.take(j + 1).drop_last() == keys.take(j));
        assert(keys.take(j + 1).last() == keys[j]);
        assert(candidates(s, depth as int, md, max_groupsize as nat, keys.take(j + 1)) == candidates(
            s,
            depth as int,
            md,
            max_groupsize as nat,
            keys.take(j),
        ).push(c));
        let sub_visible = sub.direct_tasks.get_number_of_visible_tasks();
        proof {
            lemma_visible_views(sub.direct_tasks.tasks@);
            lemma_shapes_of(sub.subgroups.entries@);
        }
        if sub_visible <= 1 && sub.subgroups.entries.len() == 0 {
            assert(collapsible(c.1));
            let ghost old_direct = direct@;
            let mut moved = sub.direct_tasks.tasks;
            let ghost moved0 = moved@;
            direct.append(&mut moved);
            assert(tasks_view(old_direct + moved0) == tasks_view(old_direct) + tasks_view(moved0));
            assert(shape(sub).direct == tasks_view(moved0));
            let ghost cs = candidates(s, depth as int, md, max_groupsize as nat, keys.take(j));
            assert(cs.push(c).drop_last() == cs);
            assert(cs.push(c).last() == c);
            assert(collapsed_tasks(cs.push(c)) == collapsed_tasks(cs) + c.1.direct);
            assert(kept_groups(cs.push(c)) == kept_groups(cs));
        } else {
            assert(!collapsible(c.1));
            let ghost old_subs = subs@;
            subs.push((key, sub));
            assert(subs@.drop_last() == old_subs);
            let ghost cs = candidates(s, depth as int, md, max_groupsize as nat, keys.take(j));
            assert(cs.push(c).drop_last() == cs);
            assert(cs.push(c).last() == c);
            assert(collapsed_tasks(cs.push(c)) == collapsed_tasks(cs));
            assert(kept_groups(cs.push(c)) == kept_groups(cs).push(c));
            assert(shapes_of(subs@) == shapes_of(old_subs).push((key@, shape(sub))));
        }
    }
    assert(keys.take(keys.len() as int) == keys);
    let r = TaskGroup { direct_tasks: TaskCollection { tasks: direct }, subgroups: SubgroupMap { entries: subs } };
    r
}

} // verus!
