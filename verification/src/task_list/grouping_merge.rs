//! Which subgroups stay: one is kept only when it has something to group,
//! and the tasks of a key whose own grouping is a single visible task (or
//! none) with nothing below it are listed directly under the parent.
use vstd::prelude::*;
use crate::task_list::models::{visible_views, GroupShape, TaskView};
use crate::task_list::grouping::{
    candidates, collapsed_tasks, collapsible, group_keys, grouping, kept_groups, lemma_group_keys_absent,
    lemma_group_keys_distinct, needs_split, tasks_with_key,
};
use crate::task_list::grouping_laws::{lemma_candidates_names, lemma_kept_from_candidates, sub_names};
use crate::task_list::grouping_order::lemma_candidate_at;

verus! {

/// A merged candidate's tasks are among the merged tasks.
proof fn lemma_collapsed_contains(cs: Seq<(Seq<char>, GroupShape)>, j: int, t: TaskView)
    requires
        0 <= j < cs.len(),
        collapsible(cs[j].1),
        cs[j].1.direct.contains(t),
    ensures
        collapsed_tasks(cs).contains(t),
    decreases cs.len(),
{
    let c0 = cs.drop_last();
    let col0 = collapsed_tasks(c0);
    if j < cs.len() - 1 {
        assert(c0[j] == cs[j]);
        lemma_collapsed_contains(c0, j, t);
        let p = choose|p: int| 0 <= p < col0.len() && col0[p] == t;
        if collapsible(cs.last().1) {
            assert((col0 + cs.last().1.direct)[p] == t);
        }
    } else {
        let d = cs.last().1.direct;
        assert(cs.last() == cs[j]);
        let p = choose|p: int| 0 <= p < d.len() && d[p] == t;
        assert((col0 + d)[col0.len() + p] == t);
    }
}

/// A candidate that cannot be merged stays.
proof fn lemma_kept_contains(cs: Seq<(Seq<char>, GroupShape)>, j: int)
    requires
        0 <= j < cs.len(),
        !collapsible(cs[j].1),
    ensures
        kept_groups(cs).contains(cs[j]),
    decreases cs.len(),
{
    let c0 = cs.drop_last();
    let k0 = kept_groups(c0);
    if j < cs.len() - 1 {
        assert(c0[j] == cs[j]);
        lemma_kept_contains(c0, j);
        let p = choose|p: int| 0 <= p < k0.len() && k0[p] == cs[j];
        if !collapsible(cs.last().1) {
            assert(k0.push(cs.last())[p] == cs[j]);
        }
    } else {
        assert(cs.last() == cs[j]);
        assert(k0.push(cs.last())[k0.len() as int] == cs[j]);
    }
}

/// The names of the subgroups that stay are names of candidates.
proof fn lemma_kept_names_from(cs: Seq<(Seq<char>, GroupShape)>, k: Seq<char>)
    requires
        sub_names(kept_groups(cs)).contains(k),
    ensures
        exists|j: int| 0 <= j < cs.len() && cs[j].0 == k && !collapsible(#[trigger] cs[j].1),
{
    lemma_kept_from_candidates(cs);
    let kg = kept_groups(cs);
    let i = choose|i: int| 0 <= i < sub_names(kg).len() && sub_names(kg)[i] == k;
    assert(cs.contains(kg[i]));
    assert(!collapsible(kg[i].1));
    let j = choose|j: int| 0 <= j < cs.len() && cs[j] == kg[i];
    assert(cs[j].0 == k && !collapsible(cs[j].1));
}

/// Every subgroup that stays has something to group: at least two visible
/// tasks of its own, or subgroups.  When a group is split (more visible
/// tasks than the group size limit, and depth left), the tasks of a
/// key whose own grouping is at most one visible task with nothing below
/// it are listed directly under the group, and no subgroup is named by
/// that key; the grouping of any other key's tasks stays as the subgroup
/// of that name.
pub proof fn single_task_subgroups_are_merged_back(
    s: Seq<TaskView>,
    depth: int,
    max_depth: nat,
    max_groupsize: nat,
    k: Seq<char>,
)
    ensures
        forall|i: int|
            0 <= i < grouping(s, depth, max_depth, max_groupsize).subs.len() ==> visible_views(
                (#[trigger] grouping(s, depth, max_depth, max_groupsize).subs[i]).1.direct,
            ).len() >= 2 || grouping(s, depth, max_depth, max_groupsize).subs[i].1.subs.len() > 0,
        (visible_views(s).len() > max_groupsize && max_depth > 0) ==> ({
            let g = grouping(s, depth, max_depth, max_groupsize);
            let sg = grouping(tasks_with_key(s, depth, k), depth + 1, (max_depth - 1) as nat, max_groupsize);
            (visible_views(sg.direct).len() <= 1 && sg.subs.len() == 0) ==> (forall|t: TaskView|
                #[trigger] sg.direct.contains(t) ==> g.direct.contains(t)) && !sub_names(g.subs).contains(k)
        }),
        (visible_views(s).len() > max_groupsize && max_depth > 0 && group_keys(s, depth).contains(k)) ==> ({
            let g = grouping(s, depth, max_depth, max_groupsize);
            let sg = grouping(tasks_with_key(s, depth, k), depth + 1, (max_depth - 1) as nat, max_groupsize);
            (visible_views(sg.direct).len() >= 2 || sg.subs.len() > 0) ==> g.subs.contains((k, sg))
        }),
{
    let g = grouping(s, depth, max_depth, max_groupsize);
    if needs_split(s, max_depth, max_groupsize) {
        let keys = group_keys(s, depth);
        let md = (max_depth - 1) as nat;
        let cs = candidates(s, depth, md, max_groupsize, keys);
        lemma_kept_from_candidates(cs);
        assert forall|i: int| 0 <= i < g.subs.len() implies visible_views((#[trigger] g.subs[i]).1.direct).len() >= 2
            || g.subs[i].1.subs.len() > 0 by {
            assert(!collapsible(g.subs[i].1));
        }
        let sg = grouping(tasks_with_key(s, depth, k), depth + 1, md, max_groupsize);
        if keys.contains(k) && !collapsible(sg) {
            let j = choose|j: int| 0 <= j < keys.len() && keys[j] == k;
            lemma_candidate_at(s, depth, md, max_groupsize, keys, j);
            lemma_kept_contains(cs, j);
        }
        if visible_views(sg.direct).len() <= 1 && sg.subs.len() == 0 {
            lemma_group_keys_distinct(s, depth);
            lemma_candidates_names(s, depth, md, max_groupsize, keys);
            lemma_group_keys_absent(s, depth, k);
            if keys.contains(k) {
                let j = choose|j: int| 0 <= j < keys.len() && keys[j] == k;
                lemma_candidate_at(s, depth, md, max_groupsize, keys, j);
                assert forall|t: TaskView| #[trigger] sg.direct.contains(t) implies g.direct.contains(t) by {
                    lemma_collapsed_contains(cs, j, t);
                }
                if sub_names(g.subs).contains(k) {
                    lemma_kept_names_from(cs, k);
                    let j2 = choose|j2: int| 0 <= j2 < cs.len() && cs[j2].0 == k && !collapsible(#[trigger] cs[j2].1);
                    assert(sub_names(cs)[j2] == k);
                    assert(sub_names(cs)[j] == k);
                }
            } else {
                assert(tasks_with_key(s, depth, k) == Seq::<TaskView>::empty());
                assert(sg.direct == Seq::<TaskView>::empty());
                if sub_names(g.subs).contains(k) {
                    lemma_kept_names_from(cs, k);
                    let j2 = choose|j2: int| 0 <= j2 < cs.len() && cs[j2].0 == k && !collapsible(#[trigger] cs[j2].1);
                    assert(sub_names(cs)[j2] == k);
                }
            }
        }
    } else {
        assert(g.subs.len() == 0);
    }
}

} // verus!
