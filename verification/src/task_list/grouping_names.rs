//! What the names of subgroups say: a subgroup, with everything below it,
//! holds only tasks whose path segment at its level is its name; and for
//! tasks sorted by path, the subgroups of a group come in increasing order
//! of their names.
use vstd::prelude::*;
use crate::task_list::path_order::chars_lt;
use crate::task_list::models::{GroupShape, TaskView};
use crate::task_list::grouping::{
    all_defined, candidates, group_keys, grouping, grouping_defined, kept_groups, key_at, lemma_all_defined,
    needs_split, tasks_with_key,
};
use crate::task_list::grouping_laws::{
    grouping_keeps_every_task, lemma_candidates_names, lemma_kept_from_candidates, sub_names, tree_tasks,
};
use crate::task_list::grouping_order::{
    lemma_candidate_at, lemma_keyed_share_prefix, lemma_keyed_subsequence, lemma_keys_increase,
    lemma_sorted_insert_all_sorted, share_prefix, views_sorted,
};
use crate::task_list::init::{collected_tasks, leaf_tasks, CommandInfo};

verus! {

/// Each subgroup of `g` (whose subgroups split by the segment at `depth`)
/// holds, with everything below it, only tasks whose segment at `depth` is
/// its name; and so on down the tree.
pub open spec fn names_fit(g: GroupShape, depth: int) -> bool
    decreases g,
{
    subs_fit(g.subs, depth)
}

/// `names_fit` for a list of subgroups split at `depth`.
pub open spec fn subs_fit(cs: Seq<(Seq<char>, GroupShape)>, depth: int) -> bool
    decreases cs,
{
    if cs.len() == 0 {
        true
    } else {
        &&& subs_fit(cs.drop_last(), depth)
        &&& forall|t: TaskView| #[trigger] tree_tasks(cs.last().1).contains(t) ==> key_at(t, depth) == cs.last().0
        &&& names_fit(cs.last().1, depth + 1)
    }
}

/// The subgroups of each group come in increasing order of their names,
/// down the tree.
pub open spec fn names_ascend(g: GroupShape) -> bool
    decreases g,
{
    &&& forall|i: int, j: int| 0 <= i < j < g.subs.len() ==> chars_lt(#[trigger] g.subs[i].0, #[trigger] g.subs[j].0)
    &&& subs_ascend(g.subs)
}

/// `names_ascend` for each of a list of subgroups.
pub open spec fn subs_ascend(cs: Seq<(Seq<char>, GroupShape)>) -> bool
    decreases cs,
{
    if cs.len() == 0 {
        true
    } else {
        subs_ascend(cs.drop_last()) && names_ascend(cs.last().1)
    }
}

proof fn lemma_subs_fit_all(cs: Seq<(Seq<char>, GroupShape)>, depth: int)
    requires
        forall|i: int, t: TaskView|
            0 <= i < cs.len() && #[trigger] tree_tasks(cs[i].1).contains(t) ==> key_at(t, depth) == cs[i].0,
        forall|i: int| 0 <= i < cs.len() ==> names_fit(#[trigger] cs[i].1, depth + 1),
    ensures
        subs_fit(cs, depth),
    decreases cs.len(),
{
    if cs.len() > 0 {
        let c0 = cs.drop_last();
        assert forall|i: int, t: TaskView| 0 <= i < c0.len() && #[trigger] tree_tasks(c0[i].1).contains(t) implies key_at(
            t,
            depth,
        ) == c0[i].0 by {
            assert(c0[i] == cs[i]);
        }
        assert forall|i: int| 0 <= i < c0.len() implies names_fit(#[trigger] c0[i].1, depth + 1) by {
            assert(c0[i] == cs[i]);
        }
        lemma_subs_fit_all(c0, depth);
        assert(cs.last() == cs[cs.len() - 1]);
    }
}

proof fn lemma_subs_ascend_all(cs: Seq<(Seq<char>, GroupShape)>)
    requires
        forall|i: int| 0 <= i < cs.len() ==> names_ascend(#[trigger] cs[i].1),
    ensures
        subs_ascend(cs),
    decreases cs.len(),
{
    if cs.len() > 0 {
        let c0 = cs.drop_last();
        assert forall|i: int| 0 <= i < c0.len() implies names_ascend(#[trigger] c0[i].1) by {
            assert(c0[i] == cs[i]);
        }
        lemma_subs_ascend_all(c0);
        assert(cs.last() == cs[cs.len() - 1]);
    }
}

/// A task anywhere in the grouping of the tasks of key `k` is a task of `s`
/// with that key.
proof fn lemma_tree_member(s: Seq<TaskView>, depth: int, max_depth: nat, max_groupsize: nat, k: Seq<char>, t: TaskView)
    requires
        tree_tasks(grouping(tasks_with_key(s, depth, k), depth + 1, max_depth, max_groupsize)).contains(t),
    ensures
        s.contains(t),
        key_at(t, depth) == k,
{
    let tw = tasks_with_key(s, depth, k);
    let g = grouping(tw, depth + 1, max_depth, max_groupsize);
    grouping_keeps_every_task(tw, depth + 1, max_depth, max_groupsize);
    vstd::seq_lib::to_multiset_contains(tree_tasks(g), t);
    vstd::seq_lib::to_multiset_contains(tw, t);
    lemma_keyed_subsequence(s, depth, k);
    let q = choose|q: int| 0 <= q < tw.len() && tw[q] == t;
}

/// Names and tasks of each candidate subgroup fit, down the tree.
proof fn lemma_candidates_fit(s: Seq<TaskView>, depth: int, max_depth: nat, max_groupsize: nat, keys: Seq<Seq<char>>)
    ensures
        forall|i: int, t: TaskView|
            0 <= i < keys.len() && #[trigger] tree_tasks(candidates(s, depth, max_depth, max_groupsize, keys)[i].1).contains(t)
                ==> key_at(t, depth) == candidates(s, depth, max_depth, max_groupsize, keys)[i].0,
        forall|i: int|
            0 <= i < keys.len() ==> names_fit(#[trigger] candidates(s, depth, max_depth, max_groupsize, keys)[i].1, depth + 1),
    decreases max_depth + 1, 0int, 0int,
{
    let cs = candidates(s, depth, max_depth, max_groupsize, keys);
    assert forall|i: int, t: TaskView| 0 <= i < keys.len() && #[trigger] tree_tasks(cs[i].1).contains(t) implies key_at(
        t,
        depth,
    ) == cs[i].0 by {
        lemma_candidate_at(s, depth, max_depth, max_groupsize, keys, i);
        lemma_tree_member(s, depth, max_depth, max_groupsize, keys[i], t);
    }
    assert forall|i: int| 0 <= i < keys.len() implies names_fit(#[trigger] cs[i].1, depth + 1) by {
        lemma_candidate_at(s, depth, max_depth, max_groupsize, keys, i);
        subgroups_hold_their_name(tasks_with_key(s, depth, keys[i]), depth + 1, max_depth, max_groupsize);
    }
}

/// Every subgroup, at every level of the grouping, holds only tasks whose
/// path segment at that level is the subgroup's name: a task is never
/// listed under a name that its path does not have.
pub proof fn subgroups_hold_their_name(s: Seq<TaskView>, depth: int, max_depth: nat, max_groupsize: nat)
    ensures
        names_fit(grouping(s, depth, max_depth, max_groupsize), depth),
    decreases max_depth, 1int, 0int,
{
    if !needs_split(s, max_depth, max_groupsize) {
        assert(subs_fit(Seq::<(Seq<char>, GroupShape)>::empty(), depth));
    } else {
        let keys = group_keys(s, depth);
        let md = (max_depth - 1) as nat;
        let cs = candidates(s, depth, md, max_groupsize, keys);
        let k = kept_groups(cs);
        lemma_candidates_fit(s, depth, md, max_groupsize, keys);
        if keys.len() > 0 {
            lemma_candidate_at(s, depth, md, max_groupsize, keys, 0);
        } else {
            assert(cs == Seq::<(Seq<char>, GroupShape)>::empty());
        }
        lemma_kept_from_candidates(cs);
        assert forall|i: int, t: TaskView| 0 <= i < k.len() && #[trigger] tree_tasks(k[i].1).contains(t) implies key_at(
            t,
            depth,
        ) == k[i].0 by {
            let j = choose|j: int| 0 <= j < cs.len() && cs[j] == k[i];
            assert(tree_tasks(cs[j].1).contains(t));
        }
        assert forall|i: int| 0 <= i < k.len() implies names_fit(#[trigger] k[i].1, depth + 1) by {
            let j = choose|j: int| 0 <= j < cs.len() && cs[j] == k[i];
            assert(names_fit(cs[j].1, depth + 1));
        }
        lemma_subs_fit_all(k, depth);
    }
}

/// The subgroups that stay keep the order of the candidates' names.
proof fn lemma_kept_ascend(cs: Seq<(Seq<char>, GroupShape)>)
    requires
        forall|a: int, b: int| 0 <= a < b < cs.len() ==> chars_lt(#[trigger] cs[a].0, #[trigger] cs[b].0),
    ensures
        forall|i: int, j: int|
            0 <= i < j < kept_groups(cs).len() ==> chars_lt(#[trigger] kept_groups(cs)[i].0, #[trigger] kept_groups(cs)[j].0),
    decreases cs.len(),
{
    if cs.len() > 0 {
        let c0 = cs.drop_last();
        let c = cs.last();
        let k0 = kept_groups(c0);
        let k = kept_groups(cs);
        assert forall|a: int, b: int| 0 <= a < b < c0.len() implies chars_lt(#[trigger] c0[a].0, #[trigger] c0[b].0) by {
            assert(c0[a] == cs[a] && c0[b] == cs[b]);
        }
        lemma_kept_ascend(c0);
        lemma_kept_from_candidates(c0);
        if k != k0 {
            assert(k == k0.push(c));
            assert forall|i: int, j: int| 0 <= i < j < k.len() implies chars_lt(#[trigger] k[i].0, #[trigger] k[j].0) by {
                if j < k0.len() {
                    assert(k[i] == k0[i] && k[j] == k0[j]);
                } else {
                    assert(k[i] == k0[i]);
                    let a = choose|a: int| 0 <= a < c0.len() && c0[a] == k0[i];
                    assert(cs[a] == k0[i]);
                    assert(cs[cs.len() - 1] == c);
                }
            }
        }
    }
}

/// Names of each candidate subgroup's subgroups ascend, down the tree.
proof fn lemma_candidates_ascend(s: Seq<TaskView>, depth: int, max_depth: nat, max_groupsize: nat, keys: Seq<Seq<char>>)
    requires
        0 <= depth,
        views_sorted(s),
        share_prefix(s, depth),
        crate::task_list::grouping::paths_reach(s, depth),
        all_defined(s, depth, max_depth, max_groupsize, keys),
    ensures
        forall|i: int|
            0 <= i < keys.len() ==> names_ascend(#[trigger] candidates(s, depth, max_depth, max_groupsize, keys)[i].1),
    decreases max_depth + 1, 0int, 0int,
{
    assert forall|i: int| 0 <= i < keys.len() implies names_ascend(
        #[trigger] candidates(s, depth, max_depth, max_groupsize, keys)[i].1,
    ) by {
        lemma_candidate_at(s, depth, max_depth, max_groupsize, keys, i);
        let tw = tasks_with_key(s, depth, keys[i]);
        lemma_keyed_subsequence(s, depth, keys[i]);
        lemma_keyed_share_prefix(s, depth, keys[i]);
        lemma_all_defined(s, depth, max_depth, max_groupsize, keys, i);
        subgroup_names_ascend(tw, depth + 1, max_depth, max_groupsize);
    }
}

/// Given tasks sorted by path (that share their first `depth` segments, as
/// the tasks of one group do), the subgroups of every group come in
/// strictly increasing order of their names, down the tree (where the
/// grouping is defined, see `grouping_defined`).
pub proof fn subgroup_names_ascend(s: Seq<TaskView>, depth: int, max_depth: nat, max_groupsize: nat)
    requires
        0 <= depth,
        views_sorted(s),
        share_prefix(s, depth),
        grouping_defined(s, depth, max_depth, max_groupsize),
    ensures
        names_ascend(grouping(s, depth, max_depth, max_groupsize)),
    decreases max_depth, 1int, 0int,
{
    if !needs_split(s, max_depth, max_groupsize) {
        assert(subs_ascend(Seq::<(Seq<char>, GroupShape)>::empty()));
    } else {
        let keys = group_keys(s, depth);
        let md = (max_depth - 1) as nat;
        let cs = candidates(s, depth, md, max_groupsize, keys);
        let k = kept_groups(cs);
        lemma_keys_increase(s, depth);
        lemma_candidates_names(s, depth, md, max_groupsize, keys);
        assert forall|a: int, b: int| 0 <= a < b < cs.len() implies chars_lt(#[trigger] cs[a].0, #[trigger] cs[b].0) by {
            assert(sub_names(cs)[a] == cs[a].0);
            assert(sub_names(cs)[b] == cs[b].0);
        }
        lemma_kept_ascend(cs);
        lemma_candidates_ascend(s, depth, md, max_groupsize, keys);
        lemma_kept_from_candidates(cs);
        if keys.len() > 0 {
            lemma_candidate_at(s, depth, md, max_groupsize, keys, 0);
        } else {
            assert(cs == Seq::<(Seq<char>, GroupShape)>::empty());
        }
        assert forall|i: int| 0 <= i < k.len() implies names_ascend(#[trigger] k[i].1) by {
            let j = choose|j: int| 0 <= j < cs.len() && cs[j] == k[i];
            assert(names_ascend(cs[j].1));
        }
        lemma_subs_ascend_all(k);
    }
}

/// In the task list of a command tree, the subgroups of every group come in
/// strictly increasing order of their names (where the grouping is defined,
/// see `grouping_defined`).
pub proof fn task_list_subgroup_names_ascend(c: CommandInfo, max_depth: nat, max_groupsize: nat)
    requires
        grouping_defined(collected_tasks(c), 0, max_depth, max_groupsize),
    ensures
        names_ascend(grouping(collected_tasks(c), 0, max_depth, max_groupsize)),
{
    let s = collected_tasks(c);
    lemma_sorted_insert_all_sorted(Seq::empty(), leaf_tasks(c, Seq::empty()));
    assert forall|i: int, j: int| 0 <= i < s.len() && 0 <= j < s.len() implies (#[trigger] s[i].path).take(0) == (
    #[trigger] s[j].path).take(0) by {
        assert(s[i].path.take(0) =~= Seq::<Seq<char>>::empty());
        assert(s[j].path.take(0) =~= Seq::<Seq<char>>::empty());
    }
    subgroup_names_ascend(s, 0, max_depth, max_groupsize);
}

} // verus!
