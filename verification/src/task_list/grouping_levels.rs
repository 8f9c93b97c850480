//! What holds of the grouping at every level of the tree, and which tasks
//! the grouping can be run on: tasks whose paths are distinct and none a
//! prefix of another (the leaf paths of a command tree whose sibling
//! commands have distinct names).
use vstd::prelude::*;
use crate::task_list::models::{visible_views, GroupShape, TaskView};
use crate::task_list::grouping::{
    candidates, collapsible, group_keys, grouping, grouping_defined, kept_groups, needs_split, paths_reach,
    tasks_with_key,
};
use crate::task_list::grouping_laws::{lemma_candidates_names, lemma_kept_from_candidates, sub_names, subgroups_distinct_and_not_trivial};
use crate::task_list::grouping_order::{
    lemma_candidate_at, lemma_keyed_share_prefix, lemma_keyed_subsequence, share_prefix,
};
use crate::task_list::init::{collected_tasks, lemma_all_defined_iff, CommandInfo};

verus! {

/// At this group and every group below it: the subgroups have distinct
/// names, and none of them holds one visible task or none with nothing below
/// it.
pub open spec fn well_nested(g: GroupShape) -> bool
    decreases g,
{
    sub_names(g.subs).no_duplicates() && subs_well_nested(g.subs)
}

/// Each of the subgroups is not trivial and is itself well nested.
pub open spec fn subs_well_nested(cs: Seq<(Seq<char>, GroupShape)>) -> bool
    decreases cs,
{
    if cs.len() == 0 {
        true
    } else {
        subs_well_nested(cs.drop_last()) && !collapsible(cs.last().1) && well_nested(cs.last().1)
    }
}

proof fn lemma_subs_well_nested_all(cs: Seq<(Seq<char>, GroupShape)>)
    requires
        forall|i: int| 0 <= i < cs.len() ==> !collapsible(#[trigger] cs[i].1) && well_nested(cs[i].1),
    ensures
        subs_well_nested(cs),
    decreases cs.len(),
{
    if cs.len() > 0 {
        assert forall|i: int| 0 <= i < cs.drop_last().len() implies !collapsible(#[trigger] cs.drop_last()[i].1)
            && well_nested(cs.drop_last()[i].1) by {
            assert(cs.drop_last()[i] == cs[i]);
        }
        lemma_subs_well_nested_all(cs.drop_last());
        assert(cs.last() == cs[cs.len() - 1]);
    }
}

/// At every level of the grouping, subgroups have distinct names and a
/// subgroup with one visible task or none and no subgroups of its own is
/// merged into its parent: every subgroup that stays has at least two
/// visible tasks or subgroups of its own.
pub proof fn grouping_is_well_nested(s: Seq<TaskView>, depth: int, max_depth: nat, max_groupsize: nat)
    ensures
        well_nested(grouping(s, depth, max_depth, max_groupsize)),
    decreases max_depth,
{
    let g = grouping(s, depth, max_depth, max_groupsize);
    subgroups_distinct_and_not_trivial(s, depth, max_depth, max_groupsize);
    if needs_split(s, max_depth, max_groupsize) {
        let keys = group_keys(s, depth);
        let md = (max_depth - 1) as nat;
        let cs = candidates(s, depth, md, max_groupsize, keys);
        let k = kept_groups(cs);
        lemma_kept_from_candidates(cs);
        lemma_candidates_names(s, depth, md, max_groupsize, keys);
        assert(cs.len() == sub_names(cs).len());
        assert forall|i: int| 0 <= i < k.len() implies !collapsible(#[trigger] k[i].1) && well_nested(k[i].1) by {
            let j = choose|j: int| 0 <= j < cs.len() && cs[j] == k[i];
            lemma_candidate_at(s, depth, md, max_groupsize, keys, j);
            grouping_is_well_nested(tasks_with_key(s, depth, keys[j]), depth + 1, md, max_groupsize);
        }
        lemma_subs_well_nested_all(k);
    } else {
        assert(subs_well_nested(Seq::<(Seq<char>, GroupShape)>::empty()));
    }
}

/// `a` is `b` or a prefix of it.
pub open spec fn is_prefix_of(a: Seq<Seq<char>>, b: Seq<Seq<char>>) -> bool {
    a.len() <= b.len() && b.take(a.len() as int) == a
}

/// No path is another's, or a prefix of another's.
pub open spec fn prefix_free(s: Seq<TaskView>) -> bool {
    forall|i: int, j: int|
        0 <= i < s.len() && 0 <= j < s.len() && i != j ==> !is_prefix_of(#[trigger] s[i].path, #[trigger] s[j].path)
}

/// The tasks of a key keep the paths prefix free.
proof fn lemma_keyed_prefix_free(s: Seq<TaskView>, depth: int, k: Seq<char>)
    requires
        prefix_free(s),
    ensures
        prefix_free(tasks_with_key(s, depth, k)),
    decreases s.len(),
{
    if s.len() > 0 {
        let s0 = s.drop_last();
        let n = s.len() - 1;
        assert(prefix_free(s0)) by {
            assert forall|i: int, j: int| 0 <= i < s0.len() && 0 <= j < s0.len() && i != j implies !is_prefix_of(
                #[trigger] s0[i].path,
                #[trigger] s0[j].path,
            ) by {
                assert(s0[i] == s[i] && s0[j] == s[j]);
            }
        }
        lemma_keyed_prefix_free(s0, depth, k);
        lemma_keyed_subsequence(s0, depth, k);
        let t0 = tasks_with_key(s0, depth, k);
        let t = tasks_with_key(s, depth, k);
        if t != t0 {
            assert(t == t0.push(s[n]));
            assert forall|i: int, j: int| 0 <= i < t.len() && 0 <= j < t.len() && i != j implies !is_prefix_of(
                #[trigger] t[i].path,
                #[trigger] t[j].path,
            ) by {
                if i < t0.len() && j < t0.len() {
                    assert(t[i] == t0[i] && t[j] == t0[j]);
                } else if i < t0.len() {
                    let p = choose|p: int| 0 <= p < s0.len() && s0[p] == t0[i];
                    assert(t[i] == s[p] && t[j] == s[n]);
                } else {
                    let p = choose|p: int| 0 <= p < s0.len() && s0[p] == t0[j];
                    assert(t[j] == s[p] && t[i] == s[n]);
                }
            }
        }
    }
}

proof fn lemma_visible_views_len(s: Seq<TaskView>)
    ensures
        visible_views(s).len() <= s.len(),
    decreases s.len(),
{
    if s.len() > 0 {
        lemma_visible_views_len(s.drop_last());
    }
}

/// Tasks with distinct paths, none a prefix of another, that share their
/// first `depth` segments can be grouped from `depth` on with any group
/// size limit of at least 1: the grouping never reads a segment past the
/// end of a path.
pub proof fn prefix_free_paths_are_groupable(s: Seq<TaskView>, depth: int, max_depth: nat, max_groupsize: nat)
    requires
        max_groupsize >= 1,
        0 <= depth,
        share_prefix(s, depth),
        prefix_free(s),
    ensures
        grouping_defined(s, depth, max_depth, max_groupsize),
    decreases max_depth,
{
    if needs_split(s, max_depth, max_groupsize) {
        lemma_visible_views_len(s);
        assert(s.len() >= 2);
        assert forall|i: int| 0 <= i < s.len() implies depth < #[trigger] s[i].path.len() by {
            let j = if i == 0 {
                1int
            } else {
                0int
            };
            if s[i].path.len() == depth {
                assert(s[i].path.take(depth) =~= s[i].path);
                assert(s[i].path.take(depth) == s[j].path.take(depth));
                assert(is_prefix_of(s[i].path, s[j].path));
            }
        }
        assert(paths_reach(s, depth));
        let keys = group_keys(s, depth);
        let md = (max_depth - 1) as nat;
        lemma_all_defined_iff(s, depth, md, max_groupsize, keys);
        assert forall|j: int| 0 <= j < keys.len() implies grouping_defined(
            tasks_with_key(s, depth, #[trigger] keys[j]),
            depth + 1,
            md,
            max_groupsize,
        ) by {
            lemma_keyed_share_prefix(s, depth, keys[j]);
            lemma_keyed_prefix_free(s, depth, keys[j]);
            prefix_free_paths_are_groupable(tasks_with_key(s, depth, keys[j]), depth + 1, md, max_groupsize);
        }
    }
}

/// A command tree whose leaf paths are distinct and none a prefix of
/// another (sibling commands with distinct names) gives a task list for any
/// group size limit of at least 1 and any depth limit: it meets the
/// precondition of `TaskList::from_command`.
pub proof fn distinct_command_paths_are_groupable(c: CommandInfo, max_depth: nat, max_groupsize: nat)
    requires
        max_groupsize >= 1,
        prefix_free(collected_tasks(c)),
    ensures
        grouping_defined(collected_tasks(c), 0, max_depth, max_groupsize),
{
    let s = collected_tasks(c);
    assert forall|i: int, j: int| 0 <= i < s.len() && 0 <= j < s.len() implies (#[trigger] s[i].path).take(0) == (
    #[trigger] s[j].path).take(0) by {
        assert(s[i].path.take(0) =~= Seq::<Seq<char>>::empty());
        assert(s[j].path.take(0) =~= Seq::<Seq<char>>::empty());
    }
    prefix_free_paths_are_groupable(s, 0, max_depth, max_groupsize);
}

} // verus!
