//! The grouping keeps the order of the tasks: given tasks sorted by path,
//! every group lists its own tasks sorted by path.
use vstd::prelude::*;
use crate::task_list::path_order::{
    chars_lt, lemma_chars_lt_asymmetric, lemma_chars_lt_irreflexive, lemma_chars_lt_total, lemma_path_lt_after_prefix,
    lemma_path_lt_asymmetric, lemma_path_lt_total, lemma_path_lt_transitive, path_lt,
};
use crate::task_list::models::{insert_pos, sorted_insert, sorted_insert_all, GroupShape, TaskView};
use crate::task_list::init::{collected_tasks, CommandInfo};
use crate::task_list::grouping::{
    all_defined, candidates, collapsed_tasks, collapsible, group_keys, grouping, grouping_defined, kept_groups, key_at,
    lemma_all_defined, needs_split, paths_reach, tasks_with_key,
};
use crate::task_list::grouping_laws::{grouping_keeps_every_task, lemma_kept_from_candidates, tree_tasks};

verus! {

/// No task comes after a later one.
pub open spec fn views_sorted(s: Seq<TaskView>) -> bool {
    forall|i: int, j: int| 0 <= i < j < s.len() ==> !path_lt(#[trigger] s[j].path, #[trigger] s[i].path)
}

/// All paths have at least `depth` segments, and the same first `depth`.
pub open spec fn share_prefix(s: Seq<TaskView>, depth: int) -> bool {
    &&& forall|i: int| 0 <= i < s.len() ==> depth <= #[trigger] s[i].path.len()
    &&& forall|i: int, j: int|
        0 <= i < s.len() && 0 <= j < s.len() ==> (#[trigger] s[i].path).take(depth) == (#[trigger] s[j].path).take(depth)
}

/// The tasks of a key are tasks of `s` with that key, in the order of `s`.
pub(crate) proof fn lemma_keyed_subsequence(s: Seq<TaskView>, depth: int, k: Seq<char>)
    ensures
        forall|i: int|
            0 <= i < tasks_with_key(s, depth, k).len() ==> s.contains(#[trigger] tasks_with_key(s, depth, k)[i])
                && key_at(tasks_with_key(s, depth, k)[i], depth) == k,
        views_sorted(s) ==> views_sorted(tasks_with_key(s, depth, k)),
    decreases s.len(),
{
    if s.len() > 0 {
        let s0 = s.drop_last();
        let x = s.last();
        let t0 = tasks_with_key(s0, depth, k);
        let t = tasks_with_key(s, depth, k);
        lemma_keyed_subsequence(s0, depth, k);
        assert forall|i: int| 0 <= i < t0.len() implies s.contains(#[trigger] t0[i]) by {
            let p = choose|p: int| 0 <= p < s0.len() && s0[p] == t0[i];
            assert(s[p] == t0[i]);
        }
        if key_at(x, depth) == k {
            assert(t == t0.push(x));
            assert(s[s.len() - 1] == x);
            assert forall|i: int| 0 <= i < t.len() implies s.contains(#[trigger] t[i]) && key_at(t[i], depth) == k by {
                if i < t0.len() {
                    assert(t[i] == t0[i]);
                }
            }
            if views_sorted(s) {
                assert(views_sorted(s0)) by {
                    assert forall|i: int, j: int| 0 <= i < j < s0.len() implies !path_lt(
                        #[trigger] s0[j].path,
                        #[trigger] s0[i].path,
                    ) by {
                        assert(s0[i] == s[i] && s0[j] == s[j]);
                    }
                }
                assert forall|i: int, j: int| 0 <= i < j < t.len() implies !path_lt(
                    #[trigger] t[j].path,
                    #[trigger] t[i].path,
                ) by {
                    if j < t.len() - 1 {
                        assert(t[i] == t0[i] && t[j] == t0[j]);
                    } else {
                        assert(t[i] == t0[i]);
                        let p = choose|p: int| 0 <= p < s0.len() && s0[p] == t0[i];
                        assert(s[p] == t0[i]);
                        assert(t[j] == s[s.len() - 1]);
                    }
                }
            }
        } else {
            assert(t == t0);
            if views_sorted(s) {
                assert(views_sorted(s0)) by {
                    assert forall|i: int, j: int| 0 <= i < j < s0.len() implies !path_lt(
                        #[trigger] s0[j].path,
                        #[trigger] s0[i].path,
                    ) by {
                        assert(s0[i] == s[i] && s0[j] == s[j]);
                    }
                }
            }
        }
    }
}

/// Every key is the segment of some task.
proof fn lemma_key_occurs(s: Seq<TaskView>, depth: int, j: int)
    requires
        0 <= j < group_keys(s, depth).len(),
    ensures
        exists|p: int| 0 <= p < s.len() && key_at(#[trigger] s[p], depth) == group_keys(s, depth)[j],
    decreases s.len(),
{
    let s0 = s.drop_last();
    let gk0 = group_keys(s0, depth);
    if j < gk0.len() {
        lemma_key_occurs(s0, depth, j);
        let p = choose|p: int| 0 <= p < s0.len() && key_at(#[trigger] s0[p], depth) == gk0[j];
        assert(s[p] == s0[p]);
        if gk0.contains(key_at(s.last(), depth)) {
        } else {
            assert(group_keys(s, depth)[j] == gk0[j]);
        }
    } else {
        assert(s[s.len() - 1] == s.last());
    }
}

/// For paths with the same first `depth` segments and different segments at
/// `depth`, the order of the paths is that of those segments.
proof fn lemma_order_at_depth(a: Seq<Seq<char>>, b: Seq<Seq<char>>, depth: int)
    requires
        0 <= depth < a.len(),
        depth < b.len(),
        a.take(depth) == b.take(depth),
        a[depth] != b[depth],
    ensures
        path_lt(a, b) <==> chars_lt(a[depth], b[depth]),
        path_lt(a, b) || path_lt(b, a),
{
    lemma_path_lt_after_prefix(a, b, depth);
    lemma_path_lt_after_prefix(b, a, depth);
    let x = a.skip(depth);
    let y = b.skip(depth);
    assert(x[0] == a[depth]);
    assert(y[0] == b[depth]);
    lemma_chars_lt_total(a[depth], b[depth]);
    lemma_chars_lt_asymmetric(a[depth], b[depth]);
}

/// In sorted tasks that share their first `depth` segments, the keys come
/// in increasing order.
pub(crate) proof fn lemma_keys_increase(s: Seq<TaskView>, depth: int)
    requires
        0 <= depth,
        views_sorted(s),
        share_prefix(s, depth),
        paths_reach(s, depth),
    ensures
        forall|i: int, j: int|
            0 <= i < j < group_keys(s, depth).len() ==> chars_lt(
                #[trigger] group_keys(s, depth)[i],
                #[trigger] group_keys(s, depth)[j],
            ),
    decreases s.len(),
{
    if s.len() > 0 {
        let s0 = s.drop_last();
        let x = s.last();
        let kx = key_at(x, depth);
        let gk0 = group_keys(s0, depth);
        let gk = group_keys(s, depth);
        assert(views_sorted(s0)) by {
            assert forall|i: int, j: int| 0 <= i < j < s0.len() implies !path_lt(
                #[trigger] s0[j].path,
                #[trigger] s0[i].path,
            ) by {
                assert(s0[i] == s[i] && s0[j] == s[j]);
            }
        }
        assert(share_prefix(s0, depth)) by {
            assert forall|i: int| 0 <= i < s0.len() implies depth <= #[trigger] s0[i].path.len() by {
                assert(s0[i] == s[i]);
            }
            assert forall|i: int, j: int| 0 <= i < s0.len() && 0 <= j < s0.len() implies (
            #[trigger] s0[i].path).take(depth) == (#[trigger] s0[j].path).take(depth) by {
                assert(s0[i] == s[i] && s0[j] == s[j]);
            }
        }
        assert(paths_reach(s0, depth)) by {
            assert forall|i: int| 0 <= i < s0.len() implies depth < #[trigger] s0[i].path.len() by {
                assert(s0[i] == s[i]);
            }
        }
        lemma_keys_increase(s0, depth);
        if !gk0.contains(kx) {
            assert(gk == gk0.push(kx));
            assert forall|i: int, j: int| 0 <= i < j < gk.len() implies chars_lt(#[trigger] gk[i], #[trigger] gk[j]) by {
                if j < gk.len() - 1 {
                    assert(gk[i] == gk0[i] && gk[j] == gk0[j]);
                } else {
                    assert(gk[i] == gk0[i]);
                    lemma_key_occurs(s0, depth, i);
                    let p = choose|p: int| 0 <= p < s0.len() && key_at(#[trigger] s0[p], depth) == gk0[i];
                    assert(s[p] == s0[p]);
                    let last = s.len() - 1;
                    assert(s[last] == x);
                    assert(gk0[i] != kx);
                    assert(!path_lt(s[last].path, s[p].path));
                    assert(s[p].path.take(depth) == s[last].path.take(depth));
                    lemma_order_at_depth(s[p].path, x.path, depth);
                }
            }
        }
    }
}

/// The tasks of one key share one more segment.
pub(crate) proof fn lemma_keyed_share_prefix(s: Seq<TaskView>, depth: int, k: Seq<char>)
    requires
        0 <= depth,
        share_prefix(s, depth),
        paths_reach(s, depth),
    ensures
        share_prefix(tasks_with_key(s, depth, k), depth + 1),
{
    let t = tasks_with_key(s, depth, k);
    lemma_keyed_subsequence(s, depth, k);
    assert forall|i: int| 0 <= i < t.len() implies depth + 1 <= #[trigger] t[i].path.len() by {
        let p = choose|p: int| 0 <= p < s.len() && s[p] == t[i];
        assert(depth < s[p].path.len());
    }
    assert forall|i: int, j: int| 0 <= i < t.len() && 0 <= j < t.len() implies (#[trigger] t[i].path).take(depth + 1)
        == (#[trigger] t[j].path).take(depth + 1) by {
        let p = choose|p: int| 0 <= p < s.len() && s[p] == t[i];
        let q = choose|q: int| 0 <= q < s.len() && s[q] == t[j];
        assert(depth < s[p].path.len() && depth < s[q].path.len());
        assert(s[p].path.take(depth) == s[q].path.take(depth));
        assert(t[i].path.take(depth + 1) == t[i].path.take(depth).push(t[i].path[depth]));
        assert(t[j].path.take(depth + 1) == t[j].path.take(depth).push(t[j].path[depth]));
    }
}

/// A task of an earlier key comes before every task of a later key.
proof fn lemma_blocks_ordered(s: Seq<TaskView>, depth: int, i: int, j: int, a: TaskView, b: TaskView)
    requires
        0 <= depth,
        views_sorted(s),
        share_prefix(s, depth),
        paths_reach(s, depth),
        0 <= i < j < group_keys(s, depth).len(),
        s.contains(a),
        s.contains(b),
        key_at(a, depth) == group_keys(s, depth)[i],
        key_at(b, depth) == group_keys(s, depth)[j],
    ensures
        path_lt(a.path, b.path),
{
    lemma_keys_increase(s, depth);
    let gk = group_keys(s, depth);
    assert(chars_lt(gk[i], gk[j]));
    lemma_chars_lt_irreflexive(gk[i]);
    let p = choose|p: int| 0 <= p < s.len() && s[p] == a;
    let q = choose|q: int| 0 <= q < s.len() && s[q] == b;
    assert(depth < s[p].path.len() && depth < s[q].path.len());
    assert(s[p].path.take(depth) == s[q].path.take(depth));
    lemma_order_at_depth(a.path, b.path, depth);
}

/// The candidate subgroup at `i` is the grouping of the tasks of key `i`.
pub(crate) proof fn lemma_candidate_at(s: Seq<TaskView>, depth: int, max_depth: nat, max_groupsize: nat, keys: Seq<Seq<char>>, i: int)
    requires
        0 <= i < keys.len(),
    ensures
        candidates(s, depth, max_depth, max_groupsize, keys).len() == keys.len(),
        candidates(s, depth, max_depth, max_groupsize, keys)[i] == (
            keys[i],
            grouping(tasks_with_key(s, depth, keys[i]), depth + 1, max_depth, max_groupsize),
        ),
    decreases keys.len(),
{
    let k0 = keys.drop_last();
    let cs0 = candidates(s, depth, max_depth, max_groupsize, k0);
    let cs = candidates(s, depth, max_depth, max_groupsize, keys);
    assert(cs == cs0.push((keys.last(), grouping(tasks_with_key(s, depth, keys.last()), depth + 1, max_depth, max_groupsize))));
    if keys.len() > 1 {
        if i < keys.len() - 1 {
            lemma_candidate_at(s, depth, max_depth, max_groupsize, k0, i);
            assert(k0[i] == keys[i]);
        } else {
            lemma_candidate_at(s, depth, max_depth, max_groupsize, k0, 0);
        }
    } else {
        assert(cs0 == Seq::<(Seq<char>, GroupShape)>::empty());
    }
}

/// Each group, and each of its subgroups, lists its own tasks in path order.
pub open spec fn groups_sorted(g: GroupShape) -> bool
    decreases g,
{
    views_sorted(g.direct) && subs_sorted(g.subs)
}

/// Each of the subgroups lists its tasks in path order, down the tree.
pub open spec fn subs_sorted(cs: Seq<(Seq<char>, GroupShape)>) -> bool
    decreases cs,
{
    if cs.len() == 0 {
        true
    } else {
        subs_sorted(cs.drop_last()) && groups_sorted(cs.last().1)
    }
}

proof fn lemma_subs_sorted_all(cs: Seq<(Seq<char>, GroupShape)>)
    ensures
        subs_sorted(cs) <== forall|i: int| 0 <= i < cs.len() ==> groups_sorted(#[trigger] cs[i].1),
    decreases cs.len(),
{
    if cs.len() > 0 {
        if forall|i: int| 0 <= i < cs.len() ==> groups_sorted(#[trigger] cs[i].1) {
            assert forall|i: int| 0 <= i < cs.drop_last().len() implies groups_sorted(#[trigger] cs.drop_last()[i].1) by {
                assert(cs.drop_last()[i] == cs[i]);
            }
            assert(cs.last() == cs[cs.len() - 1]);
        }
        lemma_subs_sorted_all(cs.drop_last());
    }
}

/// A task listed directly under the group of a key is a task of `s` with
/// that key.
proof fn lemma_direct_member(
    s: Seq<TaskView>,
    depth: int,
    max_depth: nat,
    max_groupsize: nat,
    k: Seq<char>,
    t: TaskView,
)
    requires
        grouping(tasks_with_key(s, depth, k), depth + 1, max_depth, max_groupsize).direct.contains(t),
    ensures
        s.contains(t),
        key_at(t, depth) == k,
{
    broadcast use vstd::seq_lib::group_to_multiset_ensures;

    let tw = tasks_with_key(s, depth, k);
    let g = grouping(tw, depth + 1, max_depth, max_groupsize);
    grouping_keeps_every_task(tw, depth + 1, max_depth, max_groupsize);
    let p = choose|p: int| 0 <= p < g.direct.len() && g.direct[p] == t;
    assert(tree_tasks(g)[p] == t);
    vstd::seq_lib::to_multiset_contains(tree_tasks(g), t);
    vstd::seq_lib::to_multiset_contains(tw, t);
    lemma_keyed_subsequence(s, depth, k);
    let q = choose|q: int| 0 <= q < tw.len() && tw[q] == t;
}

/// The tasks of merged-back subgroups, key after key, are in path order
/// when each subgroup's own tasks are.
proof fn lemma_collapsed_sorted(cs: Seq<(Seq<char>, GroupShape)>, s: Seq<TaskView>, depth: int)
    requires
        0 <= depth,
        views_sorted(s),
        share_prefix(s, depth),
        paths_reach(s, depth),
        cs.len() <= group_keys(s, depth).len(),
        forall|i: int| 0 <= i < cs.len() ==> views_sorted(#[trigger] cs[i].1.direct),
        forall|i: int, t: TaskView|
            0 <= i < cs.len() && (#[trigger] cs[i].1.direct.contains(t)) ==> s.contains(t) && key_at(t, depth)
                == group_keys(s, depth)[i],
    ensures
        views_sorted(collapsed_tasks(cs)),
        forall|m: int|
            0 <= m < collapsed_tasks(cs).len() ==> s.contains(#[trigger] collapsed_tasks(cs)[m]) && exists|i: int|
                0 <= i < cs.len() && key_at(collapsed_tasks(cs)[m], depth) == group_keys(s, depth)[i],
    decreases cs.len(),
{
    if cs.len() > 0 {
        let n = cs.len() - 1;
        let cs0 = cs.drop_last();
        let c = cs.last();
        let gk = group_keys(s, depth);
        assert(c == cs[n]);
        assert forall|i: int, t: TaskView| 0 <= i < cs0.len() && (#[trigger] cs0[i].1.direct.contains(t)) implies s.contains(t)
            && key_at(t, depth) == gk[i] by {
            assert(cs0[i] == cs[i]);
        }
        assert forall|i: int| 0 <= i < cs0.len() implies views_sorted(#[trigger] cs0[i].1.direct) by {
            assert(cs0[i] == cs[i]);
        }
        lemma_collapsed_sorted(cs0, s, depth);
        let col0 = collapsed_tasks(cs0);
        let col = collapsed_tasks(cs);
        if collapsible(c.1) {
            let d = c.1.direct;
            assert(col == col0 + d);
            assert forall|m: int| 0 <= m < col.len() implies s.contains(#[trigger] col[m]) && exists|i: int|
                0 <= i < cs.len() && key_at(col[m], depth) == gk[i] by {
                if m < col0.len() {
                    assert(col[m] == col0[m]);
                    let i = choose|i: int| 0 <= i < cs0.len() && key_at(col0[m], depth) == gk[i];
                    assert(key_at(col[m], depth) == gk[i]);
                } else {
                    assert(col[m] == d[m - col0.len()]);
                    assert(d.contains(d[m - col0.len()]));
                    assert(cs[n].1.direct.contains(col[m]));
                }
            }
            assert forall|x: int, y: int| 0 <= x < y < col.len() implies !path_lt(#[trigger] col[y].path, #[trigger] col[x].path) by {
                if y < col0.len() {
                    assert(col[x] == col0[x] && col[y] == col0[y]);
                } else if x >= col0.len() {
                    assert(col[x] == d[x - col0.len()] && col[y] == d[y - col0.len()]);
                } else {
                    assert(col[x] == col0[x]);
                    assert(col[y] == d[y - col0.len()]);
                    let i = choose|i: int| 0 <= i < cs0.len() && key_at(col0[x], depth) == gk[i];
                    assert(d.contains(d[y - col0.len()]));
                    assert(cs[n].1.direct.contains(col[y]));
                    lemma_blocks_ordered(s, depth, i, n, col[x], col[y]);
                    lemma_path_lt_asymmetric(col[x].path, col[y].path);
                }
            }
        } else {
            assert(col == col0);
        }
    }
}

/// Each candidate subgroup keeps the order of its tasks.
proof fn lemma_candidates_sorted(s: Seq<TaskView>, depth: int, max_depth: nat, max_groupsize: nat, keys: Seq<Seq<char>>)
    requires
        0 <= depth,
        views_sorted(s),
        share_prefix(s, depth),
        paths_reach(s, depth),
        all_defined(s, depth, max_depth, max_groupsize, keys),
    ensures
        forall|i: int|
            0 <= i < keys.len() ==> groups_sorted(#[trigger] candidates(s, depth, max_depth, max_groupsize, keys)[i].1),
    decreases max_depth + 1, 0int, 0int,
{
    assert forall|i: int| 0 <= i < keys.len() implies groups_sorted(
        #[trigger] candidates(s, depth, max_depth, max_groupsize, keys)[i].1,
    ) by {
        lemma_candidate_at(s, depth, max_depth, max_groupsize, keys, i);
        let tw = tasks_with_key(s, depth, keys[i]);
        lemma_keyed_subsequence(s, depth, keys[i]);
        lemma_keyed_share_prefix(s, depth, keys[i]);
        lemma_all_defined(s, depth, max_depth, max_groupsize, keys, i);
        grouped_tasks_stay_sorted(tw, depth + 1, max_depth, max_groupsize);
    }
}

/// Given tasks sorted by path, every group of the grouping, and every group
/// below it, lists its own tasks sorted by path.  (Tasks merged back from
/// small subgroups come before the subgroups that stay, so the overview as
/// a whole is sorted group by group, not across groups.)
pub proof fn grouped_tasks_stay_sorted(s: Seq<TaskView>, depth: int, max_depth: nat, max_groupsize: nat)
    requires
        0 <= depth,
        views_sorted(s),
        share_prefix(s, depth),
        grouping_defined(s, depth, max_depth, max_groupsize),
    ensures
        groups_sorted(grouping(s, depth, max_depth, max_groupsize)),
    decreases max_depth, 1int, 0int,
{
    if !needs_split(s, max_depth, max_groupsize) {
        assert(subs_sorted(Seq::<(Seq<char>, GroupShape)>::empty()));
    } else {
        let keys = group_keys(s, depth);
        let md = (max_depth - 1) as nat;
        let cs = candidates(s, depth, md, max_groupsize, keys);
        lemma_candidates_sorted(s, depth, md, max_groupsize, keys);
        if keys.len() > 0 {
            lemma_candidate_at(s, depth, md, max_groupsize, keys, 0);
        } else {
            assert(cs == Seq::<(Seq<char>, GroupShape)>::empty());
        }
        assert forall|i: int| 0 <= i < cs.len() implies views_sorted(#[trigger] cs[i].1.direct) by {
            assert(groups_sorted(cs[i].1));
        }
        assert forall|i: int, t: TaskView| 0 <= i < cs.len() && (#[trigger] cs[i].1.direct.contains(t)) implies s.contains(t)
            && key_at(t, depth) == keys[i] by {
            lemma_candidate_at(s, depth, md, max_groupsize, keys, i);
            lemma_direct_member(s, depth, md, max_groupsize, keys[i], t);
        }
        lemma_collapsed_sorted(cs, s, depth);
        let k = kept_groups(cs);
        lemma_kept_from_candidates(cs);
        assert forall|i: int| 0 <= i < k.len() implies groups_sorted(#[trigger] k[i].1) by {
            let j = choose|j: int| 0 <= j < cs.len() && cs[j] == k[i];
            assert(groups_sorted(cs[j].1));
        }
        lemma_subs_sorted_all(k);
    }
}

/// In sorted tasks, the insertion place of `t` parts the tasks that come
/// before `t` from the others.
proof fn lemma_insert_pos_parts(s: Seq<TaskView>, t: TaskView)
    requires
        views_sorted(s),
    ensures
        0 <= insert_pos(s, t) <= s.len(),
        forall|i: int| 0 <= i < insert_pos(s, t) ==> path_lt(#[trigger] s[i].path, t.path),
        forall|i: int| insert_pos(s, t) <= i < s.len() ==> !path_lt(#[trigger] s[i].path, t.path),
    decreases s.len(),
{
    if s.len() > 0 {
        let s0 = s.drop_last();
        let x = s.last();
        let n = s.len() - 1;
        assert(x == s[n]);
        assert(views_sorted(s0)) by {
            assert forall|i: int, j: int| 0 <= i < j < s0.len() implies !path_lt(
                #[trigger] s0[j].path,
                #[trigger] s0[i].path,
            ) by {
                assert(s0[i] == s[i] && s0[j] == s[j]);
            }
        }
        lemma_insert_pos_parts(s0, t);
        let p0 = insert_pos(s0, t);
        assert forall|i: int| 0 <= i < n implies #[trigger] s[i] == s0[i] by {}
        if path_lt(x.path, t.path) && p0 < s0.len() {
            assert(!path_lt(s0[p0].path, t.path));
            assert(!path_lt(x.path, s[p0].path));
            lemma_path_lt_total(s0[p0].path, x.path);
            lemma_path_lt_transitive(s0[p0].path, x.path, t.path);
        }
    }
}

/// Inserting a task in path order into sorted tasks leaves them sorted.
proof fn lemma_sorted_insert_sorted(s: Seq<TaskView>, t: TaskView)
    requires
        views_sorted(s),
    ensures
        views_sorted(sorted_insert(s, t)),
{
    lemma_insert_pos_parts(s, t);
    let p = insert_pos(s, t);
    let r = sorted_insert(s, t);
    assert(r == s.insert(p, t));
    assert forall|i: int, j: int| 0 <= i < j < r.len() implies !path_lt(#[trigger] r[j].path, #[trigger] r[i].path) by {
        if j < p {
            assert(r[i] == s[i] && r[j] == s[j]);
        } else if j == p {
            assert(r[i] == s[i]);
            lemma_path_lt_asymmetric(s[i].path, t.path);
        } else if i < p {
            assert(r[i] == s[i] && r[j] == s[j - 1]);
        } else if i == p {
            assert(r[j] == s[j - 1]);
        } else {
            assert(r[i] == s[i - 1] && r[j] == s[j - 1]);
        }
    }
}

/// Inserting tasks one by one in path order gives sorted tasks.
pub(crate) proof fn lemma_sorted_insert_all_sorted(acc: Seq<TaskView>, ts: Seq<TaskView>)
    requires
        views_sorted(acc),
    ensures
        views_sorted(sorted_insert_all(acc, ts)),
    decreases ts.len(),
{
    if ts.len() > 0 {
        lemma_sorted_insert_all_sorted(acc, ts.drop_last());
        lemma_sorted_insert_sorted(sorted_insert_all(acc, ts.drop_last()), ts.last());
    }
}

/// Every group of the task list of a command tree, and every group below
/// it, lists its own tasks sorted by path (where the grouping is defined,
/// see `grouping_defined`).
pub proof fn task_list_groups_are_sorted(c: CommandInfo, max_depth: nat, max_groupsize: nat)
    requires
        grouping_defined(collected_tasks(c), 0, max_depth, max_groupsize),
    ensures
        groups_sorted(grouping(collected_tasks(c), 0, max_depth, max_groupsize)),
{
    let s = collected_tasks(c);
    lemma_sorted_insert_all_sorted(Seq::empty(), crate::task_list::init::leaf_tasks(c, Seq::empty()));
    assert forall|i: int, j: int| 0 <= i < s.len() && 0 <= j < s.len() implies (#[trigger] s[i].path).take(0) == (
    #[trigger] s[j].path).take(0) by {
        assert(s[i].path.take(0) =~= Seq::<Seq<char>>::empty());
        assert(s[j].path.take(0) =~= Seq::<Seq<char>>::empty());
    }
    grouped_tasks_stay_sorted(s, 0, max_depth, max_groupsize);
}

} // verus!
