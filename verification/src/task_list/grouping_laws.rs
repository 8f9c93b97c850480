//! What the grouping promises of its result: every task of the input is
//! found in exactly one group, a group that is small enough stays flat,
//! subgroups of one group have distinct names, no subgroup is left with a
//! single visible task and nothing below it, and groups nest no deeper than
//! the depth limit.
use vstd::prelude::*;
use vstd::seq_lib::lemma_multiset_commutative;
use crate::task_list::models::{visible_views, GroupShape, TaskView};
use crate::task_list::grouping::{
    candidates, collapsed_tasks, collapsible, group_keys, grouping, key_at, kept_groups,
    lemma_group_keys_absent, lemma_group_keys_distinct, needs_split, tasks_with_key,
};

verus! {

/// All tasks of a group and of its subgroups, depth first.
pub open spec fn tree_tasks(g: GroupShape) -> Seq<TaskView>
    decreases g,
{
    g.direct + subs_tasks(g.subs)
}

/// All tasks of named subgroups, in order.
pub open spec fn subs_tasks(cs: Seq<(Seq<char>, GroupShape)>) -> Seq<TaskView>
    decreases cs,
{
    if cs.len() == 0 {
        Seq::empty()
    } else {
        subs_tasks(cs.drop_last()) + tree_tasks(cs.last().1)
    }
}

/// The tasks of each key, key after key.
pub open spec fn keyed_tasks(s: Seq<TaskView>, depth: int, keys: Seq<Seq<char>>) -> Seq<TaskView>
    decreases keys.len(),
{
    if keys.len() == 0 {
        Seq::empty()
    } else {
        keyed_tasks(s, depth, keys.drop_last()) + tasks_with_key(s, depth, keys.last())
    }
}

/// Taking the tasks key by key, for distinct keys, one task more in `s`
/// adds it once when its key is among the keys and not at all otherwise.
proof fn lemma_keyed_step(s: Seq<TaskView>, depth: int, keys: Seq<Seq<char>>)
    requires
        s.len() > 0,
        keys.no_duplicates(),
    ensures
        keyed_tasks(s, depth, keys).to_multiset() == if keys.contains(key_at(s.last(), depth)) {
            keyed_tasks(s.drop_last(), depth, keys).to_multiset().insert(s.last())
        } else {
            keyed_tasks(s.drop_last(), depth, keys).to_multiset()
        },
    decreases keys.len(),
{
    broadcast use vstd::multiset::group_multiset_axioms;
    broadcast use vstd::seq_lib::group_to_multiset_ensures;

    if keys.len() > 0 {
        let ks = keys.drop_last();
        let k = keys.last();
        let kx = key_at(s.last(), depth);
        assert(ks.no_duplicates());
        lemma_keyed_step(s, depth, ks);
        let a = keyed_tasks(s, depth, ks);
        let a0 = keyed_tasks(s.drop_last(), depth, ks);
        let b = tasks_with_key(s, depth, k);
        let b0 = tasks_with_key(s.drop_last(), depth, k);
        lemma_multiset_commutative(a, b);
        lemma_multiset_commutative(a0, b0);
        assert(keys.contains(kx) <==> ks.contains(kx) || k == kx) by {
            if keys.contains(kx) {
                let j = choose|j: int| 0 <= j < keys.len() && keys[j] == kx;
                if j < keys.len() - 1 {
                    assert(ks[j] == kx);
                }
            }
            if ks.contains(kx) {
                let j = choose|j: int| 0 <= j < ks.len() && ks[j] == kx;
                assert(keys[j] == kx);
            }
        }
        if k == kx && ks.contains(kx) {
            let j = choose|j: int| 0 <= j < ks.len() && ks[j] == kx;
            assert(keys[j] == keys[keys.len() - 1]);
        }
        if k == kx {
            assert(b == b0.push(s.last()));
            assert(a.to_multiset().add(b.to_multiset()) =~= a0.to_multiset().add(b0.to_multiset()).insert(s.last()));
        } else {
            assert(b == b0);
            if ks.contains(kx) {
                assert(a.to_multiset().add(b.to_multiset()) =~= a0.to_multiset().add(b0.to_multiset()).insert(s.last()));
            } else {
                assert(a.to_multiset().add(b.to_multiset()) =~= a0.to_multiset().add(b0.to_multiset()));
            }
        }
    }
}

/// Taking the tasks key by key over all keys gives every task once.
proof fn lemma_keyed_partition(s: Seq<TaskView>, depth: int)
    ensures
        keyed_tasks(s, depth, group_keys(s, depth)).to_multiset() == s.to_multiset(),
    decreases s.len(),
{
    broadcast use vstd::multiset::group_multiset_axioms;
    broadcast use vstd::seq_lib::group_to_multiset_ensures;

    if s.len() == 0 {
        assert(keyed_tasks(s, depth, Seq::empty()) == Seq::<TaskView>::empty());
        assert(s.to_multiset() =~= vstd::multiset::Multiset::empty());
        assert(Seq::<TaskView>::empty().to_multiset() =~= vstd::multiset::Multiset::empty());
    } else {
        let s0 = s.drop_last();
        let x = s.last();
        let kx = key_at(x, depth);
        let gk0 = group_keys(s0, depth);
        lemma_keyed_partition(s0, depth);
        lemma_group_keys_distinct(s0, depth);
        lemma_group_keys_distinct(s, depth);
        assert(s == s0.push(x));
        if gk0.contains(kx) {
            lemma_keyed_step(s, depth, gk0);
        } else {
            let gk = gk0.push(kx);
            assert(gk.drop_last() == gk0);
            lemma_keyed_step(s, depth, gk0);
            lemma_group_keys_absent(s0, depth, kx);
            let a = keyed_tasks(s, depth, gk0);
            let b = tasks_with_key(s, depth, kx);
            assert(b == Seq::<TaskView>::empty().push(x));
            lemma_multiset_commutative(a, b);
        }
    }
}

/// Merging collapsible subgroups back loses and adds no task.
proof fn lemma_collapse_keeps_tasks(cs: Seq<(Seq<char>, GroupShape)>)
    ensures
        (collapsed_tasks(cs) + subs_tasks(kept_groups(cs))).to_multiset() == subs_tasks(cs).to_multiset(),
    decreases cs.len(),
{
    broadcast use vstd::multiset::group_multiset_axioms;

    if cs.len() == 0 {
        assert(collapsed_tasks(cs) + subs_tasks(kept_groups(cs)) == Seq::<TaskView>::empty());
    } else {
        let c0 = cs.drop_last();
        let c = cs.last();
        lemma_collapse_keeps_tasks(c0);
        let col0 = collapsed_tasks(c0);
        let kept0 = subs_tasks(kept_groups(c0));
        lemma_multiset_commutative(col0, kept0);
        lemma_multiset_commutative(subs_tasks(c0), tree_tasks(c.1));
        if collapsible(c.1) {
            assert(tree_tasks(c.1) == c.1.direct) by {
                assert(subs_tasks(c.1.subs) == Seq::<TaskView>::empty());
            }
            lemma_multiset_commutative(col0 + c.1.direct, kept0);
            lemma_multiset_commutative(col0, c.1.direct);
            assert((col0 + c.1.direct + kept0).to_multiset() =~= subs_tasks(cs).to_multiset());
        } else {
            let k = kept_groups(cs);
            assert(k.drop_last() == kept_groups(c0));
            assert(subs_tasks(k) == kept0 + tree_tasks(c.1));
            lemma_multiset_commutative(col0, kept0 + tree_tasks(c.1));
            lemma_multiset_commutative(kept0, tree_tasks(c.1));
            assert((col0 + subs_tasks(k)).to_multiset() =~= subs_tasks(cs).to_multiset());
        }
    }
}

/// The subgroups built for some keys hold the tasks of those keys.
proof fn lemma_candidates_keep_tasks(
    s: Seq<TaskView>,
    depth: int,
    max_depth: nat,
    max_groupsize: nat,
    keys: Seq<Seq<char>>,
)
    ensures
        subs_tasks(candidates(s, depth, max_depth, max_groupsize, keys)).to_multiset() == keyed_tasks(
            s,
            depth,
            keys,
        ).to_multiset(),
    decreases max_depth + 1, 0int, keys.len(),
{
    broadcast use vstd::multiset::group_multiset_axioms;

    if keys.len() > 0 {
        let k = keys.last();
        let cs = candidates(s, depth, max_depth, max_groupsize, keys);
        let cs0 = candidates(s, depth, max_depth, max_groupsize, keys.drop_last());
        let g = grouping(tasks_with_key(s, depth, k), depth + 1, max_depth, max_groupsize);
        assert(cs.drop_last() == cs0);
        assert(cs.last().1 == g);
        lemma_candidates_keep_tasks(s, depth, max_depth, max_groupsize, keys.drop_last());
        grouping_keeps_every_task(tasks_with_key(s, depth, k), depth + 1, max_depth, max_groupsize);
        lemma_multiset_commutative(subs_tasks(cs0), tree_tasks(g));
        lemma_multiset_commutative(keyed_tasks(s, depth, keys.drop_last()), tasks_with_key(s, depth, k));
    } else {
        assert(subs_tasks(Seq::empty()) == Seq::<TaskView>::empty());
    }
}

/// Every task given to the grouping is found in exactly one group of the
/// result: the tasks of all groups, counted with repetition, are the tasks
/// given.
pub proof fn grouping_keeps_every_task(s: Seq<TaskView>, depth: int, max_depth: nat, max_groupsize: nat)
    ensures
        tree_tasks(grouping(s, depth, max_depth, max_groupsize)).to_multiset() == s.to_multiset(),
    decreases max_depth, 1int, 0int,
{
    if !needs_split(s, max_depth, max_groupsize) {
        assert(tree_tasks(grouping(s, depth, max_depth, max_groupsize)) == s) by {
            assert(subs_tasks(Seq::empty()) == Seq::<TaskView>::empty());
        }
    } else {
        let keys = group_keys(s, depth);
        let cs = candidates(s, depth, (max_depth - 1) as nat, max_groupsize, keys);
        lemma_collapse_keeps_tasks(cs);
        lemma_candidates_keep_tasks(s, depth, (max_depth - 1) as nat, max_groupsize, keys);
        lemma_keyed_partition(s, depth);
    }
}


/// A group with no more visible tasks than the group size limit, or with no
/// depth left, is not split: all its tasks are listed directly under it.
pub proof fn small_group_stays_flat(s: Seq<TaskView>, depth: int, max_depth: nat, max_groupsize: nat)
    requires
        visible_views(s).len() <= max_groupsize || max_depth == 0,
    ensures
        grouping(s, depth, max_depth, max_groupsize) == (GroupShape { direct: s, subs: Seq::empty() }),
{
}

/// A group with more visible tasks than the group size limit, and depth
/// left, is split: one candidate subgroup per distinct segment at the
/// current depth, and only the merged-back ones keep their tasks directly
/// under the group.
pub proof fn large_group_is_split(s: Seq<TaskView>, depth: int, max_depth: nat, max_groupsize: nat)
    requires
        visible_views(s).len() > max_groupsize,
        max_depth > 0,
    ensures
        grouping(s, depth, max_depth, max_groupsize).direct == collapsed_tasks(
            candidates(s, depth, (max_depth - 1) as nat, max_groupsize, group_keys(s, depth)),
        ),
        grouping(s, depth, max_depth, max_groupsize).subs == kept_groups(
            candidates(s, depth, (max_depth - 1) as nat, max_groupsize, group_keys(s, depth)),
        ),
{
}

/// The names of subgroups, in order.
pub open spec fn sub_names(cs: Seq<(Seq<char>, GroupShape)>) -> Seq<Seq<char>> {
    cs.map_values(|c: (Seq<char>, GroupShape)| c.0)
}

/// The candidate subgroups are named by the keys, in order.
pub(crate) proof fn lemma_candidates_names(s: Seq<TaskView>, depth: int, max_depth: nat, max_groupsize: nat, keys: Seq<Seq<char>>)
    ensures
        sub_names(candidates(s, depth, max_depth, max_groupsize, keys)) == keys,
    decreases keys.len(),
{
    let cs = candidates(s, depth, max_depth, max_groupsize, keys);
    if keys.len() > 0 {
        lemma_candidates_names(s, depth, max_depth, max_groupsize, keys.drop_last());
        assert(cs.drop_last() == candidates(s, depth, max_depth, max_groupsize, keys.drop_last()));
        assert(sub_names(cs) =~= keys) by {
            assert(sub_names(cs).drop_last() =~= sub_names(cs.drop_last()));
            assert(keys == keys.drop_last().push(keys.last()));
        }
    } else {
        assert(sub_names(cs) =~= keys);
    }
}

/// The subgroups that stay are some of the candidates, in their order, and
/// none of them could have been merged back.
pub(crate) proof fn lemma_kept_from_candidates(cs: Seq<(Seq<char>, GroupShape)>)
    ensures
        forall|i: int| 0 <= i < kept_groups(cs).len() ==> cs.contains(#[trigger] kept_groups(cs)[i]),
        forall|i: int| 0 <= i < kept_groups(cs).len() ==> !collapsible(#[trigger] kept_groups(cs)[i].1),
        sub_names(cs).no_duplicates() ==> sub_names(kept_groups(cs)).no_duplicates(),
    decreases cs.len(),
{
    if cs.len() > 0 {
        let c0 = cs.drop_last();
        let c = cs.last();
        lemma_kept_from_candidates(c0);
        let k0 = kept_groups(c0);
        assert(sub_names(c0) =~= sub_names(cs).drop_last());
        if sub_names(cs).no_duplicates() {
            assert(sub_names(c0).no_duplicates()) by {
                assert forall|i: int, j: int| 0 <= i < sub_names(c0).len() && 0 <= j < sub_names(c0).len() && i != j
                    implies sub_names(c0)[i] != sub_names(c0)[j] by {
                    assert(sub_names(c0)[i] == sub_names(cs)[i]);
                    assert(sub_names(c0)[j] == sub_names(cs)[j]);
                }
            }
        }
        assert forall|i: int| 0 <= i < k0.len() implies cs.contains(#[trigger] k0[i]) by {
            let j = choose|j: int| 0 <= j < c0.len() && c0[j] == k0[i];
            assert(cs[j] == k0[i]);
        }
        if !collapsible(c.1) {
            let k = kept_groups(cs);
            assert(k == k0.push(c));
            assert(cs[cs.len() - 1] == c);
            if sub_names(cs).no_duplicates() {
                assert(sub_names(k).no_duplicates()) by {
                    assert forall|i: int, j: int| 0 <= i < sub_names(k).len() && 0 <= j < sub_names(k).len() && i != j
                        implies sub_names(k)[i] != sub_names(k)[j] by {
                        if i < k0.len() && j < k0.len() {
                            assert(sub_names(k)[i] == sub_names(k0)[i]);
                            assert(sub_names(k)[j] == sub_names(k0)[j]);
                        } else if i < k0.len() {
                            let a = choose|a: int| 0 <= a < c0.len() && c0[a] == k0[i];
                            assert(sub_names(cs)[a] == sub_names(k)[i]);
                            assert(sub_names(cs)[cs.len() - 1] == sub_names(k)[j]);
                        } else if j < k0.len() {
                            let a = choose|a: int| 0 <= a < c0.len() && c0[a] == k0[j];
                            assert(sub_names(cs)[a] == sub_names(k)[j]);
                            assert(sub_names(cs)[cs.len() - 1] == sub_names(k)[i]);
                        }
                    }
                }
            }
        }
    }
}

/// The subgroups of a group have distinct names, and none of them holds a
/// single visible task (or none) and nothing below it: such a subgroup is
/// merged back into its parent.
pub proof fn subgroups_distinct_and_not_trivial(s: Seq<TaskView>, depth: int, max_depth: nat, max_groupsize: nat)
    ensures
        sub_names(grouping(s, depth, max_depth, max_groupsize).subs).no_duplicates(),
        forall|i: int|
            0 <= i < grouping(s, depth, max_depth, max_groupsize).subs.len() ==> !collapsible(
                #[trigger] grouping(s, depth, max_depth, max_groupsize).subs[i].1,
            ),
{
    if needs_split(s, max_depth, max_groupsize) {
        let keys = group_keys(s, depth);
        let cs = candidates(s, depth, (max_depth - 1) as nat, max_groupsize, keys);
        lemma_group_keys_distinct(s, depth);
        lemma_candidates_names(s, depth, (max_depth - 1) as nat, max_groupsize, keys);
        lemma_kept_from_candidates(cs);
    } else {
        assert(sub_names(Seq::<(Seq<char>, GroupShape)>::empty()) =~= Seq::<Seq<char>>::empty());
    }
}

/// How deep groups nest below a group: 0 without subgroups.
pub open spec fn nesting(g: GroupShape) -> nat
    decreases g,
{
    if g.subs.len() == 0 {
        0
    } else {
        1 + subs_nesting(g.subs)
    }
}

/// The deepest nesting of named subgroups.
pub open spec fn subs_nesting(cs: Seq<(Seq<char>, GroupShape)>) -> nat
    decreases cs,
{
    if cs.len() == 0 {
        0
    } else {
        let a = subs_nesting(cs.drop_last());
        let b = nesting(cs.last().1);
        if a > b {
            a
        } else {
            b
        }
    }
}

/// When each of some subgroups nests at most `b` deep, so do all of them.
proof fn lemma_subs_nesting_bound(cs: Seq<(Seq<char>, GroupShape)>, b: nat)
    requires
        forall|i: int| 0 <= i < cs.len() ==> nesting(#[trigger] cs[i].1) <= b,
    ensures
        subs_nesting(cs) <= b,
    decreases cs.len(),
{
    if cs.len() > 0 {
        assert forall|i: int| 0 <= i < cs.drop_last().len() implies nesting(#[trigger] cs.drop_last()[i].1) <= b by {
            assert(cs.drop_last()[i] == cs[i]);
        }
        lemma_subs_nesting_bound(cs.drop_last(), b);
        assert(cs.last() == cs[cs.len() - 1]);
    }
}

/// Each candidate subgroup is the grouping of the tasks of its key.
proof fn lemma_candidates_nesting(s: Seq<TaskView>, depth: int, max_depth: nat, max_groupsize: nat, keys: Seq<Seq<char>>)
    ensures
        forall|i: int|
            0 <= i < candidates(s, depth, max_depth, max_groupsize, keys).len() ==> nesting(
                #[trigger] candidates(s, depth, max_depth, max_groupsize, keys)[i].1,
            ) <= max_depth,
    decreases max_depth + 1, 0int, keys.len(),
{
    let cs = candidates(s, depth, max_depth, max_groupsize, keys);
    if keys.len() > 0 {
        let c0 = candidates(s, depth, max_depth, max_groupsize, keys.drop_last());
        lemma_candidates_nesting(s, depth, max_depth, max_groupsize, keys.drop_last());
        groups_nest_within_depth_limit(tasks_with_key(s, depth, keys.last()), depth + 1, max_depth, max_groupsize);
        assert forall|i: int| 0 <= i < cs.len() implies nesting(#[trigger] cs[i].1) <= max_depth by {
            if i < cs.len() - 1 {
                assert(cs[i] == c0[i]);
            }
        }
    }
}

/// Groups nest no deeper than the depth limit: at the limit nothing is
/// split further, however many tasks a group holds.
pub proof fn groups_nest_within_depth_limit(s: Seq<TaskView>, depth: int, max_depth: nat, max_groupsize: nat)
    ensures
        nesting(grouping(s, depth, max_depth, max_groupsize)) <= max_depth,
    decreases max_depth, 1int, 0int,
{
    if needs_split(s, max_depth, max_groupsize) {
        let keys = group_keys(s, depth);
        let md = (max_depth - 1) as nat;
        let cs = candidates(s, depth, md, max_groupsize, keys);
        let k = kept_groups(cs);
        lemma_candidates_nesting(s, depth, md, max_groupsize, keys);
        lemma_kept_from_candidates(cs);
        assert forall|i: int| 0 <= i < k.len() implies nesting(#[trigger] k[i].1) <= md by {
            let j = choose|j: int| 0 <= j < cs.len() && cs[j] == k[i];
            assert(nesting(cs[j].1) <= md);
        }
        lemma_subs_nesting_bound(k, md);
    }
}

} // verus!
