//! What the overview promises: it lists, over all its groups, the visible
//! tasks of the grouped tree depth first, each once, under its full name;
//! so an overview of grouped tasks lists every visible task given to the
//! grouping exactly once.
use vstd::prelude::*;

use crate::task_list::models::{visible_views, GroupShape, TaskView};
use crate::task_list::grouping::grouping;
use crate::task_list::init::{collected_tasks, leaf_tasks, CommandInfo};
use crate::task_list::models::sorted_insertion_keeps_every_task;
use crate::task_list::grouping_laws::{grouping_keeps_every_task, subs_tasks, tree_tasks};
use crate::list::conversion::{list_groups, list_task_of, list_tasks_of, sub_list_groups};
use crate::list::models::{ListGroupView, ListTaskView, ListView, RenderConfig};
use crate::list::render::{align_column, all_names, gap_len, max_width};
use crate::list::style::str_width;

verus! {

/// The tasks of the groups of an overview, group after group.
pub open spec fn listed_tasks(gs: Seq<ListGroupView>) -> Seq<ListTaskView>
    decreases gs.len(),
{
    if gs.len() == 0 {
        Seq::empty()
    } else {
        listed_tasks(gs.drop_last()) + gs.last().tasks
    }
}

proof fn lemma_listed_tasks_concat(a: Seq<ListGroupView>, b: Seq<ListGroupView>)
    ensures
        listed_tasks(a + b) == listed_tasks(a) + listed_tasks(b),
    decreases b.len(),
{
    if b.len() == 0 {
        assert(a + b == a);
        assert(listed_tasks(a) + Seq::<ListTaskView>::empty() == listed_tasks(a));
    } else {
        assert((a + b).drop_last() == a + b.drop_last());
        lemma_listed_tasks_concat(a, b.drop_last());
    }
}

proof fn lemma_visible_views_concat(a: Seq<TaskView>, b: Seq<TaskView>)
    ensures
        visible_views(a + b) == visible_views(a) + visible_views(b),
    decreases b.len(),
{
    if b.len() == 0 {
        assert(a + b == a);
        assert(visible_views(a) + Seq::<TaskView>::empty() == visible_views(a));
    } else {
        assert((a + b).drop_last() == a + b.drop_last());
        lemma_visible_views_concat(a, b.drop_last());
    }
}

proof fn lemma_list_tasks_concat(a: Seq<TaskView>, b: Seq<TaskView>, sep: Seq<char>)
    ensures
        list_tasks_of(a + b, sep) == list_tasks_of(a, sep) + list_tasks_of(b, sep),
{
    lemma_visible_views_concat(a, b);
    assert(list_tasks_of(a + b, sep) =~= list_tasks_of(a, sep) + list_tasks_of(b, sep));
}

/// Listing the groups of a group lists the visible tasks of the group and
/// of its subgroups, depth first.
proof fn lemma_list_groups_tasks(g: GroupShape, sep: Seq<char>, path: Seq<Seq<char>>)
    ensures
        listed_tasks(list_groups(g, sep, path)) == list_tasks_of(tree_tasks(g), sep),
    decreases g, 1int,
{
    let own = ListGroupView {
        header: if path.len() == 0 { None } else { Some(crate::list::conversion::join(path, sep)) },
        tasks: list_tasks_of(g.direct, sep),
    };
    lemma_sub_list_groups_tasks(g.subs, sep, path);
    lemma_listed_tasks_concat(seq![own], sub_list_groups(g.subs, sep, path));
    assert(seq![own].drop_last() == Seq::<ListGroupView>::empty());
    reveal_with_fuel(listed_tasks, 2);
    assert(listed_tasks(seq![own]) == Seq::<ListTaskView>::empty() + own.tasks);
    assert(Seq::<ListTaskView>::empty() + own.tasks == own.tasks);
    lemma_list_tasks_concat(g.direct, subs_tasks(g.subs), sep);
}

proof fn lemma_sub_list_groups_tasks(subs: Seq<(Seq<char>, GroupShape)>, sep: Seq<char>, path: Seq<Seq<char>>)
    ensures
        listed_tasks(sub_list_groups(subs, sep, path)) == list_tasks_of(subs_tasks(subs), sep),
    decreases subs, 0int,
{
    if subs.len() == 0 {
        assert(list_tasks_of(Seq::empty(), sep) =~= Seq::<ListTaskView>::empty());
    } else {
        let last = subs.last();
        assert(subs.len() - 1 < subs.len());
        assert(decreases_to!(subs => subs[subs.len() - 1]));
        lemma_sub_list_groups_tasks(subs.drop_last(), sep, path);
        lemma_list_groups_tasks(last.1, sep, path.push(last.0));
        lemma_listed_tasks_concat(
            sub_list_groups(subs.drop_last(), sep, path),
            list_groups(last.1, sep, path.push(last.0)),
        );
        lemma_list_tasks_concat(subs_tasks(subs.drop_last()), tree_tasks(last.1), sep);
    }
}

/// The overview of a group tree lists, over all its groups, exactly the
/// visible tasks of the tree, depth first, each under its full name.
pub proof fn overview_lists_tree_tasks(g: GroupShape, sep: Seq<char>)
    ensures
        listed_tasks(list_groups(g, sep, Seq::empty())) == list_tasks_of(tree_tasks(g), sep),
{
    lemma_list_groups_tasks(g, sep, Seq::empty());
}

/// Listing one task more lists it once more when it is visible.
proof fn lemma_list_tasks_push(s: Seq<TaskView>, x: TaskView, sep: Seq<char>)
    ensures
        list_tasks_of(s.push(x), sep) == if x.hidden {
            list_tasks_of(s, sep)
        } else {
            list_tasks_of(s, sep).push(list_task_of(x, sep))
        },
{
    assert(s.push(x).drop_last() == s);
    assert(list_tasks_of(s.push(x), sep) =~= if x.hidden {
        list_tasks_of(s, sep)
    } else {
        list_tasks_of(s, sep).push(list_task_of(x, sep))
    });
}

/// Listing a sequence with one task taken out lists that task once less
/// when it is visible.
proof fn lemma_list_tasks_remove(b: Seq<TaskView>, i: int, sep: Seq<char>)
    requires
        0 <= i < b.len(),
    ensures
        list_tasks_of(b, sep).to_multiset() == if b[i].hidden {
            list_tasks_of(b.remove(i), sep).to_multiset()
        } else {
            list_tasks_of(b.remove(i), sep).to_multiset().insert(list_task_of(b[i], sep))
        },
    decreases b.len(),
{
    broadcast use vstd::multiset::group_multiset_axioms;
    broadcast use vstd::seq_lib::group_to_multiset_ensures;

    let b0 = b.drop_last();
    let y = b.last();
    assert(b == b0.push(y));
    lemma_list_tasks_push(b0, y, sep);
    if i == b.len() - 1 {
        assert(b.remove(i) == b0);
    } else {
        lemma_list_tasks_remove(b0, i, sep);
        assert(b.remove(i) == b0.remove(i).push(y));
        lemma_list_tasks_push(b0.remove(i), y, sep);
        assert(b0[i] == b[i]);
        if !y.hidden && !b[i].hidden {
            assert(list_tasks_of(b, sep).to_multiset() =~= list_tasks_of(b.remove(i), sep).to_multiset().insert(
                list_task_of(b[i], sep),
            ));
        }
    }
}

/// Sequences of the same tasks, counted with repetition, list the same
/// tasks.
pub proof fn lemma_list_tasks_permutation(a: Seq<TaskView>, b: Seq<TaskView>, sep: Seq<char>)
    requires
        a.to_multiset() == b.to_multiset(),
    ensures
        list_tasks_of(a, sep).to_multiset() == list_tasks_of(b, sep).to_multiset(),
    decreases a.len(),
{
    broadcast use vstd::multiset::group_multiset_axioms;
    broadcast use vstd::seq_lib::group_to_multiset_ensures;

    if a.len() == 0 {
        vstd::seq_lib::to_multiset_len(a);
        vstd::seq_lib::to_multiset_len(b);
        assert(b.len() == 0);
        assert(a == b);
    } else {
        let a0 = a.drop_last();
        let x = a.last();
        assert(a == a0.push(x));
        assert(a.to_multiset().count(x) > 0);
        vstd::seq_lib::to_multiset_contains(b, x);
        let i = choose|i: int| 0 <= i < b.len() && b[i] == x;
        vstd::seq_lib::to_multiset_remove(b, i);
        assert(a0.to_multiset() =~= b.remove(i).to_multiset());
        lemma_list_tasks_permutation(a0, b.remove(i), sep);
        lemma_list_tasks_push(a0, x, sep);
        lemma_list_tasks_remove(b, i, sep);
    }
}

/// The overview of grouped tasks lists every visible task given to the
/// grouping exactly once, under its full name, and nothing else: counted
/// with repetition, the listed tasks are the visible tasks given.
pub proof fn overview_lists_every_visible_task(
    s: Seq<TaskView>,
    max_depth: nat,
    max_groupsize: nat,
    sep: Seq<char>,
)
    ensures
        listed_tasks(list_groups(grouping(s, 0, max_depth, max_groupsize), sep, Seq::empty())).to_multiset()
            == list_tasks_of(s, sep).to_multiset(),
{
    let g = grouping(s, 0, max_depth, max_groupsize);
    overview_lists_tree_tasks(g, sep);
    grouping_keeps_every_task(s, 0, max_depth, max_groupsize);
    lemma_list_tasks_permutation(tree_tasks(g), s, sep);
}

/// No name is wider than the widest.
proof fn lemma_max_width_bound(names: Seq<Seq<char>>, k: int)
    requires
        0 <= k < names.len(),
    ensures
        str_width(names[k]) <= max_width(names),
    decreases names.len(),
{
    if k < names.len() - 1 {
        lemma_max_width_bound(names.drop_last(), k);
        assert(names.drop_last()[k] == names[k]);
    }
}

/// The place of a task's name among all names of the overview.
proof fn lemma_name_index(gs: Seq<ListGroupView>, i: int, j: int) -> (k: int)
    requires
        0 <= i < gs.len(),
        0 <= j < gs[i].tasks.len(),
    ensures
        0 <= k < all_names(gs).len(),
        all_names(gs)[k] == gs[i].tasks[j].name,
    decreases gs.len(),
{
    let prev = all_names(gs.drop_last());
    if i == gs.len() - 1 {
        prev.len() + j
    } else {
        assert(gs.drop_last()[i] == gs[i]);
        lemma_name_index(gs.drop_last(), i, j)
    }
}

/// The descriptions of all tasks of an overview start at one column: for
/// every task, the indent, the width of its name and its filler add up to
/// the alignment column, which leaves room for the widest name and the
/// minimal gap.
pub proof fn descriptions_line_up(l: ListView, c: RenderConfig, i: int, j: int)
    requires
        0 <= i < l.groups.len(),
        0 <= j < l.groups[i].tasks.len(),
    ensures
        c.task_indent + str_width(l.groups[i].tasks[j].name) + gap_len(
            align_column(l, c),
            c.task_indent as int,
            str_width(l.groups[i].tasks[j].name) as int,
        ) == align_column(l, c),
        gap_len(align_column(l, c), c.task_indent as int, str_width(l.groups[i].tasks[j].name) as int) >= c.min_gap,
{
    let k = lemma_name_index(l.groups, i, j);
    lemma_max_width_bound(all_names(l.groups), k);
}

/// The overview of a command tree lists every visible leaf command exactly
/// once, under its full name joined by the separator, and nothing else.
pub proof fn command_overview_lists_every_visible_leaf(
    c: CommandInfo,
    max_depth: nat,
    max_groupsize: nat,
    sep: Seq<char>,
)
    ensures
        listed_tasks(list_groups(grouping(collected_tasks(c), 0, max_depth, max_groupsize), sep, Seq::empty())).to_multiset()
            == list_tasks_of(leaf_tasks(c, Seq::empty()), sep).to_multiset(),
{
    broadcast use vstd::multiset::group_multiset_axioms;
    broadcast use vstd::seq_lib::group_to_multiset_ensures;

    let leaves = leaf_tasks(c, Seq::empty());
    overview_lists_every_visible_task(collected_tasks(c), max_depth, max_groupsize, sep);
    sorted_insertion_keeps_every_task(Seq::empty(), leaves);
    assert(Seq::<TaskView>::empty().to_multiset() =~= vstd::multiset::Multiset::empty());
    assert(collected_tasks(c).to_multiset() =~= leaves.to_multiset());
    lemma_list_tasks_permutation(collected_tasks(c), leaves, sep);
}

} // verus!
