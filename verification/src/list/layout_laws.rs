//! How the lines of the overview are laid out: the description (and an
//! empty line) first, then each group's own lines, in order, with exactly
//! one empty line between two groups and none before the first or after
//! the last.
use vstd::prelude::*;
use crate::list::models::{ListGroupView, ListView, RenderConfig};
use crate::list::models::ListTaskView;
use crate::list::render::{align_column, group_lines, groups_lines, list_lines, spaces, task_line};

verus! {

/// The number of lines of a group: two for a header (its name and an empty
/// line), then one per task.
pub open spec fn group_line_count(g: ListGroupView) -> int {
    (if g.header is Some {
        2int
    } else {
        0int
    }) + g.tasks.len()
}

/// The number of lines of the groups, not counting what separates them.
pub open spec fn lines_of_groups(gs: Seq<ListGroupView>) -> int
    decreases gs.len(),
{
    if gs.len() == 0 {
        0
    } else {
        lines_of_groups(gs.drop_last()) + group_line_count(gs.last())
    }
}

/// Where the lines of group `i` begin, among the lines of the groups: past
/// the lines of the groups before it and one separating line for each.
pub open spec fn group_start(gs: Seq<ListGroupView>, i: int) -> int {
    lines_of_groups(gs.take(i)) + i
}

proof fn lemma_group_lines_len(g: ListGroupView, c: RenderConfig, align: int)
    ensures
        group_lines(g, c, align).len() == group_line_count(g),
{
    match g.header {
        Some(n) => {},
        None => {},
    }
}

proof fn lemma_lines_nonneg(gs: Seq<ListGroupView>)
    ensures
        lines_of_groups(gs) >= 0,
    decreases gs.len(),
{
    if gs.len() > 0 {
        lemma_lines_nonneg(gs.drop_last());
    }
}

proof fn lemma_prefix_subrange(a: Seq<Seq<char>>, b: Seq<Seq<char>>, x: int, y: int)
    requires
        0 <= x <= y <= a.len(),
    ensures
        (a + b).subrange(x, y) == a.subrange(x, y),
{
    assert((a + b).subrange(x, y) =~= a.subrange(x, y));
}

#[verifier::rlimit(40)]
proof fn lemma_groups_layout(gs: Seq<ListGroupView>, c: RenderConfig, align: int)
    ensures
        groups_lines(gs, c, align).len() == lines_of_groups(gs) + (if gs.len() > 0 {
            gs.len() - 1
        } else {
            0int
        }),
        forall|i: int|
            0 <= i < gs.len() ==> group_start(gs, i) + group_line_count(#[trigger] gs[i]) <= groups_lines(gs, c, align).len()
                && groups_lines(gs, c, align).subrange(group_start(gs, i), group_start(gs, i) + group_line_count(gs[i]))
                == group_lines(gs[i], c, align),
        forall|i: int| 0 < i < gs.len() ==> groups_lines(gs, c, align)[#[trigger] group_start(gs, i) - 1] == Seq::<char>::empty(),
    decreases gs.len(),
{
    if gs.len() > 0 {
        let g0 = gs.drop_last();
        let n = gs.len() - 1;
        lemma_groups_layout(g0, c, align);
        let a = groups_lines(g0, c, align);
        let sep: Seq<Seq<char>> = if gs.len() > 1 {
            seq![Seq::<char>::empty()]
        } else {
            Seq::empty()
        };
        let gl = group_lines(gs.last(), c, align);
        let all = groups_lines(gs, c, align);
        assert(all == a + sep + gl);
        lemma_group_lines_len(gs.last(), c, align);
        assert(gs.take(n) == g0);
        assert forall|i: int| 0 <= i < gs.len() implies group_start(gs, i) + group_line_count(#[trigger] gs[i])
            <= all.len() && all.subrange(group_start(gs, i), group_start(gs, i) + group_line_count(gs[i]))
            == group_lines(gs[i], c, align) by {
            if i < n {
                assert(gs.take(i) == g0.take(i));
                assert(g0[i] == gs[i]);
                let st = group_start(g0, i);
                let cn = group_line_count(g0[i]);
                lemma_lines_nonneg(g0.take(i));
                assert(st + cn <= a.len());
                assert(a.subrange(st, st + cn) == group_lines(g0[i], c, align));
                lemma_prefix_subrange(a, sep + gl, st, st + cn);
                assert(all == a + (sep + gl));
            } else {
                assert(gs[i] == gs.last());
                assert(group_start(gs, i) == a.len() + sep.len());
                assert(all.subrange(group_start(gs, i), group_start(gs, i) + group_line_count(gs[i])) =~= gl);
            }
        }
        assert forall|i: int| 0 < i < gs.len() implies all[#[trigger] group_start(gs, i) - 1] == Seq::<char>::empty() by {
            if i < n {
                assert(gs.take(i) == g0.take(i));
                assert(g0[i] == gs[i]);
                lemma_lines_nonneg(g0.take(i));
                assert(group_start(g0, i) + group_line_count(g0[i]) <= a.len());
                assert(all[group_start(gs, i) - 1] == a[group_start(g0, i) - 1]);
            } else {
                assert(all[group_start(gs, i) - 1] == sep[0]);
            }
        }
    }
}

/// The overview's lines: the description line and an empty line when there
/// is a description; then, for each group in order, its header (with an
/// empty line) and one line per task, at the place that the groups before
/// it leave; exactly one empty line right before every group but the
/// first; and nothing else, so that there are as many lines as the
/// description, the groups' own lines and one line between each two
/// groups make.
#[verifier::rlimit(50)]
pub proof fn groups_are_separated_by_one_empty_line(l: ListView, c: RenderConfig)
    ensures
        ({
            let lines = list_lines(l, c);
            let d = if l.description is Some {
                2int
            } else {
                0int
            };
            let gs = l.groups;
            &&& lines.len() == d + lines_of_groups(gs) + (if gs.len() > 0 {
                gs.len() - 1
            } else {
                0int
            })
            &&& l.description is Some ==> lines[1] == Seq::<char>::empty()
            &&& forall|i: int|
                0 <= i < gs.len() ==> 0 <= group_start(gs, i) && d + group_start(gs, i) + group_line_count(#[trigger] gs[i])
                    <= lines.len() && lines.subrange(
                    d + group_start(gs, i),
                    d + group_start(gs, i) + group_line_count(gs[i]),
                ) == group_lines(gs[i], c, crate::list::render::align_column(l, c))
            &&& forall|i: int| 0 < i < gs.len() ==> lines[d + #[trigger] group_start(gs, i) - 1] == Seq::<char>::empty()
        }),
{
    let a = crate::list::render::align_column(l, c);
    let gs = l.groups;
    let d = if l.description is Some {
        2int
    } else {
        0int
    };
    let head: Seq<Seq<char>> = match l.description {
        Some(x) => seq![crate::list::render::colored(c.use_colors, x, crate::list::style::bold(crate::list::style::fg("\x1b[36m"@, x))), Seq::<char>::empty()],
        None => Seq::empty(),
    };
    let g = groups_lines(gs, c, a);
    lemma_groups_layout(gs, c, a);
    let lines = list_lines(l, c);
    assert(lines == head + g);
    assert(head.len() == d);
    assert forall|i: int| 0 <= i < gs.len() implies 0 <= group_start(gs, i) && d + group_start(gs, i) + group_line_count(
        #[trigger] gs[i],
    ) <= lines.len() && lines.subrange(
        d + group_start(gs, i),
        d + group_start(gs, i) + group_line_count(gs[i]),
    ) == group_lines(gs[i], c, a) by {
        lemma_lines_nonneg(gs.take(i));
        assert(group_start(gs, i) + group_line_count(gs[i]) <= g.len());
        assert(lines.subrange(d + group_start(gs, i), d + group_start(gs, i) + group_line_count(gs[i])) =~= g.subrange(
            group_start(gs, i),
            group_start(gs, i) + group_line_count(gs[i]),
        ));
    }
    assert forall|i: int| 0 < i < gs.len() implies lines[d + #[trigger] group_start(gs, i) - 1] == Seq::<char>::empty() by {
        lemma_lines_nonneg(gs.take(i));
        assert(group_start(gs, i) + group_line_count(gs[i]) <= g.len());
        assert(lines[d + group_start(gs, i) - 1] == g[group_start(gs, i) - 1]);
    }
}

/// A line shows a task plainly: the indent and the task's name; when the
/// task has a description, then a space, a filler of the span token, a
/// space and the description, which ends the line; nothing more otherwise.
pub open spec fn shows_task_plainly(line: Seq<char>, t: ListTaskView, c: RenderConfig) -> bool {
    let p = spaces(c.task_indent as nat) + t.name;
    &&& line.take(p.len() as int) == p
    &&& t.description is None ==> line == p
    &&& t.description matches Some(x) ==> {
        &&& line.len() >= p.len() + 2 + x.len()
        &&& line.skip(line.len() - x.len()) == x
        &&& line[p.len() as int] == ' '
        &&& line[line.len() - x.len() - 1] == ' '
        &&& forall|k: int| p.len() + 1 <= k < line.len() - x.len() - 1 ==> #[trigger] line[k] == c.span_token
    }
}

/// Without colours, a task's line is its indent and its name; when it has
/// a description, then a space, a filler of the span token, a space and the
/// description, which ends the line.
proof fn lemma_plain_task_line(t: ListTaskView, c: RenderConfig, align: int)
    requires
        !c.use_colors,
    ensures
        shows_task_plainly(task_line(t, c, align), t, c),
{
    let line = task_line(t, c, align);
    let p = spaces(c.task_indent as nat) + t.name;
    match t.description {
        Some(x) => {
            let gap = crate::list::render::repeat_char(c.span_token, crate::list::render::gap_len(align, c.task_indent as int, crate::list::style::str_width(t.name) as int));
            assert(line == p + (seq![' '] + gap + seq![' '] + x));
            assert(line.take(p.len() as int) =~= p);
            assert(line.skip(line.len() - x.len()) =~= x);
            assert forall|k: int| p.len() + 1 <= k < line.len() - x.len() - 1 implies #[trigger] line[k] == c.span_token by {
                assert(line[k] == gap[k - p.len() - 1]);
            }
        },
        None => {
            assert(line =~= p);
            assert(line.take(p.len() as int) =~= p);
        },
    }
}

/// Without colours the overview shows its text plainly: the description
/// first; each header as its indent and its name, followed by an empty
/// line; and each task, in its group's order, as a line that starts with
/// the indent and the task's name and, when the task has a description,
/// ends with a space, a filler of the span token, a space and the
/// description, and is the indent and the name alone otherwise.
#[verifier::rlimit(60)]
#[verifier::spinoff_prover]
pub proof fn plain_overview_shows_names_and_descriptions(l: ListView, c: RenderConfig)
    requires
        !c.use_colors,
    ensures
        ({
            let lines = list_lines(l, c);
            let d = if l.description is Some {
                2int
            } else {
                0int
            };
            let gs = l.groups;
            &&& l.description matches Some(x) ==> lines[0] == x
            &&& forall|i: int|
                0 <= i < gs.len() ==> ((#[trigger] gs[i]).header matches Some(h) ==> lines[d + group_start(gs, i)]
                    == spaces(c.header_indent as nat) + h && lines[d + group_start(gs, i) + 1] == Seq::<char>::empty())
            &&& forall|i: int, j: int|
                0 <= i < gs.len() && 0 <= j < gs[i].tasks.len() ==> ({
                    let t = #[trigger] gs[i].tasks[j];
                    shows_task_plainly(lines[d + group_start(gs, i) + (if gs[i].header is Some { 2int } else { 0int }) + j], t, c)
                })
        }),
{
    let lines = list_lines(l, c);
    let d = if l.description is Some {
        2int
    } else {
        0int
    };
    let gs = l.groups;
    let a = align_column(l, c);
    groups_are_separated_by_one_empty_line(l, c);
    assert forall|i: int| 0 <= i < gs.len() implies ((#[trigger] gs[i]).header matches Some(h) ==> lines[d + group_start(gs, i)]
        == spaces(c.header_indent as nat) + h && lines[d + group_start(gs, i) + 1] == Seq::<char>::empty()) by {
        let st = d + group_start(gs, i);
        let gl = group_lines(gs[i], c, a);
        assert(lines.subrange(st, st + group_line_count(gs[i])) == gl);
        assert(0 <= group_start(gs, i) && st + group_line_count(gs[i]) <= lines.len());
        if let Some(h) = gs[i].header {
            assert(lines[st] == gl[0]);
            assert(lines[st + 1] == gl[1]);
        }
    }
    assert forall|i: int, j: int| 0 <= i < gs.len() && 0 <= j < gs[i].tasks.len() implies ({
        let t = #[trigger] gs[i].tasks[j];
        shows_task_plainly(lines[d + group_start(gs, i) + (if gs[i].header is Some { 2int } else { 0int }) + j], t, c)
    }) by {
        let st = d + group_start(gs, i);
        let g = gs[i];
        let gl = group_lines(g, c, a);
        let hc: int = if g.header is Some { 2 } else { 0 };
        assert(lines.subrange(st, st + group_line_count(g)) == gl);
        assert(0 <= group_start(gs, i) && st + group_line_count(g) <= lines.len());
        assert(lines[st + hc + j] == gl[hc + j]);
        assert(gl[hc + j] == task_line(g.tasks[j], c, a));
        lemma_plain_task_line(g.tasks[j], c, a);
    }
}

} // verus!
