//! The lines of the task overview.  Task names are padded with the span
//! token up to a common column, so that descriptions line up; colours are
//! applied when the configuration asks for them.
use vstd::prelude::*;
use crate::text::{chars_of, string_from_chars};
use crate::list::models::{List, ListGroup, ListGroupHeader, ListGroupView, ListTask, ListTaskView, ListView, RenderConfig};
use crate::list::style::{
    bold, display_width, fg, str_width, style_bright_black, style_bright_blue_bold, style_cyan_bold,
    style_green, style_yellow,
};

verus! {

/// `n` spaces.
pub open spec fn spaces(n: nat) -> Seq<char> {
    Seq::new(n, |i: int| ' ')
}

/// `n` copies of `c`.
pub open spec fn repeat_char(c: char, n: nat) -> Seq<char> {
    Seq::new(n, |i: int| c)
}

/// The styled text when colours are on, the plain text when they are off.
pub open spec fn colored(use_colors: bool, text: Seq<char>, styled: Seq<char>) -> Seq<char> {
    if use_colors {
        styled
    } else {
        text
    }
}

/// The filler between a task name and the alignment column: what is left of
/// the column after the indent and the name, or nothing.
pub open spec fn gap_len(align: int, indent: int, width: int) -> nat {
    if align > indent + width {
        (align - indent - width) as nat
    } else {
        0
    }
}

/// The line of a task: indent, name, and, when it has a description, a
/// space, the filler, a space and the description.
pub open spec fn task_line(t: ListTaskView, c: RenderConfig, align: int) -> Seq<char> {
    spaces(c.task_indent as nat) + colored(c.use_colors, t.name, fg("\x1b[32m"@, t.name)) + match t.description {
        Some(d) => {
            let gap = repeat_char(c.span_token, gap_len(align, c.task_indent as int, str_width(t.name) as int));
            seq![' '] + colored(c.use_colors, gap, fg("\x1b[90m"@, gap)) + seq![' '] + colored(
                c.use_colors,
                d,
                fg("\x1b[33m"@, d),
            )
        },
        None => Seq::empty(),
    }
}

/// The lines of a group header: the indented name and an empty line, or
/// nothing for a group without a name.
pub open spec fn header_lines(h: Option<Seq<char>>, c: RenderConfig) -> Seq<Seq<char>> {
    match h {
        Some(n) => seq![
            spaces(c.header_indent as nat) + colored(c.use_colors, n, bold(fg("\x1b[94m"@, n))),
            Seq::empty(),
        ],
        None => Seq::empty(),
    }
}

/// The lines of a group: its header, then one line per task.
pub open spec fn group_lines(g: ListGroupView, c: RenderConfig, align: int) -> Seq<Seq<char>> {
    header_lines(g.header, c) + g.tasks.map_values(|t: ListTaskView| task_line(t, c, align))
}

/// The lines of the groups, an empty line between two groups.
pub open spec fn groups_lines(gs: Seq<ListGroupView>, c: RenderConfig, align: int) -> Seq<Seq<char>>
    decreases gs.len(),
{
    if gs.len() == 0 {
        Seq::empty()
    } else {
        groups_lines(gs.drop_last(), c, align) + (if gs.len() > 1 {
            seq![Seq::<char>::empty()]
        } else {
            Seq::empty()
        }) + group_lines(gs.last(), c, align)
    }
}

/// The task names of the groups, in order.
pub open spec fn all_names(gs: Seq<ListGroupView>) -> Seq<Seq<char>>
    decreases gs.len(),
{
    if gs.len() == 0 {
        Seq::empty()
    } else {
        all_names(gs.drop_last()) + gs.last().tasks.map_values(|t: ListTaskView| t.name)
    }
}

/// The widest of the names, 0 when there are none.
pub open spec fn max_width(names: Seq<Seq<char>>) -> nat
    decreases names.len(),
{
    if names.len() == 0 {
        0
    } else {
        let m = max_width(names.drop_last());
        let w = str_width(names.last()) as nat;
        if w > m {
            w
        } else {
            m
        }
    }
}

/// The column where the fillers end: indent, widest name, minimal gap.
pub open spec fn align_column(l: ListView, c: RenderConfig) -> int {
    c.task_indent + max_width(all_names(l.groups)) + c.min_gap
}

/// The alignment column fits in a `usize`.
pub open spec fn align_fits(l: ListView, c: RenderConfig) -> bool {
    align_column(l, c) <= usize::MAX
}

/// The lines of the overview: the description and an empty line when there
/// is a description, then the groups.
pub open spec fn list_lines(l: ListView, c: RenderConfig) -> Seq<Seq<char>> {
    (match l.description {
        Some(d) => seq![colored(c.use_colors, d, bold(fg("\x1b[36m"@, d))), Seq::<char>::empty()],
        None => Seq::empty(),
    }) + groups_lines(l.groups, c, align_column(l, c))
}

/// The characters of each line.
pub open spec fn lines_view(v: Seq<String>) -> Seq<Seq<char>> {
    v.map_values(|s: String| s@)
}

/// Appends `n` copies of `c`.
fn push_repeat(v: &mut Vec<char>, c: char, n: usize)
    ensures
        final(v)@ == old(v)@ + repeat_char(c, n as nat),
{
    let mut i: usize = 0;
    while i < n
        invariant
            i <= n,
            v@ == old(v)@ + repeat_char(c, i as nat),
        decreases n - i,
    {
        v.push(c);
        assert(repeat_char(c, (i + 1) as nat) == repeat_char(c, i as nat).push(c));
        i = i + 1;
    }
}

/// Appends the characters of a string.
fn push_chars(v: &mut Vec<char>, s: &str)
    ensures
        final(v)@ == old(v)@ + s@,
{
    let cs = chars_of(s);
    let mut i: usize = 0;
    while i < cs.len()
        invariant
            i <= cs@.len(),
            v@ == old(v)@ + cs@.take(i as int),
        decreases cs@.len() - i,
    {
        v.push(cs[i]);
        assert(cs@.take(i + 1) == cs@.take(i as int).push(cs@[i as int]));
        i = i + 1;
    }
    assert(cs@.take(cs@.len() as int) == cs@);
}

/// The text, styled or plain.
fn colored_text(use_colors: bool, text: &str, styled: String) -> (r: String)
    ensures
        r@ == colored(use_colors, text@, styled@),
{
    if use_colors {
        styled
    } else {
        string_from_chars(&chars_of(text))
    }
}

impl ListGroupHeader {
    /// The lines of the header.
    pub fn render_lines(&self, config: &RenderConfig) -> (r: Vec<String>)
        ensures
            lines_view(r@) == header_lines(crate::task_list::models::opt_chars(self.name), *config),
    {
        let mut r: Vec<String> = Vec::new();
        match &self.name {
            Some(header) => {
                let mut line: Vec<char> = Vec::new();
                push_repeat(&mut line, ' ', config.header_indent);
                let styled = colored_text(config.use_colors, header.as_str(), style_bright_blue_bold(header.as_str()));
                push_chars(&mut line, styled.as_str());
                assert(repeat_char(' ', config.header_indent as nat) == spaces(config.header_indent as nat));
                r.push(string_from_chars(&line));
                r.push(String::new());
            },
            None => {},
        }
        assert(lines_view(r@) =~= header_lines(crate::task_list::models::opt_chars(self.name), *config));
        r
    }
}

impl ListTask {
    /// The line of the task, its description starting past `align_col`.
    pub fn render_line(&self, config: &RenderConfig, align_col: usize) -> (r: String)
        requires
            config.task_indent + str_width(self.name@) <= usize::MAX,
        ensures
            r@ == task_line(self@, *config, align_col as int),
    {
        let mut line: Vec<char> = Vec::new();
        push_repeat(&mut line, ' ', config.task_indent);
        assert(repeat_char(' ', config.task_indent as nat) == spaces(config.task_indent as nat));
        let name_width = display_width(self.name.as_str());
        let name_styled = colored_text(config.use_colors, self.name.as_str(), style_green(self.name.as_str()));
        push_chars(&mut line, name_styled.as_str());
        let ghost base = line@;
        match &self.description {
            Some(desc) => {
                let current_pos = config.task_indent + name_width;
                let gap_size = if align_col > current_pos {
                    align_col - current_pos
                } else {
                    0
                };
                let mut gap_chars: Vec<char> = Vec::new();
                push_repeat(&mut gap_chars, config.span_token, gap_size);
                let gap = string_from_chars(&gap_chars);
                let gap_styled = colored_text(config.use_colors, gap.as_str(), style_bright_black(gap.as_str()));
                let desc_styled = colored_text(config.use_colors, desc.as_str(), style_yellow(desc.as_str()));
                line.push(' ');
                push_chars(&mut line, gap_styled.as_str());
                line.push(' ');
                push_chars(&mut line, desc_styled.as_str());
                assert(line@ =~= task_line(self@, *config, align_col as int));
            },
            None => {
                assert(line@ =~= task_line(self@, *config, align_col as int));
            },
        }
        string_from_chars(&line)
    }
}

impl ListGroup {
    /// The lines of the group: header, then tasks.
    pub fn render_lines(&self, config: &RenderConfig, align_col: usize) -> (r: Vec<String>)
        requires
            forall|i: int| 0 <= i < self.tasks@.len() ==> config.task_indent + str_width(#[trigger] self.tasks@[i].name@) <= usize::MAX,
        ensures
            lines_view(r@) == group_lines(self@, *config, align_col as int),
    {
        let mut r = self.header.render_lines(config);
        let ghost h = r@;
        let mut i: usize = 0;
        while i < self.tasks.len()
            invariant
                i <= self.tasks@.len(),
                forall|k: int| 0 <= k < self.tasks@.len() ==> config.task_indent + str_width(#[trigger] self.tasks@[k].name@) <= usize::MAX,
                lines_view(r@) == lines_view(h) + self@.tasks.take(i as int).map_values(|t: ListTaskView| task_line(t, *config, align_col as int)),
            decreases self.tasks@.len() - i,
        {
            let line = self.tasks[i].render_line(config, align_col);
            let ghost r0 = r@;
            r.push(line);
            assert(self@.tasks[i as int] == self.tasks@[i as int]@);
            assert(self@.tasks.take(i + 1) == self@.tasks.take(i as int).push(self@.tasks[i as int]));
            assert(lines_view(r@) == lines_view(r0).push(line@));
            i = i + 1;
        }
        assert(self@.tasks.take(self.tasks@.len() as int) == self@.tasks);
        r
    }
}

/// No name is wider than the widest.
pub proof fn lemma_max_width_elem(names: Seq<Seq<char>>, k: int)
    requires
        0 <= k < names.len(),
    ensures
        str_width(names[k]) <= max_width(names),
    decreases names.len(),
{
    if k < names.len() - 1 {
        lemma_max_width_elem(names.drop_last(), k);
    }
}

/// Adding names never narrows the widest.
pub proof fn lemma_max_width_prefix(a: Seq<Seq<char>>, b: Seq<Seq<char>>)
    ensures
        max_width(a) <= max_width(a + b),
    decreases b.len(),
{
    if b.len() == 0 {
        assert(a + b == a);
    } else {
        assert((a + b).drop_last() == a + b.drop_last());
        lemma_max_width_prefix(a, b.drop_last());
    }
}

/// Every task name of the groups is at most as wide as the widest.
pub proof fn lemma_all_names_bound(gs: Seq<ListGroupView>, gi: int, tj: int)
    requires
        0 <= gi < gs.len(),
        0 <= tj < gs[gi].tasks.len(),
    ensures
        str_width(gs[gi].tasks[tj].name) <= max_width(all_names(gs)),
    decreases gs.len(),
{
    let last = gs.last().tasks.map_values(|t: ListTaskView| t.name);
    if gi < gs.len() - 1 {
        lemma_all_names_bound(gs.drop_last(), gi, tj);
        lemma_max_width_prefix(all_names(gs.drop_last()), last);
    } else {
        let all = all_names(gs);
        let k = all_names(gs.drop_last()).len() + tj;
        assert(all[k] == last[tj]);
        lemma_max_width_elem(all, k);
    }
}

impl List {
    /// The widest task name.
    fn max_task_width(&self) -> (r: usize)
        ensures
            r == max_width(all_names(self@.groups)),
    {
        let ghost gs = self@.groups;
        let mut m: usize = 0;
        let mut i: usize = 0;
        while i < self.groups.len()
            invariant
                gs == self@.groups,
                i <= self.groups@.len(),
                m == max_width(all_names(gs.take(i as int))),
            decreases self.groups@.len() - i,
        {
            let group = &self.groups[i];
            let ghost g = gs[i as int];
            assert(g == group@);
            let ghost before = all_names(gs.take(i as int));
            let ghost names = g.tasks.map_values(|t: ListTaskView| t.name);
            let mut j: usize = 0;
            while j < group.tasks.len()
                invariant
                    j <= group.tasks@.len(),
                    g == group@,
                    names == g.tasks.map_values(|t: ListTaskView| t.name),
                    m == max_width(before + names.take(j as int)),
                decreases group.tasks@.len() - j,
            {
                let w = display_width(group.tasks[j].name.as_str());
                assert(names[j as int] == group.tasks@[j as int].name@);
                assert((before + names.take(j + 1)).drop_last() == before + names.take(j as int));
                assert((before + names.take(j + 1)).last() == names[j as int]);
                if w > m {
                    m = w;
                }
                j = j + 1;
            }
            assert(names.take(group.tasks@.len() as int) == names);
            assert(gs.take(i + 1).drop_last() == gs.take(i as int));
            assert(gs.take(i + 1).last() == g);
            i = i + 1;
        }
        assert(gs.take(self.groups@.len() as int) == gs);
        m
    }

    /// The column where task descriptions start, less one for the space
    /// before them: indent, widest task name, minimal gap.
    pub fn calculate_align_column(&self, config: &RenderConfig) -> (r: usize)
        requires
            align_fits(self@, *config),
        ensures
            r == align_column(self@, *config),
    {
        config.task_indent + self.max_task_width() + config.min_gap
    }

    /// The lines of the overview.
    pub fn render(&self, config: &RenderConfig) -> (r: Vec<String>)
        requires
            align_fits(self@, *config),
        ensures
            lines_view(r@) == list_lines(self@, *config),
    {
        let ghost c = *config;
        let ghost gs = self@.groups;
        let mut out: Vec<String> = Vec::new();
        match &self.description {
            Some(description) => {
                let styled = colored_text(config.use_colors, description.as_str(), style_cyan_bold(description.as_str()));
                out.push(styled);
                out.push(String::new());
            },
            None => {},
        }
        let ghost head = lines_view(out@);
        assert(head =~= match self@.description {
            Some(d) => seq![colored(c.use_colors, d, bold(fg("\x1b[36m"@, d))), Seq::<char>::empty()],
            None => Seq::<Seq<char>>::empty(),
        });
        let align_col = self.calculate_align_column(config);
        let mut i: usize = 0;
        while i < self.groups.len()
            invariant
                gs == self@.groups,
                c == *config,
                align_fits(self@, c),
                align_col == align_column(self@, c),
                i <= self.groups@.len(),
                lines_view(out@) == head + groups_lines(gs.take(i as int), c, align_col as int),
            decreases self.groups@.len() - i,
        {
            let ghost out0 = lines_view(out@);
            if i > 0 {
                out.push(String::new());
            }
            let ghost out1 = lines_view(out@);
            assert(gs[i as int] == self.groups@[i as int]@);
            proof {
                assert forall|t: int| 0 <= t < self.groups@[i as int].tasks@.len() implies config.task_indent + str_width(
                    #[trigger] self.groups@[i as int].tasks@[t].name@,
                ) <= usize::MAX by {
                    assert(gs[i as int].tasks[t] == self.groups@[i as int].tasks@[t]@);
                    lemma_all_names_bound(gs, i as int, t);
                }
            }
            let mut lines = self.groups[i].render_lines(config, align_col);
            let ghost ls = lines@;
            out.append(&mut lines);
            assert(lines_view(out@) == out1 + lines_view(ls));
            assert(gs.take(i + 1).drop_last() == gs.take(i as int));
            assert(gs.take(i + 1).last() == gs[i as int]);
            assert(gs.take(i + 1).len() == i + 1);
            let ghost sep: Seq<Seq<char>> = if i > 0 {
                seq![Seq::<char>::empty()]
            } else {
                Seq::empty()
            };
            assert(out1 =~= out0 + sep);
            assert(groups_lines(gs.take(i + 1), c, align_col as int) == groups_lines(gs.take(i as int), c, align_col as int) + sep
                + group_lines(gs[i as int], c, align_col as int));
            i = i + 1;
        }
        assert(gs.take(self.groups@.len() as int) == gs);
        out
    }

    /// The lines of the overview, or `None` when the alignment column does
    /// not fit in a `usize`.
    pub fn try_render(&self, config: &RenderConfig) -> (r: Option<Vec<String>>)
        ensures
            r is Some <==> align_fits(self@, *config),
            r matches Some(v) ==> lines_view(v@) == list_lines(self@, *config),
    {
        let m = self.max_task_width();
        match config.task_indent.checked_add(m) {
            Some(a) => match a.checked_add(config.min_gap) {
                Some(_) => Some(self.render(config)),
                None => None,
            },
            None => None,
        }
    }
}

} // verus!
