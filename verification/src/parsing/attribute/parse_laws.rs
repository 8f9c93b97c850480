//! What the grammar promises of a list of options: each option is applied
//! wherever it stands, so a flag written after any well-formed list of
//! options, `tasks(...)` among them, is set in the result and nothing else
//! that the list gave changes; and likewise a number setting written after
//! any well-formed list of tasks options.
use vstd::prelude::*;
use crate::parsing::attribute::lexer::{lex, radix_base, Radix, TokenView};
use crate::parsing::attribute::models::{AttrErrorView, TasksConfigView, TusksAttrView};
use crate::parsing::attribute::parse::{
    is_keyword, matching_close, spec_attr_items, spec_attr_option, spec_bool_flag, spec_config_items,
    spec_config_option, spec_parse_tasks_config, spec_parse_tusks_attr, spec_tasks_option, spec_trailing_comma,
    digits_value,
};
use crate::parsing::attribute::models::{default_tasks_config, default_tusks_attr};

verus! {

/// The module options `a` with the flag `f` set.
pub open spec fn with_flag(a: TusksAttrView, f: Seq<char>) -> TusksAttrView {
    if f == "debug"@ {
        TusksAttrView { debug: true, ..a }
    } else if f == "root"@ {
        TusksAttrView { root: true, ..a }
    } else {
        TusksAttrView { derive_debug_for_parameters: true, ..a }
    }
}

/// The names of the module's flags.
pub open spec fn is_flag_name(f: Seq<char>) -> bool {
    f == "debug"@ || f == "root"@ || f == "derive_debug_for_parameters"@
}

/// The tokens `, f` appended.
pub open spec fn then_flag(t: Seq<TokenView>, f: Seq<char>) -> Seq<TokenView> {
    t + seq![TokenView::Punct(','), TokenView::Ident(f)]
}

proof fn lemma_close_extends(t: Seq<TokenView>, f: Seq<char>, i: int, depth: nat)
    requires
        0 <= i,
    ensures
        matching_close(then_flag(t, f), i, depth) == matching_close(t, i, depth),
        matching_close(t, i, depth) matches Some(c) ==> i <= c < t.len(),
    decreases then_flag(t, f).len() - i,
{
    let u = then_flag(t, f);
    if i < u.len() {
        if i < t.len() {
            assert(u[i] == t[i]);
        }
        if u[i] == TokenView::Punct('(') {
            lemma_close_extends(t, f, i + 1, depth + 1);
        } else if u[i] == TokenView::Punct(')') {
            if depth != 0 {
                lemma_close_extends(t, f, i + 1, (depth - 1) as nat);
            }
        } else {
            lemma_close_extends(t, f, i + 1, depth);
        }
    }
}

proof fn lemma_config_extends(t: Seq<TokenView>, f: Seq<char>, i: int, end: int, acc: TasksConfigView)
    requires
        end <= t.len(),
    ensures
        spec_config_items(then_flag(t, f), i, end, acc) == spec_config_items(t, i, end, acc),
    decreases end - i,
{
    let u = then_flag(t, f);
    assert forall|k: int| 0 <= k < t.len() implies u[k] == t[k] by {}
    if !(i >= end || i < 0 || i >= t.len()) {
        match t[i] {
            TokenView::Ident(name) => {
                if !is_keyword(name) {
                    assert(spec_config_option(u, i, end, name, acc) == spec_config_option(t, i, end, name, acc));
                    match spec_config_option(t, i, end, name, acc) {
                        Ok((a2, j)) => {
                            assert(spec_trailing_comma(u, j, end) == spec_trailing_comma(t, j, end));
                            match spec_trailing_comma(t, j, end) {
                                Ok(k) => {
                                    if !(k <= i || k > end) {
                                        lemma_config_extends(t, f, k, end, a2);
                                    }
                                },
                                Err(e) => {},
                            }
                        },
                        Err(e) => {},
                    }
                }
            },
            _ => {},
        }
    }
}

/// An option that stands in `t` reads the same with `, f` after `t`, and
/// ends within `t`.
proof fn lemma_option_extends(t: Seq<TokenView>, f: Seq<char>, i: int, name: Seq<char>, acc: TusksAttrView)
    requires
        0 <= i < t.len(),
    ensures
        spec_attr_option(then_flag(t, f), i, name, acc) == spec_attr_option(t, i, name, acc),
        spec_attr_option(t, i, name, acc) matches Ok((a2, j)) ==> i < j <= t.len(),
{
    let u = then_flag(t, f);
    assert forall|k: int| 0 <= k < t.len() implies u[k] == t[k] by {}
    assert(u[t.len() as int] == TokenView::Punct(','));
    assert(spec_bool_flag(u, i + 1, u.len() as int) == spec_bool_flag(t, i + 1, t.len() as int));
    lemma_close_extends(t, f, i + 2, 0);
    if let Some(c) = matching_close(t, i + 2, 0) {
        lemma_config_extends(t, f, i + 2, c, crate::parsing::attribute::models::default_tasks_config());
    }
    assert(spec_tasks_option(u, i) == spec_tasks_option(t, i));
}

/// No flag name is a keyword.
proof fn lemma_flags_are_no_keywords(f: Seq<char>)
    requires
        is_flag_name(f),
    ensures
        !is_keyword(f),
{
    reveal_strlit("_");
    reveal_strlit("abstract");
    reveal_strlit("as");
    reveal_strlit("async");
    reveal_strlit("await");
    reveal_strlit("become");
    reveal_strlit("box");
    reveal_strlit("break");
    reveal_strlit("const");
    reveal_strlit("continue");
    reveal_strlit("crate");
    reveal_strlit("do");
    reveal_strlit("dyn");
    reveal_strlit("else");
    reveal_strlit("enum");
    reveal_strlit("extern");
    reveal_strlit("false");
    reveal_strlit("final");
    reveal_strlit("fn");
    reveal_strlit("for");
    reveal_strlit("if");
    reveal_strlit("impl");
    reveal_strlit("in");
    reveal_strlit("let");
    reveal_strlit("loop");
    reveal_strlit("macro");
    reveal_strlit("match");
    reveal_strlit("mod");
    reveal_strlit("move");
    reveal_strlit("mut");
    reveal_strlit("override");
    reveal_strlit("priv");
    reveal_strlit("pub");
    reveal_strlit("ref");
    reveal_strlit("return");
    reveal_strlit("Self");
    reveal_strlit("self");
    reveal_strlit("static");
    reveal_strlit("struct");
    reveal_strlit("super");
    reveal_strlit("trait");
    reveal_strlit("true");
    reveal_strlit("try");
    reveal_strlit("type");
    reveal_strlit("typeof");
    reveal_strlit("unsafe");
    reveal_strlit("unsized");
    reveal_strlit("use");
    reveal_strlit("virtual");
    reveal_strlit("where");
    reveal_strlit("while");
    reveal_strlit("yield");
    reveal_strlit("debug");
    reveal_strlit("root");
    reveal_strlit("derive_debug_for_parameters");
    assert(f.len() == 5 ==> f[0] == 'd');
    assert(f.len() == 4 ==> f[0] == 'r');
}

proof fn lemma_items_then_flag(t: Seq<TokenView>, f: Seq<char>, i: int, acc: TusksAttrView)
    requires
        is_flag_name(f),
        0 <= i < t.len(),
        t.last() != TokenView::Punct(','),
        spec_attr_items(t, i, acc) is Ok,
    ensures
        spec_attr_items(then_flag(t, f), i, acc) == Ok::<TusksAttrView, AttrErrorView>(with_flag(spec_attr_items(t, i, acc)->Ok_0, f)),
    decreases t.len() - i,
{
    let u = then_flag(t, f);
    let n = t.len() as int;
    assert forall|k: int| 0 <= k < t.len() implies u[k] == t[k] by {}
    assert(u[n] == TokenView::Punct(','));
    assert(u[n + 1] == TokenView::Ident(f));
    assert(u.len() == n + 2);
    if let TokenView::Ident(name) = t[i] {
        lemma_option_extends(t, f, i, name, acc);
        if let Ok((a2, j)) = spec_attr_option(t, i, name, acc) {
            if j < n {
                assert(spec_trailing_comma(u, j, u.len() as int) == spec_trailing_comma(t, j, n));
                if let Ok(k) = spec_trailing_comma(t, j, n) {
                    assert(k == j + 1);
                    if k == n {
                        assert(t.last() == t[j]);
                    } else {
                        lemma_items_then_flag(t, f, k, a2);
                    }
                }
            } else {
                assert(spec_attr_items(t, n, a2) == Ok::<TusksAttrView, AttrErrorView>(a2));
                assert(spec_attr_items(t, i, acc) == Ok::<TusksAttrView, AttrErrorView>(a2));
                assert(spec_trailing_comma(u, n, u.len() as int) == Ok::<int, AttrErrorView>(n + 1));
                lemma_flags_are_no_keywords(f);
                assert(spec_bool_flag(u, n + 2, u.len() as int) == Ok::<(bool, int), AttrErrorView>((true, n + 2)));
                reveal_strlit("debug");
                reveal_strlit("root");
                reveal_strlit("derive_debug_for_parameters");
                reveal_strlit("tasks");
                assert(spec_attr_option(u, n + 1, f, a2) == Ok::<(TusksAttrView, int), AttrErrorView>((with_flag(a2, f), n + 2)));
                assert(spec_attr_items(u, n + 2, with_flag(a2, f)) == Ok::<TusksAttrView, AttrErrorView>(with_flag(a2, f)));
                assert(spec_attr_items(u, n + 1, a2) == Ok::<TusksAttrView, AttrErrorView>(with_flag(a2, f)));
            }
        }
    }
}

/// Each option of the list is applied wherever it stands: when the tokens
/// of `x` form a well-formed list of options (not ending in a comma) and
/// those of `y` are the same followed by `,` and one of the flags `debug`,
/// `root`, `derive_debug_for_parameters`, then `y` gives what `x` gives
/// with that flag set, whatever options (`tasks(...)` among them) come
/// before it.
pub proof fn later_flags_are_applied(x: Seq<char>, y: Seq<char>, f: Seq<char>)
    requires
        is_flag_name(f),
    ensures
        (lex(x) matches Ok(t) && t.len() > 0 && t.last() != TokenView::Punct(',') && lex(y) == Ok::<Seq<TokenView>, crate::parsing::attribute::models::SyntaxError>(then_flag(t, f))
            && spec_parse_tusks_attr(x) is Ok) ==> spec_parse_tusks_attr(y) == Ok::<TusksAttrView, AttrErrorView>(
            with_flag(spec_parse_tusks_attr(x)->Ok_0, f),
        ),
{
    if let Ok(t) = lex(x) {
        if t.len() > 0 && t.last() != TokenView::Punct(',') && spec_parse_tusks_attr(x) is Ok {
            lemma_items_then_flag(t, f, 0, default_tusks_attr());
        }
    }
}

/// The tasks options `cfg` with the number setting `name` set to `v`.
pub open spec fn with_number(cfg: TasksConfigView, name: Seq<char>, v: usize) -> TasksConfigView {
    if name == "max_groupsize"@ {
        TasksConfigView { max_groupsize: v, ..cfg }
    } else {
        TasksConfigView { max_depth: v, ..cfg }
    }
}

/// The tokens `, name = <integer>` appended.
pub open spec fn then_number(t: Seq<TokenView>, name: Seq<char>, r: Radix, d: Seq<char>) -> Seq<TokenView> {
    t + seq![TokenView::Punct(','), TokenView::Ident(name), TokenView::Punct('='), TokenView::Int(r, d)]
}

proof fn lemma_number_names_are_no_keywords(name: Seq<char>)
    requires
        name == "max_groupsize"@ || name == "max_depth"@,
    ensures
        !is_keyword(name),
        name != "separator"@,
        name != "use_colors"@,
{
    reveal_strlit("_");
    reveal_strlit("abstract");
    reveal_strlit("as");
    reveal_strlit("async");
    reveal_strlit("await");
    reveal_strlit("become");
    reveal_strlit("box");
    reveal_strlit("break");
    reveal_strlit("const");
    reveal_strlit("continue");
    reveal_strlit("crate");
    reveal_strlit("do");
    reveal_strlit("dyn");
    reveal_strlit("else");
    reveal_strlit("enum");
    reveal_strlit("extern");
    reveal_strlit("false");
    reveal_strlit("final");
    reveal_strlit("fn");
    reveal_strlit("for");
    reveal_strlit("if");
    reveal_strlit("impl");
    reveal_strlit("in");
    reveal_strlit("let");
    reveal_strlit("loop");
    reveal_strlit("macro");
    reveal_strlit("match");
    reveal_strlit("mod");
    reveal_strlit("move");
    reveal_strlit("mut");
    reveal_strlit("override");
    reveal_strlit("priv");
    reveal_strlit("pub");
    reveal_strlit("ref");
    reveal_strlit("return");
    reveal_strlit("Self");
    reveal_strlit("self");
    reveal_strlit("static");
    reveal_strlit("struct");
    reveal_strlit("super");
    reveal_strlit("trait");
    reveal_strlit("true");
    reveal_strlit("try");
    reveal_strlit("type");
    reveal_strlit("typeof");
    reveal_strlit("unsafe");
    reveal_strlit("unsized");
    reveal_strlit("use");
    reveal_strlit("virtual");
    reveal_strlit("where");
    reveal_strlit("while");
    reveal_strlit("yield");
    reveal_strlit("max_groupsize");
    reveal_strlit("max_depth");
    reveal_strlit("separator");
    reveal_strlit("use_colors");
    assert(name.len() == 13 || name.len() == 9);
    assert(name[0] == 'm');
}

/// A tasks option that stands in `t` reads the same with the setting after
/// `t`, and ends within `t`.
proof fn lemma_config_option_then_number(
    t: Seq<TokenView>,
    name: Seq<char>,
    r: Radix,
    d: Seq<char>,
    i: int,
    opt: Seq<char>,
    acc: TasksConfigView,
)
    requires
        0 <= i < t.len(),
    ensures
        spec_config_option(then_number(t, name, r, d), i, then_number(t, name, r, d).len() as int, opt, acc)
            == spec_config_option(t, i, t.len() as int, opt, acc),
        spec_config_option(t, i, t.len() as int, opt, acc) matches Ok((c2, j)) ==> i < j <= t.len(),
{
    let u = then_number(t, name, r, d);
    assert forall|k: int| 0 <= k < t.len() implies u[k] == t[k] by {}
    assert(u[t.len() as int] == TokenView::Punct(','));
    assert(u.len() == t.len() + 4);
}

proof fn lemma_config_items_then_number(t: Seq<TokenView>, name: Seq<char>, r: Radix, d: Seq<char>, i: int, acc: TasksConfigView)
    requires
        name == "max_groupsize"@ || name == "max_depth"@,
        digits_value(d, radix_base(r)) <= usize::MAX,
        0 <= i < t.len(),
        t.last() != TokenView::Punct(','),
        spec_config_items(t, i, t.len() as int, acc) is Ok,
    ensures
        spec_config_items(then_number(t, name, r, d), i, then_number(t, name, r, d).len() as int, acc)
            == Ok::<TasksConfigView, AttrErrorView>(with_number(
            spec_config_items(t, i, t.len() as int, acc)->Ok_0,
            name,
            digits_value(d, radix_base(r)) as usize,
        )),
    decreases t.len() - i,
{
    let u = then_number(t, name, r, d);
    let n = t.len() as int;
    let e = u.len() as int;
    assert forall|k: int| 0 <= k < t.len() implies u[k] == t[k] by {}
    assert(u[n] == TokenView::Punct(','));
    assert(u[n + 1] == TokenView::Ident(name));
    assert(u[n + 2] == TokenView::Punct('='));
    assert(u[n + 3] == TokenView::Int(r, d));
    assert(e == n + 4);
    if let TokenView::Ident(opt) = t[i] {
        lemma_config_option_then_number(t, name, r, d, i, opt, acc);
        if let Ok((c2, j)) = spec_config_option(t, i, n, opt, acc) {
            if j < n {
                assert(spec_trailing_comma(u, j, e) == spec_trailing_comma(t, j, n));
                if let Ok(k) = spec_trailing_comma(t, j, n) {
                    assert(k == j + 1);
                    if k == n {
                        assert(t.last() == t[j]);
                    } else {
                        lemma_config_items_then_number(t, name, r, d, k, c2);
                    }
                }
            } else {
                assert(spec_config_items(t, n, n, c2) == Ok::<TasksConfigView, AttrErrorView>(c2));
                assert(spec_config_items(t, i, n, acc) == Ok::<TasksConfigView, AttrErrorView>(c2));
                assert(spec_trailing_comma(u, n, e) == Ok::<int, AttrErrorView>(n + 1));
                lemma_number_names_are_no_keywords(name);
                let v = digits_value(d, radix_base(r)) as usize;
                assert(spec_config_option(u, n + 1, e, name, c2) == Ok::<(TasksConfigView, int), AttrErrorView>((with_number(c2, name, v), n + 4)));
                assert(spec_config_items(u, n + 4, e, with_number(c2, name, v)) == Ok::<TasksConfigView, AttrErrorView>(with_number(c2, name, v)));
                assert(spec_config_items(u, n + 1, e, c2) == Ok::<TasksConfigView, AttrErrorView>(with_number(c2, name, v)));
            }
        }
    }
}

/// Each option inside `tasks(...)` is applied wherever it stands: when the
/// tokens of `x` form a well-formed list of tasks options (not ending in a
/// comma) and those of `y` are the same followed by `, max_groupsize = n`
/// or `, max_depth = n` for an integer `n` that fits a `usize`, then `y`
/// gives what `x` gives with that setting at `n`.
pub proof fn later_settings_are_applied(x: Seq<char>, y: Seq<char>, name: Seq<char>, r: Radix, d: Seq<char>)
    requires
        name == "max_groupsize"@ || name == "max_depth"@,
        digits_value(d, radix_base(r)) <= usize::MAX,
    ensures
        (lex(x) matches Ok(t) && t.len() > 0 && t.last() != TokenView::Punct(',') && lex(y) == Ok::<Seq<TokenView>, crate::parsing::attribute::models::SyntaxError>(then_number(t, name, r, d))
            && spec_parse_tasks_config(x) is Ok) ==> spec_parse_tasks_config(y) == Ok::<TasksConfigView, AttrErrorView>(
            with_number(spec_parse_tasks_config(x)->Ok_0, name, digits_value(d, radix_base(r)) as usize),
        ),
{
    if let Ok(t) = lex(x) {
        if t.len() > 0 && t.last() != TokenView::Punct(',') && spec_parse_tasks_config(x) is Ok {
            lemma_config_items_then_number(t, name, r, d, 0, default_tasks_config());
        }
    }
}

} // verus!
