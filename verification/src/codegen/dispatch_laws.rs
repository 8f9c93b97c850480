//! The shape of a module's dispatch: one arm per command function, in
//! order; then exactly one way to handle a missing command (the first
//! `#[default]` function, with an arm for external subcommands when they
//! are allowed, or the missing-command error); one arm per submodule, in
//! order; and one arm for the external modules when there are any.
use vstd::prelude::*;
use crate::codegen::models::{plain_path, ArmView, CallArg, PathView, TusksModule};
use crate::parsing::tusk::spec_default_args_error;
use crate::parsing::syntax::FnArgModel;
use crate::codegen::dispatch::{
    arg_bindings, default_index, spec_arms, spec_has_params_arg, spec_default_arms, spec_external_arms, spec_function_arms, spec_sub_arms,
    spec_submodule_arm,
};

verus! {

/// The arms of submodules follow the submodules, one each, named by them.
proof fn lemma_sub_arms(subs: Seq<TusksModule>, cli: PathView, path: Seq<Seq<char>>)
    ensures
        spec_sub_arms(subs, cli, path).len() == subs.len(),
        forall|j: int|
            0 <= j < subs.len() ==> (#[trigger] spec_sub_arms(subs, cli, path)[j] matches ArmView::Submodule {
                variant,
                ..
            } && variant == subs[j].name@),
    decreases subs.len(),
{
    if subs.len() > 0 {
        lemma_sub_arms(subs.drop_last(), cli, path);
        let a = spec_sub_arms(subs, cli, path);
        assert forall|j: int| 0 <= j < subs.len() implies (#[trigger] a[j] matches ArmView::Submodule {
            variant,
            ..
        } && variant == subs[j].name@) by {
            if j < subs.len() - 1 {
                assert(a[j] == spec_sub_arms(subs.drop_last(), cli, path)[j]);
                assert(subs.drop_last()[j] == subs[j]);
            } else {
                assert(a[j] == spec_submodule_arm(subs[j], cli, path));
            }
        }
    }
}

/// Every command function of a module gets its own arm, in order, named by
/// the function, matched at `cli::<path>` and calling `super::<path>::<function>`
/// (paths without a trailing `::`); a missing command is handled by the first `#[default]`
/// function when there is one (and, with external subcommands allowed, an
/// arm that hands it the external arguments), by the missing-command error
/// otherwise; every submodule gets its own arm, in order; the external
/// modules share one last arm.
pub proof fn dispatch_arms_cover_module(m: TusksModule, path: Seq<Seq<char>>)
    ensures
        ({
            let arms = spec_arms(m, path);
            let n = m.tusks@.len() as int;
            let d = spec_default_arms(m, path).len() as int;
            let k = m.submodules@.len() as int;
            &&& d == (if default_index(m.tusks@) is Some && m.allow_external_subcommands { 2int } else { 1int })
            &&& arms.len() == n + d + k + (if m.external_modules@.len() > 0 { 1int } else { 0int })
            &&& forall|i: int|
                0 <= i < n ==> (#[trigger] arms[i] matches ArmView::Function { cli_path, variant, call, .. } && variant
                    == m.tusks@[i].func.name@ && cli_path == plain_path(seq!["cli"@] + path) && call.func_path
                    == plain_path(seq!["super"@] + path + seq![variant]))
            &&& (default_index(m.tusks@) is Some <==> arms[n] is Default)
            &&& (default_index(m.tusks@) is None <==> arms[n] is NoCommand)
            &&& (d == 2 ==> arms[n + 1] is ExternalSubcommand)
            &&& forall|j: int|
                0 <= j < k ==> (#[trigger] arms[n + d + j] matches ArmView::Submodule { variant, .. } && variant
                    == m.submodules@[j].name@)
            &&& (m.external_modules@.len() > 0 ==> arms.last() is External)
        }),
{
    let cli = plain_path(seq!["cli"@] + path);
    let fa = spec_function_arms(m, m.tusks@, cli, path);
    let da = spec_default_arms(m, path);
    let sa = spec_sub_arms(m.submodules@, cli, path);
    let ea = spec_external_arms(m, cli, path);
    lemma_sub_arms(m.submodules@, cli, path);
    let arms = spec_arms(m, path);
    assert(arms == fa + da + sa + ea);
    let n = m.tusks@.len() as int;
    let d = da.len() as int;
    assert forall|i: int| 0 <= i < n implies (#[trigger] arms[i] matches ArmView::Function { cli_path, variant, call, .. }
        && variant == m.tusks@[i].func.name@ && cli_path == plain_path(seq!["cli"@] + path) && call.func_path
        == plain_path(seq!["super"@] + path + seq![variant])) by {
        assert(arms[i] == fa[i]);
    }
    assert(arms[n] == da[0]);
    if d == 2 {
        assert(arms[n + 1] == da[1]);
    }
    assert forall|j: int| 0 <= j < m.submodules@.len() implies (#[trigger] arms[n + d + j] matches ArmView::Submodule {
        variant,
        ..
    } && variant == m.submodules@[j].name@) by {
        assert(arms[n + d + j] == sa[j]);
    }
}

/// The arm for a missing command calls the first `#[default]` function
/// with `&parameters` exactly when that function takes the module's
/// parameters first, then `Vec::new()` exactly when the module allows
/// external subcommands, and nothing else.  So without external
/// subcommands, a default function whose arguments pass validation (none,
/// or the module's `&Parameters`) is called with as many arguments as it
/// takes.
pub proof fn default_call_passes_vec_only_with_external_subcommands(m: TusksModule, path: Seq<Seq<char>>)
    ensures
        default_index(m.tusks@) matches Some(k) ==> ({
            let t = m.tusks@[k];
            let arms = spec_arms(m, path);
            let n = m.tusks@.len() as int;
            let expected = (if spec_has_params_arg(m, t) {
                seq![CallArg::ParametersRef]
            } else {
                Seq::<CallArg>::empty()
            }) + (if m.allow_external_subcommands {
                seq![CallArg::EmptyVec]
            } else {
                Seq::<CallArg>::empty()
            });
            &&& (arms[n] matches ArmView::Default { call } && call.args == expected)
            &&& (!m.allow_external_subcommands && spec_default_args_error(t.func.inputs@, false) is None && (t.func.inputs@.len()
                > 0 ==> spec_has_params_arg(m, t))) ==> (arms[n] matches ArmView::Default { call } && call.args.len()
                == t.func.inputs@.len())
        }),
{
    dispatch_arms_cover_module(m, path);
    if let Some(k) = default_index(m.tusks@) {
        let cli = plain_path(seq!["cli"@] + path);
        let fa = spec_function_arms(m, m.tusks@, cli, path);
        let da = spec_default_arms(m, path);
        let sa = spec_sub_arms(m.submodules@, cli, path);
        let ea = spec_external_arms(m, cli, path);
        let arms = spec_arms(m, path);
        assert(arms == fa + da + sa + ea);
        assert(arms[m.tusks@.len() as int] == da[0]);
    }
}

proof fn lemma_named_bindings(args: Seq<FnArgModel>)
    requires
        forall|j: int| 0 <= j < args.len() ==> (#[trigger] args[j] matches FnArgModel::Typed { name: Some(_), .. }),
    ensures
        arg_bindings(args).len() == args.len(),
        forall|j: int| 0 <= j < args.len() ==> (#[trigger] arg_bindings(args)[j]).1 == j as usize,
    decreases args.len(),
{
    if args.len() > 0 {
        let a0 = args.drop_last();
        assert forall|j: int| 0 <= j < a0.len() implies (#[trigger] a0[j] matches FnArgModel::Typed { name: Some(_), .. }) by {
            assert(a0[j] == args[j]);
        }
        lemma_named_bindings(a0);
        assert(args.last() == args[args.len() - 1]);
    }
}

/// The arm of each command calls it with `&parameters` first exactly when
/// it takes the module's parameters first, then with the clone of each of
/// its other arguments, in order, when these are named; the arm for
/// external subcommands hands the first `#[default]` function `&parameters`
/// the same way, then the external arguments when it takes anything else,
/// and nothing more.
pub proof fn command_calls_pass_their_arguments(m: TusksModule, path: Seq<Seq<char>>)
    ensures
        forall|i: int|
            0 <= i < m.tusks@.len() ==> ({
                let t = m.tusks@[i];
                let h: int = if spec_has_params_arg(m, t) { 1 } else { 0 };
                let others = t.func.inputs@.len() - h;
                (forall|j: int| h <= j < t.func.inputs@.len() ==> (#[trigger] t.func.inputs@[j] matches FnArgModel::Typed {
                    name: Some(_),
                    ..
                })) ==> (#[trigger] spec_arms(m, path)[i] matches ArmView::Function { call, .. } && call.args.len() == h + others
                    && (h == 1 ==> call.args[0] == CallArg::ParametersRef) && forall|j: int|
                    h <= j < call.args.len() ==> #[trigger] call.args[j] == CallArg::BindingClone((j - h) as usize))
            }),
        default_index(m.tusks@) matches Some(k) ==> m.allow_external_subcommands ==> ({
            let t = m.tusks@[k];
            let h: int = if spec_has_params_arg(m, t) { 1 } else { 0 };
            let expected = (if h == 1 {
                seq![CallArg::ParametersRef]
            } else {
                Seq::<CallArg>::empty()
            }) + (if t.func.inputs@.len() > h {
                seq![CallArg::ExternalArgsClone]
            } else {
                Seq::<CallArg>::empty()
            });
            spec_arms(m, path)[m.tusks@.len() + 1int] matches ArmView::ExternalSubcommand { call, .. } && call.args == expected
        }),
{
    let cli = plain_path(seq!["cli"@] + path);
    let fa = spec_function_arms(m, m.tusks@, cli, path);
    let da = spec_default_arms(m, path);
    let sa = spec_sub_arms(m.submodules@, cli, path);
    let ea = spec_external_arms(m, cli, path);
    let arms = spec_arms(m, path);
    assert(arms == fa + da + sa + ea);
    assert forall|i: int| 0 <= i < m.tusks@.len() implies ({
        let t = m.tusks@[i];
        let h: int = if spec_has_params_arg(m, t) { 1 } else { 0 };
        let others = t.func.inputs@.len() - h;
        (forall|j: int| h <= j < t.func.inputs@.len() ==> (#[trigger] t.func.inputs@[j] matches FnArgModel::Typed {
            name: Some(_),
            ..
        })) ==> (#[trigger] spec_arms(m, path)[i] matches ArmView::Function { call, .. } && call.args.len() == h + others
            && (h == 1 ==> call.args[0] == CallArg::ParametersRef) && forall|j: int|
            h <= j < call.args.len() ==> #[trigger] call.args[j] == CallArg::BindingClone((j - h) as usize))
    }) by {
        let t = m.tusks@[i];
        let h: int = if spec_has_params_arg(m, t) { 1 } else { 0 };
        let rest = t.func.inputs@.skip(h);
        assert(arms[i] == fa[i]);
        if forall|j: int| h <= j < t.func.inputs@.len() ==> (#[trigger] t.func.inputs@[j] matches FnArgModel::Typed {
            name: Some(_),
            ..
        }) {
            assert forall|j: int| 0 <= j < rest.len() implies (#[trigger] rest[j] matches FnArgModel::Typed { name: Some(_), .. }) by {
                assert(rest[j] == t.func.inputs@[h + j]);
            }
            lemma_named_bindings(rest);
        }
    }
    if let Some(k) = default_index(m.tusks@) {
        if m.allow_external_subcommands {
            assert(arms[m.tusks@.len() + 1int] == da[1]);
            let t = m.tusks@[k];
            let h: int = if spec_has_params_arg(m, t) { 1 } else { 0 };
            if t.func.inputs@.len() <= h {
                assert(t.func.inputs@.skip(h).len() == 0);
                assert(arg_bindings(t.func.inputs@.skip(h)) == Seq::<(Seq<char>, usize)>::empty());
            }
        }
    }
}

} // verus!
