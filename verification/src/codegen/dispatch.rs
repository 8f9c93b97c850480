//! The match arms of `handle_matches`: one per command function, the
//! default function or the missing-command error, one per submodule (with
//! the submodule's own arms nested), and one for external modules.
use vstd::prelude::*;
use crate::text::{str_eq, to_owned_string};
use crate::codegen::mod_path::{ModulePath, RustPath};
use crate::codegen::enum_util::to_variant_ident;
use crate::codegen::models::{
    arms_view, arm_view, call_view, field_inits_view, fields_view, lemma_arms_view_concat, opt_string_view,
    path_view, plain_path, ArmView, CallArg, CallPlan, CallView, ExternalModule, PathView, FieldInit, FieldInitView, HandleMatchesPlan,
    MatchArm, OkHandling, ReturnHandling, SubBody, SubBodyView, TusksModule,
};
use crate::parsing::syntax::{has_attr, has_attr_spec, FnArgModel, TypeModel};
use crate::parsing::tusk::{spec_is_option_u8, spec_is_u8, spec_result_ok_type, Tusk};

verus! {

/// Fields that the code generation adds to a `Parameters` struct itself.
pub open spec fn is_generated_field(name: Seq<char>) -> bool {
    name == "super_"@ || name == "_phantom_lifetime_marker"@
}

/// A reference to a path whose last segment is the parameters struct.
pub open spec fn spec_is_parameters_type(ty: TypeModel, ident: Seq<char>) -> bool {
    match ty {
        TypeModel::Reference { elem } => match *elem {
            TypeModel::Path { segments, .. } => segments@.len() > 0 && segments@.last().ident@ == ident,
            _ => false,
        },
        _ => false,
    }
}

/// The first argument of the command is the module's parameters.
pub open spec fn spec_has_params_arg(m: TusksModule, t: Tusk) -> bool {
    t.func.inputs@.len() > 0 && match t.func.inputs@[0] {
        FnArgModel::Typed { ty, .. } => match m.parameters {
            Some(p) => spec_is_parameters_type(ty, p.pstruct.name@),
            None => false,
        },
        FnArgModel::Receiver => false,
    }
}

/// Bindings of the named arguments: each field name with its number among
/// them, counted from 0.
pub open spec fn arg_bindings(args: Seq<FnArgModel>) -> Seq<(Seq<char>, usize)>
    decreases args.len(),
{
    if args.len() == 0 {
        Seq::empty()
    } else {
        let b = arg_bindings(args.drop_last());
        match args.last() {
            FnArgModel::Typed { name: Some(n), .. } => b.push((n@, b.len() as usize)),
            _ => b,
        }
    }
}

/// The bindings of a command's arguments, past the parameters argument.
pub open spec fn spec_pattern_bindings(m: TusksModule, t: Tusk) -> Seq<(Seq<char>, usize)> {
    arg_bindings(t.func.inputs@.skip(if spec_has_params_arg(m, t) { 1int } else { 0int }))
}

/// The bindings whose field is not a generated one.
pub open spec fn pattern_fields(b: Seq<(Seq<char>, usize)>) -> Seq<(Seq<char>, usize)>
    decreases b.len(),
{
    if b.len() == 0 {
        Seq::empty()
    } else if is_generated_field(b.last().0) {
        pattern_fields(b.drop_last())
    } else {
        pattern_fields(b.drop_last()).push(b.last())
    }
}

/// The clones of the bindings, in order.
pub open spec fn binding_args(b: Seq<(Seq<char>, usize)>) -> Seq<CallArg> {
    b.map_values(|x: (Seq<char>, usize)| CallArg::BindingClone(x.1))
}

/// The arguments of a command call: `&parameters` when the command takes
/// them; then, for the default function, `Vec::new()` with external
/// subcommands; for the external subcommand arm of a command with more
/// arguments, the external arguments; else every binding.
pub open spec fn spec_function_args(
    m: TusksModule,
    t: Tusk,
    b: Seq<(Seq<char>, usize)>,
    is_default_case: bool,
    is_external_case: bool,
) -> Seq<CallArg> {
    let hp = spec_has_params_arg(m, t);
    let head: Seq<CallArg> = if hp {
        seq![CallArg::ParametersRef]
    } else {
        Seq::empty()
    };
    let others = t.func.inputs@.len() - if hp {
        1int
    } else {
        0int
    };
    if is_default_case {
        head + if is_external_case {
            seq![CallArg::EmptyVec]
        } else {
            Seq::empty()
        }
    } else if is_external_case && others > 0 {
        head + seq![CallArg::ExternalArgsClone]
    } else {
        head + binding_args(b)
    }
}

/// What becomes of a command's return value.
pub open spec fn spec_return_handling(output: Option<TypeModel>) -> ReturnHandling {
    match output {
        None => ReturnHandling::Unit,
        Some(ty) => match spec_result_ok_type(ty) {
            Some(ok) => ReturnHandling::Result(
                if spec_is_u8(ok) {
                    OkHandling::ExitCode
                } else if spec_is_option_u8(ok) {
                    OkHandling::Passed
                } else {
                    OkHandling::Discarded
                },
            ),
            None => if spec_is_u8(ty) {
                ReturnHandling::ExitCode
            } else if spec_is_option_u8(ty) {
                ReturnHandling::Passed
            } else {
                ReturnHandling::Ignored
            },
        },
    }
}

/// The call of a command from the module at `path`.
pub open spec fn spec_call(
    m: TusksModule,
    t: Tusk,
    b: Seq<(Seq<char>, usize)>,
    path: Seq<Seq<char>>,
    is_default_case: bool,
    is_external_case: bool,
) -> CallView {
    CallView {
        func_path: plain_path(seq!["super"@] + path + seq![t.func.name@]),
        args: spec_function_args(m, t, b, is_default_case, is_external_case),
        is_async: t.is_async,
        returns: spec_return_handling(t.func.output),
    }
}

/// The arm of a command.
pub open spec fn spec_function_arm(m: TusksModule, t: Tusk, cli: PathView, path: Seq<Seq<char>>) -> ArmView {
    let b = spec_pattern_bindings(m, t);
    ArmView::Function {
        cli_path: cli,
        variant: t.func.name@,
        fields: pattern_fields(b),
        call: spec_call(m, t, b, path, false, false),
    }
}

/// The arms of the commands, in order.
pub open spec fn spec_function_arms(m: TusksModule, tusks: Seq<Tusk>, cli: PathView, path: Seq<Seq<char>>) -> Seq<ArmView> {
    tusks.map_values(|t: Tusk| spec_function_arm(m, t, cli, path))
}

/// The first command marked `#[default]`.
pub open spec fn default_index(tusks: Seq<Tusk>) -> Option<int>
    decreases tusks.len(),
{
    if tusks.len() == 0 {
        None
    } else {
        match default_index(tusks.drop_last()) {
            Some(k) => Some(k),
            None => if has_attr_spec(tusks.last().func.attrs@, "default"@) {
                Some(tusks.len() - 1)
            } else {
                None
            },
        }
    }
}

/// The last segment of a module path.
pub open spec fn last_of(path: Seq<Seq<char>>) -> Option<Seq<char>> {
    if path.len() == 0 {
        None
    } else {
        Some(path.last())
    }
}

/// The arms for a missing command: the default function's (and, with
/// external subcommands, the external subcommand arm), or the error.
pub open spec fn spec_default_arms(m: TusksModule, path: Seq<Seq<char>>) -> Seq<ArmView> {
    match default_index(m.tusks@) {
        Some(k) => {
            let t = m.tusks@[k];
            let b = spec_pattern_bindings(m, t);
            seq![ArmView::Default { call: spec_call(m, t, b, path, true, m.allow_external_subcommands) }] + if m.allow_external_subcommands {
                seq![ArmView::ExternalSubcommand { cli_path: plain_path(seq!["cli"@] + path), call: spec_call(m, t, b, path, false, true) }]
            } else {
                Seq::empty()
            }
        },
        None => seq![ArmView::NoCommand { last: last_of(path) }],
    }
}

/// The arm of the external modules, when there are any.
pub open spec fn spec_external_arms(m: TusksModule, cli: PathView, path: Seq<Seq<char>>) -> Seq<ArmView> {
    if m.external_modules@.len() == 0 {
        Seq::empty()
    } else {
        seq![ArmView::External {
            cli_path: cli,
            entries: m.external_modules@.map_values(|e: ExternalModule| (e.alias@, plain_path(seq!["super"@] + path + seq![e.alias@]))),
        }]
    }
}

/// Whether a module has anything to run below it.
pub open spec fn spec_has_commands(m: TusksModule) -> bool {
    m.tusks@.len() > 0 || m.submodules@.len() > 0 || m.external_modules@.len() > 0
}

/// The bindings of a submodule's parameters: its named, not generated
/// fields, numbered from 0.
pub open spec fn param_bindings(fields: Seq<crate::parsing::syntax::FieldModel>) -> Seq<(Seq<char>, usize)>
    decreases fields.len(),
{
    if fields.len() == 0 {
        Seq::empty()
    } else {
        let b = param_bindings(fields.drop_last());
        match fields.last().ident {
            Some(n) => if is_generated_field(n@) {
                b
            } else {
                b.push((n@, b.len() as usize))
            },
            None => b,
        }
    }
}

/// The bindings of a module's parameters.
pub open spec fn spec_param_bindings(m: TusksModule) -> Seq<(Seq<char>, usize)> {
    match m.parameters {
        Some(p) => param_bindings(p.pstruct.fields@),
        None => Seq::empty(),
    }
}

/// The first binding of a field.
pub open spec fn find_binding(b: Seq<(Seq<char>, usize)>, name: Seq<char>) -> Option<usize>
    decreases b.len(),
{
    if b.len() == 0 {
        None
    } else {
        match find_binding(b.drop_last(), name) {
            Some(k) => Some(k),
            None => if b.last().0 == name {
                Some(b.last().1)
            } else {
                None
            },
        }
    }
}

/// The fields of a submodule's parameters value, from its fields and their
/// bindings.
pub open spec fn sub_field_inits(fields: Seq<crate::parsing::syntax::FieldModel>, b: Seq<(Seq<char>, usize)>) -> Seq<FieldInitView>
    decreases fields.len(),
{
    if fields.len() == 0 {
        Seq::empty()
    } else {
        let r = sub_field_inits(fields.drop_last(), b);
        match fields.last().ident {
            Some(n) => if n@ == "super_"@ {
                r.push(FieldInitView::SuperParameters)
            } else if n@ == "_phantom_lifetime_marker"@ {
                r.push(FieldInitView::PhantomMarker)
            } else {
                match find_binding(b, n@) {
                    Some(k) => r.push(FieldInitView::Binding(n@, k)),
                    None => r,
                }
            },
            None => r,
        }
    }
}

/// The fields of a module's own parameters value in `handle_matches`.
pub open spec fn root_field_inits(fields: Seq<crate::parsing::syntax::FieldModel>) -> Seq<FieldInitView>
    decreases fields.len(),
{
    if fields.len() == 0 {
        Seq::empty()
    } else {
        let r = root_field_inits(fields.drop_last());
        match fields.last().ident {
            Some(n) => if n@ == "super_"@ {
                r.push(FieldInitView::SuperParameters)
            } else if n@ == "_phantom_lifetime_marker"@ {
                r.push(FieldInitView::PhantomMarker)
            } else {
                r.push(FieldInitView::FromCli(n@))
            },
            None => r,
        }
    }
}

/// The match arms of a module at `path`: commands, default or error,
/// submodules, external modules.
pub open spec fn spec_arms(m: TusksModule, path: Seq<Seq<char>>) -> Seq<ArmView>
    decreases m, 1int,
{
    let cli = plain_path(seq!["cli"@] + path);
    spec_function_arms(m, m.tusks@, cli, path) + spec_default_arms(m, path) + spec_sub_arms(m.submodules@, cli, path)
        + spec_external_arms(m, cli, path)
}

/// The arms of submodules, in order.
pub open spec fn spec_sub_arms(subs: Seq<TusksModule>, cli: PathView, path: Seq<Seq<char>>) -> Seq<ArmView>
    decreases subs, 0int,
{
    if subs.len() == 0 {
        Seq::empty()
    } else {
        spec_sub_arms(subs.drop_last(), cli, path).push(spec_submodule_arm(subs.last(), cli, path))
    }
}

/// The arm of a submodule `s` of the module at `path`.
pub open spec fn spec_submodule_arm(s: TusksModule, cli: PathView, path: Seq<Seq<char>>) -> ArmView
    decreases s, 2int,
{
    let b = spec_param_bindings(s);
    let hc = spec_has_commands(s);
    ArmView::Submodule {
        cli_path: cli,
        variant: s.name@,
        fields: pattern_fields(b),
        has_sub: hc,
        params_init: match s.parameters {
            Some(p) => if hc {
                Some((plain_path(seq!["super"@] + path + seq![s.name@]), sub_field_inits(p.pstruct.fields@, b)))
            } else {
                None
            },
            None => None,
        },
        body: if hc {
            SubBodyView::Nested(spec_arms(s, path.push(s.name@)))
        } else {
            SubBodyView::NoCommand(last_of(path))
        },
    }
}

fn copy_path(p: &RustPath) -> (r: RustPath)
    ensures
        path_view(r) == path_view(*p),
        r.trailing_colons == p.trailing_colons,
{
    RustPath { segments: crate::text::clone_strings(&p.segments), trailing_colons: p.trailing_colons }
}

/// See `spec_is_parameters_type`.
fn is_parameters_type(ty: &TypeModel, ident: &str) -> (r: bool)
    ensures
        r == spec_is_parameters_type(*ty, ident@),
{
    match ty {
        TypeModel::Reference { elem } => match &**elem {
            TypeModel::Path { segments, .. } => segments.len() > 0 && str_eq(
                segments[segments.len() - 1].ident.as_str(),
                ident,
            ),
            _ => false,
        },
        _ => false,
    }
}

/// What becomes of a `Result`'s `Ok` value of the given type.
fn build_result_ok_handler(ok_ty: &TypeModel) -> (r: OkHandling)
    ensures
        r == (if spec_is_u8(*ok_ty) {
            OkHandling::ExitCode
        } else if spec_is_option_u8(*ok_ty) {
            OkHandling::Passed
        } else {
            OkHandling::Discarded
        }),
{
    if Tusk::is_u8_type(ok_ty) {
        OkHandling::ExitCode
    } else if Tusk::is_option_u8_type(ok_ty) {
        OkHandling::Passed
    } else {
        OkHandling::Discarded
    }
}

/// See `spec_return_handling`.
fn return_handling(output: &Option<TypeModel>) -> (r: ReturnHandling)
    ensures
        r == spec_return_handling(*output),
{
    match output {
        None => ReturnHandling::Unit,
        Some(ty) => match Tusk::result_ok_type(ty) {
            Some(ok_ty) => ReturnHandling::Result(build_result_ok_handler(ok_ty)),
            None => {
                if Tusk::is_u8_type(ty) {
                    ReturnHandling::ExitCode
                } else if Tusk::is_option_u8_type(ty) {
                    ReturnHandling::Passed
                } else {
                    ReturnHandling::Ignored
                }
            },
        },
    }
}

/// See `is_generated_field`.
fn generated_field(name: &str) -> (r: bool)
    ensures
        r == is_generated_field(name@),
{
    str_eq(name, "super_") || str_eq(name, "_phantom_lifetime_marker")
}

impl TusksModule {
    /// Whether the command's first argument is this module's parameters.
    pub fn tusk_has_parameters_arg(&self, tusk: &Tusk) -> (r: bool)
        ensures
            r == spec_has_params_arg(*self, *tusk),
    {
        if tusk.func.inputs.len() > 0 {
            match &tusk.func.inputs[0] {
                FnArgModel::Typed { ty, .. } => match &self.parameters {
                    Some(params) => is_parameters_type(ty, params.pstruct.name.as_str()),
                    None => false,
                },
                FnArgModel::Receiver => false,
            }
        } else {
            false
        }
    }

    /// The bindings `(field, number)` of the command's named arguments past
    /// the parameters argument.
    fn build_pattern_bindings(&self, tusk: &Tusk) -> (r: Vec<(String, usize)>)
        ensures
            fields_view(r@) == spec_pattern_bindings(*self, *tusk),
    {
        let skip: usize = if self.tusk_has_parameters_arg(tusk) {
            1
        } else {
            0
        };
        let ghost args = tusk.func.inputs@.skip(skip as int);
        let mut bindings: Vec<(String, usize)> = Vec::new();
        let mut counter: usize = 0;
        let mut i: usize = skip;
        assert(tusk.func.inputs@.len() > 0 || skip == 0);
        while i < tusk.func.inputs.len()
            invariant
                skip <= i <= tusk.func.inputs@.len(),
                args == tusk.func.inputs@.skip(skip as int),
                fields_view(bindings@) == arg_bindings(args.take(i - skip)),
                counter == bindings@.len(),
                counter <= i,
            decreases tusk.func.inputs@.len() - i,
        {
            assert(args.take(i - skip + 1).drop_last() == args.take(i - skip));
            assert(args.take(i - skip + 1).last() == tusk.func.inputs@[i as int]);
            match &tusk.func.inputs[i] {
                FnArgModel::Typed { name: Some(n), .. } => {
                    let ghost b0 = bindings@;
                    bindings.push((n.clone(), counter));
                    assert(fields_view(bindings@) == fields_view(b0).push((n@, counter)));
                    counter = counter + 1;
                },
                _ => {},
            }
            i = i + 1;
        }
        assert(args.take(tusk.func.inputs@.len() - skip) == args);
        bindings
    }

    /// The bindings whose field is not a generated one.
    pub fn build_pattern_fields(&self, pattern_bindings: &Vec<(String, usize)>) -> (r: Vec<(String, usize)>)
        ensures
            fields_view(r@) == pattern_fields(fields_view(pattern_bindings@)),
    {
        let ghost bv = fields_view(pattern_bindings@);
        let mut r: Vec<(String, usize)> = Vec::new();
        let mut i: usize = 0;
        while i < pattern_bindings.len()
            invariant
                i <= pattern_bindings@.len(),
                bv == fields_view(pattern_bindings@),
                fields_view(r@) == pattern_fields(bv.take(i as int)),
            decreases pattern_bindings@.len() - i,
        {
            assert(bv.take(i + 1).drop_last() == bv.take(i as int));
            assert(bv.take(i + 1).last() == bv[i as int]);
            let (name, binding) = (&pattern_bindings[i].0, pattern_bindings[i].1);
            if !generated_field(name.as_str()) {
                let ghost r0 = r@;
                r.push((name.clone(), binding));
                assert(fields_view(r@) == fields_view(r0).push((name@, binding)));
            }
            i = i + 1;
        }
        assert(bv.take(pattern_bindings@.len() as int) == bv);
        r
    }

    /// See `spec_function_args`.
    fn build_function_arguments(
        &self,
        tusk: &Tusk,
        pattern_bindings: &Vec<(String, usize)>,
        is_default_case: bool,
        is_external_subcommand_case: bool,
    ) -> (r: Vec<CallArg>)
        ensures
            r@ == spec_function_args(*self, *tusk, fields_view(pattern_bindings@), is_default_case, is_external_subcommand_case),
    {
        let has_params_arg = self.tusk_has_parameters_arg(tusk);
        let mut func_args: Vec<CallArg> = Vec::new();
        let mut number_of_non_params_args = tusk.func.inputs.len();
        if has_params_arg {
            func_args.push(CallArg::ParametersRef);
            number_of_non_params_args = number_of_non_params_args - 1;
        }
        let ghost head = func_args@;
        if is_default_case {
            if is_external_subcommand_case {
                func_args.push(CallArg::EmptyVec);
            }
            assert(func_args@ =~= spec_function_args(*self, *tusk, fields_view(pattern_bindings@), is_default_case, is_external_subcommand_case));
            return func_args;
        }
        if is_external_subcommand_case && number_of_non_params_args > 0 {
            func_args.push(CallArg::ExternalArgsClone);
            assert(func_args@ =~= spec_function_args(*self, *tusk, fields_view(pattern_bindings@), is_default_case, is_external_subcommand_case));
            return func_args;
        }
        let ghost bv = fields_view(pattern_bindings@);
        let mut i: usize = 0;
        while i < pattern_bindings.len()
            invariant
                i <= pattern_bindings@.len(),
                bv == fields_view(pattern_bindings@),
                func_args@ == head + binding_args(bv.take(i as int)),
            decreases pattern_bindings@.len() - i,
        {
            func_args.push(CallArg::BindingClone(pattern_bindings[i].1));
            assert(binding_args(bv.take(i + 1)) == binding_args(bv.take(i as int)).push(CallArg::BindingClone(pattern_bindings@[i as int].1)));
            i = i + 1;
        }
        assert(bv.take(pattern_bindings@.len() as int) == bv);
        func_args
    }

    /// See `spec_call`.
    fn build_function_call(
        &self,
        tusk: &Tusk,
        pattern_bindings: &Vec<(String, usize)>,
        path: &ModulePath,
        is_default_case: bool,
        is_external_subcommand_case: bool,
    ) -> (r: CallPlan)
        ensures
            call_view(r) == spec_call(*self, *tusk, fields_view(pattern_bindings@), path.segments_view(), is_default_case, is_external_subcommand_case),
    {
        let args = self.build_function_arguments(tusk, pattern_bindings, is_default_case, is_external_subcommand_case);
        let func_path = path.super_path_to(tusk.func.name.as_str());
        CallPlan { func_path, args, is_async: tusk.is_async, returns: return_handling(&tusk.func.output) }
    }

    /// The arm of a command: its variant with the bindings of its
    /// arguments, and the call.
    pub fn build_function_match_arm(&self, tusk: &Tusk, cli_path: &RustPath, path: &ModulePath) -> (r: MatchArm)
        ensures
            arm_view(r) == spec_function_arm(*self, *tusk, path_view(*cli_path), path.segments_view()),
    {
        let variant_ident = to_variant_ident(&tusk.func.name);
        let pattern_bindings = self.build_pattern_bindings(tusk);
        let pattern_fields = self.build_pattern_fields(&pattern_bindings);
        let function_call = self.build_function_call(tusk, &pattern_bindings, path, false, false);
        MatchArm::Function { cli_path: copy_path(cli_path), variant: variant_ident, fields: pattern_fields, call: function_call }
    }

    /// The arm run without a command: the default function's call.
    pub fn build_default_function_match_arm(&self, tusk: &Tusk, path: &ModulePath, is_external_subcommand_case: bool) -> (r: MatchArm)
        ensures
            arm_view(r) == (ArmView::Default {
                call: spec_call(*self, *tusk, spec_pattern_bindings(*self, *tusk), path.segments_view(), true, is_external_subcommand_case),
            }),
    {
        let pattern_bindings = self.build_pattern_bindings(tusk);
        let function_call = self.build_function_call(tusk, &pattern_bindings, path, true, is_external_subcommand_case);
        MatchArm::Default { call: function_call }
    }

    /// The arm of an external subcommand: the default function's call with
    /// the external arguments.
    pub fn build_external_subcommand_match_arm(&self, tusk: &Tusk, path: &ModulePath) -> (r: MatchArm)
        ensures
            arm_view(r) == (ArmView::ExternalSubcommand {
                cli_path: plain_path(seq!["cli"@] + path.segments_view()),
                call: spec_call(*self, *tusk, spec_pattern_bindings(*self, *tusk), path.segments_view(), false, true),
            }),
    {
        let pattern_bindings = self.build_pattern_bindings(tusk);
        let function_call = self.build_function_call(tusk, &pattern_bindings, path, false, true);
        let cli_path = path.cli_path();
        MatchArm::ExternalSubcommand { cli_path, call: function_call }
    }

    /// The module to name in the missing-command error: the last of the
    /// path, none at the root.
    pub fn build_no_command_error(path: &ModulePath) -> (r: Option<String>)
        ensures
            opt_string_view(r) == last_of(path.segments_view()),
    {
        match path.last() {
            Some(last) => Some(to_owned_string(last)),
            None => None,
        }
    }

    fn build_no_command_error_arm(path: &ModulePath) -> (r: MatchArm)
        ensures
            arm_view(r) == (ArmView::NoCommand { last: last_of(path.segments_view()) }),
    {
        MatchArm::NoCommand { last: Self::build_no_command_error(path) }
    }

    /// The position of the first function marked `default`, if any.
    fn find_default_tusk(&self) -> (r: Option<usize>)
        ensures
            match r {
                Some(k) => default_index(self.tusks@) == Some(k as int) && k < self.tusks@.len(),
                None => default_index(self.tusks@) is None,
            },
    {
        let mut k: usize = 0;
        while k < self.tusks.len()
            invariant
                k <= self.tusks@.len(),
                default_index(self.tusks@.take(k as int)) is None,
            decreases self.tusks@.len() - k,
        {
            assert(self.tusks@.take(k + 1).drop_last() == self.tusks@.take(k as int));
            if has_attr(&self.tusks[k].func.attrs, "default") {
                proof {
                    lemma_default_index_prefix(self.tusks@, k as int);
                }
                return Some(k);
            }
            k = k + 1;
        }
        assert(self.tusks@.take(self.tusks@.len() as int) == self.tusks@);
        None
    }
}

/// The plan of a `handle_matches` function as plain values.
pub struct HandleMatchesView {
    pub is_root: bool,
    pub params_init: Option<Seq<FieldInitView>>,
    pub arms: Seq<ArmView>,
}

/// The `handle_matches` function of a module: the root or the nested
/// signature, the module's parameters value, and the arms from the root
/// of the module's own paths.
pub open spec fn spec_handle_matches(m: TusksModule, is_root: bool) -> HandleMatchesView {
    HandleMatchesView {
        is_root: is_root,
        params_init: match m.parameters {
            Some(p) => Some(root_field_inits(p.pstruct.fields@)),
            None => None,
        },
        arms: spec_arms(m, Seq::empty()),
    }
}

impl TusksModule {
    /// The arm of the external modules: one entry per module.
    fn build_external_arm(&self, cli_path: &RustPath, path: &ModulePath) -> (r: MatchArm)
        requires
            self.external_modules@.len() > 0,
        ensures
            spec_external_arms(*self, path_view(*cli_path), path.segments_view()) == seq![arm_view(r)],
    {
        let ghost ev = self.external_modules@.map_values(
            |e: ExternalModule| (e.alias@, plain_path(seq!["super"@] + path.segments_view() + seq![e.alias@])),
        );
        let mut entries: Vec<(String, RustPath)> = Vec::new();
        let mut i: usize = 0;
        while i < self.external_modules.len()
            invariant
                i <= self.external_modules@.len(),
                ev == self.external_modules@.map_values(
                    |e: ExternalModule| (e.alias@, plain_path(seq!["super"@] + path.segments_view() + seq![e.alias@])),
                ),
                entries@.map_values(|e: (String, RustPath)| (e.0@, path_view(e.1))) == ev.take(i as int),
            decreases self.external_modules@.len() - i,
        {
            let alias = &self.external_modules[i].alias;
            let external_path = path.super_path_to(alias.as_str());
            let ghost e0 = entries@;
            entries.push((to_variant_ident(alias), external_path));
            assert(entries@.map_values(|e: (String, RustPath)| (e.0@, path_view(e.1))) == e0.map_values(
                |e: (String, RustPath)| (e.0@, path_view(e.1)),
            ).push((alias@, path_view(external_path))));
            assert(ev.take(i + 1) == ev.take(i as int).push(ev[i as int]));
            i = i + 1;
        }
        assert(ev.take(self.external_modules@.len() as int) == ev);
        MatchArm::External { cli_path: copy_path(cli_path), entries }
    }

    /// Whether the module has commands, submodules or external modules.
    fn has_commands(&self) -> (r: bool)
        ensures
            r == spec_has_commands(*self),
    {
        self.tusks.len() > 0 || self.submodules.len() > 0 || self.external_modules.len() > 0
    }

    /// The bindings of this module's parameters fields.
    fn build_parameter_pattern_bindings(&self) -> (r: Vec<(String, usize)>)
        ensures
            fields_view(r@) == spec_param_bindings(*self),
    {
        let mut bindings: Vec<(String, usize)> = Vec::new();
        match &self.parameters {
            Some(params) => {
                let fields = &params.pstruct.fields;
                let mut counter: usize = 0;
                let mut i: usize = 0;
                while i < fields.len()
                    invariant
                        i <= fields@.len(),
                        fields_view(bindings@) == param_bindings(fields@.take(i as int)),
                        counter == bindings@.len(),
                        counter <= i,
                    decreases fields@.len() - i,
                {
                    assert(fields@.take(i + 1).drop_last() == fields@.take(i as int));
                    assert(fields@.take(i + 1).last() == fields@[i as int]);
                    match &fields[i].ident {
                        Some(field_name) => {
                            if !generated_field(field_name.as_str()) {
                                let ghost b0 = bindings@;
                                bindings.push((field_name.clone(), counter));
                                assert(fields_view(bindings@) == fields_view(b0).push((field_name@, counter)));
                                counter = counter + 1;
                            }
                        },
                        None => {},
                    }
                    i = i + 1;
                }
                assert(fields@.take(fields@.len() as int) == fields@);
            },
            None => {},
        }
        bindings
    }

    /// The fields of the submodule's parameters value, or nothing when the
    /// module has no commands or no parameters.
    fn build_parameter_initialization(&self, bindings: &Vec<(String, usize)>, path: &ModulePath, has_commands: bool) -> (r: Option<(RustPath, Vec<FieldInit>)>)
        ensures
            match r {
                Some((p, inits)) => has_commands && self.parameters is Some && path_view(p) == plain_path(seq!["super"@] + path.segments_view() + seq![self.name@])
                    && field_inits_view(inits@) == sub_field_inits(self.parameters->Some_0.pstruct.fields@, fields_view(bindings@)),
                None => !has_commands || self.parameters is None,
            },
    {
        if !has_commands {
            return None;
        }
        match &self.parameters {
            None => None,
            Some(params) => {
                let fields = &params.pstruct.fields;
                let ghost bv = fields_view(bindings@);
                let mut field_inits: Vec<FieldInit> = Vec::new();
                let mut i: usize = 0;
                while i < fields.len()
                    invariant
                        i <= fields@.len(),
                        bv == fields_view(bindings@),
                        field_inits_view(field_inits@) == sub_field_inits(fields@.take(i as int), bv),
                    decreases fields@.len() - i,
                {
                    assert(fields@.take(i + 1).drop_last() == fields@.take(i as int));
                    assert(fields@.take(i + 1).last() == fields@[i as int]);
                    let ghost f0 = field_inits@;
                    match &fields[i].ident {
                        Some(field_name) => {
                            if str_eq(field_name.as_str(), "super_") {
                                field_inits.push(FieldInit::SuperParameters);
                                assert(field_inits_view(field_inits@) == field_inits_view(f0).push(FieldInitView::SuperParameters));
                            } else if str_eq(field_name.as_str(), "_phantom_lifetime_marker") {
                                field_inits.push(FieldInit::PhantomMarker);
                                assert(field_inits_view(field_inits@) == field_inits_view(f0).push(FieldInitView::PhantomMarker));
                            } else {
                                match find_binding_exec(bindings, field_name.as_str()) {
                                    Some(binding) => {
                                        field_inits.push(FieldInit::Binding(field_name.clone(), binding));
                                        assert(field_inits_view(field_inits@) == field_inits_view(f0).push(
                                            FieldInitView::Binding(field_name@, binding),
                                        ));
                                    },
                                    None => {},
                                }
                            }
                        },
                        None => {},
                    }
                    i = i + 1;
                }
                assert(fields@.take(fields@.len() as int) == fields@);
                let params_path = path.super_path_to(self.name.as_str());
                Some((params_path, field_inits))
            },
        }
    }

    /// The body of the submodule's arm: its own arms, or the
    /// missing-command error when it has nothing to run.
    fn build_nested_match_arms(&self, path: &ModulePath, has_commands: bool) -> (r: SubBody)
        requires
            has_commands == spec_has_commands(*self),
        ensures
            match r {
                SubBody::Nested(arms) => has_commands && arms_view(arms@) == spec_arms(*self, path.segments_view().push(self.name@)),
                SubBody::NoCommand(last) => !has_commands && opt_string_view(last) == last_of(path.segments_view()),
            },
        decreases *self, 1int,
    {
        if !has_commands {
            return SubBody::NoCommand(Self::build_no_command_error(path));
        }
        let new_path = path.join(self.name.as_str());
        let nested_arms = self.build_match_arms_recursive(&new_path);
        SubBody::Nested(nested_arms)
    }

    /// The arm of this module as a submodule of the module at `path`.
    pub fn build_submodule_match_arm(&self, cli_path: &RustPath, path: &ModulePath) -> (r: MatchArm)
        ensures
            arm_view(r) == spec_submodule_arm(*self, path_view(*cli_path), path.segments_view()),
        decreases *self, 2int,
    {
        let variant_ident = to_variant_ident(&self.name);
        let param_bindings = self.build_parameter_pattern_bindings();
        let pattern_fields = self.build_pattern_fields(&param_bindings);
        let has_commands = self.has_commands();
        let params_init = self.build_parameter_initialization(&param_bindings, path, has_commands);
        let nested_match = self.build_nested_match_arms(path, has_commands);
        let r = MatchArm::Submodule {
            cli_path: copy_path(cli_path),
            variant: variant_ident,
            fields: pattern_fields,
            has_sub: has_commands,
            params_init,
            body: nested_match,
        };
        r
    }

    /// The match arms of this module at `path`: commands, default or
    /// missing-command error, submodules, external modules.
    pub fn build_match_arms_recursive(&self, path: &ModulePath) -> (r: Vec<MatchArm>)
        ensures
            arms_view(r@) == spec_arms(*self, path.segments_view()),
        decreases *self, 0int,
    {
        let ghost pv = path.segments_view();
        let ghost cli = plain_path(seq!["cli"@] + pv);
        let mut arms: Vec<MatchArm> = Vec::new();
        let cli_path = path.cli_path();
        let mut i: usize = 0;
        while i < self.tusks.len()
            invariant
                i <= self.tusks@.len(),
                pv == path.segments_view(),
                path_view(cli_path) == cli,
                arms_view(arms@) == spec_function_arms(*self, self.tusks@.take(i as int), cli, pv),
            decreases self.tusks@.len() - i,
        {
            let arm = self.build_function_match_arm(&self.tusks[i], &cli_path, path);
            let ghost a0 = arms@;
            arms.push(arm);
            assert(arms@.drop_last() == a0);
            assert(self.tusks@.take(i + 1) == self.tusks@.take(i as int).push(self.tusks@[i as int]));
            i = i + 1;
        }
        assert(self.tusks@.take(self.tusks@.len() as int) == self.tusks@);
        let ghost after_functions = arms@;
        match self.find_default_tusk() {
            Some(k) => {
                let tusk = &self.tusks[k];
                let default_arm = self.build_default_function_match_arm(tusk, path, self.allow_external_subcommands);
                arms.push(default_arm);
                if self.allow_external_subcommands {
                    let external_arm = self.build_external_subcommand_match_arm(tusk, path);
                    arms.push(external_arm);
                    proof {
                        let extra = seq![default_arm, external_arm];
                        reveal_with_fuel(arms_view, 3);
                        assert(arms@ == after_functions + extra);
                        lemma_arms_view_concat(after_functions, extra);
                        assert(extra.drop_last() == seq![default_arm]);
                        assert(seq![default_arm].drop_last() == Seq::<MatchArm>::empty());
                        assert(arms_view(seq![default_arm]) =~= seq![arm_view(default_arm)]);
                        assert(arms_view(extra) =~= seq![arm_view(default_arm), arm_view(external_arm)]);
                        assert(arms_view(extra) =~= spec_default_arms(*self, pv));
                    }
                } else {
                    proof {
                        let extra = seq![default_arm];
                        reveal_with_fuel(arms_view, 2);
                        assert(arms@ == after_functions + extra);
                        lemma_arms_view_concat(after_functions, extra);
                        assert(extra.drop_last() == Seq::<MatchArm>::empty());
                        assert(arms_view(extra) =~= seq![arm_view(default_arm)]);
                        assert(arms_view(extra) =~= spec_default_arms(*self, pv));
                    }
                }
            },
            None => {
                let arm = Self::build_no_command_error_arm(path);
                arms.push(arm);
                proof {
                    let extra = seq![arm];
                    reveal_with_fuel(arms_view, 2);
                    assert(arms@ == after_functions + extra);
                    lemma_arms_view_concat(after_functions, extra);
                    assert(extra.drop_last() == Seq::<MatchArm>::empty());
                    assert(arms_view(extra) =~= seq![arm_view(arm)]);
                    assert(arms_view(extra) =~= spec_default_arms(*self, pv));
                }
            },
        }
        let ghost after_default = arms@;
        assert(arms_view(after_default) == spec_function_arms(*self, self.tusks@, cli, pv) + spec_default_arms(*self, pv));
        let mut j: usize = 0;
        while j < self.submodules.len()
            invariant
                j <= self.submodules@.len(),
                pv == path.segments_view(),
                path_view(cli_path) == cli,
                arms_view(after_default) == spec_function_arms(*self, self.tusks@, cli, pv) + spec_default_arms(*self, pv),
                arms_view(arms@) == arms_view(after_default) + spec_sub_arms(self.submodules@.take(j as int), cli, pv),
            decreases self.submodules@.len() - j,
        {
            let submodule = &self.submodules[j];
            let arm = submodule.build_submodule_match_arm(&cli_path, path);
            let ghost a0 = arms@;
            arms.push(arm);
            assert(arms@.drop_last() == a0);
            assert(self.submodules@.take(j + 1).drop_last() == self.submodules@.take(j as int));
            assert(self.submodules@.take(j + 1).last() == self.submodules@[j as int]);
            j = j + 1;
        }
        assert(self.submodules@.take(self.submodules@.len() as int) == self.submodules@);
        if self.external_modules.len() > 0 {
            let ext = self.build_external_arm(&cli_path, path);
            let ghost a0 = arms@;
            arms.push(ext);
            assert(arms@.drop_last() == a0);
        }
        arms
    }

    /// The fields of this module's own parameters value.
    fn build_parameters_initialization(&self) -> (r: Option<Vec<FieldInit>>)
        ensures
            match r {
                Some(inits) => self.parameters is Some && field_inits_view(inits@) == root_field_inits(self.parameters->Some_0.pstruct.fields@),
                None => self.parameters is None,
            },
    {
        match &self.parameters {
            None => None,
            Some(params) => {
                let fields = &params.pstruct.fields;
                let mut field_inits: Vec<FieldInit> = Vec::new();
                let mut i: usize = 0;
                while i < fields.len()
                    invariant
                        i <= fields@.len(),
                        field_inits_view(field_inits@) == root_field_inits(fields@.take(i as int)),
                    decreases fields@.len() - i,
                {
                    assert(fields@.take(i + 1).drop_last() == fields@.take(i as int));
                    assert(fields@.take(i + 1).last() == fields@[i as int]);
                    let ghost f0 = field_inits@;
                    match &fields[i].ident {
                        Some(field_name) => {
                            if str_eq(field_name.as_str(), "super_") {
                                field_inits.push(FieldInit::SuperParameters);
                                assert(field_inits_view(field_inits@) == field_inits_view(f0).push(FieldInitView::SuperParameters));
                            } else if str_eq(field_name.as_str(), "_phantom_lifetime_marker") {
                                field_inits.push(FieldInit::PhantomMarker);
                                assert(field_inits_view(field_inits@) == field_inits_view(f0).push(FieldInitView::PhantomMarker));
                            } else {
                                field_inits.push(FieldInit::FromCli(field_name.clone()));
                                assert(field_inits_view(field_inits@) == field_inits_view(f0).push(FieldInitView::FromCli(field_name@)));
                            }
                        },
                        None => {},
                    }
                    i = i + 1;
                }
                assert(fields@.take(fields@.len() as int) == fields@);
                Some(field_inits)
            },
        }
    }

    /// The plan of the module's `handle_matches` function.
    pub fn build_handle_matches(&self, is_tusks_root: bool) -> (r: HandleMatchesPlan)
        ensures
            r.is_root == spec_handle_matches(*self, is_tusks_root).is_root,
            match r.params_init {
                Some(inits) => spec_handle_matches(*self, is_tusks_root).params_init == Some(field_inits_view(inits@)),
                None => spec_handle_matches(*self, is_tusks_root).params_init is None,
            },
            arms_view(r.arms@) == spec_handle_matches(*self, is_tusks_root).arms,
    {
        let params_init = self.build_parameters_initialization();
        let path = ModulePath::new();
        let match_arms = self.build_match_arms_recursive(&path);
        HandleMatchesPlan { is_root: is_tusks_root, params_init, arms: match_arms }
    }
}

/// The first binding of a field, see `find_binding`.
fn find_binding_exec(bindings: &Vec<(String, usize)>, name: &str) -> (r: Option<usize>)
    ensures
        r == find_binding(fields_view(bindings@), name@),
{
    let ghost bv = fields_view(bindings@);
    let mut i: usize = 0;
    while i < bindings.len()
        invariant
            i <= bindings@.len(),
            bv == fields_view(bindings@),
            find_binding(bv.take(i as int), name@) is None,
        decreases bindings@.len() - i,
    {
        assert(bv.take(i + 1).drop_last() == bv.take(i as int));
        assert(bv.take(i + 1).last() == bv[i as int]);
        if str_eq(bindings[i].0.as_str(), name) {
            proof {
                lemma_find_binding_prefix(bv, i as int);
            }
            return Some(bindings[i].1);
        }
        i = i + 1;
    }
    assert(bv.take(bindings@.len() as int) == bv);
    None
}

/// A binding found in a prefix is the binding found in the whole.
proof fn lemma_find_binding_prefix(b: Seq<(Seq<char>, usize)>, k: int)
    requires
        0 <= k < b.len(),
        find_binding(b.take(k), b[k].0) is None,
    ensures
        find_binding(b, b[k].0) == Some(b[k].1),
    decreases b.len(),
{
    if k < b.len() - 1 {
        assert(b.drop_last().take(k) == b.take(k));
        lemma_find_binding_prefix(b.drop_last(), k);
    } else {
        assert(b.drop_last() == b.take(k));
    }
}

/// A default found in a prefix is the first default of the whole.
proof fn lemma_default_index_prefix(t: Seq<Tusk>, k: int)
    requires
        0 <= k < t.len(),
        default_index(t.take(k)) is None,
        has_attr_spec(t[k].func.attrs@, "default"@),
    ensures
        default_index(t) == Some(k),
    decreases t.len(),
{
    if k < t.len() - 1 {
        assert(t.drop_last().take(k) == t.take(k));
        lemma_default_index_prefix(t.drop_last(), k);
    } else {
        assert(t.drop_last() == t.take(k));
    }
}

} // verus!
