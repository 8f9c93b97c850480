//! A tusks module as the code generation reads it, and the plan of the
//! generated `handle_matches` function: the match arms that dispatch a
//! parsed command line to the command functions.
use vstd::prelude::*;
use crate::codegen::mod_path::RustPath;
use crate::parsing::parameters::TusksParameters;
use crate::parsing::tusk::Tusk;
use crate::task_list::path_order::strings_view;

verus! {

/// A module brought in from elsewhere with `pub use ... as alias`.
#[derive(Debug)]
pub struct ExternalModule {
    pub alias: String,
}

/// A tusks module: its name, parameters struct, command functions,
/// submodules and external modules, and whether it accepts external
/// subcommands.
#[derive(Debug)]
pub struct TusksModule {
    pub name: String,
    pub parameters: Option<TusksParameters>,
    pub tusks: Vec<Tusk>,
    pub submodules: Vec<TusksModule>,
    pub external_modules: Vec<ExternalModule>,
    pub allow_external_subcommands: bool,
}

/// An argument of a generated command call.
#[derive(Debug, Clone, Copy, PartialEq, Eq, Structural)]
pub enum CallArg {
    /// `&parameters`
    ParametersRef,
    /// `Vec::new()`
    EmptyVec,
    /// `external_subcommand_args.clone()`
    ExternalArgsClone,
    /// The clone of the pattern binding number `n + 1` (`p1`, `p2`, ...).
    BindingClone(usize),
}

/// What a `Result`'s `Ok` value becomes.
#[derive(Debug, Clone, Copy, PartialEq, Eq, Structural)]
pub enum OkHandling {
    /// `Some(value)`: a `u8` exit code.
    ExitCode,
    /// The value itself: an `Option<u8>`.
    Passed,
    /// Dropped, with `None`: `()` or any other type.
    Discarded,
}

/// What the arm does with a command's return value.
#[derive(Debug, Clone, Copy, PartialEq, Eq, Structural)]
pub enum ReturnHandling {
    /// No return type: call, then `None`.
    Unit,
    /// `u8`: `Some(call)`.
    ExitCode,
    /// `Option<u8>`: the call's value.
    Passed,
    /// `Result<T, E>`: the `Ok` value as given; on `Err`, print
    /// `Error: <err>` to stderr and give `Some(1)`.
    Result(OkHandling),
    /// Any other return type: `None`, without the call.
    Ignored,
}

/// A generated call of a command function.
#[derive(Debug)]
pub struct CallPlan {
    pub func_path: RustPath,
    pub args: Vec<CallArg>,
    pub is_async: bool,
    pub returns: ReturnHandling,
}

/// A field of a generated `Parameters` value.
#[derive(Debug)]
pub enum FieldInit {
    /// `super_: super_parameters`
    SuperParameters,
    /// `_phantom_lifetime_marker: ::std::marker::PhantomData`
    PhantomMarker,
    /// `name: &cli.name`
    FromCli(String),
    /// `name: p<n + 1>`
    Binding(String, usize),
}

/// What the arm of a submodule does after binding its parameters.
#[derive(Debug)]
pub enum SubBody {
    /// `match sub { arms }`
    Nested(Vec<MatchArm>),
    /// The error for a missing command, naming the last module of the path.
    NoCommand(Option<String>),
}

/// A generated match arm.
#[derive(Debug)]
pub enum MatchArm {
    /// `Some(cli_path::Commands::variant { field: pN, .. }) => call`
    Function { cli_path: RustPath, variant: String, fields: Vec<(String, usize)>, call: CallPlan },
    /// `None => call`: the module's default function.
    Default { call: CallPlan },
    /// `Some(cli_path::Commands::ClapExternalSubcommand(external_subcommand_args)) => call`
    ExternalSubcommand { cli_path: RustPath, call: CallPlan },
    /// `None => { eprintln!(...); Some(1) }`
    NoCommand { last: Option<String> },
    /// `Some(cli_path::Commands::variant { field: pN, .., sub }) => { parameters; body }`
    Submodule {
        cli_path: RustPath,
        variant: String,
        fields: Vec<(String, usize)>,
        has_sub: bool,
        params_init: Option<(RustPath, Vec<FieldInit>)>,
        body: SubBody,
    },
    /// `Some(cli_path::Commands::TuskExternalCommands(commands)) => match commands { .. }`:
    /// for each external module its variant and the path of the module.
    External { cli_path: RustPath, entries: Vec<(String, RustPath)> },
}

/// The generated `handle_matches` function.
#[derive(Debug)]
pub struct HandleMatchesPlan {
    /// The root signature (`cli` only), or that of a nested module, which
    /// also takes the parent's parameters.
    pub is_root: bool,
    /// The fields of the module's `Parameters` value, if it has one.
    pub params_init: Option<Vec<FieldInit>>,
    pub arms: Vec<MatchArm>,
}

/// A call as plain values.
pub struct CallView {
    pub func_path: PathView,
    pub args: Seq<CallArg>,
    pub is_async: bool,
    pub returns: ReturnHandling,
}

/// A field initialisation as plain values.
pub enum FieldInitView {
    SuperParameters,
    PhantomMarker,
    FromCli(Seq<char>),
    Binding(Seq<char>, usize),
}

/// The body of a submodule arm as plain values.
pub enum SubBodyView {
    Nested(Seq<ArmView>),
    NoCommand(Option<Seq<char>>),
}

/// A path as plain values: its segments, and whether `::` follows the last.
pub struct PathView {
    pub segments: Seq<Seq<char>>,
    pub trailing_colons: bool,
}

/// A path that does not end in `::`.
pub open spec fn plain_path(segments: Seq<Seq<char>>) -> PathView {
    PathView { segments: segments, trailing_colons: false }
}

/// A match arm as plain values.
pub enum ArmView {
    Function { cli_path: PathView, variant: Seq<char>, fields: Seq<(Seq<char>, usize)>, call: CallView },
    Default { call: CallView },
    ExternalSubcommand { cli_path: PathView, call: CallView },
    NoCommand { last: Option<Seq<char>> },
    Submodule {
        cli_path: PathView,
        variant: Seq<char>,
        fields: Seq<(Seq<char>, usize)>,
        has_sub: bool,
        params_init: Option<(PathView, Seq<FieldInitView>)>,
        body: SubBodyView,
    },
    External { cli_path: PathView, entries: Seq<(Seq<char>, PathView)> },
}

/// A path as plain values.
pub open spec fn path_view(p: RustPath) -> PathView {
    PathView { segments: strings_view(p.segments@), trailing_colons: p.trailing_colons }
}

pub open spec fn call_view(c: CallPlan) -> CallView {
    CallView { func_path: path_view(c.func_path), args: c.args@, is_async: c.is_async, returns: c.returns }
}

pub open spec fn field_init_view(f: FieldInit) -> FieldInitView {
    match f {
        FieldInit::SuperParameters => FieldInitView::SuperParameters,
        FieldInit::PhantomMarker => FieldInitView::PhantomMarker,
        FieldInit::FromCli(n) => FieldInitView::FromCli(n@),
        FieldInit::Binding(n, k) => FieldInitView::Binding(n@, k),
    }
}

pub open spec fn field_inits_view(s: Seq<FieldInit>) -> Seq<FieldInitView> {
    s.map_values(|f: FieldInit| field_init_view(f))
}

pub open spec fn fields_view(s: Seq<(String, usize)>) -> Seq<(Seq<char>, usize)> {
    s.map_values(|f: (String, usize)| (f.0@, f.1))
}

pub open spec fn opt_string_view(o: Option<String>) -> Option<Seq<char>> {
    match o {
        Some(s) => Some(s@),
        None => None,
    }
}

/// A match arm as plain values.
pub open spec fn arm_view(a: MatchArm) -> ArmView
    decreases a,
{
    match a {
        MatchArm::Function { cli_path, variant, fields, call } => ArmView::Function {
            cli_path: path_view(cli_path),
            variant: variant@,
            fields: fields_view(fields@),
            call: call_view(call),
        },
        MatchArm::Default { call } => ArmView::Default { call: call_view(call) },
        MatchArm::ExternalSubcommand { cli_path, call } => ArmView::ExternalSubcommand {
            cli_path: path_view(cli_path),
            call: call_view(call),
        },
        MatchArm::NoCommand { last } => ArmView::NoCommand { last: opt_string_view(last) },
        MatchArm::Submodule { cli_path, variant, fields, has_sub, params_init, body } => ArmView::Submodule {
            cli_path: path_view(cli_path),
            variant: variant@,
            fields: fields_view(fields@),
            has_sub: has_sub,
            params_init: match params_init {
                Some((p, inits)) => Some((path_view(p), field_inits_view(inits@))),
                None => None,
            },
            body: match body {
                SubBody::Nested(arms) => SubBodyView::Nested(arms_view(arms@)),
                SubBody::NoCommand(last) => SubBodyView::NoCommand(opt_string_view(last)),
            },
        },
        MatchArm::External { cli_path, entries } => ArmView::External {
            cli_path: path_view(cli_path),
            entries: entries@.map_values(|e: (String, RustPath)| (e.0@, path_view(e.1))),
        },
    }
}

/// Match arms as plain values.
pub open spec fn arms_view(s: Seq<MatchArm>) -> Seq<ArmView>
    decreases s,
{
    if s.len() == 0 {
        Seq::empty()
    } else {
        arms_view(s.drop_last()).push(arm_view(s.last()))
    }
}

/// Appending arms appends their views.
pub proof fn lemma_arms_view_concat(a: Seq<MatchArm>, b: Seq<MatchArm>)
    ensures
        arms_view(a + b) == arms_view(a) + arms_view(b),
    decreases b.len(),
{
    if b.len() == 0 {
        assert(a + b == a);
    } else {
        assert((a + b).drop_last() == a + b.drop_last());
        lemma_arms_view_concat(a, b.drop_last());
    }
}

} // verus!
