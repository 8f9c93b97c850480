//! Command functions: which public functions become commands, which return
//! types they may have, and which arguments a `#[default]` function may take.
use vstd::prelude::*;
use crate::text::str_eq;
use crate::parsing::syntax::{
    has_attr, has_attr_spec, FnArgModel, FnModel, GenericArgumentModel, PathArgumentsModel, PathSegmentModel,
    TypeModel,
};

verus! {

/// Why a command function or a parameters struct is refused.
#[derive(Debug, Clone, Copy, PartialEq, Eq, Structural)]
pub enum ValidationError {
    /// The return type is not `()`, `u8`, `Option<u8>` or a `Result` of one of them.
    InvalidReturnType,
    /// An `async` command function where async support is off.
    AsyncWithoutFeature,
    /// A second `#[default]` function in a module.
    DuplicateDefault,
    /// A `#[default]` function with arguments other than `&Parameters`, in a
    /// module without external subcommands.
    DefaultArgumentsNoExternal,
    /// A `#[default]` function whose single argument is neither
    /// `&Parameters` nor `Vec<String>`, in a module with external subcommands.
    DefaultArgumentsExternal,
    /// A `#[default]` function with two arguments other than
    /// `(&Parameters, Vec<String>)`.
    DefaultTwoArgumentsSignature,
    /// A `#[default]` function with more than two arguments, in a module with
    /// external subcommands.
    DefaultTooManyArguments,
    /// A `Parameters` struct that is not public.
    ParametersNotPublic,
    /// A `Parameters` struct with a field named `super_`.
    SuperFieldNotAllowed,
    /// A `Parameters` struct with a field that is not a reference.
    FieldNotReference,
}

/// The text of a validation error.
pub open spec fn validation_message(e: ValidationError) -> Seq<char> {
    match e {
        ValidationError::InvalidReturnType => "command function must return (), u8, Option<u8>, or Result<T, E> where T is (), u8, or Option<u8>"@,
        ValidationError::AsyncWithoutFeature => "async command functions require the `async` feature. Add `tusks = { version = \"...\", features = [\"async\"] }` to your Cargo.toml"@,
        ValidationError::DuplicateDefault => "only one function can be marked with #[default]"@,
        ValidationError::DefaultArgumentsNoExternal => "default function must have either no arguments or exactly one argument of type &Parameters"@,
        ValidationError::DefaultArgumentsExternal => "default function must have either no arguments, a &Parameters argument, a Vec<String> argument, or both (&Parameters, Vec<String>)"@,
        ValidationError::DefaultTwoArgumentsSignature => "default function with two arguments must have signature: (&Parameters, Vec<String>)"@,
        ValidationError::DefaultTooManyArguments => "default function must have at most two arguments: &Parameters and Vec<String>"@,
        ValidationError::ParametersNotPublic => "Parameters struct must be public"@,
        ValidationError::SuperFieldNotAllowed => "super_ field is not allowed in Parameters struct. It will be added programmatically."@,
        ValidationError::FieldNotReference => "all fields in Parameters struct must be & references"@,
    }
}

impl ValidationError {
    /// The text of the error.
    pub fn message(&self) -> (r: &'static str)
        ensures
            r@ == validation_message(*self),
    {
        match self {
            ValidationError::InvalidReturnType => "command function must return (), u8, Option<u8>, or Result<T, E> where T is (), u8, or Option<u8>",
            ValidationError::AsyncWithoutFeature => "async command functions require the `async` feature. Add `tusks = { version = \"...\", features = [\"async\"] }` to your Cargo.toml",
            ValidationError::DuplicateDefault => "only one function can be marked with #[default]",
            ValidationError::DefaultArgumentsNoExternal => "default function must have either no arguments or exactly one argument of type &Parameters",
            ValidationError::DefaultArgumentsExternal => "default function must have either no arguments, a &Parameters argument, a Vec<String> argument, or both (&Parameters, Vec<String>)",
            ValidationError::DefaultTwoArgumentsSignature => "default function with two arguments must have signature: (&Parameters, Vec<String>)",
            ValidationError::DefaultTooManyArguments => "default function must have at most two arguments: &Parameters and Vec<String>",
            ValidationError::ParametersNotPublic => "Parameters struct must be public",
            ValidationError::SuperFieldNotAllowed => "super_ field is not allowed in Parameters struct. It will be added programmatically.",
            ValidationError::FieldNotReference => "all fields in Parameters struct must be & references",
        }
    }
}

/// The last segment of a path type.
pub open spec fn last_segment(ty: TypeModel) -> Option<PathSegmentModel> {
    match ty {
        TypeModel::Path { segments, .. } => if segments@.len() > 0 {
            Some(segments@.last())
        } else {
            None
        },
        _ => None,
    }
}

/// The first generic argument of a segment, when it is a type.
pub open spec fn first_type_arg(seg: PathSegmentModel) -> Option<TypeModel> {
    match seg.arguments {
        PathArgumentsModel::AngleBracketed(args) => if args@.len() > 0 {
            match args@[0] {
                GenericArgumentModel::Type(t) => Some(t),
                GenericArgumentModel::Other => None,
            }
        } else {
            None
        },
        _ => None,
    }
}

/// A path type whose last segment is `u8`.
pub open spec fn spec_is_u8(ty: TypeModel) -> bool {
    match last_segment(ty) {
        Some(seg) => seg.ident@ == "u8"@,
        None => false,
    }
}

/// A path type whose last segment is `Option` with a first type argument
/// that is `u8` as `spec_is_u8` says.
pub open spec fn spec_is_option_u8(ty: TypeModel) -> bool {
    match last_segment(ty) {
        Some(seg) => seg.ident@ == "Option"@ && match first_type_arg(seg) {
            Some(inner) => spec_is_u8(inner),
            None => false,
        },
        None => false,
    }
}

/// The empty tuple.
pub open spec fn spec_is_unit(ty: TypeModel) -> bool {
    match ty {
        TypeModel::Tuple { elems } => elems@.len() == 0,
        _ => false,
    }
}

/// The first type argument of a path type whose last segment is `Result`.
pub open spec fn spec_result_ok_type(ty: TypeModel) -> Option<TypeModel> {
    match last_segment(ty) {
        Some(seg) => if seg.ident@ == "Result"@ {
            first_type_arg(seg)
        } else {
            None
        },
        None => None,
    }
}

/// A `Result` whose first type argument is `()`, `u8` or `Option<u8>`.
pub open spec fn spec_is_result(ty: TypeModel) -> bool {
    match spec_result_ok_type(ty) {
        Some(ok) => spec_is_unit(ok) || spec_is_u8(ok) || spec_is_option_u8(ok),
        None => false,
    }
}

/// The return types a command function may declare.
pub open spec fn spec_return_type_valid(output: Option<TypeModel>) -> bool {
    match output {
        None => true,
        Some(ty) => spec_is_u8(ty) || spec_is_option_u8(ty) || spec_is_result(ty),
    }
}

/// A path without leading `::` that is the single segment `name` without
/// arguments.
pub open spec fn spec_path_is_ident(ty: TypeModel, name: Seq<char>) -> bool {
    match ty {
        TypeModel::Path { leading_colon, segments, .. } => !leading_colon && segments@.len() == 1
            && segments@[0].arguments is Plain && segments@[0].ident@ == name,
        _ => false,
    }
}

/// `&Parameters`: a reference to a path of the one segment `Parameters`
/// (any arguments), without a qualified self type.
pub open spec fn spec_is_parameters_reference(ty: TypeModel) -> bool {
    match ty {
        TypeModel::Reference { elem } => match *elem {
            TypeModel::Path { qself, segments, .. } => segments@.len() == 1 && segments@[0].ident@ == "Parameters"@
                && !qself,
            _ => false,
        },
        _ => false,
    }
}

/// `Vec<String>`: a path type whose last segment is `Vec` with exactly one
/// generic argument, the plain path `String`.
pub open spec fn spec_is_vec_string(ty: TypeModel) -> bool {
    match last_segment(ty) {
        Some(seg) => seg.ident@ == "Vec"@ && match seg.arguments {
            PathArgumentsModel::AngleBracketed(args) => args@.len() == 1 && match args@[0] {
                GenericArgumentModel::Type(inner) => spec_path_is_ident(inner, "String"@),
                GenericArgumentModel::Other => false,
            },
            _ => false,
        },
        None => false,
    }
}

/// The error for a default function's single argument of the wrong kind.
pub open spec fn single_argument_error(allow_external_subcommands: bool) -> ValidationError {
    if allow_external_subcommands {
        ValidationError::DefaultArgumentsExternal
    } else {
        ValidationError::DefaultArgumentsNoExternal
    }
}

/// The error for a default function with more than two arguments.
pub open spec fn too_many_args_error(allow_external_subcommands: bool) -> ValidationError {
    if allow_external_subcommands {
        ValidationError::DefaultTooManyArguments
    } else {
        ValidationError::DefaultArgumentsNoExternal
    }
}

/// What is wrong with the arguments of a default function, if anything:
/// none; `&Parameters`; with external subcommands also `Vec<String>` or
/// `(&Parameters, Vec<String>)`.
pub open spec fn spec_default_args_error(inputs: Seq<FnArgModel>, allow: bool) -> Option<ValidationError> {
    if inputs.len() == 0 {
        None
    } else if inputs.len() == 1 {
        match inputs[0] {
            FnArgModel::Typed { ty, .. } => if spec_is_parameters_reference(ty) || (allow && ty is Path
                && spec_is_vec_string(ty)) {
                None
            } else {
                Some(single_argument_error(allow))
            },
            FnArgModel::Receiver => Some(single_argument_error(allow)),
        }
    } else if inputs.len() == 2 {
        if !allow {
            Some(ValidationError::DefaultArgumentsNoExternal)
        } else {
            match (inputs[0], inputs[1]) {
                (FnArgModel::Typed { ty: t1, .. }, FnArgModel::Typed { ty: t2, .. }) => if spec_is_parameters_reference(t1)
                    && t2 is Path && spec_is_vec_string(t2) {
                    None
                } else {
                    Some(ValidationError::DefaultTwoArgumentsSignature)
                },
                _ => Some(ValidationError::DefaultTwoArgumentsSignature),
            }
        }
    } else {
        Some(too_many_args_error(allow))
    }
}

/// What becomes of a function: not a command, a command, or refused.
pub enum FnOutcome {
    Skipped,
    Accepted,
    Rejected(ValidationError),
}

/// Public functions without `#[skip]` are commands when their return type
/// is allowed, async only where async support is on, and, if marked
/// `#[default]`, only when no other default exists and the arguments fit.
pub open spec fn spec_from_fn(f: FnModel, default_exists: bool, allow: bool, async_enabled: bool) -> FnOutcome {
    if !f.is_pub || has_attr_spec(f.attrs@, "skip"@) {
        FnOutcome::Skipped
    } else if !spec_return_type_valid(f.output) {
        FnOutcome::Rejected(ValidationError::InvalidReturnType)
    } else if f.is_async && !async_enabled {
        FnOutcome::Rejected(ValidationError::AsyncWithoutFeature)
    } else if has_attr_spec(f.attrs@, "default"@) {
        if default_exists {
            FnOutcome::Rejected(ValidationError::DuplicateDefault)
        } else {
            match spec_default_args_error(f.inputs@, allow) {
                Some(e) => FnOutcome::Rejected(e),
                None => FnOutcome::Accepted,
            }
        }
    } else {
        FnOutcome::Accepted
    }
}

/// A command function.
#[derive(Debug)]
pub struct Tusk {
    pub func: FnModel,
    pub is_default: bool,
    pub is_async: bool,
}

/// Whether async command functions are supported: the `async` feature,
/// on in this build.
pub const ASYNC_COMMANDS: bool = true;

fn last_segment_of(ty: &TypeModel) -> (r: Option<&PathSegmentModel>)
    ensures
        match r {
            Some(seg) => last_segment(*ty) == Some(*seg),
            None => last_segment(*ty) is None,
        },
{
    match ty {
        TypeModel::Path { segments, .. } => {
            if segments.len() > 0 {
                Some(&segments[segments.len() - 1])
            } else {
                None
            }
        },
        _ => None,
    }
}

fn first_type_arg_of(seg: &PathSegmentModel) -> (r: Option<&TypeModel>)
    ensures
        match r {
            Some(t) => first_type_arg(*seg) == Some(*t),
            None => first_type_arg(*seg) is None,
        },
{
    match &seg.arguments {
        PathArgumentsModel::AngleBracketed(args) => {
            if args.len() > 0 {
                match &args[0] {
                    GenericArgumentModel::Type(t) => Some(t),
                    GenericArgumentModel::Other => None,
                }
            } else {
                None
            }
        },
        _ => None,
    }
}

fn is_unit_type(ty: &TypeModel) -> (r: bool)
    ensures
        r == spec_is_unit(*ty),
{
    match ty {
        TypeModel::Tuple { elems } => elems.len() == 0,
        _ => false,
    }
}

fn path_is_ident(ty: &TypeModel, name: &str) -> (r: bool)
    ensures
        r == spec_path_is_ident(*ty, name@),
{
    match ty {
        TypeModel::Path { leading_colon, segments, .. } => {
            !*leading_colon && segments.len() == 1 && match &segments[0].arguments {
                PathArgumentsModel::Plain => true,
                _ => false,
            } && str_eq(segments[0].ident.as_str(), name)
        },
        _ => false,
    }
}

impl Tusk {
    /// Whether the type is `u8` (by the last segment of its path).
    pub fn is_u8_type(ty: &TypeModel) -> (r: bool)
        ensures
            r == spec_is_u8(*ty),
    {
        match last_segment_of(ty) {
            Some(seg) => str_eq(seg.ident.as_str(), "u8"),
            None => false,
        }
    }

    /// Whether the type is `Option<u8>`.
    pub fn is_option_u8_type(ty: &TypeModel) -> (r: bool)
        ensures
            r == spec_is_option_u8(*ty),
    {
        match last_segment_of(ty) {
            Some(seg) => {
                if !str_eq(seg.ident.as_str(), "Option") {
                    return false;
                }
                match first_type_arg_of(seg) {
                    Some(inner) => Self::is_u8_type(inner),
                    None => false,
                }
            },
            None => false,
        }
    }

    /// The type of the `Ok` value of a `Result` type; `None` for other types.
    pub fn result_ok_type(ty: &TypeModel) -> (r: Option<&TypeModel>)
        ensures
            match r {
                Some(t) => spec_result_ok_type(*ty) == Some(*t),
                None => spec_result_ok_type(*ty) is None,
            },
    {
        match last_segment_of(ty) {
            Some(seg) => {
                if !str_eq(seg.ident.as_str(), "Result") {
                    return None;
                }
                first_type_arg_of(seg)
            },
            None => None,
        }
    }

    /// Whether the type is `Result<T, E>` with `T` one of `()`, `u8`,
    /// `Option<u8>`; the error type is not constrained.
    pub fn is_result_type(ty: &TypeModel) -> (r: bool)
        ensures
            r == spec_is_result(*ty),
    {
        match Self::result_ok_type(ty) {
            Some(ok) => is_unit_type(ok) || Self::is_u8_type(ok) || Self::is_option_u8_type(ok),
            None => false,
        }
    }

    fn validate_return_type(output: &Option<TypeModel>) -> (r: Result<(), ValidationError>)
        ensures
            r is Ok <==> spec_return_type_valid(*output),
            r matches Err(e) ==> e == ValidationError::InvalidReturnType,
    {
        match output {
            None => Ok(()),
            Some(ty) => {
                if Self::is_u8_type(ty) || Self::is_option_u8_type(ty) || Self::is_result_type(ty) {
                    Ok(())
                } else {
                    Err(ValidationError::InvalidReturnType)
                }
            },
        }
    }

    /// A public function without `#[skip]` as a command, with async support
    /// as `ASYNC_COMMANDS` says; see `from_fn_with_async`.
    pub fn from_fn(item_fn: FnModel, default_exists: bool, allow_external_subcommands: bool) -> (r: Result<Option<Tusk>, ValidationError>)
        ensures
            match spec_from_fn(item_fn, default_exists, allow_external_subcommands, ASYNC_COMMANDS) {
                FnOutcome::Skipped => r == Ok::<Option<Tusk>, ValidationError>(None),
                FnOutcome::Rejected(e) => r == Err::<Option<Tusk>, ValidationError>(e),
                FnOutcome::Accepted => r is Ok && r->Ok_0 is Some,
            },
            r matches Ok(Some(t)) ==> t.func == item_fn && t.is_default == has_attr_spec(item_fn.attrs@, "default"@)
                && t.is_async == item_fn.is_async,
    {
        Self::from_fn_with_async(item_fn, default_exists, allow_external_subcommands, ASYNC_COMMANDS)
    }

    /// A public function without `#[skip]` as a command: `Ok(None)` for other
    /// functions, an error for a command function that breaks a rule (see
    /// `spec_from_fn`).
    pub fn from_fn_with_async(
        item_fn: FnModel,
        default_exists: bool,
        allow_external_subcommands: bool,
        async_enabled: bool,
    ) -> (r: Result<Option<Tusk>, ValidationError>)
        ensures
            match spec_from_fn(item_fn, default_exists, allow_external_subcommands, async_enabled) {
                FnOutcome::Skipped => r == Ok::<Option<Tusk>, ValidationError>(None),
                FnOutcome::Rejected(e) => r == Err::<Option<Tusk>, ValidationError>(e),
                FnOutcome::Accepted => r is Ok && r->Ok_0 is Some,
            },
            r matches Ok(Some(t)) ==> t.func == item_fn && t.is_default == has_attr_spec(item_fn.attrs@, "default"@)
                && t.is_async == item_fn.is_async,
    {
        if !item_fn.is_pub || has_attr(&item_fn.attrs, "skip") {
            return Ok(None);
        }
        match Self::validate_return_type(&item_fn.output) {
            Ok(()) => {},
            Err(e) => {
                return Err(e);
            },
        }
        let is_default = has_attr(&item_fn.attrs, "default");
        let is_async = item_fn.is_async;
        if is_async && !async_enabled {
            return Err(ValidationError::AsyncWithoutFeature);
        }
        if is_default {
            match validate(&item_fn, default_exists, allow_external_subcommands) {
                Ok(()) => {},
                Err(e) => {
                    return Err(e);
                },
            }
        }
        Ok(Some(Tusk { func: item_fn, is_default, is_async }))
    }
}

/// The checks on a `#[default]` function: it is the only default of its
/// module, and its arguments fit.
pub fn validate(item_fn: &FnModel, default_exists: bool, allow_external_subcommands: bool) -> (r: Result<(), ValidationError>)
    ensures
        default_exists && has_attr_spec(item_fn.attrs@, "default"@) ==> r == Err::<(), ValidationError>(ValidationError::DuplicateDefault),
        !(default_exists && has_attr_spec(item_fn.attrs@, "default"@)) ==> match spec_default_args_error(item_fn.inputs@, allow_external_subcommands) {
            Some(e) => r == Err::<(), ValidationError>(e),
            None => r == Ok::<(), ValidationError>(()),
        },
{
    match check_duplicate_default(item_fn, default_exists) {
        Ok(()) => {},
        Err(e) => {
            return Err(e);
        },
    }
    validate_default_function_arguments(item_fn, allow_external_subcommands)
}

fn check_duplicate_default(item_fn: &FnModel, default_exists: bool) -> (r: Result<(), ValidationError>)
    ensures
        r is Err <==> default_exists && has_attr_spec(item_fn.attrs@, "default"@),
        r matches Err(e) ==> e == ValidationError::DuplicateDefault,
{
    if default_exists {
        if has_attr(&item_fn.attrs, "default") {
            return Err(ValidationError::DuplicateDefault);
        }
    }
    Ok(())
}

fn validate_default_function_arguments(item_fn: &FnModel, allow_external_subcommands: bool) -> (r: Result<(), ValidationError>)
    ensures
        match spec_default_args_error(item_fn.inputs@, allow_external_subcommands) {
            Some(e) => r == Err::<(), ValidationError>(e),
            None => r == Ok::<(), ValidationError>(()),
        },
{
    let n = item_fn.inputs.len();
    if n == 0 {
        Ok(())
    } else if n == 1 {
        validate_single_argument(&item_fn.inputs[0], allow_external_subcommands)
    } else if n == 2 {
        validate_two_arguments(&item_fn.inputs[0], &item_fn.inputs[1], allow_external_subcommands)
    } else {
        Err(error_too_many_args(allow_external_subcommands))
    }
}

fn error_single_argument(allow_external_subcommands: bool) -> (r: ValidationError)
    ensures
        r == single_argument_error(allow_external_subcommands),
{
    if allow_external_subcommands {
        ValidationError::DefaultArgumentsExternal
    } else {
        ValidationError::DefaultArgumentsNoExternal
    }
}

fn error_too_many_args(allow_external_subcommands: bool) -> (r: ValidationError)
    ensures
        r == too_many_args_error(allow_external_subcommands),
{
    if allow_external_subcommands {
        ValidationError::DefaultTooManyArguments
    } else {
        ValidationError::DefaultArgumentsNoExternal
    }
}

/// The text of the error for a default function with too many arguments.
pub fn error_message_too_many_args(allow_external_subcommands: bool) -> (r: &'static str)
    ensures
        r@ == validation_message(too_many_args_error(allow_external_subcommands)),
{
    error_too_many_args(allow_external_subcommands).message()
}

fn validate_single_argument(arg: &FnArgModel, allow_external_subcommands: bool) -> (r: Result<(), ValidationError>)
    ensures
        match spec_default_args_error(seq![*arg], allow_external_subcommands) {
            Some(e) => r == Err::<(), ValidationError>(e),
            None => r == Ok::<(), ValidationError>(()),
        },
{
    match arg {
        FnArgModel::Typed { ty, .. } => {
            if is_parameters_reference(ty) {
                return Ok(());
            }
            if allow_external_subcommands {
                match ty {
                    TypeModel::Path { .. } => {
                        if is_vec_string(ty) {
                            return Ok(());
                        }
                    },
                    _ => {},
                }
            }
            Err(error_single_argument(allow_external_subcommands))
        },
        FnArgModel::Receiver => Err(error_single_argument(allow_external_subcommands)),
    }
}

fn error_two_arguments_signature() -> (r: ValidationError)
    ensures
        r == ValidationError::DefaultTwoArgumentsSignature,
{
    ValidationError::DefaultTwoArgumentsSignature
}

fn validate_two_arguments(arg1: &FnArgModel, arg2: &FnArgModel, allow_external_subcommands: bool) -> (r: Result<(), ValidationError>)
    ensures
        match spec_default_args_error(seq![*arg1, *arg2], allow_external_subcommands) {
            Some(e) => r == Err::<(), ValidationError>(e),
            None => r == Ok::<(), ValidationError>(()),
        },
{
    if !allow_external_subcommands {
        return Err(ValidationError::DefaultArgumentsNoExternal);
    }
    match (arg1, arg2) {
        (FnArgModel::Typed { ty: t1, .. }, FnArgModel::Typed { ty: t2, .. }) => {
            if !is_parameters_reference(t1) {
                return Err(error_two_arguments_signature());
            }
            match t2 {
                TypeModel::Path { .. } => {},
                _ => {
                    return Err(error_two_arguments_signature());
                },
            }
            if !is_vec_string(t2) {
                return Err(error_two_arguments_signature());
            }
            Ok(())
        },
        _ => Err(error_two_arguments_signature()),
    }
}

/// See `spec_is_parameters_reference`.
fn is_parameters_reference(ty: &TypeModel) -> (r: bool)
    ensures
        r == spec_is_parameters_reference(*ty),
{
    match ty {
        TypeModel::Reference { elem } => match &**elem {
            TypeModel::Path { qself, segments, .. } => segments.len() == 1 && str_eq(
                segments[0].ident.as_str(),
                "Parameters",
            ) && !*qself,
            _ => false,
        },
        _ => false,
    }
}

/// See `spec_is_vec_string`.
fn is_vec_string(ty: &TypeModel) -> (r: bool)
    ensures
        r == spec_is_vec_string(*ty),
{
    match last_segment_of(ty) {
        Some(seg) => {
            if !str_eq(seg.ident.as_str(), "Vec") {
                return false;
            }
            match &seg.arguments {
                PathArgumentsModel::AngleBracketed(args) => {
                    if args.len() != 1 {
                        return false;
                    }
                    match &args[0] {
                        GenericArgumentModel::Type(inner) => path_is_ident(inner, "String"),
                        GenericArgumentModel::Other => false,
                    }
                },
                _ => false,
            }
        },
        None => false,
    }
}

/// Allowing external subcommands only widens what a `#[default]` function
/// may take: a function accepted without them is accepted with them; for a
/// function taking nothing or a single `&Parameters` the answer does not
/// depend on them at all, and such a function, public, not skipped, with an
/// allowed return type, async only where supported and the only default, is
/// accepted.
pub proof fn external_subcommands_only_widen_default_arguments(f: FnModel, default_exists: bool, async_enabled: bool)
    ensures
        spec_from_fn(f, default_exists, false, async_enabled) is Accepted ==> spec_from_fn(
            f,
            default_exists,
            true,
            async_enabled,
        ) is Accepted,
        (f.inputs@.len() == 0 || (f.inputs@.len() == 1 && (f.inputs@[0] matches FnArgModel::Typed { ty, .. }
            && spec_is_parameters_reference(ty)))) ==> {
            &&& spec_from_fn(f, default_exists, true, async_enabled) == spec_from_fn(f, default_exists, false, async_enabled)
            &&& (f.is_pub && !has_attr_spec(f.attrs@, "skip"@) && spec_return_type_valid(f.output) && (!f.is_async
                || async_enabled) && !default_exists) ==> spec_from_fn(f, default_exists, true, async_enabled) is Accepted
        },
{
}

/// The arguments a `#[default]` command may take, and nothing else: none or
/// `&Parameters`; with external subcommands also `Vec<String>` alone, or
/// `&Parameters` followed by `Vec<String>`.  A default function that is
/// public, not skipped, with an allowed return type, async only where
/// supported and the only default is accepted exactly when its arguments
/// are of one of these forms.
pub proof fn default_function_arguments(f: FnModel, allow: bool, async_enabled: bool)
    requires
        f.is_pub,
        !has_attr_spec(f.attrs@, "skip"@),
        spec_return_type_valid(f.output),
        !f.is_async || async_enabled,
        has_attr_spec(f.attrs@, "default"@),
    ensures
        spec_from_fn(f, false, allow, async_enabled) is Accepted <==> {
            ||| f.inputs@.len() == 0
            ||| f.inputs@.len() == 1 && (f.inputs@[0] matches FnArgModel::Typed { ty, .. } && (spec_is_parameters_reference(ty)
                || (allow && ty is Path && spec_is_vec_string(ty))))
            ||| allow && f.inputs@.len() == 2 && (f.inputs@[0] matches FnArgModel::Typed { ty, .. } && spec_is_parameters_reference(ty))
                && (f.inputs@[1] matches FnArgModel::Typed { ty, .. } && ty is Path && spec_is_vec_string(ty))
        },
{
}

} // verus!
