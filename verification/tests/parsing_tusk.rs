use tusks::parsing::syntax::{FnArgModel, FnModel, GenericArgumentModel, PathArgumentsModel, PathSegmentModel, TypeModel};
use tusks::parsing::tusk::{error_message_too_many_args, validate, Tusk, ValidationError};

fn seg(name: &str) -> PathSegmentModel {
    PathSegmentModel { ident: name.to_string(), arguments: PathArgumentsModel::Plain }
}

fn seg_args(name: &str, args: Vec<GenericArgumentModel>) -> PathSegmentModel {
    PathSegmentModel { ident: name.to_string(), arguments: PathArgumentsModel::AngleBracketed(args) }
}

fn path(segments: Vec<PathSegmentModel>) -> TypeModel {
    TypeModel::Path { qself: false, leading_colon: false, segments }
}

/// A one-segment path type without arguments, such as `u8`.
fn ty(name: &str) -> TypeModel {
    path(vec![seg(name)])
}

/// A one-segment path type with type arguments, such as `Option<u8>`.
fn generic(name: &str, args: Vec<TypeModel>) -> TypeModel {
    path(vec![seg_args(name, args.into_iter().map(GenericArgumentModel::Type).collect())])
}

fn unit() -> TypeModel {
    TypeModel::Tuple { elems: vec![] }
}

fn reference(inner: TypeModel) -> TypeModel {
    TypeModel::Reference { elem: Box::new(inner) }
}

fn arg(name: &str, t: TypeModel) -> FnArgModel {
    FnArgModel::Typed { name: Some(name.to_string()), ty: t }
}

fn func(is_pub: bool, is_async: bool, attrs: &[&str], inputs: Vec<FnArgModel>, output: Option<TypeModel>) -> FnModel {
    FnModel {
        name: "hello".to_string(),
        is_pub,
        is_async,
        attrs: attrs.iter().map(|a| a.to_string()).collect(),
        inputs,
        output,
    }
}

fn pub_fn(output: Option<TypeModel>) -> FnModel {
    func(true, false, &[], vec![], output)
}

fn default_fn(inputs: Vec<FnArgModel>) -> FnModel {
    func(true, false, &["default"], inputs, None)
}

fn vec_string() -> TypeModel {
    generic("Vec", vec![ty("String")])
}

fn params_ref() -> TypeModel {
    reference(ty("Parameters"))
}

#[test]
fn is_u8_type_accepts_u8() {
    assert!(Tusk::is_u8_type(&ty("u8")));
}

#[test]
fn is_u8_type_rejects_u32() {
    assert!(!Tusk::is_u8_type(&ty("u32")));
}

#[test]
fn is_u8_type_rejects_string() {
    assert!(!Tusk::is_u8_type(&ty("String")));
}

#[test]
fn is_option_u8_accepts_option_u8() {
    assert!(Tusk::is_option_u8_type(&generic("Option", vec![ty("u8")])));
}

#[test]
fn is_option_u8_rejects_option_u32() {
    assert!(!Tusk::is_option_u8_type(&generic("Option", vec![ty("u32")])));
}

#[test]
fn is_option_u8_rejects_option_string() {
    assert!(!Tusk::is_option_u8_type(&generic("Option", vec![ty("String")])));
}

#[test]
fn is_option_u8_rejects_bare_u8() {
    assert!(!Tusk::is_option_u8_type(&ty("u8")));
}

#[test]
fn is_option_u8_rejects_vec_u8() {
    assert!(!Tusk::is_option_u8_type(&generic("Vec", vec![ty("u8")])));
}

#[test]
fn from_fn_public_no_return() {
    let f = pub_fn(None);
    let result = Tusk::from_fn(f, false, false).unwrap();
    assert!(result.is_some());
    assert!(!result.unwrap().is_default);
}

#[test]
fn from_fn_public_returns_u8() {
    let f = pub_fn(Some(ty("u8")));
    let result = Tusk::from_fn(f, false, false).unwrap();
    assert!(result.is_some());
}

#[test]
fn from_fn_public_returns_option_u8() {
    let f = pub_fn(Some(generic("Option", vec![ty("u8")])));
    let result = Tusk::from_fn(f, false, false).unwrap();
    assert!(result.is_some());
}

#[test]
fn from_fn_rejects_invalid_return_type() {
    let f = pub_fn(Some(ty("String")));
    let err = Tusk::from_fn(f, false, false).unwrap_err();
    assert!(err.message().contains("command function must return"));
}

#[test]
fn from_fn_rejects_i32_return() {
    let f = pub_fn(Some(ty("i32")));
    let err = Tusk::from_fn(f, false, false).unwrap_err();
    assert!(err.message().contains("command function must return"));
}

#[test]
fn from_fn_skips_private() {
    let f = func(false, false, &[], vec![], None);
    let result = Tusk::from_fn(f, false, false).unwrap();
    assert!(result.is_none());
}

#[test]
fn from_fn_skips_skip_attribute() {
    let f = func(true, false, &["skip"], vec![], None);
    let result = Tusk::from_fn(f, false, false).unwrap();
    assert!(result.is_none());
}

#[test]
fn from_fn_default_attribute() {
    let f = default_fn(vec![]);
    let result = Tusk::from_fn(f, false, false).unwrap();
    assert!(result.is_some());
    assert!(result.unwrap().is_default);
}

#[test]
fn from_fn_duplicate_default_errors() {
    let f = default_fn(vec![]);
    let err = Tusk::from_fn(f, true, false).unwrap_err();
    assert!(err.message().contains("only one function can be marked with #[default]"));
}

#[test]
fn default_fn_zero_args_ok() {
    let f = default_fn(vec![]);
    assert!(Tusk::from_fn(f, false, false).is_ok());
}

#[test]
fn default_fn_parameters_arg_ok() {
    let f = default_fn(vec![arg("p", params_ref())]);
    assert!(Tusk::from_fn(f, false, false).is_ok());
}

#[test]
fn default_fn_vec_string_without_external_subcommands_fails() {
    let f = default_fn(vec![arg("args", vec_string())]);
    let err = Tusk::from_fn(f, false, false).unwrap_err();
    assert!(err.message().contains("&Parameters"));
}

#[test]
fn default_fn_vec_string_with_external_subcommands_ok() {
    let f = default_fn(vec![arg("args", vec_string())]);
    assert!(Tusk::from_fn(f, false, true).is_ok());
}

#[test]
fn default_fn_two_args_with_external_subcommands_ok() {
    let f = default_fn(vec![arg("p", params_ref()), arg("args", vec_string())]);
    assert!(Tusk::from_fn(f, false, true).is_ok());
}

#[test]
fn default_fn_two_args_without_external_subcommands_fails() {
    let f = default_fn(vec![arg("p", params_ref()), arg("args", vec_string())]);
    let err = Tusk::from_fn(f, false, false).unwrap_err();
    assert!(err.message().contains("&Parameters"));
}

#[test]
fn default_fn_three_args_fails() {
    let f = default_fn(vec![arg("a", ty("String")), arg("b", ty("String")), arg("c", ty("String"))]);
    let err = Tusk::from_fn(f, false, true).unwrap_err();
    assert!(err.message().contains("at most two arguments"));
}

#[test]
fn default_fn_wrong_single_arg_type_fails() {
    let f = default_fn(vec![arg("x", ty("String"))]);
    let err = Tusk::from_fn(f, false, false).unwrap_err();
    assert!(err.message().contains("&Parameters"));
}

#[test]
fn default_fn_two_args_wrong_order_fails() {
    let f = default_fn(vec![arg("args", vec_string()), arg("p", params_ref())]);
    let err = Tusk::from_fn(f, false, true).unwrap_err();
    assert!(err.message().contains("(&Parameters, Vec<String>)"));
}

#[test]
fn sync_fn_is_not_async() {
    let f = pub_fn(None);
    let tusk = Tusk::from_fn(f, false, false).unwrap().unwrap();
    assert!(!tusk.is_async);
}

#[test]
fn async_fn_detected() {
    let f = func(true, true, &[], vec![], None);
    let tusk = Tusk::from_fn(f, false, false).unwrap().unwrap();
    assert!(tusk.is_async);
}

#[test]
fn async_fn_without_feature_errors() {
    let f = func(true, true, &[], vec![], None);
    let err = Tusk::from_fn_with_async(f, false, false, false).unwrap_err();
    assert!(err.message().contains("async"));
}

#[test]
fn from_fn_accepts_result_unit() {
    let f = pub_fn(Some(generic("Result", vec![unit(), ty("String")])));
    assert!(Tusk::from_fn(f, false, false).unwrap().is_some());
}

#[test]
fn from_fn_accepts_result_u8() {
    let f = pub_fn(Some(generic("Result", vec![ty("u8"), ty("String")])));
    assert!(Tusk::from_fn(f, false, false).unwrap().is_some());
}

#[test]
fn from_fn_accepts_result_option_u8() {
    let f = pub_fn(Some(generic("Result", vec![generic("Option", vec![ty("u8")]), ty("String")])));
    assert!(Tusk::from_fn(f, false, false).unwrap().is_some());
}

#[test]
fn from_fn_rejects_result_with_bad_ok_type() {
    let f = pub_fn(Some(generic("Result", vec![ty("String"), ty("String")])));
    assert!(Tusk::from_fn(f, false, false).is_err());
}

#[test]
fn is_result_type_checks() {
    // Result<(), String>
    assert!(Tusk::is_result_type(&generic("Result", vec![unit(), ty("String")])));
    // Result<u8, Box<dyn std::error::Error>>
    assert!(Tusk::is_result_type(&generic("Result", vec![ty("u8"), generic("Box", vec![TypeModel::Other])])));
    // Result<Option<u8>, anyhow::Error>
    assert!(Tusk::is_result_type(&generic(
        "Result",
        vec![generic("Option", vec![ty("u8")]), path(vec![seg("anyhow"), seg("Error")])]
    )));
    // Result<String, String>
    assert!(!Tusk::is_result_type(&generic("Result", vec![ty("String"), ty("String")])));
    // Option<u8>
    assert!(!Tusk::is_result_type(&generic("Option", vec![ty("u8")])));
}

#[test]
fn result_ok_type_extracts_first_argument() {
    let t = generic("Result", vec![ty("u8"), ty("String")]);
    let ok = Tusk::result_ok_type(&t).unwrap();
    assert!(Tusk::is_u8_type(ok));
    assert!(Tusk::result_ok_type(&ty("u8")).is_none());
}

#[test]
fn last_segment_decides_u8() {
    assert!(Tusk::is_u8_type(&path(vec![seg("core"), seg("u8")])));
    let leading = TypeModel::Path { qself: false, leading_colon: true, segments: vec![seg("u8")] };
    assert!(Tusk::is_u8_type(&leading));
    assert!(!Tusk::is_u8_type(&path(vec![seg("u8"), seg("x")])));
    assert!(!Tusk::is_u8_type(&TypeModel::Tuple { elems: vec![] }));
}

#[test]
fn validate_checks_duplicate_before_arguments() {
    let f = default_fn(vec![arg("x", ty("String"))]);
    assert_eq!(validate(&f, true, false), Err(ValidationError::DuplicateDefault));
    assert_eq!(validate(&f, false, false), Err(ValidationError::DefaultArgumentsNoExternal));
    assert_eq!(validate(&f, false, true), Err(ValidationError::DefaultArgumentsExternal));
}

#[test]
fn too_many_args_message_depends_on_external_subcommands() {
    assert_eq!(
        error_message_too_many_args(true),
        "default function must have at most two arguments: &Parameters and Vec<String>"
    );
    assert_eq!(
        error_message_too_many_args(false),
        "default function must have either no arguments or exactly one argument of type &Parameters"
    );
}

#[test]
fn receiver_argument_is_refused() {
    let f = default_fn(vec![FnArgModel::Receiver]);
    assert_eq!(Tusk::from_fn(f, false, true).unwrap_err(), ValidationError::DefaultArgumentsExternal);
}

#[test]
fn accepted_function_is_kept_as_given() {
    let f = func(true, false, &["default"], vec![], Some(ty("u8")));
    let t = Tusk::from_fn(f, false, false).unwrap().unwrap();
    assert_eq!(t.func.name, "hello");
    assert!(t.is_default);
    assert!(t.func.output.is_some());
}
