use tusks::parsing::parameters::TusksParameters;
use tusks::parsing::syntax::{FieldModel, PathArgumentsModel, PathSegmentModel, StructModel, TypeModel};
use tusks::parsing::tusk::ValidationError;

fn path_ty(name: &str) -> TypeModel {
    TypeModel::Path {
        qself: false,
        leading_colon: false,
        segments: vec![PathSegmentModel { ident: name.to_string(), arguments: PathArgumentsModel::Plain }],
    }
}

fn ref_ty(inner: TypeModel) -> TypeModel {
    TypeModel::Reference { elem: Box::new(inner) }
}

fn field(name: &str, ty: TypeModel) -> FieldModel {
    FieldModel { ident: Some(name.to_string()), ty }
}

fn strukt(name: &str, is_pub: bool, attrs: &[&str], fields: Vec<FieldModel>) -> StructModel {
    StructModel {
        name: name.to_string(),
        is_pub,
        attrs: attrs.iter().map(|a| a.to_string()).collect(),
        fields,
    }
}

#[test]
fn valid_parameters_struct() {
    // pub struct Parameters<'a> { pub name: &'a str }
    let s = strukt("Parameters", true, &[], vec![field("name", ref_ty(path_ty("str")))]);
    let result = TusksParameters::from_struct(s).unwrap();
    assert!(result.is_some());
}

#[test]
fn ignores_non_parameters_struct() {
    // pub struct Other { pub name: String }
    let s = strukt("Other", true, &[], vec![field("name", path_ty("String"))]);
    let result = TusksParameters::from_struct(s).unwrap();
    assert!(result.is_none());
}

#[test]
fn ignores_skipped_parameters() {
    // #[skip] pub struct Parameters<'a> { pub x: &'a str }
    let s = strukt("Parameters", true, &["skip"], vec![field("x", ref_ty(path_ty("str")))]);
    let result = TusksParameters::from_struct(s).unwrap();
    assert!(result.is_none());
}

#[test]
fn rejects_private_parameters() {
    // struct Parameters<'a> { x: &'a str }
    let s = strukt("Parameters", false, &[], vec![field("x", ref_ty(path_ty("str")))]);
    let err = TusksParameters::from_struct(s).unwrap_err();
    assert!(err.message().contains("must be public"));
}

#[test]
fn rejects_non_reference_field() {
    // pub struct Parameters { pub name: String }
    let s = strukt("Parameters", true, &[], vec![field("name", path_ty("String"))]);
    let err = TusksParameters::from_struct(s).unwrap_err();
    assert!(err.message().contains("must be & references"));
}

#[test]
fn rejects_super_field() {
    // pub struct Parameters<'a> { pub super_: &'a str }
    let s = strukt("Parameters", true, &[], vec![field("super_", ref_ty(path_ty("str")))]);
    let err = TusksParameters::from_struct(s).unwrap_err();
    assert!(err.message().contains("super_ field is not allowed"));
}

#[test]
fn accepts_empty_parameters() {
    // pub struct Parameters {}
    let s = strukt("Parameters", true, &[], vec![]);
    let result = TusksParameters::from_struct(s).unwrap();
    assert!(result.is_some());
}

#[test]
fn accepts_multiple_reference_fields() {
    // pub struct Parameters<'a> { pub a: &'a str, pub b: &'a u32 }
    let s = strukt(
        "Parameters",
        true,
        &[],
        vec![field("a", ref_ty(path_ty("str"))), field("b", ref_ty(path_ty("u32")))],
    );
    let result = TusksParameters::from_struct(s).unwrap();
    assert!(result.is_some());
}

#[test]
fn rejects_mixed_ref_and_non_ref() {
    // pub struct Parameters<'a> { pub a: &'a str, pub b: String }
    let s = strukt(
        "Parameters",
        true,
        &[],
        vec![field("a", ref_ty(path_ty("str"))), field("b", path_ty("String"))],
    );
    let err = TusksParameters::from_struct(s).unwrap_err();
    assert!(err.message().contains("must be & references"));
}

#[test]
fn super_field_is_reported_before_a_later_bad_field() {
    let s = strukt(
        "Parameters",
        true,
        &[],
        vec![field("super_", ref_ty(path_ty("str"))), field("b", path_ty("String"))],
    );
    assert_eq!(TusksParameters::from_struct(s).unwrap_err(), ValidationError::SuperFieldNotAllowed);
}

#[test]
fn accepted_struct_is_kept_as_given() {
    let s = strukt("Parameters", true, &[], vec![field("verbose", ref_ty(path_ty("bool")))]);
    let p = TusksParameters::from_struct(s).unwrap().unwrap();
    assert_eq!(p.pstruct.fields.len(), 1);
    assert_eq!(p.pstruct.fields[0].ident.as_deref(), Some("verbose"));
}

#[test]
fn validation_messages_are_exact() {
    assert_eq!(ValidationError::ParametersNotPublic.message(), "Parameters struct must be public");
    assert_eq!(
        ValidationError::SuperFieldNotAllowed.message(),
        "super_ field is not allowed in Parameters struct. It will be added programmatically."
    );
    assert_eq!(ValidationError::FieldNotReference.message(), "all fields in Parameters struct must be & references");
}
