use tusks::codegen::mod_path::ModulePath;
use tusks::codegen::models::{
    CallArg, ExternalModule, FieldInit, MatchArm, OkHandling, ReturnHandling, SubBody, TusksModule,
};
use tusks::parsing::parameters::TusksParameters;
use tusks::parsing::syntax::{
    FieldModel, FnArgModel, FnModel, GenericArgumentModel, PathArgumentsModel, PathSegmentModel, StructModel,
    TypeModel,
};
use tusks::parsing::tusk::Tusk;

fn ty(name: &str) -> TypeModel {
    TypeModel::Path {
        qself: false,
        leading_colon: false,
        segments: vec![PathSegmentModel { ident: name.to_string(), arguments: PathArgumentsModel::Plain }],
    }
}

fn generic(name: &str, args: Vec<TypeModel>) -> TypeModel {
    TypeModel::Path {
        qself: false,
        leading_colon: false,
        segments: vec![PathSegmentModel {
            ident: name.to_string(),
            arguments: PathArgumentsModel::AngleBracketed(args.into_iter().map(GenericArgumentModel::Type).collect()),
        }],
    }
}

fn params_ref() -> TypeModel {
    TypeModel::Reference { elem: Box::new(ty("Parameters")) }
}

fn arg(name: &str, t: TypeModel) -> FnArgModel {
    FnArgModel::Typed { name: Some(name.to_string()), ty: t }
}

fn tusk(name: &str, attrs: &[&str], inputs: Vec<FnArgModel>, output: Option<TypeModel>) -> Tusk {
    let func = FnModel {
        name: name.to_string(),
        is_pub: true,
        is_async: false,
        attrs: attrs.iter().map(|a| a.to_string()).collect(),
        inputs,
        output,
    };
    Tusk::from_fn(func, false, true).unwrap().unwrap()
}

fn parameters(fields: &[&str]) -> TusksParameters {
    let s = StructModel {
        name: "Parameters".to_string(),
        is_pub: true,
        attrs: vec![],
        fields: fields
            .iter()
            .map(|f| FieldModel { ident: Some(f.to_string()), ty: TypeModel::Reference { elem: Box::new(ty("bool")) } })
            .collect(),
    };
    TusksParameters::from_struct(s).unwrap().unwrap()
}

fn module(name: &str, parameters: Option<TusksParameters>, tusks: Vec<Tusk>, submodules: Vec<TusksModule>) -> TusksModule {
    TusksModule {
        name: name.to_string(),
        parameters,
        tusks,
        submodules,
        external_modules: vec![],
        allow_external_subcommands: false,
    }
}

/// The global-argument sample: a root command and a submodule command that
/// both take the parameters.
fn global_arg_module() -> TusksModule {
    let sub = module("sub", None, vec![tusk("action", &[], vec![arg("params", params_ref())], None)], vec![]);
    module(
        "cli",
        Some(parameters(&["verbose"])),
        vec![tusk("root_cmd", &[], vec![arg("params", params_ref())], None)],
        vec![sub],
    )
}

#[test]
fn root_plan_has_command_error_and_submodule_arms() {
    let m = global_arg_module();
    let plan = m.build_handle_matches(true);
    assert!(plan.is_root);
    let inits = plan.params_init.as_ref().unwrap();
    assert_eq!(inits.len(), 1);
    assert!(matches!(&inits[0], FieldInit::FromCli(n) if n == "verbose"));
    assert_eq!(plan.arms.len(), 3);
    match &plan.arms[0] {
        MatchArm::Function { cli_path, variant, fields, call } => {
            assert_eq!(cli_path.to_string(), "cli");
            assert_eq!(variant, "root_cmd");
            assert!(fields.is_empty());
            assert_eq!(call.func_path.to_string(), "super :: root_cmd");
            assert_eq!(call.args, vec![CallArg::ParametersRef]);
            assert_eq!(call.returns, ReturnHandling::Unit);
            assert!(!call.is_async);
        },
        other => panic!("unexpected arm {:?}", other),
    }
    assert!(matches!(&plan.arms[1], MatchArm::NoCommand { last: None }));
    match &plan.arms[2] {
        MatchArm::Submodule { cli_path, variant, has_sub, body, .. } => {
            assert_eq!(cli_path.to_string(), "cli");
            assert_eq!(variant, "sub");
            assert!(*has_sub);
            match body {
                SubBody::Nested(arms) => {
                    assert_eq!(arms.len(), 2);
                    match &arms[0] {
                        MatchArm::Function { cli_path, variant, call, .. } => {
                            assert_eq!(cli_path.to_string(), "cli :: sub");
                            assert_eq!(variant, "action");
                            assert_eq!(call.func_path.to_string(), "super :: sub :: action");
                        },
                        other => panic!("unexpected arm {:?}", other),
                    }
                    assert!(matches!(&arms[1], MatchArm::NoCommand { last: Some(n) } if n == "sub"));
                },
                other => panic!("unexpected body {:?}", other),
            }
        },
        other => panic!("unexpected arm {:?}", other),
    }
}

#[test]
fn nested_plan_is_not_root() {
    let m = global_arg_module();
    assert!(!m.build_handle_matches(false).is_root);
}

#[test]
fn command_arguments_are_bound_in_order() {
    let t = tusk("greet", &[], vec![arg("name", ty("String")), arg("loud", ty("bool"))], Some(ty("u8")));
    let m = module("cli", None, vec![t], vec![]);
    let arms = m.build_match_arms_recursive(&ModulePath::new());
    match &arms[0] {
        MatchArm::Function { fields, call, .. } => {
            assert_eq!(fields, &vec![("name".to_string(), 0), ("loud".to_string(), 1)]);
            assert_eq!(call.args, vec![CallArg::BindingClone(0), CallArg::BindingClone(1)]);
            assert_eq!(call.returns, ReturnHandling::ExitCode);
        },
        other => panic!("unexpected arm {:?}", other),
    }
}

#[test]
fn return_types_choose_the_handling() {
    let outputs = vec![
        (Some(generic("Option", vec![ty("u8")])), ReturnHandling::Passed),
        (Some(generic("Result", vec![TypeModel::Tuple { elems: vec![] }, ty("String")])), ReturnHandling::Result(OkHandling::Discarded)),
        (Some(generic("Result", vec![ty("u8"), ty("String")])), ReturnHandling::Result(OkHandling::ExitCode)),
        (Some(generic("Result", vec![generic("Option", vec![ty("u8")]), ty("String")])), ReturnHandling::Result(OkHandling::Passed)),
    ];
    for (output, expected) in outputs {
        let m = module("cli", None, vec![tusk("run", &[], vec![], output)], vec![]);
        let arms = m.build_match_arms_recursive(&ModulePath::new());
        match &arms[0] {
            MatchArm::Function { call, .. } => assert_eq!(call.returns, expected),
            other => panic!("unexpected arm {:?}", other),
        }
    }
}

#[test]
fn default_function_handles_missing_and_external_commands() {
    let d = tusk("fallback", &["default"], vec![arg("p", params_ref()), arg("args", generic("Vec", vec![ty("String")]))], None);
    let mut m = module("cli", Some(parameters(&[])), vec![tusk("run", &[], vec![], None), d], vec![]);
    m.allow_external_subcommands = true;
    let arms = m.build_match_arms_recursive(&ModulePath::new());
    assert_eq!(arms.len(), 4);
    match &arms[2] {
        MatchArm::Default { call } => {
            assert_eq!(call.func_path.to_string(), "super :: fallback");
            assert_eq!(call.args, vec![CallArg::ParametersRef, CallArg::EmptyVec]);
        },
        other => panic!("unexpected arm {:?}", other),
    }
    match &arms[3] {
        MatchArm::ExternalSubcommand { cli_path, call } => {
            assert_eq!(cli_path.to_string(), "cli");
            assert_eq!(call.args, vec![CallArg::ParametersRef, CallArg::ExternalArgsClone]);
        },
        other => panic!("unexpected arm {:?}", other),
    }
}

#[test]
fn external_modules_share_one_arm() {
    let mut m = module("cli", None, vec![], vec![]);
    m.external_modules = vec![ExternalModule { alias: "deploy".to_string() }];
    let arms = m.build_match_arms_recursive(&ModulePath::new());
    assert_eq!(arms.len(), 2);
    assert!(matches!(&arms[0], MatchArm::NoCommand { last: None }));
    match &arms[1] {
        MatchArm::External { cli_path, entries } => {
            assert_eq!(cli_path.to_string(), "cli");
            assert_eq!(entries.len(), 1);
            assert_eq!(entries[0].0, "deploy");
            assert_eq!(entries[0].1.to_string(), "super :: deploy");
        },
        other => panic!("unexpected arm {:?}", other),
    }
}

#[test]
fn no_command_error_names_last_module() {
    assert_eq!(TusksModule::build_no_command_error(&ModulePath::new()), None);
    assert_eq!(TusksModule::build_no_command_error(&ModulePath::new().join("db").join("admin")), Some("admin".to_string()));
}

#[test]
fn parameters_argument_is_recognised() {
    let m = global_arg_module();
    let with = tusk("a", &[], vec![arg("params", params_ref())], None);
    let without = tusk("b", &[], vec![arg("name", ty("String"))], None);
    assert!(m.tusk_has_parameters_arg(&with));
    assert!(!m.tusk_has_parameters_arg(&without));
    let plain = module("x", None, vec![], vec![]);
    assert!(!plain.tusk_has_parameters_arg(&with));
}
