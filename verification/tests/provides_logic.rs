use dirk::macros::error::Expected;
use dirk::macros::provides::{
    process_provides, FnArgModel, ImplItemModel, PatModel, ProviderReceiver, ProvidesError, ProvidesInput,
    ProvidesMacroInput,
};
use dirk::macros::syntax::{GenericArg, PathArgs, PathModel, Segment, TypeModel};
use dirk::macros::trait_impl::GenericParamModel;

fn seg(name: &str) -> Segment {
    Segment { ident: name.to_string(), args: PathArgs::Empty }
}

fn path_ty(names: &[&str]) -> TypeModel {
    TypeModel::Path {
        qself: false,
        path: PathModel { leading_colon: false, segments: names.iter().map(|n| seg(n)).collect() },
    }
}

fn render(t: &TypeModel) -> String {
    match t {
        TypeModel::Path { path, .. } => path
            .segments
            .iter()
            .map(|s| match &s.args {
                PathArgs::AngleBracketed(args) => format!(
                    "{}<{}>",
                    s.ident,
                    args.iter()
                        .map(|a| match a {
                            GenericArg::Type(t) => render(t),
                            GenericArg::Lifetime(l) => l.clone(),
                            GenericArg::Const => "const".to_string(),
                            _ => "?".to_string(),
                        })
                        .collect::<Vec<_>>()
                        .join(", ")
                ),
                _ => s.ident.clone(),
            })
            .collect::<Vec<_>>()
            .join("::"),
        TypeModel::TraitObject(bounds) => format!("dyn[{}]", bounds.len()),
        _ => "?".to_string(),
    }
}

fn typed(name: &str, ty: TypeModel) -> FnArgModel {
    FnArgModel::Typed { pat: PatModel::Ident(name.to_string()), ty }
}

fn constructor(inputs: Vec<FnArgModel>, output: Option<TypeModel>) -> ImplItemModel {
    ImplItemModel::Fn { ident: "new".to_string(), inputs, output }
}

fn input(kind: ProvidesMacroInput, items: Vec<ImplItemModel>) -> ProvidesInput {
    ProvidesInput { kind, self_ty: path_ty(&["services", "UserService"]), params: Vec::new(), items }
}

#[test]
fn default_kind_is_static() {
    assert_eq!(ProvidesMacroInput::default(), ProvidesMacroInput::Static);
}

#[test]
fn factory_prefixes() {
    assert_eq!(ProvidesMacroInput::Static.factory_prefix(), "StaticFactory");
    assert_eq!(ProvidesMacroInput::Scoped.factory_prefix(), "ScopedFactory");
    assert_eq!(ProvidesMacroInput::Singleton.factory_prefix(), "SingletonFactory");
}

#[test]
fn static_provider_plan() {
    let items = vec![constructor(vec![typed("repo", path_ty(&["Repo"]))], Some(path_ty(&["Self"])))];
    let plan = process_provides(&input(ProvidesMacroInput::Static, items)).unwrap();
    assert_eq!(render(&plan.injected), "services::UserService");
    assert_eq!(render(&plan.provider), "dirk::provides::Provider<services::UserService>");
    assert_eq!(render(&plan.factory), "services::StaticFactoryUserService<>");
    assert_eq!(render(&plan.factory_path), "services::StaticFactoryUserService");
    assert_eq!(render(&plan.injectable_path), "services::UserService");
    assert_eq!(plan.function, "new");
    assert_eq!(plan.args.len(), 1);
    assert_eq!(plan.args[0].provider, "repo_provider");
    assert_eq!(render(&plan.args[0].field_ty), "std::rc::Rc<dyn[1]>");
    assert!(matches!(&plan.receivers[0], ProviderReceiver::SelfField(s) if s == "repo_provider"));
    assert!(plan.call_wrappers.is_empty());
    assert!(plan.instance_name.is_none());
}

#[test]
fn scoped_provider_wraps_in_rc_refcell() {
    let items = vec![constructor(vec![typed("repo", path_ty(&["Repo"]))], Some(path_ty(&["Self"])))];
    let plan = process_provides(&input(ProvidesMacroInput::Scoped, items)).unwrap();
    assert_eq!(render(&plan.injected), "std::rc::Rc<std::cell::RefCell<services::UserService>>");
    assert!(matches!(&plan.receivers[0], ProviderReceiver::Local(s) if s == "repo_provider"));
    let wrappers: Vec<String> = plan
        .call_wrappers
        .iter()
        .map(|p| p.segments.iter().map(|s| s.ident.clone()).collect::<Vec<_>>().join("::"))
        .collect();
    assert_eq!(wrappers, vec!["std::cell::RefCell::new", "std::rc::Rc::new"]);
}

#[test]
fn singleton_provider_has_an_instance_name() {
    let items = vec![constructor(Vec::new(), Some(path_ty(&["Self"])))];
    let plan = process_provides(&input(ProvidesMacroInput::Singleton, items)).unwrap();
    assert_eq!(render(&plan.injected), "std::sync::Arc<std::sync::RwLock<services::UserService>>");
    assert_eq!(plan.instance_name.unwrap(), "SERVICESSINGLETONFACTORYUSERSERVICE");
}

#[test]
fn factory_type_passes_the_parameters_on() {
    let items = vec![constructor(Vec::new(), Some(path_ty(&["Self"])))];
    let mut i = input(ProvidesMacroInput::Static, items);
    i.params = vec![
        GenericParamModel::Lifetime("'a".to_string()),
        GenericParamModel::Type("T".to_string()),
        GenericParamModel::Const("N".to_string()),
    ];
    let plan = process_provides(&i).unwrap();
    assert_eq!(render(&plan.factory), "services::StaticFactoryUserService<'a, T, const>");
}

#[test]
fn function_count_is_checked() {
    let none = input(ProvidesMacroInput::Static, vec![ImplItemModel::Other]);
    assert!(matches!(process_provides(&none), Err(ProvidesError::InvalidFunctionCount(0))));
    let two = input(
        ProvidesMacroInput::Static,
        vec![
            constructor(Vec::new(), Some(path_ty(&["Self"]))),
            ImplItemModel::Other,
            constructor(Vec::new(), Some(path_ty(&["Self"]))),
        ],
    );
    assert!(matches!(process_provides(&two), Err(ProvidesError::InvalidFunctionCount(2))));
}

#[test]
fn provides_on_impl_with_more_than_one_function() {
    let three = input(
        ProvidesMacroInput::Static,
        vec![
            constructor(Vec::new(), Some(path_ty(&["Self"]))),
            constructor(Vec::new(), Some(path_ty(&["Self"]))),
            constructor(Vec::new(), Some(path_ty(&["Self"]))),
        ],
    );
    assert!(matches!(process_provides(&three), Err(ProvidesError::InvalidFunctionCount(3))));
    let four = input(
        ProvidesMacroInput::Static,
        vec![
            constructor(Vec::new(), Some(path_ty(&["Self"]))),
            ImplItemModel::Other,
            constructor(Vec::new(), Some(path_ty(&["Self"]))),
            constructor(Vec::new(), Some(path_ty(&["Self"]))),
            ImplItemModel::Other,
            constructor(Vec::new(), Some(path_ty(&["Self"]))),
        ],
    );
    assert!(matches!(process_provides(&four), Err(ProvidesError::InvalidFunctionCount(4))));
}

#[test]
fn the_one_fn_among_other_items_is_found() {
    let items = vec![ImplItemModel::Other, constructor(Vec::new(), Some(path_ty(&["Self"]))), ImplItemModel::Other];
    assert!(process_provides(&input(ProvidesMacroInput::Static, items)).is_ok());
}

#[test]
fn return_type_errors() {
    let missing = input(ProvidesMacroInput::Static, vec![constructor(Vec::new(), None)]);
    assert!(matches!(
        process_provides(&missing),
        Err(ProvidesError::Unexpected(Expected::ReturnTypeGiven))
    ));
    let not_path = input(ProvidesMacroInput::Static, vec![constructor(Vec::new(), Some(TypeModel::Never))]);
    assert!(matches!(process_provides(&not_path), Err(ProvidesError::Unexpected(Expected::PathType))));
    let other = input(ProvidesMacroInput::Static, vec![constructor(Vec::new(), Some(path_ty(&["UserService"])))]);
    assert!(matches!(process_provides(&other), Err(ProvidesError::InvalidReturnType)));
}

#[test]
fn singleton_takes_no_arguments() {
    let items = vec![constructor(vec![typed("repo", path_ty(&["Repo"]))], Some(path_ty(&["Self"])))];
    assert!(matches!(
        process_provides(&input(ProvidesMacroInput::Singleton, items)),
        Err(ProvidesError::SingletonWithArgs)
    ));
}

#[test]
fn self_type_errors() {
    let items = || vec![constructor(Vec::new(), Some(path_ty(&["Self"])))];
    let mut not_path = input(ProvidesMacroInput::Static, items());
    not_path.self_ty = TypeModel::Never;
    assert!(matches!(process_provides(&not_path), Err(ProvidesError::Unexpected(Expected::PathType))));
    let mut empty = input(ProvidesMacroInput::Static, items());
    empty.self_ty = path_ty(&[]);
    assert!(matches!(process_provides(&empty), Err(ProvidesError::EmptyPath)));
}

#[test]
fn argument_errors() {
    let receiver = input(
        ProvidesMacroInput::Static,
        vec![constructor(vec![FnArgModel::Receiver], Some(path_ty(&["Self"])))],
    );
    assert!(matches!(
        process_provides(&receiver),
        Err(ProvidesError::Unexpected(Expected::TypedArgument))
    ));
    let pattern = input(
        ProvidesMacroInput::Static,
        vec![constructor(
            vec![FnArgModel::Typed { pat: PatModel::Other, ty: path_ty(&["Repo"]) }],
            Some(path_ty(&["Self"])),
        )],
    );
    assert!(matches!(
        process_provides(&pattern),
        Err(ProvidesError::Unexpected(Expected::IdentPattern))
    ));
}
