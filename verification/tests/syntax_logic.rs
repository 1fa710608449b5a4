use dirk::macros::attr::{parse_component_attr, parse_use_component, AttrError, BindingKeyword, Delim, TokenModel};
use dirk::macros::binding::{AutomaticKind, ManualKind};
use dirk::macros::error::Expected;
use dirk::macros::inject::{
    get_factory_ty, get_first_function, get_stiletto_name, inject_plan, injectable_use_tree, stiletto_order, InjectError,
    InjectMacroInput,
};
use dirk::macros::provides::{FnArgModel, ImplItemModel, PatModel};
use dirk::macros::naming::{get_dirk_name, get_opaque_param_name, get_provider_name, to_decimal};
use dirk::macros::provides::ProvidesMacroInput;
use dirk::macros::type_string::StringifyError;
use dirk::macros::syntax::{Bound, GenericArg, PathArgs, PathModel, Segment, TypeModel};
use dirk::macros::use_tree::{convert_use_tree, use_component_trees, UseInjectMacroInput, UseTreeModel};
use std::cmp::Ordering;

fn seg(name: &str) -> Segment {
    Segment { ident: name.to_string(), args: PathArgs::Empty }
}

fn path(names: &[&str]) -> PathModel {
    PathModel { leading_colon: false, segments: names.iter().map(|n| seg(n)).collect() }
}

fn path_ty(names: &[&str]) -> TypeModel {
    TypeModel::Path { qself: false, path: path(names) }
}

fn generic_ty(names: &[&str], args: Vec<GenericArg>) -> TypeModel {
    let mut p = path(names);
    p.segments.last_mut().unwrap().args = PathArgs::AngleBracketed(args);
    TypeModel::Path { qself: false, path: p }
}

fn ident(s: &str) -> TokenModel {
    TokenModel::Ident(s.to_string())
}

fn punct(c: char) -> TokenModel {
    TokenModel::Punct(c)
}

fn group(delim: Delim, tokens: Vec<TokenModel>) -> TokenModel {
    TokenModel::Group { delim, tokens }
}

fn render_tree(t: &UseTreeModel) -> String {
    match t {
        UseTreeModel::Path { ident, tree } => format!("{}::{}", ident, render_tree(tree)),
        UseTreeModel::Group(items) => format!("{{{}}}", items.iter().map(render_tree).collect::<Vec<_>>().join(", ")),
        UseTreeModel::Name(n) => n.clone(),
        UseTreeModel::Rename { ident, rename } => format!("{} as {}", ident, rename),
        UseTreeModel::Glob => "*".to_string(),
    }
}

fn sample_tree() -> UseTreeModel {
    UseTreeModel::Path {
        ident: "crate".to_string(),
        tree: Box::new(UseTreeModel::Group(vec![
            UseTreeModel::Name("Car".to_string()),
            UseTreeModel::Rename { ident: "Engine".to_string(), rename: "Motor".to_string() },
        ])),
    }
}

#[test]
fn names_of_generated_items() {
    assert_eq!(get_dirk_name(&"Car".to_string(), Some("Builder")), "DirkCarBuilder");
    assert_eq!(get_dirk_name(&"Car".to_string(), None), "DirkCar");
    assert_eq!(get_provider_name(&"engine".to_string()), "engine_provider");
    assert_eq!(get_opaque_param_name(12), "S12");
    assert_eq!(to_decimal(0), "0");
    assert_eq!(to_decimal(907), "907");
    assert_eq!(get_stiletto_name(&"Car".to_string(), Some("Impl")), "StilettoCarImpl");
}

#[test]
fn use_provides_prefixes_every_name() {
    let converted = UseInjectMacroInput::Scoped.convert_use_tree(&sample_tree()).unwrap();
    assert_eq!(render_tree(&converted), "crate::{ScopedFactoryCar, ScopedFactoryEngine as ScopedFactoryMotor}");
    assert_eq!(UseInjectMacroInput::default(), UseInjectMacroInput::Static);
    assert_eq!(UseInjectMacroInput::Singleton.factory_prefix(), "SingletonFactory");
}

#[test]
fn use_component_makes_two_trees() {
    let (dirk, builder) = use_component_trees(&sample_tree()).unwrap();
    assert_eq!(render_tree(&dirk), "crate::{DirkCar, DirkEngine as DirkMotor}");
    assert_eq!(render_tree(&builder), "crate::{DirkCarBuilder, DirkEngineBuilder as DirkMotorBuilder}");
}

#[test]
fn glob_is_refused() {
    let tree = UseTreeModel::Path {
        ident: "crate".to_string(),
        tree: Box::new(UseTreeModel::Group(vec![UseTreeModel::Name("Car".to_string()), UseTreeModel::Glob])),
    };
    assert!(UseInjectMacroInput::Static.convert_use_tree(&tree).is_none());
    assert!(use_component_trees(&tree).is_none());
    assert!(injectable_use_tree(&tree).is_none());
}

#[test]
fn use_injectable_prefixes_factory() {
    let converted = injectable_use_tree(&sample_tree()).unwrap();
    assert_eq!(render_tree(&converted), "crate::{FactoryCar, FactoryEngine as FactoryMotor}");
}

#[test]
fn stringify_types() {
    let t = generic_ty(&["std", "vec", "Vec"], vec![GenericArg::Type(path_ty(&["u8"])), GenericArg::Lifetime("'a".to_string())]);
    assert_eq!(t.stringify().unwrap(), "_std_vec_Vec_u8");
    let tuple = TypeModel::Tuple(vec![path_ty(&["A"]), TypeModel::Reference(Box::new(path_ty(&["B"])))]);
    assert_eq!(tuple.stringify().unwrap(), "_t__A_t__r__B_t_");
    let array = TypeModel::Array(Box::new(path_ty(&["u8"])));
    assert_eq!(array.stringify().unwrap(), "_a__u8_a_");
    let group = TypeModel::Group(Box::new(TypeModel::Paren(Box::new(path_ty(&["X"])))));
    assert_eq!(group.stringify().unwrap(), "_g__X_");
    let slice = TypeModel::Slice(Box::new(TypeModel::Ptr(Box::new(path_ty(&["X"])))));
    assert_eq!(slice.stringify().unwrap(), "_s__p__X");
    let dyn_ty = TypeModel::TraitObject(vec![Bound::Trait(path(&["std", "fmt", "Debug"])), Bound::Lifetime("'a".to_string())]);
    assert_eq!(dyn_ty.stringify().unwrap(), "_b__STD_FMT_DEBUG_b_");
}

#[test]
fn stringify_errors() {
    assert_eq!(TypeModel::Infer.stringify().unwrap_err(), StringifyError::TypeInferenceNotSupported);
    assert_eq!(TypeModel::Never.stringify().unwrap_err(), StringifyError::UnsupportedType);
    let qself = TypeModel::Path { qself: true, path: path(&["X"]) };
    assert_eq!(qself.stringify().unwrap_err(), StringifyError::UnsupportedType);
    let assoc = generic_ty(&["Iter"], vec![GenericArg::AssocType]);
    assert_eq!(assoc.stringify().unwrap_err(), StringifyError::UnsupportedGenericArg);
    let verbatim = TypeModel::TraitObject(vec![Bound::Verbatim]);
    assert_eq!(verbatim.stringify().unwrap_err(), StringifyError::UnsupportedTypeParamBound);
    let paren_args = TypeModel::Path {
        qself: false,
        path: PathModel { leading_colon: false, segments: vec![Segment { ident: "Fn".to_string(), args: PathArgs::Parenthesized }] },
    };
    assert_eq!(paren_args.stringify().unwrap_err(), StringifyError::UnsupportedType);
}

#[test]
fn inject_first_function() {
    assert_eq!(get_first_function(false, &vec![false, true, false]), Ok(1));
    assert_eq!(get_first_function(true, &vec![true]), Err(InjectError::InjectOnTrait));
    assert_eq!(get_first_function(false, &vec![false]), Err(InjectError::InvalidFunctionCount));
    assert_eq!(get_first_function(false, &vec![true, true]), Err(InjectError::InvalidFunctionCount));
    assert_eq!(InjectMacroInput::Scoped.factory_prefix(), "ScopedFactory");
}

#[test]
fn inject_factory_type() {
    let t = generic_ty(&["cars", "Car"], vec![GenericArg::Type(path_ty(&["u8"]))]);
    match get_factory_ty(&t).unwrap() {
        TypeModel::Path { path, .. } => {
            assert_eq!(path.segments[1].ident, "FactoryCar");
            assert!(matches!(path.segments[1].args, PathArgs::AngleBracketed(_)));
        },
        _ => panic!("expected a path"),
    }
    assert_eq!(get_factory_ty(&TypeModel::Never).unwrap_err(), InjectError::NotAPath);
    assert_eq!(get_factory_ty(&path_ty(&[])).unwrap_err(), InjectError::EmptyPath);
}

#[test]
fn stiletto_order_puts_dependencies_first() {
    assert_eq!(stiletto_order(&"a".to_string(), &vec!["a".to_string()]), Ordering::Less);
    assert_eq!(stiletto_order(&"a".to_string(), &vec!["b".to_string()]), Ordering::Greater);
}

#[test]
fn provides_attribute_kinds() {
    assert_eq!(ProvidesMacroInput::parse(&vec![]), Ok(ProvidesMacroInput::Static));
    assert_eq!(ProvidesMacroInput::parse(&vec![ident("scoped_inject")]), Ok(ProvidesMacroInput::Scoped));
    assert_eq!(ProvidesMacroInput::parse(&vec![ident("singleton_inject")]), Ok(ProvidesMacroInput::Singleton));
    assert_eq!(ProvidesMacroInput::parse(&vec![ident("other")]), Err(AttrError::ExpectedKind));
    assert_eq!(
        ProvidesMacroInput::parse(&vec![ident("static_inject"), punct(',')]),
        Err(AttrError::UnexpectedToken)
    );
    assert_eq!(UseInjectMacroInput::parse(&vec![ident("scoped_inject")]), Ok(UseInjectMacroInput::Scoped));
    assert_eq!(parse_use_component(&vec![]), Ok(()));
    assert_eq!(parse_use_component(&vec![ident("x")]), Err(AttrError::UnexpectedToken));
}

#[test]
fn component_attribute_bindings() {
    // user: scoped_bind(User), app: static_bind(App) [user, auth,], port: cloned_instance_bind(u16),
    let tokens = vec![
        ident("user"),
        punct(':'),
        ident("scoped_bind"),
        group(Delim::Paren, vec![ident("User")]),
        punct(','),
        ident("app"),
        punct(':'),
        ident("static_bind"),
        group(Delim::Paren, vec![ident("App")]),
        group(Delim::Bracket, vec![ident("user"), punct(','), ident("auth"), punct(',')]),
        punct(','),
        ident("port"),
        punct(':'),
        ident("cloned_instance_bind"),
        group(Delim::Paren, vec![ident("u16")]),
        punct(','),
    ];
    let (inner, bindings) = parse_component_attr(&tokens).unwrap();
    assert!(!inner);
    assert_eq!(bindings.len(), 3);
    assert_eq!(bindings[0].ident, "user");
    assert!(matches!(bindings[0].kind, BindingKeyword::Automatic(AutomaticKind::Scoped)));
    assert_eq!(bindings[0].ty_group, 3);
    assert_eq!(bindings[0].dependencies.as_ref().unwrap().len(), 0);
    assert_eq!(bindings[1].dependencies.as_ref().unwrap(), &vec!["user".to_string(), "auth".to_string()]);
    assert_eq!(bindings[1].ty_group, 8);
    assert!(matches!(bindings[2].kind, BindingKeyword::Manual(ManualKind::ClonedInstance)));
    assert!(bindings[2].dependencies.is_none());
}

#[test]
fn component_attribute_inner_marker() {
    let tokens = vec![ident("__inner"), punct(','), ident("a"), punct(':'), ident("static_bind"), group(Delim::Paren, vec![])];
    let (inner, bindings) = parse_component_attr(&tokens).unwrap();
    assert!(inner);
    assert_eq!(bindings.len(), 1);
    assert_eq!(parse_component_attr(&vec![]).unwrap().1.len(), 0);
}

#[test]
fn marked_arguments_read_back_as_the_same_bindings() {
    let tokens = vec![
        ident("user"),
        punct(':'),
        ident("scoped_bind"),
        group(Delim::Paren, vec![ident("User")]),
        punct(','),
        ident("app"),
        punct(':'),
        ident("static_bind"),
        group(Delim::Paren, vec![ident("App")]),
        group(Delim::Bracket, vec![ident("user")]),
    ];
    let (inner, first) = parse_component_attr(&tokens).unwrap();
    assert!(!inner);
    let mut marked = vec![ident("__inner"), punct(',')];
    marked.extend(tokens);
    let (inner, again) = parse_component_attr(&marked).unwrap();
    assert!(inner);
    assert_eq!(again.len(), first.len());
    for (a, b) in first.iter().zip(again.iter()) {
        assert_eq!(a.ident, b.ident);
        assert_eq!(format!("{:?}", a.kind), format!("{:?}", b.kind));
        assert_eq!(a.dependencies, b.dependencies);
        assert_eq!(a.ty_group + 2, b.ty_group);
    }
}

#[test]
fn component_attribute_errors() {
    let err = |tokens: Vec<TokenModel>| parse_component_attr(&tokens).unwrap_err();
    assert_eq!(err(vec![ident("fn")]), AttrError::ExpectedIdent);
    assert_eq!(err(vec![ident("a"), punct('=')]), AttrError::ExpectedColon);
    assert_eq!(err(vec![ident("a"), punct(':'), ident("bind")]), AttrError::ExpectedKind);
    assert_eq!(
        err(vec![ident("a"), punct(':'), ident("static_bind"), group(Delim::Bracket, vec![])]),
        AttrError::ExpectedParens
    );
    assert_eq!(
        err(vec![ident("a"), punct(':'), ident("static_bind"), group(Delim::Paren, vec![]), ident("b")]),
        AttrError::ExpectedComma
    );
    assert_eq!(
        err(vec![
            ident("a"),
            punct(':'),
            ident("static_bind"),
            group(Delim::Paren, vec![]),
            group(Delim::Bracket, vec![ident("x"), ident("y")]),
        ]),
        AttrError::ExpectedComma
    );
    assert_eq!(err(vec![ident("__inner"), ident("a")]), AttrError::ExpectedComma);
}

#[test]
fn inject_plan_for_a_scoped_provider() {
    let items = vec![
        ImplItemModel::Other,
        ImplItemModel::Fn {
            ident: "new".to_string(),
            inputs: vec![FnArgModel::Typed { pat: PatModel::Ident("repo".to_string()), ty: path_ty(&["Repo"]) }],
            output: Some(path_ty(&["Self"])),
        },
    ];
    let plan = inject_plan(InjectMacroInput::Scoped, false, &path_ty(&["Car"]), &items).unwrap();
    assert_eq!(plan.function, 1);
    assert_eq!(plan.args[0].provider, "repo_provider");
    match &plan.factory {
        TypeModel::Path { path, .. } => assert_eq!(path.segments[0].ident, "FactoryCar"),
        _ => panic!("expected a path"),
    }
    match &plan.injected {
        TypeModel::Path { path, .. } => assert_eq!(path.segments[2].ident, "Rc"),
        _ => panic!("expected a path"),
    }
    let receiver = vec![ImplItemModel::Fn { ident: "new".to_string(), inputs: vec![FnArgModel::Receiver], output: None }];
    assert_eq!(
        inject_plan(InjectMacroInput::Static, false, &path_ty(&["Car"]), &receiver).unwrap_err(),
        InjectError::Unexpected(Expected::TypedArgument)
    );
    assert_eq!(
        inject_plan(InjectMacroInput::Static, false, &TypeModel::Never, &items).unwrap_err(),
        InjectError::NotAPath
    );
}

#[test]
fn converting_with_nothing_to_add_keeps_the_tree() {
    let converted = convert_use_tree(&sample_tree(), "", "").unwrap();
    assert_eq!(render_tree(&converted), render_tree(&sample_tree()));
}
