use dirk::macros::binding::{AutomaticKind, Binding, BindingKind, ManualKind};
use dirk::macros::builder::{builder_plan, instance_binds, Slot};
use dirk::macros::component::{binding_table, get_providers, ComponentEmit, ProviderSource};
use dirk::macros::error::{ComponentError, Expected};
use dirk::macros::order::processing_order;
use dirk::macros::plan::{process_component, ComponentInput};
use dirk::macros::syntax::{GenericArg, PathArgs, PathModel, Segment, TypeModel};
use dirk::macros::trait_impl::{binding_fns, generics_mapping, GenericParamModel, TraitItemModel};

fn seg(name: &str) -> Segment {
    Segment { ident: name.to_string(), args: PathArgs::Empty }
}

fn path_ty(names: &[&str]) -> TypeModel {
    TypeModel::Path {
        qself: false,
        path: PathModel { leading_colon: false, segments: names.iter().map(|n| seg(n)).collect() },
    }
}

fn generic_ty(names: &[&str], args: Vec<TypeModel>) -> TypeModel {
    let mut segments: Vec<Segment> = names.iter().map(|n| seg(n)).collect();
    let last = segments.last_mut().unwrap();
    last.args = PathArgs::AngleBracketed(args.into_iter().map(GenericArg::Type).collect());
    TypeModel::Path { qself: false, path: PathModel { leading_colon: false, segments } }
}

fn render(t: &TypeModel) -> String {
    match t {
        TypeModel::Path { path, .. } => path
            .segments
            .iter()
            .map(|s| match &s.args {
                PathArgs::AngleBracketed(args) => format!(
                    "{}<{}>",
                    s.ident,
                    args.iter()
                        .map(|a| match a {
                            GenericArg::Type(t) => render(t),
                            GenericArg::Lifetime(l) => l.clone(),
                            _ => "?".to_string(),
                        })
                        .collect::<Vec<_>>()
                        .join(", ")
                ),
                _ => s.ident.clone(),
            })
            .collect::<Vec<_>>()
            .join("::"),
        TypeModel::TraitObject(_) => "dyn".to_string(),
        _ => "?".to_string(),
    }
}

fn auto(name: &str, kind: AutomaticKind, ty: TypeModel, deps: &[&str], index: usize) -> Binding {
    Binding {
        identifier: name.to_string(),
        kind: BindingKind::Automatic { kind, ty, dependencies: deps.iter().map(|d| d.to_string()).collect() },
        index,
    }
}

fn manual(name: &str, mode: ManualKind, ty: TypeModel, index: usize) -> Binding {
    Binding { identifier: name.to_string(), kind: BindingKind::Manual { mode, ty }, index }
}

fn fn_item(name: &str, output: Option<TypeModel>) -> TraitItemModel {
    TraitItemModel::Fn { ident: name.to_string(), output }
}

fn names(v: &[Binding]) -> Vec<String> {
    v.iter().map(|b| b.identifier.clone()).collect()
}

#[test]
fn wrapped_types_follow_the_binding_kind() {
    let single = auto("a", AutomaticKind::Singleton, path_ty(&["Engine"]), &[], 0);
    assert_eq!(render(&single.kind.wrapped_ty().unwrap()), "std::sync::Arc<std::sync::RwLock<Engine>>");
    let scoped = auto("b", AutomaticKind::Scoped, path_ty(&["Engine"]), &[], 0);
    assert_eq!(render(&scoped.kind.wrapped_ty().unwrap()), "std::rc::Rc<std::cell::RefCell<Engine>>");
    let stat = auto("c", AutomaticKind::Static, path_ty(&["Engine"]), &[], 0);
    assert_eq!(render(&stat.kind.wrapped_ty().unwrap()), "Engine");
    let cloned = manual("d", ManualKind::ClonedInstance, path_ty(&["u32"]), 0);
    assert_eq!(render(&cloned.kind.wrapped_ty().unwrap()), "u32");
    let scoped_instance = manual("e", ManualKind::ScopedInstance, path_ty(&["Db"]), 0);
    assert_eq!(render(&scoped_instance.kind.wrapped_ty().unwrap()), "std::rc::Rc<std::cell::RefCell<Db>>");
}

#[test]
fn singleton_with_dependencies_is_refused() {
    let b = auto("a", AutomaticKind::Singleton, path_ty(&["Engine"]), &["x"], 0);
    assert!(matches!(b.kind.ty(), Err(ComponentError::UnexpectedDependencies)));
}

#[test]
fn impl_trait_binding_is_refused() {
    let b = auto("a", AutomaticKind::Static, TypeModel::ImplTrait(Vec::new()), &[], 0);
    assert!(matches!(b.kind.ty(), Err(ComponentError::ImplTraitBinding)));
}

#[test]
fn compare_types_pairs_arguments() {
    let b = auto("a", AutomaticKind::Static, generic_ty(&["Wrapper"], vec![path_ty(&["u32"])]), &[], 0);
    let fun = generic_ty(&["Wrapper"], vec![path_ty(&["T"])]);
    let pairs = b.kind.compare_types(&fun).unwrap();
    assert_eq!(pairs.len(), 1);
    assert_eq!(render(&pairs[0].0), "T");
    assert_eq!(render(&pairs[0].1), "u32");
}

#[test]
fn compare_types_unwraps_the_binding_kind() {
    let b = auto("a", AutomaticKind::Scoped, generic_ty(&["Wrapper"], vec![path_ty(&["u8"])]), &[], 0);
    let fun = generic_ty(&["Rc"], vec![generic_ty(&["RefCell"], vec![generic_ty(&["Wrapper"], vec![path_ty(&["X"])])])]);
    let pairs = b.kind.compare_types(&fun).unwrap();
    assert_eq!(pairs.len(), 1);
    assert_eq!(render(&pairs[0].0), "X");
    assert_eq!(render(&pairs[0].1), "u8");
    let not_wrapped = path_ty(&["Wrapper"]);
    assert!(matches!(b.kind.compare_types(&not_wrapped), Err(ComponentError::InvalidType)));
}

#[test]
fn compare_types_with_different_argument_counts_mismatch() {
    let b = auto("a", AutomaticKind::Static, path_ty(&["Wrapper"]), &[], 0);
    let fun = generic_ty(&["Wrapper"], vec![path_ty(&["T"])]);
    match b.kind.compare_types(&fun) {
        Err(ComponentError::TypeMismatch(binding_ty, fn_ty)) => {
            assert_eq!(render(&binding_ty), "Wrapper");
            assert_eq!(render(&fn_ty), "Wrapper<T>");
        },
        other => panic!("expected a type mismatch, got {:?}", other),
    }
}

#[test]
fn the_later_of_two_declarations_wins() {
    let decls = vec![
        auto("a", AutomaticKind::Static, path_ty(&["First"]), &[], 0),
        auto("b", AutomaticKind::Static, path_ty(&["B"]), &[], 1),
        auto("a", AutomaticKind::Static, path_ty(&["Second"]), &[], 2),
    ];
    let table = binding_table(&decls);
    assert_eq!(names(&table), vec!["b", "a"]);
    assert_eq!(table[1].index, 2);
}

#[test]
fn processing_order_puts_dependencies_first() {
    let table = vec![
        auto("application", AutomaticKind::Static, path_ty(&["App"]), &["user", "auth"], 0),
        auto("user", AutomaticKind::Scoped, path_ty(&["User"]), &[], 1),
        auto("auth", AutomaticKind::Scoped, path_ty(&["Auth"]), &["user"], 2),
    ];
    let order = processing_order(&table);
    assert_eq!(names(&order), vec!["user", "auth", "application"]);
}

#[test]
fn processing_order_puts_a_later_dependency_first() {
    // x depends on z; y and z depend on nothing.
    let table = vec![
        auto("x", AutomaticKind::Static, path_ty(&["X"]), &["z"], 0),
        auto("y", AutomaticKind::Static, path_ty(&["Y"]), &[], 1),
        auto("z", AutomaticKind::Static, path_ty(&["Z"]), &[], 2),
    ];
    let order = processing_order(&table);
    assert_eq!(names(&order), vec!["y", "z", "x"]);
    let (emits, result) = get_providers(&order);
    assert!(emits.is_empty());
    let entries = result.unwrap();
    let fields: Vec<&str> = entries.iter().map(|e| e.field.as_str()).collect();
    assert_eq!(fields, vec!["y_provider", "z_provider", "x_provider"]);
}

#[test]
fn processing_order_keeps_independent_bindings_in_table_order() {
    let table = vec![
        auto("c", AutomaticKind::Static, path_ty(&["C"]), &[], 0),
        auto("a", AutomaticKind::Static, path_ty(&["A"]), &[], 1),
        auto("b", AutomaticKind::Static, path_ty(&["B"]), &[], 2),
    ];
    assert_eq!(names(&processing_order(&table)), vec!["c", "a", "b"]);
}

#[test]
fn processing_order_ignores_a_binding_naming_itself() {
    let table = vec![
        auto("a", AutomaticKind::Static, path_ty(&["A"]), &["a", "b"], 0),
        auto("b", AutomaticKind::Static, path_ty(&["B"]), &[], 1),
    ];
    assert_eq!(names(&processing_order(&table)), vec!["b", "a"]);
}

#[test]
fn processing_order_places_a_cycle_in_table_order() {
    // a depends on b and b on a: neither is ever ready.
    let table = vec![
        auto("a", AutomaticKind::Static, path_ty(&["A"]), &["b"], 0),
        auto("b", AutomaticKind::Static, path_ty(&["B"]), &["a"], 1),
        auto("c", AutomaticKind::Static, path_ty(&["C"]), &[], 2),
    ];
    let order = processing_order(&table);
    assert_eq!(names(&order), vec!["c", "a", "b"]);
    let (emits, _) = get_providers(&order);
    assert_eq!(emits.len(), 1);
    assert!(matches!(&emits[0], ComponentEmit::CycleDetected(s, d) if s == "a" && d == "b"));
}

#[test]
fn undefined_dependency_is_reported() {
    let order = vec![auto("application", AutomaticKind::Static, path_ty(&["App"]), &["missing"], 0)];
    let (emits, result) = get_providers(&order);
    assert_eq!(emits.len(), 1);
    assert!(matches!(&emits[0], ComponentEmit::NotFound(d) if d == "missing"));
    let entries = result.unwrap();
    assert_eq!(entries[0].field, "application_provider");
}

#[test]
fn dependency_processed_later_is_a_cycle() {
    let order = vec![
        auto("a", AutomaticKind::Static, path_ty(&["A"]), &["b"], 0),
        auto("b", AutomaticKind::Static, path_ty(&["B"]), &[], 1),
    ];
    let (emits, _) = get_providers(&order);
    assert_eq!(emits.len(), 1);
    assert!(matches!(&emits[0], ComponentEmit::CycleDetected(s, d) if s == "a" && d == "b"));
}

#[test]
fn provider_entries_call_factory_create() {
    let order = vec![
        auto("user", AutomaticKind::Scoped, generic_ty(&["svc", "User"], vec![path_ty(&["u8"])]), &[], 0),
        auto("app", AutomaticKind::Static, path_ty(&["App"]), &["user"], 1),
        manual("port", ManualKind::ClonedInstance, path_ty(&["u16"]), 2),
    ];
    let (emits, result) = get_providers(&order);
    assert!(emits.is_empty());
    let entries = result.unwrap();
    match &entries[0].source {
        ProviderSource::Factory(call) => {
            let p: Vec<&str> = call.path.segments.iter().map(|s| s.ident.as_str()).collect();
            assert_eq!(p, vec!["svc", "ScopedFactoryUser", "create"]);
            assert!(call.provider_args.is_empty());
        },
        ProviderSource::Instance(_) => panic!("expected a factory"),
    }
    match &entries[1].source {
        ProviderSource::Factory(call) => assert_eq!(call.provider_args, vec!["user_provider".to_string()]),
        ProviderSource::Instance(_) => panic!("expected a factory"),
    }
    match &entries[2].source {
        ProviderSource::Instance(p) => {
            let p: Vec<&str> = p.segments.iter().map(|s| s.ident.as_str()).collect();
            assert_eq!(p, vec!["dirk", "component", "instance_binds", "ClonedInstanceFactory", "new"]);
        },
        ProviderSource::Factory(_) => panic!("expected an instance"),
    }
    assert_eq!(render(&entries[0].wrapped), "std::rc::Rc<std::cell::RefCell<svc::User<u8>>>");
}

#[test]
fn generics_mapping_binds_type_parameters() {
    let table = vec![manual("answer", ManualKind::ClonedInstance, generic_ty(&["Wrapper"], vec![path_ty(&["u32"])]), 0)];
    let params = vec![GenericParamModel::Type("T".to_string()), GenericParamModel::Lifetime("'a".to_string())];
    let items = vec![fn_item("answer", Some(generic_ty(&["Wrapper"], vec![path_ty(&["T"])])))];
    let mapping = generics_mapping(&params, &items, &table).unwrap();
    assert_eq!(mapping.len(), 2);
    assert_eq!(render(mapping[0].as_ref().unwrap()), "u32");
    assert!(mapping[1].is_none());
}

#[test]
fn generics_mapping_leaves_a_parameter_bound_to_itself() {
    let table = vec![manual("answer", ManualKind::ClonedInstance, generic_ty(&["Wrapper"], vec![path_ty(&["T"])]), 0)];
    let params = vec![GenericParamModel::Type("T".to_string())];
    let items = vec![fn_item("answer", Some(generic_ty(&["Wrapper"], vec![path_ty(&["T"])])))];
    let mapping = generics_mapping(&params, &items, &table).unwrap();
    assert!(mapping[0].is_none());
}

#[test]
fn binding_fns_report_each_error() {
    let table = vec![
        auto("engine", AutomaticKind::Static, path_ty(&["Engine"]), &[], 0),
        auto("tuple", AutomaticKind::Static, TypeModel::Tuple(Vec::new()), &[], 1),
    ];
    let ok = binding_fns(&vec![fn_item("engine", Some(path_ty(&["crate", "Engine"])))], &table).unwrap();
    assert_eq!(ok[0].provider, "engine_provider");
    assert_eq!(render(&ok[0].output), "Engine");
    assert!(matches!(
        binding_fns(&vec![fn_item("engine", Some(path_ty(&["Engine"]))), TraitItemModel::Other], &table),
        Err(ComponentError::Unexpected(Expected::FnItem))
    ));
    assert!(matches!(
        binding_fns(&vec![fn_item("wheel", Some(path_ty(&["Wheel"])))], &table),
        Err(ComponentError::NotFound(n)) if n == "wheel"
    ));
    assert!(matches!(
        binding_fns(&vec![fn_item("engine", None)], &table),
        Err(ComponentError::Unexpected(Expected::ReturnTypeGiven))
    ));
    assert!(matches!(
        binding_fns(&vec![fn_item("engine", Some(TypeModel::Never))], &table),
        Err(ComponentError::Unexpected(Expected::PathType))
    ));
    assert!(matches!(
        binding_fns(&vec![fn_item("engine", Some(path_ty(&[])))], &table),
        Err(ComponentError::EmptyPath)
    ));
    assert!(matches!(
        binding_fns(&vec![fn_item("engine", Some(path_ty(&["Motor"])))], &table),
        Err(ComponentError::TypeMismatch(_, ref f)) if render(f) == "Motor"
    ));
    assert!(matches!(
        binding_fns(&vec![fn_item("tuple", Some(path_ty(&["Motor"])))], &table),
        Err(ComponentError::Unexpected(Expected::PathType))
    ));
}

#[test]
fn instance_binds_are_sorted_by_name() {
    let table = vec![
        manual("zeta", ManualKind::ClonedInstance, path_ty(&["u8"]), 0),
        auto("engine", AutomaticKind::Static, path_ty(&["Engine"]), &[], 1),
        manual("alpha", ManualKind::ScopedInstance, path_ty(&["Db"]), 2),
    ];
    let binds = instance_binds(&table);
    let idents: Vec<&str> = binds.iter().map(|b| b.ident.as_str()).collect();
    assert_eq!(idents, vec!["alpha", "zeta"]);
    assert_eq!(binds[0].param, "Alpha");
    assert_eq!(binds[1].param, "Zeta");
    let factory: Vec<&str> = binds[0].factory.segments.iter().map(|s| s.ident.as_str()).collect();
    assert_eq!(factory, vec!["dirk", "component", "instance_binds", "ScopedInstanceFactory", "new"]);
}

#[test]
fn builder_partial_impls_set_one_binding_each() {
    let table = vec![
        manual("b", ManualKind::ClonedInstance, path_ty(&["T"]), 0),
        manual("a", ManualKind::ClonedInstance, path_ty(&["u8"]), 1),
    ];
    let params = vec![GenericParamModel::Type("T".to_string())];
    let mapping: Vec<Option<TypeModel>> = vec![None];
    let plan = builder_plan(&"Car".to_string(), &params, &mapping, &table);
    assert_eq!(plan.ident, "DirkCarBuilder");
    assert_eq!(plan.partials.len(), 2);
    assert!(matches!(plan.partials[0].slots[0], Slot::Target));
    assert!(matches!(&plan.partials[0].slots[1], Slot::Opaque(s) if s == "S1"));
    assert!(matches!(&plan.partials[1].slots[0], Slot::Opaque(s) if s == "S0"));
    assert!(matches!(plan.partials[1].slots[1], Slot::Target));
    // "a" has type u8, no parameter; "b" has type T, the trait's parameter 0.
    assert_eq!(plan.partials[0].generic_param, None);
    assert_eq!(plan.partials[1].generic_param, Some(0));
}

#[test]
fn static_component_has_no_instance_binds() {
    let table = vec![auto("engine", AutomaticKind::Static, path_ty(&["Engine"]), &[], 0)];
    let plan = builder_plan(&"Car".to_string(), &Vec::new(), &Vec::new(), &table);
    assert!(plan.binds.is_empty());
    assert!(plan.partials.is_empty());
}

#[test]
fn process_component_plans_everything() {
    let input = ComponentInput {
        trait_ident: "Application".to_string(),
        params: Vec::new(),
        items: vec![
            fn_item("user", Some(generic_ty(&["Rc"], vec![generic_ty(&["RefCell"], vec![path_ty(&["User"])])]))),
            fn_item("application", Some(path_ty(&["App"]))),
        ],
        bindings: vec![
            auto("application", AutomaticKind::Static, path_ty(&["App"]), &["user", "nowhere"], 0),
            auto("user", AutomaticKind::Scoped, path_ty(&["User"]), &[], 1),
        ],
        has_where_clause: false,
    };
    let outcome = process_component(&input).unwrap();
    assert_eq!(names(&outcome.order), vec!["user", "application"]);
    assert_eq!(outcome.emits.len(), 1);
    assert!(matches!(&outcome.emits[0], ComponentEmit::NotFound(d) if d == "nowhere"));
    let plan = outcome.result.unwrap();
    assert_eq!(plan.impl_ident, "DirkApplicationImpl");
    assert!(matches!(plan.impl_args, PathArgs::Empty));
    assert_eq!(plan.fns.len(), 2);
    assert_eq!(plan.providers.len(), 2);
    assert_eq!(plan.builder.ident, "DirkApplicationBuilder");
}

#[test]
fn process_component_reports_the_first_trait_error() {
    let input = ComponentInput {
        trait_ident: "Car".to_string(),
        params: Vec::new(),
        items: vec![fn_item("wheel", Some(path_ty(&["Wheel"])))],
        bindings: Vec::new(),
        has_where_clause: false,
    };
    assert!(matches!(process_component(&input), Err(ComponentError::NotFound(n)) if n == "wheel"));
}

#[test]
fn process_component_reports_a_cycle() {
    let input = ComponentInput {
        trait_ident: "Car".to_string(),
        params: Vec::new(),
        items: Vec::new(),
        bindings: vec![
            auto("a", AutomaticKind::Static, path_ty(&["A"]), &["b"], 0),
            auto("b", AutomaticKind::Static, path_ty(&["B"]), &["a"], 1),
        ],
        has_where_clause: false,
    };
    let outcome = process_component(&input).unwrap();
    assert_eq!(names(&outcome.order), vec!["a", "b"]);
    assert_eq!(outcome.emits.len(), 1);
    assert!(matches!(&outcome.emits[0], ComponentEmit::CycleDetected(s, d) if s == "a" && d == "b"));
}

#[test]
fn process_component_orders_any_declaration_order() {
    let items = || {
        vec![
            fn_item("x", Some(path_ty(&["X"]))),
            fn_item("y", Some(path_ty(&["Y"]))),
            fn_item("z", Some(path_ty(&["Z"]))),
        ]
    };
    let x = || auto("x", AutomaticKind::Static, path_ty(&["X"]), &["z"], 0);
    let y = || auto("y", AutomaticKind::Static, path_ty(&["Y"]), &["x"], 0);
    let z = || auto("z", AutomaticKind::Static, path_ty(&["Z"]), &[], 0);
    let orders: Vec<Vec<Binding>> = vec![
        vec![x(), y(), z()],
        vec![x(), z(), y()],
        vec![y(), x(), z()],
        vec![y(), z(), x()],
        vec![z(), x(), y()],
        vec![z(), y(), x()],
    ];
    for mut bindings in orders {
        for (i, b) in bindings.iter_mut().enumerate() {
            b.index = i;
        }
        let input = ComponentInput { trait_ident: "Chain".to_string(), params: Vec::new(), items: items(), bindings, has_where_clause: false };
        let outcome = process_component(&input).unwrap();
        assert_eq!(names(&outcome.order), vec!["z", "x", "y"]);
        assert!(outcome.emits.is_empty());
        assert!(outcome.result.is_ok());
    }
}

#[test]
fn compare_types_needs_a_type_where_the_fn_has_one() {
    let mut binding_ty = path_ty(&["Wrapper"]);
    if let TypeModel::Path { path, .. } = &mut binding_ty {
        path.segments[0].args = PathArgs::AngleBracketed(vec![GenericArg::Lifetime("'a".to_string())]);
    }
    let b = auto("a", AutomaticKind::Static, binding_ty, &[], 0);
    let fun = generic_ty(&["Wrapper"], vec![path_ty(&["T"])]);
    assert!(matches!(b.kind.compare_types(&fun), Err(ComponentError::Unexpected(Expected::TypeArgument))));
}

#[test]
fn instance_providers_follow_the_processing_order() {
    let input = ComponentInput {
        trait_ident: "C".to_string(),
        params: Vec::new(),
        items: Vec::new(),
        bindings: vec![
            manual("b", ManualKind::ClonedInstance, path_ty(&["u64"]), 0),
            manual("a", ManualKind::ScopedInstance, path_ty(&["u32"]), 1),
        ],
        has_where_clause: false,
    };
    let plan = process_component(&input).unwrap().result.unwrap();
    let instances: Vec<(String, String, String)> = plan
        .providers
        .iter()
        .map(|e| match &e.source {
            ProviderSource::Instance(p) => (e.binding.clone(), e.field.clone(), p.segments[3].ident.clone()),
            ProviderSource::Factory(_) => panic!("expected an instance"),
        })
        .collect();
    assert_eq!(
        instances,
        vec![
            ("b".to_string(), "b_provider".to_string(), "ClonedInstanceFactory".to_string()),
            ("a".to_string(), "a_provider".to_string(), "ScopedInstanceFactory".to_string()),
        ]
    );
    let binds: Vec<&str> = plan.builder.binds.iter().map(|b| b.ident.as_str()).collect();
    assert_eq!(binds, vec!["a", "b"]);
}

#[test]
fn process_component_refuses_a_where_clause() {
    let input = ComponentInput {
        trait_ident: "C".to_string(),
        params: vec![GenericParamModel::Type("T".to_string())],
        items: vec![fn_item("a", Some(path_ty(&["T"])))],
        bindings: vec![manual("a", ManualKind::ClonedInstance, path_ty(&["T"]), 0)],
        has_where_clause: true,
    };
    assert!(matches!(process_component(&input), Err(ComponentError::ContainsWhereClause)));
    let accepted = ComponentInput { has_where_clause: false, ..input };
    let outcome = process_component(&accepted).unwrap();
    assert!(outcome.result.is_ok());
}
