//! The whole of the `component` macro's decisions: from the component trait
//! and its bindings to everything the generated items are made of.

use vstd::prelude::*;

use crate::macros::binding::{Binding, BindingV};
use crate::macros::builder::{
    binds_view, builder_plan, builder_plan_spec, distinct_names, instance_bind_spec, instance_binds_spec,
    lemma_lookup_distinct, lemma_manual_names_member, manual_names, BuilderPlan, InstanceBindV, PartialImpl,
};
use crate::macros::component::{
    binding_emits, binding_table, binding_table_spec, declares_dependency, dependency_emits, emits_view, entries_view,
    entry_spec, get_providers, lemma_binding_emits_in_all, lemma_dependency_emits_members, lemma_providers_err_persists,
    lemma_deps_first_reports_exactly_undefined, names_of, providers_spec, shadowed, ComponentEmit, ComponentEmitV,
    ProviderEntry, ProviderEntryV,
};
use crate::macros::error::{ComponentError, ComponentErrorV};
use crate::macros::naming::{dirk_name, get_dirk_name};
use crate::macros::order::{
    acyclic, bindings_view, deps_first, lemma_deps_first_iff_acyclic, lemma_processing_order_permutation,
    order_indices, processing_order, processing_order_spec,
};
use crate::macros::syntax::{generic_args_view, path_args_view, GenericArg, PathArgs, TypeV};
use crate::macros::trait_impl::{
    table_lookup, binding_fns, binding_fns_spec, binding_fns_view, generics_mapping, generics_mapping_spec, items_view,
    no_const_params, opt_types_view, params_view, trait_arguments, trait_arguments_spec, unbound_arguments,
    unbound_arguments_spec, unbound_indices, unbound_positions, BindingFn, BindingFnV, GenericParamModel,
    TraitItemModel,
};

verus! {

/// The component trait and the bindings declared for it.
pub struct ComponentInput {
    /// The trait's name.
    pub trait_ident: String,
    /// The trait's generic parameters.
    pub params: Vec<GenericParamModel>,
    /// The trait's items.
    pub items: Vec<TraitItemModel>,
    /// The bindings, as declared in `#[component(...)]`.
    pub bindings: Vec<Binding>,
    /// Whether the trait has a `where` clause, which components do not
    /// support.
    pub has_where_clause: bool,
}

/// What the generated items of a component are made of, once its bindings
/// are processed in order.
pub struct ComponentPlan {
    /// `Dirk{Trait}Impl`, the implementation's struct.
    pub impl_ident: String,
    /// The implementation's type arguments: the trait's parameters that no
    /// binding fixes.
    pub impl_args: PathArgs,
    /// The positions of those parameters among the trait's parameters.
    pub unbound: Vec<usize>,
    /// The trait's arguments in the implemented trait.
    pub trait_args: Vec<GenericArg>,
    /// The implementation's `fn`s, one per item of the trait.
    pub fns: Vec<BindingFn>,
    /// The providers, in processing order.
    pub providers: Vec<ProviderEntry>,
    /// The builder.
    pub builder: BuilderPlan,
}

/// Processing the bindings, once the trait has been checked: the order in
/// which they are processed, what was reported on the way, and the plan or
/// the error that stopped it.
pub struct ComponentOutcome {
    pub order: Vec<Binding>,
    pub emits: Vec<ComponentEmit>,
    pub result: Result<ComponentPlan, ComponentError>,
}

/// The bindings of the input by name, the later of two declarations with the
/// same name winning (see [`binding_table_spec`]).
pub open spec fn input_table(input: ComponentInput) -> Seq<BindingV> {
    binding_table_spec(bindings_view(input.bindings@), input.bindings@.len())
}

/// What the bindings fix each of the trait's generic parameters to, or why
/// the trait's `fn`s do not match the bindings (see
/// [`generics_mapping_spec`]).
pub open spec fn input_mapping(input: ComponentInput) -> Result<Seq<Option<TypeV>>, ComponentErrorV> {
    generics_mapping_spec(params_view(input.params@), items_view(input.items@), input_table(input))
}

/// Everything of a component's plan but its providers is as the trait and
/// the bindings call for: the names, the generic arguments, the
/// implementation's `fn`s and the builder.
pub open spec fn plan_spec(input: ComponentInput, plan: ComponentPlan) -> bool {
    let params = params_view(input.params@);
    let table = input_table(input);
    let mapping = input_mapping(input)->Ok_0;
    &&& plan.impl_ident@ == dirk_name(input.trait_ident@, "Impl"@)
    &&& path_args_view(plan.impl_args) == unbound_arguments_spec(params, mapping)
    &&& plan.unbound@.map_values(|i: usize| i as int) == unbound_positions(mapping, mapping.len())
    &&& generic_args_view(plan.trait_args@) == trait_arguments_spec(params, mapping)
    &&& binding_fns_spec(items_view(input.items@), table) == Ok::<_, ComponentErrorV>(binding_fns_view(plan.fns@))
    &&& builder_plan_spec(
        input.trait_ident@,
        params,
        mapping,
        table,
        plan.builder.ident@,
        binds_view(plan.builder.binds@),
        plan.builder.partials@.map_values(|p: PartialImpl| p@),
    )
}

/// Every binding kept in the table is a declaration that no later
/// declaration shadows.
proof fn lemma_binding_table_members(s: Seq<BindingV>, n: nat)
    requires
        n <= s.len(),
    ensures
        forall|k: int| 0 <= k < binding_table_spec(s, n).len() ==> exists|i: int| 0 <= i < n && #[trigger] binding_table_spec(s, n)[k] == s[i] && !shadowed(s, i),
    decreases n,
{
    if n > 0 {
        lemma_binding_table_members(s, (n - 1) as nat);
        let prev = binding_table_spec(s, (n - 1) as nat);
        assert forall|k: int| 0 <= k < binding_table_spec(s, n).len() implies exists|i: int| 0 <= i < n && #[trigger] binding_table_spec(s, n)[k] == s[i] && !shadowed(s, i) by {
            if k < prev.len() {
                assert(binding_table_spec(s, n)[k] == prev[k]);
            } else {
                assert(binding_table_spec(s, n)[k] == s[n - 1]);
            }
        }
    }
}

/// No two bindings of the table have the same name.
pub proof fn lemma_binding_table_distinct(s: Seq<BindingV>, n: nat)
    requires
        n <= s.len(),
    ensures
        distinct_names(binding_table_spec(s, n)),
    decreases n,
{
    if n > 0 {
        lemma_binding_table_distinct(s, (n - 1) as nat);
        lemma_binding_table_members(s, (n - 1) as nat);
        let prev = binding_table_spec(s, (n - 1) as nat);
        if !shadowed(s, n - 1) {
            let cur = prev.push(s[n - 1]);
            assert forall|a: int, b: int| 0 <= a < b < cur.len() implies cur[a].identifier != cur[b].identifier by {
                if b == prev.len() {
                    assert(cur[a] == prev[a]);
                    let i = choose|i: int| 0 <= i < n - 1 && #[trigger] prev[a] == s[i] && !shadowed(s, i);
                    assert(prev[a] == s[i]);
                    if s[i].identifier == s[n - 1].identifier {
                        assert(shadowed(s, i));
                    }
                } else {
                    assert(cur[a] == prev[a]);
                    assert(cur[b] == prev[b]);
                }
            }
        }
    }
}

/// Every declaration that no later one shadows is kept in the table.
proof fn lemma_binding_table_keeps_unshadowed(s: Seq<BindingV>, n: nat, j: int)
    requires
        n <= s.len(),
        0 <= j < n,
        !shadowed(s, j),
    ensures
        binding_table_spec(s, n).contains(s[j]),
    decreases n,
{
    let prev = binding_table_spec(s, (n - 1) as nat);
    if j == n - 1 {
        assert(binding_table_spec(s, n) == prev.push(s[j]));
        assert(binding_table_spec(s, n)[prev.len() as int] == s[j]);
    } else {
        lemma_binding_table_keeps_unshadowed(s, (n - 1) as nat, j);
        let k = choose|k: int| 0 <= k < prev.len() && prev[k] == s[j];
        if shadowed(s, n - 1) {
        } else {
            assert(binding_table_spec(s, n)[k] == s[j]);
        }
    }
}

/// Of the declarations with the name of declaration `i`, there is a last
/// one.
proof fn lemma_last_declaration(s: Seq<BindingV>, i: int) -> (j: int)
    requires
        0 <= i < s.len(),
    ensures
        i <= j < s.len(),
        s[j].identifier == s[i].identifier,
        !shadowed(s, j),
    decreases s.len() - i,
{
    if shadowed(s, i) {
        let k = choose|k: int| i < k < s.len() && s[k].identifier == s[i].identifier;
        lemma_last_declaration(s, k)
    } else {
        i
    }
}

/// The later of two declarations with the same name wins: for each
/// declaration, the table holds the last declaration with its name, and no
/// other binding with that name.
pub proof fn lemma_binding_table_last_wins(s: Seq<BindingV>, i: int)
    requires
        0 <= i < s.len(),
    ensures
        exists|j: int|
            i <= j < s.len() && s[j].identifier == s[i].identifier && !shadowed(s, j) && binding_table_spec(
                s,
                s.len(),
            ).contains(s[j]),
        forall|a: int, b: int|
            0 <= a < b < binding_table_spec(s, s.len()).len() ==> binding_table_spec(s, s.len())[a].identifier
                != binding_table_spec(s, s.len())[b].identifier,
{
    let j = lemma_last_declaration(s, i);
    lemma_binding_table_keeps_unshadowed(s, s.len(), j);
    lemma_binding_table_distinct(s, s.len());
}

/// The emits of processing stop growing where processing stops: they are
/// the diagnostics of the bindings up to the one that failed, or of all of
/// them.
pub proof fn lemma_providers_emits(order: Seq<BindingV>, n: nat)
    requires
        n <= order.len(),
    ensures
        exists|m: nat| m <= n && providers_spec(order, n).0 == dependency_emits(order, m),
        providers_spec(order, n).1 is Ok ==> providers_spec(order, n).0 == dependency_emits(order, n),
    decreases n,
{
    if n == 0 {
        assert(providers_spec(order, 0).0 =~= dependency_emits(order, 0));
    } else {
        lemma_providers_emits(order, (n - 1) as nat);
        let prev = providers_spec(order, (n - 1) as nat);
        if prev.1 is Ok {
            assert(providers_spec(order, n).0 == dependency_emits(order, n));
        } else {
            let m = choose|m: nat| m <= n - 1 && prev.0 == dependency_emits(order, m);
            assert(providers_spec(order, n).0 == dependency_emits(order, m));
        }
    }
}

/// What a component reports about dependencies, when each of its bindings
/// is processed after the bindings it depends on: no diagnostic is a cycle,
/// each one is a dependency that names no binding, and when processing
/// completes, each dependency that names no binding is reported.
pub proof fn lemma_component_reports_undefined(order: Seq<BindingV>)
    requires
        deps_first(order),
    ensures
        forall|e: ComponentEmitV| #[trigger] providers_spec(order, order.len()).0.contains(e) ==> (e matches ComponentEmitV::NotFound(d)
            && !names_of(order).contains(d)),
        providers_spec(order, order.len()).1 is Ok ==> forall|i: int, d: Seq<char>|
            0 <= i < order.len() && #[trigger] declares_dependency(order[i], d) && !names_of(order).contains(d)
                ==> providers_spec(order, order.len()).0.contains(ComponentEmitV::NotFound(d)),
{
    lemma_deps_first_reports_exactly_undefined(order);
    lemma_providers_emits(order, order.len());
    let m = choose|m: nat| m <= order.len() && providers_spec(order, order.len()).0 == dependency_emits(order, m);
    assert forall|e: ComponentEmitV| #[trigger] providers_spec(order, order.len()).0.contains(e) implies (e matches ComponentEmitV::NotFound(d)
        && !names_of(order).contains(d)) by {
        lemma_dependency_emits_members(order, m, e);
        let i = choose|i: int| 0 <= i < m && #[trigger] binding_emits(order, i).contains(e);
        lemma_binding_emits_in_all(order, i, order.len(), e);
    }
}

/// Where processing completes, there is one entry per binding: the entry of
/// the binding at the same position.
proof fn lemma_providers_entries(order: Seq<BindingV>, n: nat)
    requires
        n <= order.len(),
        providers_spec(order, n).1 is Ok,
    ensures
        providers_spec(order, n).1->Ok_0.len() == n,
        forall|k: int| 0 <= k < n ==> entry_spec(order[k]) == Ok::<_, ComponentErrorV>(
            #[trigger] providers_spec(order, n).1->Ok_0[k],
        ),
    decreases n,
{
    if n > 0 {
        let prev = providers_spec(order, (n - 1) as nat);
        if prev.1 is Err {
            lemma_providers_err_persists(order, (n - 1) as nat, n);
        } else {
            lemma_providers_entries(order, (n - 1) as nat);
            let es = providers_spec(order, n).1->Ok_0;
            assert forall|k: int| 0 <= k < n implies entry_spec(order[k]) == Ok::<_, ComponentErrorV>(#[trigger] es[k]) by {
                if k < n - 1 {
                    assert(es[k] == prev.1->Ok_0[k]);
                }
            }
        }
    }
}

/// The name of every binding that the user hands in is among the
/// instance bindings' names.
proof fn lemma_manual_name_listed(table: Seq<BindingV>, n: nat, j: int)
    requires
        n <= table.len(),
        0 <= j < n,
        table[j].kind is Manual,
    ensures
        manual_names(table, n).contains(table[j].identifier),
    decreases n,
{
    let prev = manual_names(table, (n - 1) as nat);
    if j == n - 1 {
        assert(manual_names(table, n)[prev.len() as int] == table[j].identifier);
    } else {
        lemma_manual_name_listed(table, (n - 1) as nat, j);
        let k = choose|k: int| 0 <= k < prev.len() && prev[k] == table[j].identifier;
        if table[n - 1].kind is Manual {
            assert(manual_names(table, n)[k] == table[j].identifier);
        }
    }
}

/// The providers that the builder supplies are the builder's instance
/// bindings: where processing the bindings of a table with distinct names
/// in their processing order completes, the constructor's argument for an
/// instance entry is the instance that the builder holds under the entry's
/// binding name, wrapped by that binding's factory, and each instance
/// binding of the builder is the binding of an instance entry.
pub proof fn lemma_instance_entries_are_builder_binds(
    table: Seq<BindingV>,
    entries: Seq<ProviderEntryV>,
    binds: Seq<InstanceBindV>,
)
    requires
        distinct_names(table),
        providers_spec(processing_order_spec(table), table.len()).1 == Ok::<_, ComponentErrorV>(entries),
        instance_binds_spec(table, binds),
    ensures
        forall|k: int|
            0 <= k < entries.len() && (#[trigger] entries[k]).source is Instance ==> exists|q: int|
                0 <= q < binds.len() && binds[q].ident == entries[k].binding && binds[q].factory
                    == entries[k].source->Instance_0,
        forall|q: int|
            0 <= q < binds.len() ==> exists|k: int|
                0 <= k < entries.len() && entries[k].source is Instance && entries[k].binding == (#[trigger] binds[q]).ident,
{
    let order = processing_order_spec(table);
    let idx = order_indices(table, table.len());
    lemma_processing_order_permutation(table);
    lemma_providers_entries(order, order.len());
    let names = binds.map_values(|b: InstanceBindV| b.ident);
    assert forall|k: int|
        0 <= k < entries.len() && (#[trigger] entries[k]).source is Instance implies exists|q: int|
            0 <= q < binds.len() && binds[q].ident == entries[k].binding && binds[q].factory
                == entries[k].source->Instance_0 by {
        let j = idx[k];
        assert(idx.contains(j));
        assert(0 <= j < table.len());
        assert(order[k] == table[j]);
        assert(entry_spec(order[k]) == Ok::<_, ComponentErrorV>(entries[k]));
        assert(table[j].kind is Manual);
        let name = table[j].identifier;
        lemma_manual_name_listed(table, table.len(), j);
        vstd::seq_lib::to_multiset_contains(manual_names(table, table.len()), name);
        vstd::seq_lib::to_multiset_contains(names, name);
        let q = choose|q: int| 0 <= q < names.len() && names[q] == name;
        assert(binds[q] == instance_bind_spec(table_lookup(table, names[q])->Some_0));
        lemma_lookup_distinct(table, j);
    }
    assert forall|q: int| 0 <= q < binds.len() implies exists|k: int|
        0 <= k < entries.len() && entries[k].source is Instance && entries[k].binding == (#[trigger] binds[q]).ident by {
        let name = names[q];
        assert(names.contains(name));
        vstd::seq_lib::to_multiset_contains(manual_names(table, table.len()), name);
        vstd::seq_lib::to_multiset_contains(names, name);
        lemma_manual_names_member(table, table.len(), name);
        let j = choose|j: int| 0 <= j < table.len() && table[j].identifier == name && table[j].kind is Manual;
        assert(idx.contains(j));
        let k = choose|k: int| 0 <= k < idx.len() && idx[k] == j;
        assert(order[k] == table[j]);
        assert(entry_spec(order[k]) == Ok::<_, ComponentErrorV>(entries[k]));
    }
}

/// Decides everything the `component` macro generates for `input`, with
/// the bindings processed in the order `order`.
///
/// A trait with a `where` clause is refused first. Then the trait is
/// checked: the parameters the bindings fix (see
/// [`generics_mapping_spec`]) and the implementation's `fn`s (see
/// [`binding_fns_spec`]); an error there is returned as it is. Then the
/// bindings are processed in `order`: the outcome holds the order, with the
/// diagnostics and provider entries of processing it (see
/// [`providers_spec`]); once the providers are made, the plan is complete.
pub fn plan_component(input: &ComponentInput, order: Vec<Binding>) -> (r: Result<ComponentOutcome, ComponentError>)
    requires
        !input.has_where_clause && input_mapping(*input) is Ok ==> no_const_params(params_view(input.params@)),
    ensures
        match r {
            Err(e) => if input.has_where_clause {
                e@ == ComponentErrorV::ContainsWhereClause
            } else {
                match input_mapping(*input) {
                    Err(m) => e@ == m,
                    Ok(_) => binding_fns_spec(items_view(input.items@), input_table(*input)) == Err::<Seq<BindingFnV>, _>(e@),
                }
            },
            Ok(o) => {
                let ov = bindings_view(o.order@);
                &&& !input.has_where_clause
                &&& input_mapping(*input) is Ok
                &&& binding_fns_spec(items_view(input.items@), input_table(*input)) is Ok
                &&& ov == bindings_view(order@)
                &&& emits_view(o.emits@) == providers_spec(ov, ov.len()).0
                &&& match o.result {
                    Err(e) => providers_spec(ov, ov.len()).1 == Err::<Seq<ProviderEntryV>, _>(e@),
                    Ok(plan) => providers_spec(ov, ov.len()).1 == Ok::<_, ComponentErrorV>(entries_view(plan.providers@))
                        && plan_spec(*input, plan),
                }
            },
        },
{
    if input.has_where_clause {
        return Err(ComponentError::ContainsWhereClause);
    }
    let table = binding_table(&input.bindings);
    let mapping = generics_mapping(&input.params, &input.items, &table)?;
    let fns = binding_fns(&input.items, &table)?;
    proof {
        assert(opt_types_view(mapping@).len() == mapping@.len());
        assert(params_view(input.params@).len() == input.params@.len());
    }
    let impl_ident = get_dirk_name(&input.trait_ident, Some("Impl"));
    let impl_args = unbound_arguments(&input.params, &mapping);
    let unbound = unbound_indices(&mapping);
    let trait_args = trait_arguments(&input.params, &mapping);
    let (emits, providers) = get_providers(&order);
    let providers = match providers {
        Ok(p) => p,
        Err(e) => return Ok(ComponentOutcome { order, emits, result: Err(e) }),
    };
    proof {
        lemma_binding_table_distinct(bindings_view(input.bindings@), input.bindings@.len());
    }
    let builder = builder_plan(&input.trait_ident, &input.params, &mapping, &table);
    let plan = ComponentPlan { impl_ident, impl_args, unbound, trait_args, fns, providers, builder };
    Ok(ComponentOutcome { order, emits, result: Ok(plan) })
}

/// Decides everything the `component` macro generates for `input`, with
/// the bindings processed in their processing order (see
/// [`plan_component`] and [`processing_order_spec`]). Each binding is
/// processed after the bindings it depends on exactly where their
/// dependencies form no cycle.
pub fn process_component(input: &ComponentInput) -> (r: Result<ComponentOutcome, ComponentError>)
    requires
        !input.has_where_clause && input_mapping(*input) is Ok ==> no_const_params(params_view(input.params@)),
    ensures
        match r {
            Err(e) => if input.has_where_clause {
                e@ == ComponentErrorV::ContainsWhereClause
            } else {
                match input_mapping(*input) {
                    Err(m) => e@ == m,
                    Ok(_) => binding_fns_spec(items_view(input.items@), input_table(*input)) == Err::<Seq<BindingFnV>, _>(e@),
                }
            },
            Ok(o) => {
                let order = bindings_view(o.order@);
                &&& !input.has_where_clause
                &&& input_mapping(*input) is Ok
                &&& binding_fns_spec(items_view(input.items@), input_table(*input)) is Ok
                &&& order == processing_order_spec(input_table(*input))
                &&& deps_first(order) <==> acyclic(input_table(*input))
                &&& emits_view(o.emits@) == providers_spec(order, order.len()).0
                &&& match o.result {
                    Err(e) => providers_spec(order, order.len()).1 == Err::<Seq<ProviderEntryV>, _>(e@),
                    Ok(plan) => providers_spec(order, order.len()).1 == Ok::<_, ComponentErrorV>(
                        entries_view(plan.providers@),
                    ) && plan_spec(*input, plan),
                }
            },
        },
{
    let table = binding_table(&input.bindings);
    let order = processing_order(&table);
    proof {
        lemma_deps_first_iff_acyclic(bindings_view(table@));
    }
    plan_component(input, order)
}

/// Whether the component can be processed at all: a trait with a `const`
/// parameter cannot, once it passes the checks that come before, since
/// passing such a parameter on is not implemented.
pub fn component_supported(input: &ComponentInput) -> (r: bool)
    ensures
        r == (!input.has_where_clause && input_mapping(*input) is Ok ==> no_const_params(params_view(input.params@))),
{
    if input.has_where_clause {
        return true;
    }
    let mut has_const = false;
    let mut i: usize = 0;
    let ghost pv = params_view(input.params@);
    while i < input.params.len()
        invariant
            i <= input.params@.len(),
            pv == params_view(input.params@),
            has_const == exists|k: int| 0 <= k < i && #[trigger] pv[k] is Const,
        decreases input.params@.len() - i,
    {
        proof {
            assert(pv[i as int] == input.params@[i as int]@);
        }
        if matches!(input.params[i], GenericParamModel::Const(_)) {
            has_const = true;
        }
        i = i + 1;
    }
    if !has_const {
        return true;
    }
    let table = binding_table(&input.bindings);
    generics_mapping(&input.params, &input.items, &table).is_err()
}

} // verus!
