//! The `component` macro: which providers a component holds, in which order
//! they are created, and what it reports about their dependencies.

use vstd::prelude::*;

use crate::macros::binding::{
    binding_dependencies, binding_wrapped_ty, factory_call_spec, instance_factory_path, strings_view, Binding, BindingKind,
    BindingKindV, BindingV, FactoryCall,
};
use crate::macros::error::{ComponentError, ComponentErrorV};
use crate::macros::naming::{get_provider_name, provider_name};
use crate::macros::order::{bindings_view, contains_name};
use crate::macros::syntax::{PathModel, PathV, TypeModel, TypeV};

verus! {

/// A diagnostic that the `component` macro reports without stopping.
pub enum ComponentEmit {
    /// A dependency names no binding.
    NotFound(String),
    /// A binding depends on one that is processed after it.
    CycleDetected(String, String),
}

/// The view of a [`ComponentEmit`].
pub enum ComponentEmitV {
    NotFound(Seq<char>),
    CycleDetected(Seq<char>, Seq<char>),
}

impl View for ComponentEmit {
    type V = ComponentEmitV;

    open spec fn view(&self) -> ComponentEmitV {
        match self {
            ComponentEmit::NotFound(d) => ComponentEmitV::NotFound(d@),
            ComponentEmit::CycleDetected(s, d) => ComponentEmitV::CycleDetected(s@, d@),
        }
    }
}

/// The views of a list of diagnostics.
pub open spec fn emits_view(s: Seq<ComponentEmit>) -> Seq<ComponentEmitV> {
    s.map_values(|e: ComponentEmit| e@)
}

/// The names of a list of bindings.
pub open spec fn names_of(s: Seq<BindingV>) -> Seq<Seq<char>> {
    s.map_values(|b: BindingV| b.identifier)
}

/// The diagnostics for the first `k` dependencies `deps` of the binding
/// `source`: a dependency among the `processed` names is fine; another one
/// is a cycle if some binding has its name, and undefined otherwise.
pub open spec fn dep_emits(
    source: Seq<char>,
    deps: Seq<Seq<char>>,
    k: nat,
    processed: Seq<Seq<char>>,
    names: Seq<Seq<char>>,
) -> Seq<ComponentEmitV>
    decreases k,
{
    if k == 0 {
        Seq::empty()
    } else {
        let prev = dep_emits(source, deps, (k - 1) as nat, processed, names);
        let d = deps[k - 1];
        if processed.contains(d) {
            prev
        } else if names.contains(d) {
            prev.push(ComponentEmitV::CycleDetected(source, d))
        } else {
            prev.push(ComponentEmitV::NotFound(d))
        }
    }
}

/// The diagnostics for the binding at position `i` of the processing order:
/// its own name and those before it count as processed.
pub open spec fn binding_emits(order: Seq<BindingV>, i: int) -> Seq<ComponentEmitV> {
    match binding_dependencies(order[i].kind) {
        Some(deps) => dep_emits(
            order[i].identifier,
            deps,
            deps.len(),
            names_of(order.take(i + 1)),
            names_of(order),
        ),
        None => Seq::empty(),
    }
}

/// The diagnostics for the first `n` bindings of the processing order.
pub open spec fn dependency_emits(order: Seq<BindingV>, n: nat) -> Seq<ComponentEmitV>
    decreases n,
{
    if n == 0 {
        Seq::empty()
    } else {
        dependency_emits(order, (n - 1) as nat) + binding_emits(order, n - 1)
    }
}

/// Where a provider comes from.
pub enum ProviderSource {
    /// A call that creates a `#[provides]` factory.
    Factory(FactoryCall),
    /// An argument of the component's constructor, supplied by the builder
    /// as the binding's instance wrapped by the constructor at this path.
    Instance(PathModel),
}

/// The view of a [`ProviderSource`].
pub enum ProviderSourceV {
    Factory(PathV, Seq<Seq<char>>),
    Instance(PathV),
}

/// The provider of one binding, as the component's implementation holds it:
/// the field `field` of type `Rc<dyn Provider<wrapped> + 'static>`.
pub struct ProviderEntry {
    pub binding: String,
    pub field: String,
    pub wrapped: TypeModel,
    pub source: ProviderSource,
}

/// The view of a [`ProviderEntry`].
pub struct ProviderEntryV {
    pub binding: Seq<char>,
    pub field: Seq<char>,
    pub wrapped: TypeV,
    pub source: ProviderSourceV,
}

impl View for ProviderEntry {
    type V = ProviderEntryV;

    open spec fn view(&self) -> ProviderEntryV {
        ProviderEntryV {
            binding: self.binding@,
            field: self.field@,
            wrapped: self.wrapped@,
            source: match self.source {
                ProviderSource::Factory(c) => ProviderSourceV::Factory(c.path@, strings_view(c.provider_args@)),
                ProviderSource::Instance(p) => ProviderSourceV::Instance(p@),
            },
        }
    }
}

/// The views of a list of provider entries.
pub open spec fn entries_view(s: Seq<ProviderEntry>) -> Seq<ProviderEntryV> {
    s.map_values(|e: ProviderEntry| e@)
}

/// The provider entry of one binding, or why it cannot be built.
pub open spec fn entry_spec(b: BindingV) -> Result<ProviderEntryV, ComponentErrorV> {
    match binding_wrapped_ty(b.kind) {
        Err(e) => Err(e),
        Ok(w) => match b.kind {
            BindingKindV::Automatic { .. } => match factory_call_spec(b.kind) {
                Err(e) => Err(e),
                Ok(c) => Ok(
                    ProviderEntryV {
                        binding: b.identifier,
                        field: provider_name(b.identifier),
                        wrapped: w,
                        source: ProviderSourceV::Factory(c.0, c.1),
                    },
                ),
            },
            BindingKindV::Manual { mode, .. } => Ok(
                ProviderEntryV {
                    binding: b.identifier,
                    field: provider_name(b.identifier),
                    wrapped: w,
                    source: ProviderSourceV::Instance(instance_factory_path(mode)),
                },
            ),
        },
    }
}

/// Processing the first `n` bindings of `order`: the diagnostics reported so
/// far and the provider entries, or the error that stopped the processing.
/// A binding's diagnostics are reported before its entry is built; nothing
/// after the first error is processed.
pub open spec fn providers_spec(order: Seq<BindingV>, n: nat) -> (
    Seq<ComponentEmitV>,
    Result<Seq<ProviderEntryV>, ComponentErrorV>,
)
    decreases n,
{
    if n == 0 {
        (Seq::empty(), Ok(Seq::empty()))
    } else {
        let prev = providers_spec(order, (n - 1) as nat);
        match prev.1 {
            Err(e) => prev,
            Ok(es) => {
                let emits = prev.0 + binding_emits(order, n - 1);
                match entry_spec(order[n - 1]) {
                    Ok(x) => (emits, Ok(es.push(x))),
                    Err(e) => (emits, Err(e)),
                }
            },
        }
    }
}

/// Once processing has stopped on an error, further bindings change nothing.
pub proof fn lemma_providers_err_persists(order: Seq<BindingV>, i: nat, n: nat)
    requires
        i <= n,
        providers_spec(order, i).1 is Err,
    ensures
        providers_spec(order, n) == providers_spec(order, i),
    decreases n - i,
{
    if i < n {
        lemma_providers_err_persists(order, i, (n - 1) as nat);
    }
}

/// The names of a list of bindings, as strings.
pub fn binding_names(order: &Vec<Binding>) -> (r: Vec<String>)
    ensures
        strings_view(r@) == names_of(bindings_view(order@)),
{
    let mut r: Vec<String> = Vec::new();
    let mut i: usize = 0;
    while i < order.len()
        invariant
            i <= order@.len(),
            r@.len() == i,
            forall|j: int| 0 <= j < i ==> #[trigger] r@[j]@ == order@[j].identifier@,
        decreases order@.len() - i,
    {
        r.push(order[i].identifier.clone());
        i = i + 1;
    }
    proof {
        assert(strings_view(r@) =~= names_of(bindings_view(order@)));
    }
    r
}

/// Appends the diagnostics for the dependencies of `b`.
fn push_dep_emits(b: &Binding, processed: &Vec<String>, names: &Vec<String>, emits: &mut Vec<ComponentEmit>)
    ensures
        emits_view(final(emits)@) == emits_view(old(emits)@) + match binding_dependencies(b.kind@) {
            Some(deps) => dep_emits(b.identifier@, deps, deps.len(), strings_view(processed@), strings_view(names@)),
            None => Seq::empty(),
        },
{
    let ghost start = emits_view(emits@);
    match b.kind.dependencies() {
        Some(deps) => {
            let ghost dv = strings_view(deps@);
            let mut k: usize = 0;
            proof {
                assert(emits_view(emits@) =~= start + dep_emits(b.identifier@, dv, 0, strings_view(processed@), strings_view(names@)));
            }
            while k < deps.len()
                invariant
                    k <= deps@.len(),
                    dv == strings_view(deps@),
                    emits_view(emits@) == start + dep_emits(b.identifier@, dv, k as nat, strings_view(processed@), strings_view(names@)),
                decreases deps@.len() - k,
            {
                let d = &deps[k];
                let ghost before = emits_view(emits@);
                proof {
                    assert(dv[k as int] == d@);
                }
                if contains_name(processed, d) {
                } else if contains_name(names, d) {
                    emits.push(ComponentEmit::CycleDetected(b.identifier.clone(), d.clone()));
                    proof {
                        assert(emits_view(emits@) =~= before.push(ComponentEmitV::CycleDetected(b.identifier@, d@)));
                    }
                } else {
                    emits.push(ComponentEmit::NotFound(d.clone()));
                    proof {
                        assert(emits_view(emits@) =~= before.push(ComponentEmitV::NotFound(d@)));
                    }
                }
                k = k + 1;
            }
        },
        None => {
            proof {
                assert(emits_view(emits@) =~= start + Seq::<ComponentEmitV>::empty());
            }
        },
    }
}

/// The provider entry of one binding (see [`entry_spec`]).
pub fn provider_entry(b: &Binding) -> (r: Result<ProviderEntry, ComponentError>)
    ensures
        match r {
            Ok(x) => entry_spec(b@) == Ok::<_, ComponentErrorV>(x@),
            Err(e) => entry_spec(b@) == Err::<ProviderEntryV, _>(e@),
        },
{
    let wrapped = b.kind.wrapped_ty()?;
    let field = get_provider_name(&b.identifier);
    match &b.kind {
        BindingKind::Automatic { .. } => {
            let call = b.kind.get_factory_create_call()?;
            Ok(ProviderEntry { binding: b.identifier.clone(), field, wrapped, source: ProviderSource::Factory(call) })
        },
        BindingKind::Manual { mode, .. } => {
            let path = mode.get_new_factory();
            Ok(ProviderEntry { binding: b.identifier.clone(), field, wrapped, source: ProviderSource::Instance(path) })
        },
    }
}

/// The diagnostics and provider entries of a component whose bindings are
/// processed in the order `order` (see [`providers_spec`]).
pub fn get_providers(order: &Vec<Binding>) -> (r: (Vec<ComponentEmit>, Result<Vec<ProviderEntry>, ComponentError>))
    ensures
        emits_view(r.0@) == providers_spec(bindings_view(order@), order@.len()).0,
        match r.1 {
            Ok(es) => providers_spec(bindings_view(order@), order@.len()).1 == Ok::<_, ComponentErrorV>(entries_view(es@)),
            Err(e) => providers_spec(bindings_view(order@), order@.len()).1 == Err::<Seq<ProviderEntryV>, _>(e@),
        },
{
    let ghost ov = bindings_view(order@);
    let names = binding_names(order);
    let mut processed: Vec<String> = Vec::new();
    let mut emits: Vec<ComponentEmit> = Vec::new();
    let mut entries: Vec<ProviderEntry> = Vec::new();
    let mut i: usize = 0;
    proof {
        assert(emits_view(emits@) =~= Seq::<ComponentEmitV>::empty());
        assert(entries_view(entries@) =~= Seq::<ProviderEntryV>::empty());
        assert(strings_view(processed@) =~= names_of(ov.take(0)));
    }
    while i < order.len()
        invariant
            i <= order@.len(),
            ov == bindings_view(order@),
            strings_view(names@) == names_of(ov),
            strings_view(processed@) == names_of(ov.take(i as int)),
            emits_view(emits@) == providers_spec(ov, i as nat).0,
            providers_spec(ov, i as nat).1 == Ok::<_, ComponentErrorV>(entries_view(entries@)),
        decreases order@.len() - i,
    {
        let b = &order[i];
        processed.push(b.identifier.clone());
        proof {
            assert(ov[i as int] == b@);
            assert(names_of(ov.take(i + 1)) =~= names_of(ov.take(i as int)).push(b.identifier@));
            assert(strings_view(processed@) =~= names_of(ov.take(i + 1)));
        }
        push_dep_emits(b, &processed, &names, &mut emits);
        proof {
            assert(emits_view(emits@) == providers_spec(ov, i as nat).0 + binding_emits(ov, i as int));
        }
        match provider_entry(b) {
            Ok(x) => {
                let ghost before = entries_view(entries@);
                entries.push(x);
                proof {
                    assert(entries_view(entries@) =~= before.push(x@));
                }
            },
            Err(e) => {
                proof {
                    assert(providers_spec(ov, (i + 1) as nat).1 == Err::<Seq<ProviderEntryV>, _>(e@));
                    lemma_providers_err_persists(ov, (i + 1) as nat, order@.len());
                }
                return (emits, Err(e));
            },
        }
        i = i + 1;
    }
    (emits, Ok(entries))
}

/// A later binding of `s` has the same name as the binding at position `i`.
pub open spec fn shadowed(s: Seq<BindingV>, i: int) -> bool {
    exists|j: int| i < j < s.len() && s[j].identifier == s[i].identifier
}

/// The bindings of the first `n` declarations that no later declaration
/// shadows, in declaration order: of two bindings with the same name, the
/// later one is kept.
pub open spec fn binding_table_spec(s: Seq<BindingV>, n: nat) -> Seq<BindingV>
    decreases n,
{
    if n == 0 {
        Seq::empty()
    } else {
        let prev = binding_table_spec(s, (n - 1) as nat);
        if shadowed(s, n - 1) {
            prev
        } else {
            prev.push(s[n - 1])
        }
    }
}

/// The bindings of a component keyed by name, the later of two declarations
/// with the same name winning (see [`binding_table_spec`]).
pub fn binding_table(decls: &Vec<Binding>) -> (r: Vec<Binding>)
    ensures
        bindings_view(r@) == binding_table_spec(bindings_view(decls@), decls@.len()),
{
    let ghost s = bindings_view(decls@);
    let n = decls.len();
    let mut r: Vec<Binding> = Vec::new();
    let mut i: usize = 0;
    proof {
        assert(bindings_view(r@) =~= Seq::<BindingV>::empty());
    }
    while i < n
        invariant
            n == decls@.len(),
            s == bindings_view(decls@),
            i <= n,
            bindings_view(r@) == binding_table_spec(s, i as nat),
        decreases n - i,
    {
        let mut later = false;
        let mut j: usize = i + 1;
        while j < n
            invariant
                n == decls@.len(),
                s == bindings_view(decls@),
                i < n,
                i + 1 <= j <= n,
                later == exists|q: int| i < q < j && s[q].identifier == s[i as int].identifier,
            decreases n - j,
        {
            if decls[j].identifier == decls[i].identifier {
                proof {
                    assert(s[j as int].identifier == s[i as int].identifier);
                }
                later = true;
            }
            proof {
                if !later {
                    assert forall|q: int| i < q < j + 1 implies s[q].identifier != s[i as int].identifier by {
                        if q == j {
                            assert(s[q] == decls@[q]@);
                        }
                    }
                }
            }
            j = j + 1;
        }
        if !later {
            let ghost before = bindings_view(r@);
            r.push(decls[i].clone_binding());
            proof {
                assert(bindings_view(r@) =~= before.push(s[i as int]));
            }
        }
        i = i + 1;
    }
    r
}

// ---------------------------------------------------------------------------
// Laws on the diagnostics
// ---------------------------------------------------------------------------

/// What a diagnostic of `dep_emits` can be: a cycle through `source` and a
/// defined, unprocessed dependency, or an undefined dependency; each one
/// names a dependency among the first `k`.
pub proof fn lemma_dep_emits_members(
    source: Seq<char>,
    deps: Seq<Seq<char>>,
    k: nat,
    processed: Seq<Seq<char>>,
    names: Seq<Seq<char>>,
)
    requires
        k <= deps.len(),
    ensures
        forall|e: ComponentEmitV| #[trigger] dep_emits(source, deps, k, processed, names).contains(e) ==> {
            ||| (e matches ComponentEmitV::CycleDetected(s, d) && s == source && names.contains(d)
                && !processed.contains(d) && deps.take(k as int).contains(d))
            ||| (e matches ComponentEmitV::NotFound(d) && !names.contains(d) && !processed.contains(d)
                && deps.take(k as int).contains(d))
        },
    decreases k,
{
    if k > 0 {
        lemma_dep_emits_members(source, deps, (k - 1) as nat, processed, names);
        let prev = dep_emits(source, deps, (k - 1) as nat, processed, names);
        let d = deps[k - 1];
        assert(deps.take(k as int) =~= deps.take(k - 1).push(d));
        assert forall|e: ComponentEmitV| #[trigger] dep_emits(source, deps, k, processed, names).contains(e) implies {
            ||| (e matches ComponentEmitV::CycleDetected(s, d) && s == source && names.contains(d)
                && !processed.contains(d) && deps.take(k as int).contains(d))
            ||| (e matches ComponentEmitV::NotFound(d) && !names.contains(d) && !processed.contains(d)
                && deps.take(k as int).contains(d))
        } by {
            if prev.contains(e) {
                match e {
                    ComponentEmitV::CycleDetected(_, x) => {
                        let q = choose|q: int| 0 <= q < k - 1 && #[trigger] deps.take(k - 1)[q] == x;
                        assert(deps.take(k as int)[q] == x);
                    },
                    ComponentEmitV::NotFound(x) => {
                        let q = choose|q: int| 0 <= q < k - 1 && #[trigger] deps.take(k - 1)[q] == x;
                        assert(deps.take(k as int)[q] == x);
                    },
                }
            } else {
                assert(deps.take(k as int)[k - 1] == d);
            }
        }
    }
}

/// Every dependency among the first `k` that names no binding is reported.
pub proof fn lemma_dep_emits_complete(
    source: Seq<char>,
    deps: Seq<Seq<char>>,
    k: nat,
    processed: Seq<Seq<char>>,
    names: Seq<Seq<char>>,
    d: Seq<char>,
)
    requires
        k <= deps.len(),
        deps.take(k as int).contains(d),
        !names.contains(d),
        !processed.contains(d),
    ensures
        dep_emits(source, deps, k, processed, names).contains(ComponentEmitV::NotFound(d)),
    decreases k,
{
    let prev = dep_emits(source, deps, (k - 1) as nat, processed, names);
    if deps[k - 1] == d {
        assert(dep_emits(source, deps, k, processed, names) == prev.push(ComponentEmitV::NotFound(d)));
        assert(prev.push(ComponentEmitV::NotFound(d))[prev.len() as int] == ComponentEmitV::NotFound(d));
    } else {
        let q = choose|q: int| 0 <= q < k && deps.take(k as int)[q] == d;
        assert(deps.take(k - 1)[q] == d);
        lemma_dep_emits_complete(source, deps, (k - 1) as nat, processed, names, d);
        let cur = dep_emits(source, deps, k, processed, names);
        let i = choose|i: int| 0 <= i < prev.len() && prev[i] == ComponentEmitV::NotFound(d);
        assert(cur[i] == ComponentEmitV::NotFound(d));
    }
}

/// The diagnostics of the first `n` bindings are those of the bindings one
/// by one.
pub proof fn lemma_dependency_emits_members(order: Seq<BindingV>, n: nat, e: ComponentEmitV)
    requires
        n <= order.len(),
        dependency_emits(order, n).contains(e),
    ensures
        exists|i: int| 0 <= i < n && #[trigger] binding_emits(order, i).contains(e),
    decreases n,
{
    let prev = dependency_emits(order, (n - 1) as nat);
    let last = binding_emits(order, n - 1);
    assert(dependency_emits(order, n) == prev + last);
    let k = choose|k: int| 0 <= k < dependency_emits(order, n).len() && dependency_emits(order, n)[k] == e;
    if k < prev.len() {
        assert(prev[k] == e);
        assert(prev.contains(e));
        lemma_dependency_emits_members(order, (n - 1) as nat, e);
    } else {
        assert(last[k - prev.len()] == e);
        assert(binding_emits(order, n - 1).contains(e));
    }
}

/// A dependency is processed at position `i` exactly where a binding at or
/// before `i` has its name.
proof fn lemma_processed_names(order: Seq<BindingV>, i: int, d: Seq<char>)
    requires
        0 <= i < order.len(),
    ensures
        names_of(order.take(i + 1)).contains(d) <==> exists|j: int| 0 <= j <= i && order[j].identifier == d,
        names_of(order).contains(d) <==> exists|j: int| 0 <= j < order.len() && order[j].identifier == d,
{
    if names_of(order.take(i + 1)).contains(d) {
        let j = choose|j: int| 0 <= j < i + 1 && #[trigger] names_of(order.take(i + 1))[j] == d;
        assert(order[j].identifier == d);
    }
    if exists|j: int| 0 <= j <= i && order[j].identifier == d {
        let j = choose|j: int| 0 <= j <= i && order[j].identifier == d;
        assert(names_of(order.take(i + 1))[j] == d);
    }
    if names_of(order).contains(d) {
        let j = choose|j: int| 0 <= j < order.len() && #[trigger] names_of(order)[j] == d;
        assert(order[j].identifier == d);
    }
    if exists|j: int| 0 <= j < order.len() && order[j].identifier == d {
        let j = choose|j: int| 0 <= j < order.len() && order[j].identifier == d;
        assert(names_of(order)[j] == d);
    }
}

/// When the bindings are processed in an order where each comes after the
/// bindings it depends on, no cycle is reported, and the only diagnostics
/// are the dependencies that name no binding: each such dependency is
/// reported, and nothing else is.
pub proof fn lemma_deps_first_reports_exactly_undefined(order: Seq<BindingV>)
    requires
        crate::macros::order::deps_first(order),
    ensures
        forall|e: ComponentEmitV| #[trigger] dependency_emits(order, order.len()).contains(e) ==> (e matches ComponentEmitV::NotFound(d) && !names_of(order).contains(d)),
        forall|i: int, d: Seq<char>|
            0 <= i < order.len() && #[trigger] declares_dependency(order[i], d) && !names_of(order).contains(d)
                ==> dependency_emits(order, order.len()).contains(ComponentEmitV::NotFound(d)),
{
    assert forall|e: ComponentEmitV| #[trigger] dependency_emits(order, order.len()).contains(e) implies (e matches ComponentEmitV::NotFound(d) && !names_of(order).contains(d)) by {
        lemma_dependency_emits_members(order, order.len(), e);
        let i = choose|i: int| 0 <= i < order.len() && #[trigger] binding_emits(order, i).contains(e);
        match binding_dependencies(order[i].kind) {
            Some(deps) => {
                let processed = names_of(order.take(i + 1));
                let names = names_of(order);
                lemma_dep_emits_members(order[i].identifier, deps, deps.len(), processed, names);
                match e {
                    ComponentEmitV::CycleDetected(_, d) => {
                        lemma_processed_names(order, i, d);
                        let j = choose|j: int| 0 <= j < order.len() && order[j].identifier == d;
                        assert(!(0 <= j <= i));
                        assert(deps.take(deps.len() as int) =~= deps);
                        assert(crate::macros::order::depends_on(order[i].kind, order[j].identifier));
                        assert(false);
                    },
                    ComponentEmitV::NotFound(_) => {},
                }
            },
            None => {},
        }
    }
    assert forall|i: int, d: Seq<char>|
        0 <= i < order.len() && #[trigger] declares_dependency(order[i], d) && !names_of(order).contains(d)
        implies dependency_emits(order, order.len()).contains(ComponentEmitV::NotFound(d)) by {
        let deps = binding_dependencies(order[i].kind)->Some_0;
        let processed = names_of(order.take(i + 1));
        let names = names_of(order);
        lemma_processed_names(order, i, d);
        assert(deps.take(deps.len() as int) =~= deps);
        lemma_dep_emits_complete(order[i].identifier, deps, deps.len(), processed, names, d);
        lemma_binding_emits_in_all(order, i, order.len(), ComponentEmitV::NotFound(d));
    }
}

/// The binding `b` lists `d` among its dependencies.
pub open spec fn declares_dependency(b: BindingV, d: Seq<char>) -> bool {
    match binding_dependencies(b.kind) {
        Some(deps) => deps.contains(d),
        None => false,
    }
}

/// A diagnostic of one binding is among the diagnostics of all bindings.
pub proof fn lemma_binding_emits_in_all(order: Seq<BindingV>, i: int, n: nat, e: ComponentEmitV)
    requires
        0 <= i < n <= order.len(),
        binding_emits(order, i).contains(e),
    ensures
        dependency_emits(order, n).contains(e),
    decreases n,
{
    let prev = dependency_emits(order, (n - 1) as nat);
    let last = binding_emits(order, n - 1);
    assert(dependency_emits(order, n) == prev + last);
    if i == n - 1 {
        let k = choose|k: int| 0 <= k < last.len() && last[k] == e;
        assert((prev + last)[prev.len() + k] == e);
    } else {
        lemma_binding_emits_in_all(order, i, (n - 1) as nat, e);
        let k = choose|k: int| 0 <= k < prev.len() && prev[k] == e;
        assert((prev + last)[k] == e);
    }
}

} // verus!
