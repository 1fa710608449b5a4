//! The builder of a component: which bindings the user hands in, the type
//! parameters that track which of them are set, and the partial impls that
//! set one at a time.

use itertools::Itertools;
use vstd::prelude::*;

use crate::macros::binding::{instance_factory_path, Binding, BindingKind, BindingV, ManualKind};
use crate::macros::casing::{pascal_case, to_pascal_case};
use crate::macros::naming::{dirk_name, get_dirk_name, get_opaque_param_name, opaque_param_name, prefixed};
use crate::macros::order::bindings_view;
use crate::macros::syntax::{clone_type, PathModel, PathV, TypeModel, TypeV};
use crate::macros::trait_impl::{
    find_binding, get_type_ident, opt_types_view, params_view, table_lookup, type_ident, unbound_type_param,
    unbound_type_param_spec, GenericParamModel, GenericParamV,
};

verus! {

// ---------------------------------------------------------------------------
// Ordering names
// ---------------------------------------------------------------------------

/// The order of `String`s: lexicographic, character by character, a proper
/// prefix coming first. std orders strings by their UTF-8 bytes, which
/// orders characters by their code points.
pub open spec fn str_less(a: Seq<char>, b: Seq<char>) -> bool
    decreases a.len(),
{
    if a.len() == 0 {
        b.len() > 0
    } else if b.len() == 0 {
        false
    } else if a[0] != b[0] {
        (a[0] as u32) < (b[0] as u32)
    } else {
        str_less(a.drop_first(), b.drop_first())
    }
}

/// The views of a list of strings.
pub open spec fn names_view(s: Seq<String>) -> Seq<Seq<char>> {
    s.map_values(|x: String| x@)
}

/// No name of `s` comes before one that precedes it.
pub open spec fn names_sorted(s: Seq<Seq<char>>) -> bool {
    forall|i: int, j: int| 0 <= i < j < s.len() ==> !str_less(s[j], s[i])
}

/// Calls itertools' `sorted` on the names: the same names, in the order of
/// `String` (see [`str_less`]).
#[verifier::external_body]
fn sort_names(v: Vec<String>) -> (r: Vec<String>)
    ensures
        names_view(r@).to_multiset() == names_view(v@).to_multiset(),
        names_sorted(names_view(r@)),
{
    v.into_iter().sorted().collect()
}

// ---------------------------------------------------------------------------
// Instance bindings
// ---------------------------------------------------------------------------

/// No two bindings of the table have the same name, as in a map keyed by name.
pub open spec fn distinct_names(table: Seq<BindingV>) -> bool {
    forall|i: int, j: int| 0 <= i < j < table.len() ==> table[i].identifier != table[j].identifier
}

/// The names of the first `n` bindings of the table that the user hands in
/// (instance bindings), in table order.
pub open spec fn manual_names(table: Seq<BindingV>, n: nat) -> Seq<Seq<char>>
    decreases n,
{
    if n == 0 {
        Seq::empty()
    } else if table[n - 1].kind is Manual {
        manual_names(table, (n - 1) as nat).push(table[n - 1].identifier)
    } else {
        manual_names(table, (n - 1) as nat)
    }
}

/// An instance binding of the builder.
pub struct InstanceBind {
    /// The binding's name: the builder's field and the setter's name.
    pub ident: String,
    /// The builder's type parameter for the binding's state.
    pub param: String,
    pub mode: ManualKind,
    pub ty: TypeModel,
    /// The constructor of the factory that wraps the instance.
    pub factory: PathModel,
}

/// The view of an [`InstanceBind`].
pub struct InstanceBindV {
    pub ident: Seq<char>,
    pub param: Seq<char>,
    pub mode: ManualKind,
    pub ty: TypeV,
    pub factory: PathV,
}

impl View for InstanceBind {
    type V = InstanceBindV;

    open spec fn view(&self) -> InstanceBindV {
        InstanceBindV {
            ident: self.ident@,
            param: self.param@,
            mode: self.mode,
            ty: self.ty@,
            factory: self.factory@,
        }
    }
}

/// The name of the builder's type parameter for the binding `ident`: `_` and
/// the name, in Pascal case.
pub open spec fn param_name(ident: Seq<char>) -> Seq<char> {
    pascal_case("_"@ + ident)
}

/// The instance binding made of a binding that the user hands in.
pub open spec fn instance_bind_spec(b: BindingV) -> InstanceBindV {
    InstanceBindV {
        ident: b.identifier,
        param: param_name(b.identifier),
        mode: b.kind->Manual_mode,
        ty: b.kind->Manual_ty,
        factory: instance_factory_path(b.kind->Manual_mode),
    }
}

/// The views of a list of instance bindings.
pub open spec fn binds_view(s: Seq<InstanceBind>) -> Seq<InstanceBindV> {
    s.map_values(|b: InstanceBind| b@)
}

/// A name among the instance bindings' names belongs to an instance binding
/// of the table.
pub proof fn lemma_manual_names_member(table: Seq<BindingV>, n: nat, name: Seq<char>)
    requires
        n <= table.len(),
        manual_names(table, n).contains(name),
    ensures
        exists|i: int| 0 <= i < n && table[i].identifier == name && table[i].kind is Manual,
    decreases n,
{
    if n > 0 {
        let prev = manual_names(table, (n - 1) as nat);
        if table[n - 1].kind is Manual && table[n - 1].identifier == name {
        } else {
            if table[n - 1].kind is Manual {
                assert(manual_names(table, n) == prev.push(table[n - 1].identifier));
                let k = choose|k: int| 0 <= k < manual_names(table, n).len() && manual_names(table, n)[k] == name;
                assert(k < prev.len());
                assert(prev[k] == name);
            }
            lemma_manual_names_member(table, (n - 1) as nat, name);
        }
    }
}

/// In a table with distinct names, looking up the name of a binding finds it.
pub proof fn lemma_lookup_distinct(table: Seq<BindingV>, i: int)
    requires
        distinct_names(table),
        0 <= i < table.len(),
    ensures
        table_lookup(table, table[i].identifier) == Some(table[i]),
    decreases table.len(),
{
    if i > 0 {
        let rest = table.drop_first();
        assert(table[0].identifier != table[i].identifier);
        assert(rest[i - 1] == table[i]);
        assert(distinct_names(rest)) by {
            assert forall|a: int, b: int| 0 <= a < b < rest.len() implies rest[a].identifier != rest[b].identifier by {
                assert(rest[a] == table[a + 1]);
                assert(rest[b] == table[b + 1]);
            }
        }
        lemma_lookup_distinct(rest, i - 1);
    }
}

/// The names of the table's instance bindings, in table order.
fn collect_manual_names(table: &Vec<Binding>) -> (r: Vec<String>)
    ensures
        names_view(r@) == manual_names(bindings_view(table@), table@.len()),
{
    let ghost tv = bindings_view(table@);
    let mut r: Vec<String> = Vec::new();
    let mut i: usize = 0;
    proof {
        assert(names_view(r@) =~= manual_names(tv, 0));
    }
    while i < table.len()
        invariant
            i <= table@.len(),
            tv == bindings_view(table@),
            names_view(r@) == manual_names(tv, i as nat),
        decreases table@.len() - i,
    {
        proof {
            assert(tv[i as int] == table@[i as int]@);
        }
        if matches!(table[i].kind, BindingKind::Manual { .. }) {
            let ghost before = names_view(r@);
            r.push(table[i].identifier.clone());
            proof {
                assert(names_view(r@) =~= before.push(table@[i as int].identifier@));
            }
        }
        i = i + 1;
    }
    r
}

/// The instance bindings of the table, ordered by name: each name of an
/// instance binding once, sorted, each with the binding's data.
pub open spec fn instance_binds_spec(table: Seq<BindingV>, binds: Seq<InstanceBindV>) -> bool {
    let names = binds.map_values(|b: InstanceBindV| b.ident);
    &&& names.to_multiset() == manual_names(table, table.len()).to_multiset()
    &&& names_sorted(names)
    &&& forall|k: int| 0 <= k < binds.len() ==> #[trigger] binds[k] == instance_bind_spec(
        table_lookup(table, names[k])->Some_0,
    )
}

/// The instance bindings of a table with distinct names, ordered by name
/// (see [`instance_binds_spec`]).
pub fn instance_binds(table: &Vec<Binding>) -> (r: Vec<InstanceBind>)
    requires
        distinct_names(bindings_view(table@)),
    ensures
        instance_binds_spec(bindings_view(table@), binds_view(r@)),
{
    let ghost tv = bindings_view(table@);
    let names = sort_names(collect_manual_names(table));
    let ghost nv = names_view(names@);
    let ghost mn = manual_names(tv, tv.len());
    let mut r: Vec<InstanceBind> = Vec::new();
    let mut k: usize = 0;
    while k < names.len()
        invariant
            k <= names@.len(),
            tv == bindings_view(table@),
            distinct_names(tv),
            nv == names_view(names@),
            mn == manual_names(tv, tv.len()),
            nv.to_multiset() == mn.to_multiset(),
            r@.len() == k,
            forall|q: int| 0 <= q < k ==> #[trigger] r@[q]@.ident == nv[q],
            forall|q: int| 0 <= q < k ==> #[trigger] r@[q]@ == instance_bind_spec(table_lookup(tv, nv[q])->Some_0),
        decreases names@.len() - k,
    {
        let name = &names[k];
        proof {
            assert(nv[k as int] == name@);
            assert(nv.contains(name@));
            vstd::seq_lib::to_multiset_contains(nv, name@);
            vstd::seq_lib::to_multiset_contains(mn, name@);
            assert(mn.contains(name@));
            lemma_manual_names_member(tv, tv.len(), name@);
            let i = choose|i: int| 0 <= i < tv.len() && tv[i].identifier == name@ && tv[i].kind is Manual;
            lemma_lookup_distinct(tv, i);
        }
        let b = find_binding(table, name).unwrap();
        if let BindingKind::Manual { mode, ty } = &b.kind {
            let param = to_pascal_case(prefixed("_", name).as_str());
            let bind = InstanceBind {
                ident: name.clone(),
                param,
                mode: *mode,
                ty: clone_type(ty),
                factory: mode.get_new_factory(),
            };
            r.push(bind);
        }
        k = k + 1;
    }
    proof {
        let bv = binds_view(r@);
        assert(bv.map_values(|b: InstanceBindV| b.ident) =~= nv);
    }
    r
}

// ---------------------------------------------------------------------------
// The builder
// ---------------------------------------------------------------------------

/// A type argument of the builder in a partial impl: the state of the
/// binding that the impl's setter sets (`Unset`, then `Set<T>`), or a type
/// parameter that carries the state of another binding unchanged.
pub enum Slot {
    Target,
    Opaque(String),
}

/// The view of a [`Slot`].
pub enum SlotV {
    Target,
    Opaque(Seq<char>),
}

impl View for Slot {
    type V = SlotV;

    open spec fn view(&self) -> SlotV {
        match self {
            Slot::Target => SlotV::Target,
            Slot::Opaque(s) => SlotV::Opaque(s@),
        }
    }
}

/// The impl of the builder that sets one instance binding: its type
/// arguments, and the position of the trait's generic parameter the setter
/// is generic over, if the binding's type is one.
pub struct PartialImpl {
    pub slots: Vec<Slot>,
    pub generic_param: Option<usize>,
}

/// The view of a [`PartialImpl`].
pub struct PartialImplV {
    pub slots: Seq<SlotV>,
    pub generic_param: Option<int>,
}

impl View for PartialImpl {
    type V = PartialImplV;

    open spec fn view(&self) -> PartialImplV {
        PartialImplV {
            slots: self.slots@.map_values(|s: Slot| s@),
            generic_param: match self.generic_param {
                Some(i) => Some(i as int),
                None => None,
            },
        }
    }
}

/// The type arguments of the partial impl for the binding at position `i`
/// of `n`: the target at `i`, `S{j}` at every other position `j`.
pub open spec fn slots_spec(n: nat, i: int) -> Seq<SlotV> {
    Seq::new(n, |j: int| if j == i { SlotV::Target } else { SlotV::Opaque(opaque_param_name(j as nat)) })
}

/// The trait's generic parameter a setter of a binding of type `ty` is
/// generic over: the unbound type parameter whose name `ty` is, if any.
pub open spec fn partial_generic_spec(params: Seq<GenericParamV>, mapping: Seq<Option<TypeV>>, ty: TypeV) -> Option<int> {
    match type_ident(ty) {
        Some(name) => unbound_type_param_spec(params, mapping, name, params.len()),
        None => None,
    }
}

/// What the builder of a component is made of.
pub struct BuilderPlan {
    /// `Dirk{Trait}Builder`.
    pub ident: String,
    /// The instance bindings, ordered by name. Without any, the builder is a
    /// static one: it needs no input, and the component is a static component.
    pub binds: Vec<InstanceBind>,
    /// One partial impl per instance binding, in the same order.
    pub partials: Vec<PartialImpl>,
}

/// The builder plan of a component (see [`BuilderPlan`]).
pub open spec fn builder_plan_spec(
    trait_ident: Seq<char>,
    params: Seq<GenericParamV>,
    mapping: Seq<Option<TypeV>>,
    table: Seq<BindingV>,
    ident: Seq<char>,
    binds: Seq<InstanceBindV>,
    partials: Seq<PartialImplV>,
) -> bool {
    &&& ident == dirk_name(trait_ident, "Builder"@)
    &&& instance_binds_spec(table, binds)
    &&& partials.len() == binds.len()
    &&& forall|i: int|
        0 <= i < partials.len() ==> #[trigger] partials[i] == PartialImplV {
            slots: slots_spec(binds.len(), i),
            generic_param: partial_generic_spec(params, mapping, binds[i].ty),
        }
}

/// The partial impl for the binding at position `i` of `binds`.
fn partial_impl(
    binds: &Vec<InstanceBind>,
    i: usize,
    params: &Vec<GenericParamModel>,
    mapping: &Vec<Option<TypeModel>>,
) -> (r: PartialImpl)
    requires
        i < binds@.len(),
        mapping@.len() == params@.len(),
    ensures
        r@ == (PartialImplV {
            slots: slots_spec(binds@.len(), i as int),
            generic_param: partial_generic_spec(params_view(params@), opt_types_view(mapping@), binds@[i as int].ty@),
        }),
{
    let n = binds.len();
    let mut slots: Vec<Slot> = Vec::new();
    let mut j: usize = 0;
    while j < n
        invariant
            n == binds@.len(),
            j <= n,
            slots@.len() == j,
            forall|q: int| 0 <= q < j ==> #[trigger] slots@[q]@ == slots_spec(n as nat, i as int)[q],
        decreases n - j,
    {
        if j == i {
            slots.push(Slot::Target);
        } else {
            slots.push(Slot::Opaque(get_opaque_param_name(j)));
        }
        j = j + 1;
    }
    let generic_param = match get_type_ident(&binds[i].ty) {
        Some(name) => unbound_type_param(params, mapping, name),
        None => None,
    };
    let r = PartialImpl { slots, generic_param };
    proof {
        assert(r@.slots =~= slots_spec(n as nat, i as int));
    }
    r
}

/// The builder of a component whose bindings, by name, are `table` (see
/// [`builder_plan_spec`]); `mapping` holds what the bindings fix the
/// trait's generic parameters to.
pub fn builder_plan(
    trait_ident: &String,
    params: &Vec<GenericParamModel>,
    mapping: &Vec<Option<TypeModel>>,
    table: &Vec<Binding>,
) -> (r: BuilderPlan)
    requires
        mapping@.len() == params@.len(),
        distinct_names(bindings_view(table@)),
    ensures
        builder_plan_spec(
            trait_ident@,
            params_view(params@),
            opt_types_view(mapping@),
            bindings_view(table@),
            r.ident@,
            binds_view(r.binds@),
            r.partials@.map_values(|p: PartialImpl| p@),
        ),
{
    let ident = get_dirk_name(trait_ident, Some("Builder"));
    let binds = instance_binds(table);
    let mut partials: Vec<PartialImpl> = Vec::new();
    let mut i: usize = 0;
    while i < binds.len()
        invariant
            i <= binds@.len(),
            mapping@.len() == params@.len(),
            partials@.len() == i,
            forall|q: int| 0 <= q < i ==> #[trigger] partials@[q]@ == (PartialImplV {
                slots: slots_spec(binds@.len(), q),
                generic_param: partial_generic_spec(params_view(params@), opt_types_view(mapping@), binds@[q].ty@),
            }),
        decreases binds@.len() - i,
    {
        partials.push(partial_impl(&binds, i, params, mapping));
        i = i + 1;
    }
    let r = BuilderPlan { ident, binds, partials };
    proof {
        let bv = binds_view(r.binds@);
        let pv = r.partials@.map_values(|p: PartialImpl| p@);
        assert forall|q: int| 0 <= q < pv.len() implies #[trigger] pv[q] == PartialImplV {
            slots: slots_spec(bv.len(), q),
            generic_param: partial_generic_spec(params_view(params@), opt_types_view(mapping@), bv[q].ty),
        } by {
            assert(bv[q] == r.binds@[q]@);
        }
    }
    r
}

} // verus!
