//! The implementation of a component trait: which generic parameters the
//! bindings fix, and the binding `fn`s with their checked return types.

use vstd::prelude::*;

use crate::macros::binding::{
    binding_wrapped_ty, compare_types_spec, type_pairs_view, Binding, BindingV,
};
use crate::macros::error::{agrees, ComponentError, ComponentErrorV, Expected};
use crate::macros::naming::{get_provider_name, provider_name};
use crate::macros::order::bindings_view;
use crate::macros::syntax::{
    clone_type, generic_arg_view, generic_args_view, lemma_generic_args_view_index, lemma_segments_view_index, path_args_view,
    GenericArg, GenericArgV, PathArgsV, SegmentV, plain_segment, segment_view, segments_view, PathArgs, PathModel, PathV, Segment,
    TypeModel, TypeV,
};

verus! {

/// A generic parameter of a trait.
pub enum GenericParamModel {
    Lifetime(String),
    Type(String),
    Const(String),
}

/// The view of a [`GenericParamModel`].
pub enum GenericParamV {
    Lifetime(Seq<char>),
    Type(Seq<char>),
    Const(Seq<char>),
}

impl View for GenericParamModel {
    type V = GenericParamV;

    open spec fn view(&self) -> GenericParamV {
        match self {
            GenericParamModel::Lifetime(s) => GenericParamV::Lifetime(s@),
            GenericParamModel::Type(s) => GenericParamV::Type(s@),
            GenericParamModel::Const(s) => GenericParamV::Const(s@),
        }
    }
}

/// An item of a trait: a `fn` with its name and return type (`None` where
/// none is written), or something else.
pub enum TraitItemModel {
    Fn { ident: String, output: Option<TypeModel> },
    Other,
}

/// The view of a [`TraitItemModel`].
pub enum TraitItemV {
    Fn { ident: Seq<char>, output: Option<TypeV> },
    Other,
}

impl View for TraitItemModel {
    type V = TraitItemV;

    open spec fn view(&self) -> TraitItemV {
        match self {
            TraitItemModel::Fn { ident, output } => TraitItemV::Fn {
                ident: ident@,
                output: match output {
                    Some(t) => Some(t@),
                    None => None,
                },
            },
            TraitItemModel::Other => TraitItemV::Other,
        }
    }
}

/// The views of a list of trait items.
pub open spec fn items_view(s: Seq<TraitItemModel>) -> Seq<TraitItemV> {
    s.map_values(|i: TraitItemModel| i@)
}

/// The views of a list of generic parameters.
pub open spec fn params_view(s: Seq<GenericParamModel>) -> Seq<GenericParamV> {
    s.map_values(|p: GenericParamModel| p@)
}

/// The binding named `name` in a table of bindings with distinct names.
pub open spec fn table_lookup(table: Seq<BindingV>, name: Seq<char>) -> Option<BindingV>
    decreases table.len(),
{
    if table.len() == 0 {
        None
    } else if table[0].identifier == name {
        Some(table[0])
    } else {
        table_lookup(table.drop_first(), name)
    }
}

/// Finds the binding named `name` (see [`table_lookup`]).
pub fn find_binding<'a>(table: &'a Vec<Binding>, name: &String) -> (r: Option<&'a Binding>)
    ensures
        match r {
            Some(b) => table_lookup(bindings_view(table@), name@) == Some(b@),
            None => table_lookup(bindings_view(table@), name@) is None,
        },
{
    let ghost s = bindings_view(table@);
    proof {
        assert(s.skip(0) =~= s);
    }
    let mut i: usize = 0;
    while i < table.len()
        invariant
            i <= table@.len(),
            s == bindings_view(table@),
            table_lookup(s, name@) == table_lookup(s.skip(i as int), name@),
        decreases table@.len() - i,
    {
        proof {
            assert(s.skip(i as int)[0] == table@[i as int]@);
            assert(s.skip(i as int).drop_first() =~= s.skip(i + 1));
        }
        if table[i].identifier == *name {
            return Some(&table[i]);
        }
        i = i + 1;
    }
    proof {
        assert(s.skip(i as int).len() == 0);
    }
    None
}

/// The type pairs of the first `k` trait items, collected over the `fn`s in
/// order: each `fn` must have a written return type and a binding of its
/// name, and its type is matched against that binding.
pub open spec fn fn_type_pairs(items: Seq<TraitItemV>, table: Seq<BindingV>, k: nat) -> Result<
    Seq<(TypeV, TypeV)>,
    ComponentErrorV,
>
    decreases k,
{
    if k == 0 {
        Ok(Seq::empty())
    } else {
        match fn_type_pairs(items, table, (k - 1) as nat) {
            Err(e) => Err(e),
            Ok(acc) => match items[k - 1] {
                TraitItemV::Other => Ok(acc),
                TraitItemV::Fn { ident, output } => match output {
                    None => Err(ComponentErrorV::Unexpected(Expected::ReturnTypeGiven)),
                    Some(t) => match table_lookup(table, ident) {
                        None => Err(ComponentErrorV::NotFound(ident)),
                        Some(b) => match compare_types_spec(b.kind, t) {
                            Err(e) => Err(e),
                            Ok(pairs) => Ok(acc + pairs),
                        },
                    },
                },
            },
        }
    }
}

/// The type that is a single identifier `name`, as a generic parameter is
/// written when used.
pub open spec fn ident_type(name: Seq<char>) -> TypeV {
    TypeV::Path { qself: false, path: PathV { leading_colon: false, segments: seq![plain_segment(name)] } }
}

/// The identifier a type consists of, if it is a path of one segment
/// without arguments and not anchored at the crate root.
pub open spec fn type_ident(t: TypeV) -> Option<Seq<char>> {
    match t {
        TypeV::Path { path, .. } => if !path.leading_colon && path.segments.len() == 1
            && path.segments[0].args is Empty {
            Some(path.segments[0].ident)
        } else {
            None
        },
        _ => None,
    }
}

/// The type paired last with the key `key`, as a map filled in order keeps it.
pub open spec fn pairs_lookup(pairs: Seq<(TypeV, TypeV)>, key: TypeV) -> Option<TypeV>
    decreases pairs.len(),
{
    if pairs.len() == 0 {
        None
    } else if pairs.last().0 == key {
        Some(pairs.last().1)
    } else {
        pairs_lookup(pairs.drop_last(), key)
    }
}

/// The type a generic parameter of the trait is bound to by the bindings:
/// only a type parameter can be bound, to the type paired with it, unless
/// that type is the parameter itself.
pub open spec fn bound_type(param: GenericParamV, pairs: Seq<(TypeV, TypeV)>) -> Option<TypeV> {
    match param {
        GenericParamV::Type(name) => match pairs_lookup(pairs, ident_type(name)) {
            Some(v) => if type_ident(v) == Some(name) {
                None
            } else {
                Some(v)
            },
            None => None,
        },
        _ => None,
    }
}

/// The generic parameters of the trait, each with the type it is bound to,
/// or why the mapping cannot be made.
pub open spec fn generics_mapping_spec(
    params: Seq<GenericParamV>,
    items: Seq<TraitItemV>,
    table: Seq<BindingV>,
) -> Result<Seq<Option<TypeV>>, ComponentErrorV> {
    match fn_type_pairs(items, table, items.len()) {
        Err(e) => Err(e),
        Ok(pairs) => Ok(params.map_values(|p: GenericParamV| bound_type(p, pairs))),
    }
}

/// The views of a list of optional types.
pub open spec fn opt_types_view(s: Seq<Option<TypeModel>>) -> Seq<Option<TypeV>> {
    s.map_values(
        |o: Option<TypeModel>|
            match o {
                Some(t) => Some(t@),
                None => None,
            },
    )
}

/// Whether `t` is the type made of the single identifier `name`.
pub fn is_ident_type(t: &TypeModel, name: &String) -> (r: bool)
    ensures
        r == (t@ == ident_type(name@)),
{
    match t {
        TypeModel::Path { qself, path } => {
            proof {
                lemma_segments_view_index(path.segments@);
                assert(t@ == TypeV::Path { qself: *qself, path: path@ });
                assert(path@.segments == segments_view(path.segments@));
            }
            if *qself || path.leading_colon || path.segments.len() != 1 {
                return false;
            }
            let seg = &path.segments[0];
            proof {
                assert(path@.segments[0] == segment_view(*seg));
            }
            match &seg.args {
                PathArgs::Empty => {
                    if seg.ident == *name {
                        proof {
                            assert(path@.segments =~= seq![plain_segment(name@)]);
                        }
                        true
                    } else {
                        proof {
                            assert(path@.segments[0].ident != plain_segment(name@).ident);
                        }
                        false
                    }
                },
                _ => false,
            }
        },
        _ => false,
    }
}

/// The identifier a type consists of (see [`type_ident`]).
pub fn get_type_ident(t: &TypeModel) -> (r: Option<&String>)
    ensures
        match r {
            Some(s) => type_ident(t@) == Some(s@),
            None => type_ident(t@) is None,
        },
{
    match t {
        TypeModel::Path { qself, path } => {
            proof {
                lemma_segments_view_index(path.segments@);
                assert(t@ == TypeV::Path { qself: *qself, path: path@ });
                assert(path@.segments == segments_view(path.segments@));
            }
            if !path.leading_colon && path.segments.len() == 1 {
                proof {
                    assert(path@.segments[0] == segment_view(path.segments@[0]));
                }
                match &path.segments[0].args {
                    PathArgs::Empty => Some(&path.segments[0].ident),
                    _ => None,
                }
            } else {
                None
            }
        },
        _ => None,
    }
}

/// Once collecting the type pairs has failed, it fails in the same way for
/// every longer prefix of the items.
pub proof fn lemma_fn_pairs_err_persists(items: Seq<TraitItemV>, table: Seq<BindingV>, i: nat, n: nat)
    requires
        i <= n,
        fn_type_pairs(items, table, i) is Err,
    ensures
        fn_type_pairs(items, table, n) == fn_type_pairs(items, table, i),
    decreases n - i,
{
    if i < n {
        lemma_fn_pairs_err_persists(items, table, i, (n - 1) as nat);
    }
}

/// Collects the type pairs of the trait's binding `fn`s (see
/// [`fn_type_pairs`]); `table` holds the bindings by name.
pub fn collect_type_pairs(items: &Vec<TraitItemModel>, table: &Vec<Binding>) -> (r: Result<
    Vec<(TypeModel, TypeModel)>,
    ComponentError,
>)
    ensures
        match r {
            Ok(v) => fn_type_pairs(items_view(items@), bindings_view(table@), items@.len()) == Ok::<
                _,
                ComponentErrorV,
            >(type_pairs_view(v@)),
            Err(e) => fn_type_pairs(items_view(items@), bindings_view(table@), items@.len()) == Err::<
                Seq<(TypeV, TypeV)>,
                _,
            >(e@),
        },
{
    let ghost iv = items_view(items@);
    let ghost tv = bindings_view(table@);
    let n = items.len();
    let mut pairs: Vec<(TypeModel, TypeModel)> = Vec::new();
    let mut i: usize = 0;
    proof {
        assert(type_pairs_view(pairs@) =~= Seq::<(TypeV, TypeV)>::empty());
    }
    while i < n
        invariant
            n == items@.len(),
            iv == items_view(items@),
            tv == bindings_view(table@),
            i <= n,
            fn_type_pairs(iv, tv, i as nat) == Ok::<_, ComponentErrorV>(type_pairs_view(pairs@)),
        decreases n - i,
    {
        proof {
            assert(iv[i as int] == items@[i as int]@);
        }
        match &items[i] {
            TraitItemModel::Other => {},
            TraitItemModel::Fn { ident, output } => {
                match output {
                    None => {
                        let e = ComponentError::Unexpected(Expected::ReturnTypeGiven);
                        proof {
                            lemma_fn_pairs_err_persists(iv, tv, (i + 1) as nat, n as nat);
                        }
                        return Err(e);
                    },
                    Some(t) => {
                        match find_binding(table, ident) {
                            None => {
                                proof {
                                    lemma_fn_pairs_err_persists(iv, tv, (i + 1) as nat, n as nat);
                                }
                                return Err(ComponentError::NotFound(ident.clone()));
                            },
                            Some(b) => {
                                match b.kind.compare_types(t) {
                                    Err(e) => {
                                        proof {
                                            lemma_fn_pairs_err_persists(iv, tv, (i + 1) as nat, n as nat);
                                        }
                                        return Err(e);
                                    },
                                    Ok(mut found) => {
                                        let ghost before = pairs@;
                                        let ghost fv = found@;
                                        pairs.append(&mut found);
                                        proof {
                                            assert(type_pairs_view(pairs@) =~= type_pairs_view(before)
                                                + type_pairs_view(fv));
                                        }
                                    },
                                }
                            },
                        }
                    },
                }
            },
        }
        i = i + 1;
    }
    Ok(pairs)
}

/// The type paired last with the type that is the identifier `name` (see
/// [`pairs_lookup`]).
pub fn lookup_ident_pair<'a>(pairs: &'a Vec<(TypeModel, TypeModel)>, name: &String) -> (r: Option<&'a TypeModel>)
    ensures
        match r {
            Some(t) => pairs_lookup(type_pairs_view(pairs@), ident_type(name@)) == Some(t@),
            None => pairs_lookup(type_pairs_view(pairs@), ident_type(name@)) is None,
        },
{
    let ghost pv = type_pairs_view(pairs@);
    let ghost key = ident_type(name@);
    let mut j: usize = pairs.len();
    proof {
        assert(pv.take(j as int) =~= pv);
    }
    while j > 0
        invariant
            j <= pairs@.len(),
            pv == type_pairs_view(pairs@),
            key == ident_type(name@),
            pairs_lookup(pv, key) == pairs_lookup(pv.take(j as int), key),
        decreases j,
    {
        proof {
            assert(pv.take(j as int).last() == (pairs@[j - 1].0@, pairs@[j - 1].1@));
            assert(pv.take(j as int).drop_last() =~= pv.take(j - 1));
        }
        if is_ident_type(&pairs[j - 1].0, name) {
            return Some(&pairs[j - 1].1);
        }
        j = j - 1;
    }
    None
}

/// The type a generic parameter is bound to (see [`bound_type`]).
pub fn bound_type_of(param: &GenericParamModel, pairs: &Vec<(TypeModel, TypeModel)>) -> (r: Option<TypeModel>)
    ensures
        opt_types_view(seq![r]) == seq![bound_type(param@, type_pairs_view(pairs@))],
{
    let r = match param {
        GenericParamModel::Type(name) => match lookup_ident_pair(pairs, name) {
            Some(v) => match get_type_ident(v) {
                Some(i) => if *i == *name {
                    None
                } else {
                    Some(clone_type(v))
                },
                None => Some(clone_type(v)),
            },
            None => None,
        },
        _ => None,
    };
    proof {
        assert(opt_types_view(seq![r]) =~= seq![bound_type(param@, type_pairs_view(pairs@))]);
    }
    r
}

/// The generic parameters of the trait, each with the type the bindings fix
/// it to (see [`generics_mapping_spec`]); `table` holds the bindings by name.
pub fn generics_mapping(params: &Vec<GenericParamModel>, items: &Vec<TraitItemModel>, table: &Vec<Binding>) -> (r:
    Result<Vec<Option<TypeModel>>, ComponentError>)
    ensures
        match r {
            Ok(v) => generics_mapping_spec(params_view(params@), items_view(items@), bindings_view(table@)) == Ok::<
                _,
                ComponentErrorV,
            >(opt_types_view(v@)),
            Err(e) => generics_mapping_spec(params_view(params@), items_view(items@), bindings_view(table@))
                == Err::<Seq<Option<TypeV>>, _>(e@),
        },
{
    let pairs = collect_type_pairs(items, table)?;
    let ghost pv = type_pairs_view(pairs@);
    let ghost expected = params_view(params@).map_values(|p: GenericParamV| bound_type(p, pv));
    let mut r: Vec<Option<TypeModel>> = Vec::new();
    let mut i: usize = 0;
    proof {
        assert(opt_types_view(r@) =~= expected.take(0));
    }
    while i < params.len()
        invariant
            i <= params@.len(),
            pv == type_pairs_view(pairs@),
            expected == params_view(params@).map_values(|p: GenericParamV| bound_type(p, pv)),
            r@.len() == i,
            expected.len() == params@.len(),
            opt_types_view(r@) =~= expected.take(i as int),
        decreases params@.len() - i,
    {
        let b = bound_type_of(&params[i], &pairs);
        let ghost before = r@;
        r.push(b);
        proof {
            assert(opt_types_view(seq![b])[0] == expected[i as int]);
            assert(r@ == before.push(b));
            assert(opt_types_view(r@)[i as int] == opt_types_view(seq![b])[0]);
            assert forall|k: int| 0 <= k < i implies opt_types_view(r@)[k] == opt_types_view(before)[k] by {
                assert(r@[k] == before[k]);
            }
            assert(opt_types_view(r@) =~= expected.take(i + 1));
        }
        i = i + 1;
    }
    proof {
        assert(expected.take(i as int) =~= expected);
    }
    Ok(r)
}

// ---------------------------------------------------------------------------
// The binding `fn`s of the implementation
// ---------------------------------------------------------------------------

/// A `fn` of the component's implementation: it has the name of a binding,
/// returns the binding's wrapped type and calls `get` on the provider in the
/// field `provider`.
pub struct BindingFn {
    pub ident: String,
    pub output: TypeModel,
    pub provider: String,
}

/// The view of a [`BindingFn`].
pub struct BindingFnV {
    pub ident: Seq<char>,
    pub output: TypeV,
    pub provider: Seq<char>,
}

impl View for BindingFn {
    type V = BindingFnV;

    open spec fn view(&self) -> BindingFnV {
        BindingFnV { ident: self.ident@, output: self.output@, provider: self.provider@ }
    }
}

/// The views of a list of binding `fn`s.
pub open spec fn binding_fns_view(s: Seq<BindingFn>) -> Seq<BindingFnV> {
    s.map_values(|f: BindingFn| f@)
}

/// The implementation of the trait's `fn` named `ident` with the return type
/// `output`, or why it cannot be made: the binding must exist and have a
/// wrapped type, the `fn` must have a return type, both types must be paths
/// with at least one segment, and their last segments must have the same
/// name (their arguments are not compared).
pub open spec fn binding_fn_spec(ident: Seq<char>, output: Option<TypeV>, table: Seq<BindingV>) -> Result<
    BindingFnV,
    ComponentErrorV,
> {
    match table_lookup(table, ident) {
        None => Err(ComponentErrorV::NotFound(ident)),
        Some(b) => match binding_wrapped_ty(b.kind) {
            Err(e) => Err(e),
            Ok(w) => match output {
                None => Err(ComponentErrorV::Unexpected(Expected::ReturnTypeGiven)),
                Some(t) => if !(t is Path) || !(w is Path) {
                    Err(ComponentErrorV::Unexpected(Expected::PathType))
                } else if t->path.segments.len() == 0 || w->path.segments.len() == 0 {
                    Err(ComponentErrorV::EmptyPath)
                } else if t->path.segments.last().ident != w->path.segments.last().ident {
                    Err(ComponentErrorV::TypeMismatch(w, t))
                } else {
                    Ok(BindingFnV { ident, output: w, provider: provider_name(ident) })
                },
            },
        },
    }
}

/// The implementations of the first `k` items of the trait, which are all
/// `fn`s; processing stops at the first error.
pub open spec fn binding_fns_prefix(items: Seq<TraitItemV>, table: Seq<BindingV>, k: nat) -> Result<
    Seq<BindingFnV>,
    ComponentErrorV,
>
    decreases k,
{
    if k == 0 {
        Ok(Seq::empty())
    } else {
        match binding_fns_prefix(items, table, (k - 1) as nat) {
            Err(e) => Err(e),
            Ok(acc) => match items[k - 1] {
                TraitItemV::Fn { ident, output } => match binding_fn_spec(ident, output, table) {
                    Err(e) => Err(e),
                    Ok(f) => Ok(acc.push(f)),
                },
                TraitItemV::Other => Err(ComponentErrorV::Unexpected(Expected::FnItem)),
            },
        }
    }
}

/// The implementations of the trait's `fn`s: every item of the trait must be
/// a `fn` (checked before any `fn` is looked at); then each `fn` in order
/// (see [`binding_fn_spec`]).
pub open spec fn binding_fns_spec(items: Seq<TraitItemV>, table: Seq<BindingV>) -> Result<
    Seq<BindingFnV>,
    ComponentErrorV,
> {
    if exists|i: int| 0 <= i < items.len() && items[i] is Other {
        Err(ComponentErrorV::Unexpected(Expected::FnItem))
    } else {
        binding_fns_prefix(items, table, items.len())
    }
}

/// Once making the implementations has failed, it fails in the same way for
/// every longer prefix of the items.
pub proof fn lemma_binding_fns_err_persists(items: Seq<TraitItemV>, table: Seq<BindingV>, i: nat, n: nat)
    requires
        i <= n,
        binding_fns_prefix(items, table, i) is Err,
    ensures
        binding_fns_prefix(items, table, n) == binding_fns_prefix(items, table, i),
    decreases n - i,
{
    if i < n {
        lemma_binding_fns_err_persists(items, table, i, (n - 1) as nat);
    }
}

/// The name of the last segment of a path.
fn last_segment_ident(p: &PathModel) -> (r: Option<&String>)
    ensures
        match r {
            Some(s) => p@.segments.len() > 0 && s@ == p@.segments.last().ident,
            None => p@.segments.len() == 0,
        },
{
    proof {
        lemma_segments_view_index(p.segments@);
    }
    let n = p.segments.len();
    if n == 0 {
        None
    } else {
        proof {
            assert(p@.segments.last() == segment_view(p.segments@[n - 1]));
        }
        Some(&p.segments[n - 1].ident)
    }
}

/// The implementation of one binding `fn` (see [`binding_fn_spec`]).
pub fn binding_fn(ident: &String, output: &Option<TypeModel>, table: &Vec<Binding>) -> (r: Result<
    BindingFn,
    ComponentError,
>)
    ensures
        agrees(r, binding_fn_spec(ident@, opt_types_view(seq![*output])[0], bindings_view(table@))),
{
    let ghost ov = opt_types_view(seq![*output])[0];
    proof {
        assert(ov == match *output {
            Some(t) => Some(t@),
            None => None::<TypeV>,
        });
    }
    let b = match find_binding(table, ident) {
        Some(b) => b,
        None => return Err(ComponentError::NotFound(ident.clone())),
    };
    let w = b.kind.wrapped_ty()?;
    let t = match output {
        Some(t) => t,
        None => return Err(ComponentError::Unexpected(Expected::ReturnTypeGiven)),
    };
    let tp = match t {
        TypeModel::Path { path, .. } => path,
        _ => return Err(ComponentError::Unexpected(Expected::PathType)),
    };
    let wp = match &w {
        TypeModel::Path { path, .. } => path,
        _ => return Err(ComponentError::Unexpected(Expected::PathType)),
    };
    let tl = match last_segment_ident(tp) {
        Some(x) => x,
        None => return Err(ComponentError::EmptyPath),
    };
    let wl = match last_segment_ident(wp) {
        Some(x) => x,
        None => return Err(ComponentError::EmptyPath),
    };
    if *tl != *wl {
        return Err(ComponentError::TypeMismatch(clone_type(&w), clone_type(t)));
    }
    let provider = get_provider_name(ident);
    Ok(BindingFn { ident: ident.clone(), output: w, provider })
}

/// The implementations of the trait's binding `fn`s (see
/// [`binding_fns_spec`]); `table` holds the bindings by name.
pub fn binding_fns(items: &Vec<TraitItemModel>, table: &Vec<Binding>) -> (r: Result<Vec<BindingFn>, ComponentError>)
    ensures
        match r {
            Ok(v) => binding_fns_spec(items_view(items@), bindings_view(table@)) == Ok::<_, ComponentErrorV>(
                binding_fns_view(v@),
            ),
            Err(e) => binding_fns_spec(items_view(items@), bindings_view(table@)) == Err::<Seq<BindingFnV>, _>(
                e@,
            ),
        },
{
    let ghost iv = items_view(items@);
    let ghost tv = bindings_view(table@);
    let n = items.len();
    let mut i: usize = 0;
    while i < n
        invariant
            n == items@.len(),
            iv == items_view(items@),
            i <= n,
            forall|j: int| 0 <= j < i ==> !(#[trigger] iv[j] is Other),
        decreases n - i,
    {
        proof {
            assert(iv[i as int] == items@[i as int]@);
        }
        if matches!(items[i], TraitItemModel::Other) {
            return Err(ComponentError::Unexpected(Expected::FnItem));
        }
        i = i + 1;
    }
    let mut r: Vec<BindingFn> = Vec::new();
    let mut i: usize = 0;
    proof {
        assert(binding_fns_view(r@) =~= Seq::<BindingFnV>::empty());
    }
    while i < n
        invariant
            n == items@.len(),
            iv == items_view(items@),
            tv == bindings_view(table@),
            i <= n,
            forall|j: int| 0 <= j < n ==> !(#[trigger] iv[j] is Other),
            binding_fns_prefix(iv, tv, i as nat) == Ok::<_, ComponentErrorV>(binding_fns_view(r@)),
        decreases n - i,
    {
        proof {
            assert(iv[i as int] == items@[i as int]@);
            assert(!(iv[i as int] is Other));
        }
        match &items[i] {
            TraitItemModel::Fn { ident, output } => {
                proof {
                    assert(opt_types_view(seq![*output])[0] == iv[i as int]->output);
                }
                match binding_fn(ident, output, table) {
                    Err(e) => {
                        proof {
                            lemma_binding_fns_err_persists(iv, tv, (i + 1) as nat, n as nat);
                        }
                        return Err(e);
                    },
                    Ok(f) => {
                        let ghost before = binding_fns_view(r@);
                        r.push(f);
                        proof {
                            assert(binding_fns_view(r@) =~= before.push(f@));
                        }
                    },
                }
            },
            TraitItemModel::Other => {},
        }
        i = i + 1;
    }
    Ok(r)
}

// ---------------------------------------------------------------------------
// Generic arguments of the implementation
// ---------------------------------------------------------------------------

/// The type `ident<args>`: one segment, not anchored at the crate root.
pub open spec fn single_segment_type(ident: Seq<char>, args: PathArgsV) -> TypeV {
    TypeV::Path { qself: false, path: PathV { leading_colon: false, segments: seq![SegmentV { ident, args }] } }
}

/// Builds the type `ident<args>` (see [`single_segment_type`]).
pub fn make_single_segment_type(ident: String, args: PathArgs) -> (r: TypeModel)
    ensures
        r@ == single_segment_type(ident@, path_args_view(args)),
{
    let ghost iv = ident@;
    let ghost av = path_args_view(args);
    let mut segments: Vec<Segment> = Vec::new();
    segments.push(Segment { ident, args });
    proof {
        lemma_segments_view_index(segments@);
        assert(segments_view(segments@) =~= seq![SegmentV { ident: iv, args: av }]);
    }
    let path = PathModel { leading_colon: false, segments };
    let r = TypeModel::Path { qself: false, path };
    proof {
        assert(r@ == TypeV::Path { qself: false, path: path@ });
    }
    r
}

/// Builds the type that is the identifier `name` (see [`ident_type`]).
pub fn make_ident_type(name: &String) -> (r: TypeModel)
    ensures
        r@ == ident_type(name@),
{
    make_single_segment_type(name.clone(), PathArgs::Empty)
}

/// The generic argument that passes a parameter on as itself: a lifetime
/// as the lifetime, a type parameter as the type of its name.
pub open spec fn param_argument(p: GenericParamV) -> GenericArgV {
    match p {
        GenericParamV::Lifetime(l) => GenericArgV::Lifetime(l),
        GenericParamV::Type(n) => GenericArgV::Type(ident_type(n)),
        GenericParamV::Const(_) => GenericArgV::Const,
    }
}

/// The parameters of the trait that no binding fixes, by position.
pub open spec fn unbound_positions(mapping: Seq<Option<TypeV>>, n: nat) -> Seq<int>
    decreases n,
{
    if n == 0 {
        Seq::empty()
    } else if mapping[n - 1] is None {
        unbound_positions(mapping, (n - 1) as nat).push(n - 1)
    } else {
        unbound_positions(mapping, (n - 1) as nat)
    }
}

/// The arguments of the trait in the implementation: the type a parameter is
/// fixed to, or the parameter passed on.
pub open spec fn trait_arguments_spec(params: Seq<GenericParamV>, mapping: Seq<Option<TypeV>>) -> Seq<GenericArgV> {
    Seq::new(
        params.len(),
        |i: int|
            match mapping[i] {
                Some(t) => GenericArgV::Type(t),
                None => param_argument(params[i]),
            },
    )
}

/// A parameter that no binding fixes is among the unbound positions.
proof fn lemma_unbound_positions_complete(mapping: Seq<Option<TypeV>>, n: nat, i: int)
    requires
        n <= mapping.len(),
        0 <= i < n,
        mapping[i] is None,
    ensures
        unbound_positions(mapping, n).contains(i),
    decreases n,
{
    let prev = unbound_positions(mapping, (n - 1) as nat);
    if i == n - 1 {
        assert(unbound_positions(mapping, n)[prev.len() as int] == i);
    } else {
        lemma_unbound_positions_complete(mapping, (n - 1) as nat, i);
        let q = choose|q: int| 0 <= q < prev.len() && prev[q] == i;
        if mapping[n - 1] is None {
            assert(unbound_positions(mapping, n)[q] == i);
        }
    }
}

/// The implemented trait's arguments fix what the bindings fix: where the
/// trait's bindings map its parameters (see [`generics_mapping_spec`]), the
/// argument for a parameter that a binding fixes is the type it is fixed
/// to, which is not the parameter itself, so the parameter is not passed
/// on; the argument for a parameter that no binding fixes is the parameter
/// itself, which the implementation declares among its own parameters.
pub proof fn lemma_trait_arguments_fix_bound(
    params: Seq<GenericParamV>,
    items: Seq<TraitItemV>,
    table: Seq<BindingV>,
    mapping: Seq<Option<TypeV>>,
)
    requires
        generics_mapping_spec(params, items, table) == Ok::<_, ComponentErrorV>(mapping),
    ensures
        mapping.len() == params.len(),
        trait_arguments_spec(params, mapping).len() == params.len(),
        forall|i: int|
            0 <= i < params.len() && (#[trigger] mapping[i]) is Some ==> trait_arguments_spec(params, mapping)[i]
                == GenericArgV::Type(mapping[i]->Some_0) && trait_arguments_spec(params, mapping)[i] != param_argument(
                params[i],
            ) && !unbound_positions(mapping, mapping.len()).contains(i),
        forall|i: int|
            0 <= i < params.len() && (#[trigger] mapping[i]) is None ==> trait_arguments_spec(params, mapping)[i]
                == param_argument(params[i]) && unbound_positions(mapping, mapping.len()).contains(i),
{
    let pairs = fn_type_pairs(items, table, items.len())->Ok_0;
    assert(mapping == params.map_values(|p: GenericParamV| bound_type(p, pairs)));
    lemma_unbound_positions_members(mapping, mapping.len());
    assert forall|i: int| 0 <= i < params.len() && (#[trigger] mapping[i]) is Some implies trait_arguments_spec(params, mapping)[i]
        == GenericArgV::Type(mapping[i]->Some_0) && trait_arguments_spec(params, mapping)[i] != param_argument(params[i])
        && !unbound_positions(mapping, mapping.len()).contains(i) by {
        assert(mapping[i] == bound_type(params[i], pairs));
        match params[i] {
            GenericParamV::Type(name) => {
                let v = mapping[i]->Some_0;
                assert(type_ident(v) != Some(name));
                assert(type_ident(ident_type(name)) == Some(name)) by {
                    assert(ident_type(name)->path.segments[0] == plain_segment(name));
                }
            },
            _ => {},
        }
    }
    assert forall|i: int| 0 <= i < params.len() && (#[trigger] mapping[i]) is None implies trait_arguments_spec(params, mapping)[i]
        == param_argument(params[i]) && unbound_positions(mapping, mapping.len()).contains(i) by {
        lemma_unbound_positions_complete(mapping, mapping.len(), i);
    }
}

/// Every unbound position is a position of a parameter that no binding
/// fixes.
proof fn lemma_unbound_positions_members(mapping: Seq<Option<TypeV>>, n: nat)
    requires
        n <= mapping.len(),
    ensures
        forall|q: int| 0 <= q < unbound_positions(mapping, n).len() ==> 0 <= #[trigger] unbound_positions(mapping, n)[q] < n
            && mapping[unbound_positions(mapping, n)[q]] is None,
    decreases n,
{
    if n > 0 {
        lemma_unbound_positions_members(mapping, (n - 1) as nat);
        let prev = unbound_positions(mapping, (n - 1) as nat);
        let cur = unbound_positions(mapping, n);
        assert forall|q: int| 0 <= q < cur.len() implies 0 <= #[trigger] cur[q] < n && mapping[cur[q]] is None by {
            if q < prev.len() {
                assert(cur[q] == prev[q]);
            }
        }
    }
}

/// The parameters that no binding fixes, passed on as arguments; nothing
/// where there are none.
pub open spec fn unbound_arguments_spec(params: Seq<GenericParamV>, mapping: Seq<Option<TypeV>>) -> PathArgsV {
    let pos = unbound_positions(mapping, mapping.len());
    if pos.len() == 0 {
        PathArgsV::Empty
    } else {
        PathArgsV::AngleBracketed(Seq::new(pos.len(), |i: int| param_argument(params[pos[i]])))
    }
}

/// The position of the last parameter that no binding fixes and that is the
/// type parameter `name`.
pub open spec fn unbound_type_param_spec(params: Seq<GenericParamV>, mapping: Seq<Option<TypeV>>, name: Seq<char>, n: nat) -> Option<int>
    decreases n,
{
    if n == 0 {
        None
    } else if mapping[n - 1] is None && params[n - 1] == GenericParamV::Type(name) {
        Some(n - 1)
    } else {
        unbound_type_param_spec(params, mapping, name, (n - 1) as nat)
    }
}

/// No parameter is a `const` parameter, which passing parameters on does
/// not handle.
pub open spec fn no_const_params(params: Seq<GenericParamV>) -> bool {
    forall|i: int| 0 <= i < params.len() ==> !(#[trigger] params[i] is Const)
}

/// Passes a parameter on as an argument (see [`param_argument`]); a `const`
/// parameter becomes a `const` argument that names it.
pub fn param_to_argument(p: &GenericParamModel) -> (r: GenericArg)
    ensures
        generic_arg_view(r) == param_argument(p@),
{
    match p {
        GenericParamModel::Lifetime(l) => GenericArg::Lifetime(l.clone()),
        GenericParamModel::Type(n) => GenericArg::Type(make_ident_type(n)),
        GenericParamModel::Const(_) => GenericArg::Const,
    }
}

/// The positions of the parameters that no binding fixes.
pub fn unbound_indices(mapping: &Vec<Option<TypeModel>>) -> (r: Vec<usize>)
    ensures
        r@.map_values(|i: usize| i as int) == unbound_positions(opt_types_view(mapping@), mapping@.len()),
        forall|k: int| 0 <= k < r@.len() ==> r@[k] < mapping@.len(),
{
    let ghost mv = opt_types_view(mapping@);
    let mut r: Vec<usize> = Vec::new();
    let mut i: usize = 0;
    proof {
        assert(r@.map_values(|i: usize| i as int) =~= unbound_positions(mv, 0));
    }
    while i < mapping.len()
        invariant
            i <= mapping@.len(),
            mv == opt_types_view(mapping@),
            r@.map_values(|i: usize| i as int) == unbound_positions(mv, i as nat),
            forall|k: int| 0 <= k < r@.len() ==> r@[k] < i,
        decreases mapping@.len() - i,
    {
        proof {
            assert(mv[i as int] is None <==> mapping@[i as int] is None);
        }
        if mapping[i].is_none() {
            let ghost before = r@;
            r.push(i);
            proof {
                assert(r@.map_values(|i: usize| i as int) =~= before.map_values(|i: usize| i as int).push(i as int));
            }
        }
        i = i + 1;
    }
    r
}

/// The arguments of the trait in the implementation (see
/// [`trait_arguments_spec`]).
pub fn trait_arguments(params: &Vec<GenericParamModel>, mapping: &Vec<Option<TypeModel>>) -> (r: Vec<GenericArg>)
    requires
        mapping@.len() == params@.len(),
        no_const_params(params_view(params@)),
    ensures
        generic_args_view(r@) == trait_arguments_spec(params_view(params@), opt_types_view(mapping@)),
{
    let ghost pv = params_view(params@);
    let ghost mv = opt_types_view(mapping@);
    let ghost expected = trait_arguments_spec(pv, mv);
    let mut r: Vec<GenericArg> = Vec::new();
    let mut i: usize = 0;
    while i < params.len()
        invariant
            i <= params@.len(),
            mapping@.len() == params@.len(),
            pv == params_view(params@),
            mv == opt_types_view(mapping@),
            expected == trait_arguments_spec(pv, mv),
            no_const_params(pv),
            r@.len() == i,
            forall|k: int| 0 <= k < i ==> #[trigger] generic_arg_view(r@[k]) == expected[k],
        decreases params@.len() - i,
    {
        proof {
            assert(pv[i as int] == params@[i as int]@);
            assert(!(pv[i as int] is Const));
        }
        let a = match &mapping[i] {
            Some(t) => GenericArg::Type(clone_type(t)),
            None => param_to_argument(&params[i]),
        };
        r.push(a);
        i = i + 1;
    }
    proof {
        lemma_generic_args_view_index(r@);
        assert(generic_args_view(r@) =~= expected);
    }
    r
}

/// The parameters that no binding fixes, passed on as arguments (see
/// [`unbound_arguments_spec`]).
pub fn unbound_arguments(params: &Vec<GenericParamModel>, mapping: &Vec<Option<TypeModel>>) -> (r: PathArgs)
    requires
        mapping@.len() == params@.len(),
        no_const_params(params_view(params@)),
    ensures
        path_args_view(r) == unbound_arguments_spec(params_view(params@), opt_types_view(mapping@)),
{
    let ghost pv = params_view(params@);
    let ghost mv = opt_types_view(mapping@);
    let pos = unbound_indices(mapping);
    let ghost posv = pos@.map_values(|i: usize| i as int);
    if pos.len() == 0 {
        return PathArgs::Empty;
    }
    let mut args: Vec<GenericArg> = Vec::new();
    let mut k: usize = 0;
    while k < pos.len()
        invariant
            k <= pos@.len(),
            mapping@.len() == params@.len(),
            pv == params_view(params@),
            no_const_params(pv),
            posv == pos@.map_values(|i: usize| i as int),
            forall|q: int| 0 <= q < pos@.len() ==> pos@[q] < mapping@.len(),
            args@.len() == k,
            forall|q: int| 0 <= q < k ==> #[trigger] generic_arg_view(args@[q]) == param_argument(pv[posv[q]]),
        decreases pos@.len() - k,
    {
        let j = pos[k];
        proof {
            assert(pv[j as int] == params@[j as int]@);
            assert(!(pv[j as int] is Const));
        }
        args.push(param_to_argument(&params[j]));
        k = k + 1;
    }
    proof {
        lemma_generic_args_view_index(args@);
        assert(generic_args_view(args@) =~= Seq::new(posv.len(), |i: int| param_argument(pv[posv[i]])));
    }
    PathArgs::AngleBracketed(args)
}

/// The position of the last unbound type parameter named `name` (see
/// [`unbound_type_param_spec`]).
pub fn unbound_type_param(params: &Vec<GenericParamModel>, mapping: &Vec<Option<TypeModel>>, name: &String) -> (r: Option<usize>)
    requires
        mapping@.len() == params@.len(),
    ensures
        match r {
            Some(i) => unbound_type_param_spec(params_view(params@), opt_types_view(mapping@), name@, params@.len()) == Some(i as int),
            None => unbound_type_param_spec(params_view(params@), opt_types_view(mapping@), name@, params@.len()) is None,
        },
{
    let ghost pv = params_view(params@);
    let ghost mv = opt_types_view(mapping@);
    let mut j: usize = params.len();
    while j > 0
        invariant
            j <= params@.len(),
            mapping@.len() == params@.len(),
            pv == params_view(params@),
            mv == opt_types_view(mapping@),
            unbound_type_param_spec(pv, mv, name@, params@.len()) == unbound_type_param_spec(pv, mv, name@, j as nat),
        decreases j,
    {
        proof {
            assert(pv[j - 1] == params@[j - 1]@);
            assert(mv[j - 1] is None <==> mapping@[j - 1] is None);
        }
        if mapping[j - 1].is_none() {
            if let GenericParamModel::Type(n) = &params[j - 1] {
                if *n == *name {
                    return Some(j - 1);
                }
            }
        }
        j = j - 1;
    }
    None
}

} // verus!
