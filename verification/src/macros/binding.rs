//! Bindings of a component: their kinds, their types and how the types of
//! binding `fn`s are matched against them.

use vstd::prelude::*;
use vstd::string::*;

use crate::macros::error::{agrees, ComponentError, ComponentErrorV, Expected};
use crate::macros::naming::{
    factory_prefix_scoped, factory_prefix_singleton, factory_prefix_static, get_provider_name, prefixed,
    provider_name, scoped_prefix, singleton_prefix, static_prefix,
};
use crate::macros::syntax::{
    clone_segment, clone_type, plain_path, plain_path_view, plain_segment, PathModel, Segment, lemma_generic_args_view_index, lemma_segments_view_index, strs_view, wrap_type,
    wrapped_type_view, GenericArg, GenericArgV, PathArgs, PathArgsV, PathV, TypeModel,
    TypeV,
};

verus! {

/// A binding whose instances come from a `#[provides]` factory.
#[derive(Clone, Copy, Debug, PartialEq, Eq, Structural)]
pub enum AutomaticKind {
    Singleton,
    Scoped,
    Static,
}

/// A binding whose instance the user hands to the component's builder.
#[derive(Clone, Copy, Debug, PartialEq, Eq, Structural)]
pub enum ManualKind {
    ClonedInstance,
    ScopedInstance,
}

/// The kind of a binding, with its type and, for provided bindings, the
/// names of the bindings it depends on.
pub enum BindingKind {
    Automatic { kind: AutomaticKind, ty: TypeModel, dependencies: Vec<String> },
    Manual { mode: ManualKind, ty: TypeModel },
}

/// A binding as declared in `#[component(...)]`: its name, kind and position.
pub struct Binding {
    pub identifier: String,
    pub kind: BindingKind,
    pub index: usize,
}

/// The view of a [`BindingKind`].
pub enum BindingKindV {
    Automatic { kind: AutomaticKind, ty: TypeV, dependencies: Seq<Seq<char>> },
    Manual { mode: ManualKind, ty: TypeV },
}

/// The view of a [`Binding`].
pub struct BindingV {
    pub identifier: Seq<char>,
    pub kind: BindingKindV,
    pub index: nat,
}

/// The views of a list of strings.
pub open spec fn strings_view(s: Seq<String>) -> Seq<Seq<char>> {
    s.map_values(|x: String| x@)
}

impl View for BindingKind {
    type V = BindingKindV;

    open spec fn view(&self) -> BindingKindV {
        match self {
            BindingKind::Automatic { kind, ty, dependencies } => BindingKindV::Automatic {
                kind: *kind,
                ty: ty@,
                dependencies: strings_view(dependencies@),
            },
            BindingKind::Manual { mode, ty } => BindingKindV::Manual { mode: *mode, ty: ty@ },
        }
    }
}

impl View for Binding {
    type V = BindingV;

    open spec fn view(&self) -> BindingV {
        BindingV { identifier: self.identifier@, kind: self.kind@, index: self.index as nat }
    }
}

// ---------------------------------------------------------------------------
// Specifications
// ---------------------------------------------------------------------------

/// `std::rc::Rc<std::cell::RefCell<t>>`.
pub open spec fn rc_refcell(t: TypeV) -> TypeV {
    wrapped_type_view(seq!["std"@, "rc"@, "Rc"@], wrapped_type_view(seq!["std"@, "cell"@, "RefCell"@], t))
}

/// `std::sync::Arc<std::sync::RwLock<t>>`.
pub open spec fn arc_rwlock(t: TypeV) -> TypeV {
    wrapped_type_view(seq!["std"@, "sync"@, "Arc"@], wrapped_type_view(seq!["std"@, "sync"@, "RwLock"@], t))
}

/// The type a binding is declared with, or why it is refused: a singleton
/// binding may not have dependencies, and no binding may be an `impl <trait>`.
pub open spec fn binding_ty(k: BindingKindV) -> Result<TypeV, ComponentErrorV> {
    match k {
        BindingKindV::Automatic { kind, ty, dependencies } => {
            if kind == AutomaticKind::Singleton && dependencies.len() > 0 {
                Err(ComponentErrorV::UnexpectedDependencies)
            } else if ty is ImplTrait {
                Err(ComponentErrorV::ImplTraitBinding)
            } else {
                Ok(ty)
            }
        },
        BindingKindV::Manual { ty, .. } => Ok(ty),
    }
}

/// The type a binding's instances have: singletons in `Arc<RwLock<_>>`,
/// scoped ones in `Rc<RefCell<_>>`, the others unwrapped.
pub open spec fn binding_wrapped_ty(k: BindingKindV) -> Result<TypeV, ComponentErrorV> {
    match k {
        BindingKindV::Automatic { kind, .. } => match binding_ty(k) {
            Ok(t) => Ok(
                match kind {
                    AutomaticKind::Singleton => arc_rwlock(t),
                    AutomaticKind::Scoped => rc_refcell(t),
                    AutomaticKind::Static => t,
                },
            ),
            Err(e) => Err(e),
        },
        BindingKindV::Manual { mode, ty } => Ok(
            match mode {
                ManualKind::ScopedInstance => rc_refcell(ty),
                ManualKind::ClonedInstance => ty,
            },
        ),
    }
}

/// Peels one wrapper named `expected` off `t`: `t` must be a path whose last
/// segment is `expected` with exactly one generic argument, a type.
pub open spec fn unwrap_once_spec(t: TypeV, expected: Seq<char>) -> Result<TypeV, ComponentErrorV> {
    match t {
        TypeV::Path { path, .. } => {
            if path.segments.len() == 0 {
                Err(ComponentErrorV::EmptyPath)
            } else if path.segments.last().ident != expected {
                Err(ComponentErrorV::InvalidType)
            } else {
                match path.segments.last().args {
                    PathArgsV::AngleBracketed(args) => {
                        if args.len() != 1 {
                            Err(ComponentErrorV::InvalidType)
                        } else {
                            match args[0] {
                                GenericArgV::Type(inner) => Ok(inner),
                                _ => Err(ComponentErrorV::Unexpected(Expected::TypeArgument)),
                            }
                        }
                    },
                    _ => Err(ComponentErrorV::InvalidType),
                }
            }
        },
        _ => Err(ComponentErrorV::InvalidType),
    }
}

/// Peels `outer` and then `inner` off `t`.
pub open spec fn unwrap_twice(t: TypeV, outer: Seq<char>, inner: Seq<char>) -> Result<TypeV, ComponentErrorV> {
    match unwrap_once_spec(t, outer) {
        Ok(u) => unwrap_once_spec(u, inner),
        Err(e) => Err(e),
    }
}

/// Removes from the type of a binding `fn` the wrapping that the binding's
/// kind adds; the type inside may not be an `impl <trait>`.
pub open spec fn binding_unwrap_ty(k: BindingKindV, other: TypeV) -> Result<TypeV, ComponentErrorV> {
    let peeled = match k {
        BindingKindV::Automatic { kind: AutomaticKind::Singleton, .. } => unwrap_twice(other, "Arc"@, "RwLock"@),
        BindingKindV::Automatic { kind: AutomaticKind::Scoped, .. } => unwrap_twice(other, "Rc"@, "RefCell"@),
        BindingKindV::Automatic { kind: AutomaticKind::Static, .. } => Ok(other),
        BindingKindV::Manual { mode: ManualKind::ScopedInstance, .. } => unwrap_twice(other, "Rc"@, "RefCell"@),
        BindingKindV::Manual { mode: ManualKind::ClonedInstance, .. } => Ok(other),
    };
    match peeled {
        Ok(t) => if t is ImplTrait {
            Err(ComponentErrorV::ImplTraitBinding)
        } else {
            Ok(t)
        },
        Err(e) => Err(e),
    }
}

/// Peeling a wrapper named `last` off the path type `names::...::last<t>`
/// gives back `t`.
proof fn lemma_unwrap_once_wrapped(names: Seq<Seq<char>>, t: TypeV)
    requires
        names.len() > 0,
    ensures
        unwrap_once_spec(wrapped_type_view(names, t), names.last()) == Ok::<_, ComponentErrorV>(t),
{
    let w = wrapped_type_view(names, t);
    let segs = w->path.segments;
    assert(segs.len() == names.len());
    assert(segs.last() == crate::macros::syntax::SegmentV { ident: names.last(), args: PathArgsV::AngleBracketed(seq![GenericArgV::Type(t)]) });
}

/// Pairing a list of generic arguments with itself pairs each type with
/// itself.
proof fn lemma_pair_type_args_same(a: Seq<GenericArgV>, n: nat)
    requires
        n <= a.len(),
    ensures
        pair_type_args(a, a, n) is Ok,
        forall|q: int| 0 <= q < pair_type_args(a, a, n)->Ok_0.len() ==> (#[trigger] pair_type_args(a, a, n)->Ok_0[q]).0
            == pair_type_args(a, a, n)->Ok_0[q].1,
    decreases n,
{
    if n > 0 {
        lemma_pair_type_args_same(a, (n - 1) as nat);
        let acc = pair_type_args(a, a, (n - 1) as nat)->Ok_0;
        match a[n - 1] {
            GenericArgV::Type(x) => {
                assert(pair_type_args(a, a, n)->Ok_0 == acc.push((x, x)));
            },
            _ => {},
        }
    }
}

/// Unwrapping undoes wrapping: the type a binding's instances have (see
/// [`binding_wrapped_ty`]) unwraps, for the same binding, to the type the
/// binding is declared with; so a binding `fn` that returns exactly that
/// type matches its binding, each type argument paired with itself.
pub proof fn lemma_unwrap_undoes_wrap(k: BindingKindV)
    requires
        binding_ty(k) is Ok,
        !(binding_ty(k)->Ok_0 is ImplTrait),
    ensures
        binding_wrapped_ty(k) is Ok,
        binding_unwrap_ty(k, binding_wrapped_ty(k)->Ok_0) == binding_ty(k),
        binding_ty(k)->Ok_0 is Path ==> compare_types_spec(k, binding_wrapped_ty(k)->Ok_0) is Ok,
        binding_ty(k)->Ok_0 is Path ==> forall|q: int|
            0 <= q < compare_types_spec(k, binding_wrapped_ty(k)->Ok_0)->Ok_0.len() ==> (
            #[trigger] compare_types_spec(k, binding_wrapped_ty(k)->Ok_0)->Ok_0[q]).0 == compare_types_spec(
                k,
                binding_wrapped_ty(k)->Ok_0,
            )->Ok_0[q].1,
{
    let t = binding_ty(k)->Ok_0;
    let rc_names = seq!["std"@, "rc"@, "Rc"@];
    let refcell_names = seq!["std"@, "cell"@, "RefCell"@];
    let arc_names = seq!["std"@, "sync"@, "Arc"@];
    let rwlock_names = seq!["std"@, "sync"@, "RwLock"@];
    lemma_unwrap_once_wrapped(rc_names, wrapped_type_view(refcell_names, t));
    lemma_unwrap_once_wrapped(refcell_names, t);
    lemma_unwrap_once_wrapped(arc_names, wrapped_type_view(rwlock_names, t));
    lemma_unwrap_once_wrapped(rwlock_names, t);
    assert(rc_names.last() == "Rc"@);
    assert(refcell_names.last() == "RefCell"@);
    assert(arc_names.last() == "Arc"@);
    assert(rwlock_names.last() == "RwLock"@);
    assert(binding_unwrap_ty(k, binding_wrapped_ty(k)->Ok_0) == binding_ty(k));
    if t is Path {
        match angle_args(last_args(t->path)) {
            Some(a) => {
                lemma_pair_type_args_same(a, a.len());
            },
            None => {},
        }
    }
}

/// The arguments of the last segment of a path, if it has segments.
pub open spec fn last_args(p: PathV) -> Option<PathArgsV> {
    if p.segments.len() == 0 {
        None
    } else {
        Some(p.segments.last().args)
    }
}

/// The arguments in angle brackets, if these are such.
pub open spec fn angle_args(a: Option<PathArgsV>) -> Option<Seq<GenericArgV>> {
    match a {
        Some(PathArgsV::AngleBracketed(args)) => Some(args),
        _ => None,
    }
}

/// Pairs up the first `n` generic arguments of a binding `fn`'s type with
/// those of the binding's type, where the former is a type; the latter must
/// then be a type too.
pub open spec fn pair_type_args(fa: Seq<GenericArgV>, ba: Seq<GenericArgV>, n: nat) -> Result<
    Seq<(TypeV, TypeV)>,
    ComponentErrorV,
>
    decreases n,
{
    if n == 0 {
        Ok(Seq::empty())
    } else {
        match pair_type_args(fa, ba, (n - 1) as nat) {
            Err(e) => Err(e),
            Ok(acc) => match fa[n - 1] {
                GenericArgV::Type(x) => match ba[n - 1] {
                    GenericArgV::Type(y) => Ok(acc.push((x, y))),
                    _ => Err(ComponentErrorV::Unexpected(Expected::TypeArgument)),
                },
                _ => Ok(acc),
            },
        }
    }
}

/// Matches the type `fun_ty` of a binding `fn` against the binding: after
/// removing the binding's wrapping, both must be paths; where the `fn`'s type
/// has angle-bracketed arguments the binding's type must have as many, and
/// each type argument of the `fn` is paired with the binding's argument at
/// the same position.
pub open spec fn compare_types_spec(k: BindingKindV, fun_ty: TypeV) -> Result<
    Seq<(TypeV, TypeV)>,
    ComponentErrorV,
> {
    match binding_ty(k) {
        Err(e) => Err(e),
        Ok(bty) => match binding_unwrap_ty(k, fun_ty) {
            Err(e) => Err(e),
            Ok(fty) => if !(fty is Path) {
                Err(ComponentErrorV::Unexpected(Expected::PathType))
            } else if !(bty is Path) {
                Err(ComponentErrorV::Unexpected(Expected::PathType))
            } else {
                match angle_args(last_args(fty->path)) {
                    None => Ok(Seq::empty()),
                    Some(fa) => match angle_args(last_args(bty->path)) {
                        Some(ba) => if fa.len() == ba.len() {
                            pair_type_args(fa, ba, fa.len())
                        } else {
                            Err(ComponentErrorV::TypeMismatch(bty, fty))
                        },
                        None => Err(ComponentErrorV::TypeMismatch(bty, fty)),
                    },
                }
            },
        },
    }
}

/// Once the pairing of arguments fails, it fails in the same way for every
/// longer prefix.
pub proof fn lemma_pair_err_persists(fa: Seq<GenericArgV>, ba: Seq<GenericArgV>, i: nat, n: nat)
    requires
        i <= n,
        pair_type_args(fa, ba, i) is Err,
    ensures
        pair_type_args(fa, ba, n) == pair_type_args(fa, ba, i),
    decreases n - i,
{
    if i < n {
        lemma_pair_err_persists(fa, ba, i, (n - 1) as nat);
    }
}

/// The views of a list of type pairs.
pub open spec fn type_pairs_view(s: Seq<(TypeModel, TypeModel)>) -> Seq<(TypeV, TypeV)> {
    s.map_values(|p: (TypeModel, TypeModel)| (p.0@, p.1@))
}

/// The names of the bindings a binding depends on, where its kind has
/// dependencies at all: provided scoped and static bindings do, singleton
/// and instance bindings do not.
pub open spec fn binding_dependencies(k: BindingKindV) -> Option<Seq<Seq<char>>> {
    match k {
        BindingKindV::Automatic { kind: AutomaticKind::Singleton, .. } => None,
        BindingKindV::Automatic { dependencies, .. } => Some(dependencies),
        BindingKindV::Manual { .. } => None,
    }
}

// ---------------------------------------------------------------------------
// Executable functions
// ---------------------------------------------------------------------------

/// Whether two strings hold the same characters.
pub fn str_equal(a: &String, b: &str) -> (r: bool)
    ensures
        r == (a@ == b@),
{
    *a == String::from_str(b)
}

/// Peels one wrapper named `expected` off `ty` (see [`unwrap_once_spec`]).
pub fn unwrap_once<'ty>(ty: &'ty TypeModel, expected: &str) -> (r: Result<&'ty TypeModel, ComponentError>)
    ensures
        agrees(r, unwrap_once_spec(ty@, expected@)),
{
    match ty {
        TypeModel::Path { path, .. } => {
            let n = path.segments.len();
            proof {
                lemma_segments_view_index(path.segments@);
                assert(ty@ == TypeV::Path { qself: ty@->qself, path: path@ });
                assert(path@.segments == crate::macros::syntax::segments_view(path.segments@));
            }
            if n == 0 {
                return Err(ComponentError::EmptyPath);
            }
            let last = &path.segments[n - 1];
            if !str_equal(&last.ident, expected) {
                return Err(ComponentError::InvalidType);
            }
            match &last.args {
                PathArgs::AngleBracketed(args) => {
                    proof {
                        lemma_generic_args_view_index(args@);
                    }
                    if args.len() != 1 {
                        return Err(ComponentError::InvalidType);
                    }
                    match &args[0] {
                        GenericArg::Type(inner) => Ok(inner),
                        _ => Err(ComponentError::Unexpected(Expected::TypeArgument)),
                    }
                },
                _ => Err(ComponentError::InvalidType),
            }
        },
        _ => Err(ComponentError::InvalidType),
    }
}

fn unwrap_twice_exec<'ty>(ty: &'ty TypeModel, outer: &str, inner: &str) -> (r: Result<&'ty TypeModel, ComponentError>)
    ensures
        agrees(r, unwrap_twice(ty@, outer@, inner@)),
{
    match unwrap_once(ty, outer) {
        Ok(u) => unwrap_once(u, inner),
        Err(e) => Err(e),
    }
}

/// Builds `std::rc::Rc<std::cell::RefCell<t>>`.
pub fn wrap_rc_refcell(t: TypeModel) -> (r: TypeModel)
    ensures
        r@ == rc_refcell(t@),
{
    let cell = wrap_type(&["std", "cell", "RefCell"], t);
    let r = wrap_type(&["std", "rc", "Rc"], cell);
    proof {
        reveal_strlit("std");
        reveal_strlit("cell");
        reveal_strlit("RefCell");
        reveal_strlit("rc");
        reveal_strlit("Rc");
        assert(strs_view(seq!["std", "cell", "RefCell"]) =~= seq!["std"@, "cell"@, "RefCell"@]);
        assert(strs_view(seq!["std", "rc", "Rc"]) =~= seq!["std"@, "rc"@, "Rc"@]);
    }
    r
}

/// Builds `std::sync::Arc<std::sync::RwLock<t>>`.
pub fn wrap_arc_rwlock(t: TypeModel) -> (r: TypeModel)
    ensures
        r@ == arc_rwlock(t@),
{
    let lock = wrap_type(&["std", "sync", "RwLock"], t);
    let r = wrap_type(&["std", "sync", "Arc"], lock);
    proof {
        assert(strs_view(seq!["std", "sync", "RwLock"]) =~= seq!["std"@, "sync"@, "RwLock"@]);
        assert(strs_view(seq!["std", "sync", "Arc"]) =~= seq!["std"@, "sync"@, "Arc"@]);
    }
    r
}

impl BindingKind {
    /// The declared type of the binding (see [`binding_ty`]).
    pub fn ty(&self) -> (r: Result<TypeModel, ComponentError>)
        ensures
            agrees(r, binding_ty(self@)),
    {
        match self {
            BindingKind::Automatic { kind, ty, dependencies } => {
                if matches!(kind, AutomaticKind::Singleton) && dependencies.len() > 0 {
                    return Err(ComponentError::UnexpectedDependencies);
                }
                if matches!(ty, TypeModel::ImplTrait(_)) {
                    return Err(ComponentError::ImplTraitBinding);
                }
                Ok(clone_type(ty))
            },
            BindingKind::Manual { ty, .. } => Ok(clone_type(ty)),
        }
    }

    /// The type of the binding's instances (see [`binding_wrapped_ty`]).
    pub fn wrapped_ty(&self) -> (r: Result<TypeModel, ComponentError>)
        ensures
            agrees(r, binding_wrapped_ty(self@)),
    {
        match self {
            BindingKind::Automatic { kind, .. } => {
                let t = self.ty()?;
                match kind {
                    AutomaticKind::Singleton => Ok(wrap_arc_rwlock(t)),
                    AutomaticKind::Scoped => Ok(wrap_rc_refcell(t)),
                    AutomaticKind::Static => Ok(t),
                }
            },
            BindingKind::Manual { mode, ty } => {
                let t = clone_type(ty);
                match mode {
                    ManualKind::ScopedInstance => Ok(wrap_rc_refcell(t)),
                    ManualKind::ClonedInstance => Ok(t),
                }
            },
        }
    }

    /// Removes the wrapping of the binding's kind from `other`
    /// (see [`binding_unwrap_ty`]).
    pub fn unwrap_ty<'o>(&self, other: &'o TypeModel) -> (r: Result<&'o TypeModel, ComponentError>)
        ensures
            agrees(r, binding_unwrap_ty(self@, other@)),
    {
        let peeled = match self {
            BindingKind::Automatic { kind: AutomaticKind::Singleton, .. } => unwrap_twice_exec(other, "Arc", "RwLock"),
            BindingKind::Automatic { kind: AutomaticKind::Scoped, .. } => unwrap_twice_exec(other, "Rc", "RefCell"),
            BindingKind::Automatic { kind: AutomaticKind::Static, .. } => Ok(other),
            BindingKind::Manual { mode: ManualKind::ScopedInstance, .. } => unwrap_twice_exec(other, "Rc", "RefCell"),
            BindingKind::Manual { mode: ManualKind::ClonedInstance, .. } => Ok(other),
        };
        let t = peeled?;
        if matches!(t, TypeModel::ImplTrait(_)) {
            Err(ComponentError::ImplTraitBinding)
        } else {
            Ok(t)
        }
    }

    /// The names of the bindings this binding depends on
    /// (see [`binding_dependencies`]).
    pub fn dependencies(&self) -> (r: Option<&Vec<String>>)
        ensures
            match r {
                Some(d) => binding_dependencies(self@) == Some(strings_view(d@)),
                None => binding_dependencies(self@) is None,
            },
    {
        match self {
            BindingKind::Automatic { kind: AutomaticKind::Singleton, .. } => None,
            BindingKind::Automatic { dependencies, .. } => Some(dependencies),
            BindingKind::Manual { .. } => None,
        }
    }

    /// Matches the type of a binding `fn` against the binding
    /// (see [`compare_types_spec`]).
    pub fn compare_types(&self, fun_ty: &TypeModel) -> (r: Result<Vec<(TypeModel, TypeModel)>, ComponentError>)
        ensures
            match r {
                Ok(v) => compare_types_spec(self@, fun_ty@) == Ok::<_, ComponentErrorV>(type_pairs_view(v@)),
                Err(e) => compare_types_spec(self@, fun_ty@) == Err::<Seq<(TypeV, TypeV)>, _>(e@),
            },
    {
        let bty = self.ty()?;
        let fty = self.unwrap_ty(fun_ty)?;
        let fpath = match fty {
            TypeModel::Path { path, .. } => path,
            _ => return Err(ComponentError::Unexpected(Expected::PathType)),
        };
        let bpath = match &bty {
            TypeModel::Path { path, .. } => path,
            _ => return Err(ComponentError::Unexpected(Expected::PathType)),
        };
        proof {
            lemma_segments_view_index(fpath.segments@);
            lemma_segments_view_index(bpath.segments@);
            assert(binding_unwrap_ty(self@, fun_ty@) == Ok::<TypeV, ComponentErrorV>(fty@));
            assert(binding_ty(self@) == Ok::<TypeV, ComponentErrorV>(bty@));
            assert(fty@->path == fpath@);
            assert(bty@->path == bpath@);
        }
        let mut pairs: Vec<(TypeModel, TypeModel)> = Vec::new();
        proof {
            assert(type_pairs_view(pairs@) =~= Seq::<(TypeV, TypeV)>::empty());
        }
        let nf = fpath.segments.len();
        if nf == 0 {
            return Ok(pairs);
        }
        let fa = match &fpath.segments[nf - 1].args {
            PathArgs::AngleBracketed(a) => a,
            _ => return Ok(pairs),
        };
        let nb = bpath.segments.len();
        if nb == 0 {
            return Err(ComponentError::TypeMismatch(clone_type(&bty), clone_type(fty)));
        }
        let ba = match &bpath.segments[nb - 1].args {
            PathArgs::AngleBracketed(a) => a,
            _ => return Err(ComponentError::TypeMismatch(clone_type(&bty), clone_type(fty))),
        };
        proof {
            lemma_generic_args_view_index(fa@);
            lemma_generic_args_view_index(ba@);
        }
        if fa.len() != ba.len() {
            return Err(ComponentError::TypeMismatch(clone_type(&bty), clone_type(fty)));
        }
        let ghost fav = crate::macros::syntax::generic_args_view(fa@);
        let ghost bav = crate::macros::syntax::generic_args_view(ba@);
        proof {
            assert(compare_types_spec(self@, fun_ty@) == pair_type_args(fav, bav, fav.len()));
        }
        let ghost whole = compare_types_spec(self@, fun_ty@);
        let mut i: usize = 0;
        while i < fa.len()
            invariant
                i <= fa@.len(),
                fa@.len() == ba@.len(),
                fav == crate::macros::syntax::generic_args_view(fa@),
                bav == crate::macros::syntax::generic_args_view(ba@),
                fav.len() == fa@.len(),
                bav.len() == ba@.len(),
                forall|j: int| 0 <= j < fa@.len() ==> #[trigger] fav[j] == fa@[j]@,
                forall|j: int| 0 <= j < ba@.len() ==> #[trigger] bav[j] == ba@[j]@,
                pair_type_args(fav, bav, i as nat) == Ok::<_, ComponentErrorV>(type_pairs_view(pairs@)),
                whole == pair_type_args(fav, bav, fav.len()),
                whole == compare_types_spec(self@, fun_ty@),
            decreases fa@.len() - i,
        {
            match &fa[i] {
                GenericArg::Type(x) => match &ba[i] {
                    GenericArg::Type(y) => {
                        let ghost old_pairs = pairs@;
                        pairs.push((clone_type(x), clone_type(y)));
                        proof {
                            assert(type_pairs_view(pairs@) =~= type_pairs_view(old_pairs).push((x@, y@)));
                        }
                    },
                    _ => {
                        proof {
                            lemma_pair_err_persists(fav, bav, (i + 1) as nat, fav.len());
                        }
                        return Err(ComponentError::Unexpected(Expected::TypeArgument));
                    },
                },
                _ => {},
            }
            i = i + 1;
        }
        Ok(pairs)
    }

    /// The hint shown when the type of a binding `fn` does not match.
    pub fn hint(&self) -> (r: &'static str)
        ensures
            r@ == binding_hint(self@),
    {
        match self {
            BindingKind::Automatic { kind: AutomaticKind::Singleton, .. } =>
                "singleton bindings wrap their type T into a std::sync::Arc<std::sync::RwLock<T>>",
            BindingKind::Automatic { kind: AutomaticKind::Scoped, .. } =>
                "scoped bindings wrap their type T into a std::rc::Rc<std::cell::RefCell<T>>",
            BindingKind::Automatic { kind: AutomaticKind::Static, .. } =>
                "static bindings do not wrap their type T and just return a T",
            BindingKind::Manual { mode: ManualKind::ClonedInstance, .. } =>
                "cloned instance bindings do not wrap their type T and just return a T",
            BindingKind::Manual { mode: ManualKind::ScopedInstance, .. } =>
                "scoped instance bindings wrap their type T into a std::rc::Rc<std::cell::RefCell<T>>",
        }
    }
}

/// The hint shown for each kind of binding when a type does not match.
pub open spec fn binding_hint(k: BindingKindV) -> Seq<char> {
    match k {
        BindingKindV::Automatic { kind: AutomaticKind::Singleton, .. } =>
            "singleton bindings wrap their type T into a std::sync::Arc<std::sync::RwLock<T>>"@,
        BindingKindV::Automatic { kind: AutomaticKind::Scoped, .. } =>
            "scoped bindings wrap their type T into a std::rc::Rc<std::cell::RefCell<T>>"@,
        BindingKindV::Automatic { kind: AutomaticKind::Static, .. } =>
            "static bindings do not wrap their type T and just return a T"@,
        BindingKindV::Manual { mode: ManualKind::ClonedInstance, .. } =>
            "cloned instance bindings do not wrap their type T and just return a T"@,
        BindingKindV::Manual { mode: ManualKind::ScopedInstance, .. } =>
            "scoped instance bindings wrap their type T into a std::rc::Rc<std::cell::RefCell<T>>"@,
    }
}

/// The factory prefix of a provided binding's kind.
pub open spec fn automatic_prefix(kind: AutomaticKind) -> Seq<char> {
    match kind {
        AutomaticKind::Singleton => singleton_prefix(),
        AutomaticKind::Scoped => scoped_prefix(),
        AutomaticKind::Static => static_prefix(),
    }
}

impl AutomaticKind {
    /// The prefix of the factory that provides bindings of this kind.
    pub fn factory_prefix(&self) -> (r: &'static str)
        ensures
            r@ == automatic_prefix(*self),
    {
        match self {
            AutomaticKind::Singleton => factory_prefix_singleton(),
            AutomaticKind::Scoped => factory_prefix_scoped(),
            AutomaticKind::Static => factory_prefix_static(),
        }
    }
}

/// A call `path(a_provider.clone(), b_provider.clone(), ...)` that creates the
/// factory of a provided binding; `provider_args` holds the provider names.
pub struct FactoryCall {
    pub path: PathModel,
    pub provider_args: Vec<String>,
}

/// The path of the `create` function of the factory that provides values of
/// the type whose path is `p`: the last segment gets the factory prefix and
/// loses its arguments, `create` is appended, and the path is not anchored at
/// the crate root.
pub open spec fn factory_create_path(prefix: Seq<char>, p: PathV) -> PathV
    recommends
        p.segments.len() > 0,
{
    PathV {
        leading_colon: false,
        segments: p.segments.update(
            p.segments.len() - 1,
            plain_segment(prefix + p.segments.last().ident),
        ).push(plain_segment("create"@)),
    }
}

/// The names of the providers handed to a factory: one per dependency.
pub open spec fn provider_call_names(k: BindingKindV) -> Seq<Seq<char>> {
    match binding_dependencies(k) {
        Some(d) => d.map_values(|x: Seq<char>| provider_name(x)),
        None => Seq::empty(),
    }
}

/// The call that creates the factory of a provided binding, or why it cannot
/// be built: the binding's type must be accepted and be a non-empty path.
pub open spec fn factory_call_spec(k: BindingKindV) -> Result<(PathV, Seq<Seq<char>>), ComponentErrorV> {
    match k {
        BindingKindV::Automatic { kind, .. } => match binding_ty(k) {
            Err(e) => Err(e),
            Ok(t) => if !(t is Path) {
                Err(ComponentErrorV::Unexpected(Expected::PathType))
            } else if t->path.segments.len() == 0 {
                Err(ComponentErrorV::EmptyPath)
            } else {
                Ok((factory_create_path(automatic_prefix(kind), t->path), provider_call_names(k)))
            },
        },
        BindingKindV::Manual { .. } => Err(ComponentErrorV::Unexpected(Expected::PathType)),
    }
}

impl BindingKind {
    /// The names of the providers handed to this binding's factory
    /// (see [`provider_call_names`]).
    pub fn provider_calls(&self) -> (r: Vec<String>)
        ensures
            strings_view(r@) == provider_call_names(self@),
    {
        let mut r: Vec<String> = Vec::new();
        match self.dependencies() {
            Some(deps) => {
                let mut i: usize = 0;
                while i < deps.len()
                    invariant
                        i <= deps@.len(),
                        r@.len() == i,
                        forall|j: int| 0 <= j < i ==> #[trigger] r@[j]@ == provider_name(deps@[j]@),
                    decreases deps@.len() - i,
                {
                    r.push(get_provider_name(&deps[i]));
                    i = i + 1;
                }
                proof {
                    assert(strings_view(r@) =~= strings_view(deps@).map_values(|x: Seq<char>| provider_name(x)));
                }
            },
            None => {
                proof {
                    assert(strings_view(r@) =~= Seq::<Seq<char>>::empty());
                }
            },
        }
        r
    }

    /// The call that creates the factory of a provided binding
    /// (see [`factory_call_spec`]).
    pub fn get_factory_create_call(&self) -> (r: Result<FactoryCall, ComponentError>)
        requires
            self is Automatic,
        ensures
            match r {
                Ok(c) => factory_call_spec(self@) == Ok::<_, ComponentErrorV>((c.path@, strings_view(c.provider_args@))),
                Err(e) => factory_call_spec(self@) == Err::<(PathV, Seq<Seq<char>>), _>(e@),
            },
    {
        let kind = match self {
            BindingKind::Automatic { kind, .. } => kind,
            BindingKind::Manual { .. } => {
                return Err(ComponentError::Unexpected(Expected::PathType));
            },
        };
        let t = self.ty()?;
        let path = match &t {
            TypeModel::Path { path, .. } => path,
            _ => {
                return Err(ComponentError::Unexpected(Expected::PathType));
            },
        };
        let n = path.segments.len();
        proof {
            lemma_segments_view_index(path.segments@);
            assert(binding_ty(self@) == Ok::<TypeV, ComponentErrorV>(t@));
            assert(t@->path == path@);
            assert(path@.segments == crate::macros::syntax::segments_view(path.segments@));
        }
        if n == 0 {
            return Err(ComponentError::EmptyPath);
        }
        let mut segments: Vec<Segment> = Vec::new();
        let mut i: usize = 0;
        while i + 1 < n
            invariant
                n == path.segments@.len(),
                n >= 1,
                i + 1 <= n,
                segments@.len() == i,
                forall|j: int| 0 <= j < i ==> #[trigger] segments@[j]@ == path.segments@[j]@,
            decreases n - i,
        {
            segments.push(clone_segment(&path.segments[i]));
            i = i + 1;
        }
        let last = Segment { ident: prefixed(kind.factory_prefix(), &path.segments[n - 1].ident), args: PathArgs::Empty };
        segments.push(last);
        segments.push(Segment { ident: String::from_str("create"), args: PathArgs::Empty });
        let new_path = PathModel { leading_colon: false, segments };
        proof {
            lemma_segments_view_index(new_path.segments@);
            let pv = path@;
            let sv = crate::macros::syntax::segments_view(new_path.segments@);
            assert(new_path@.segments == sv);
            let expected = factory_create_path(automatic_prefix(*kind), pv).segments;
            assert(sv.len() == expected.len());
            assert forall|j: int| 0 <= j < sv.len() implies sv[j] == expected[j] by {
                if j < n - 1 {
                    assert(sv[j] == new_path.segments@[j]@);
                } else if j == n - 1 {
                    assert(sv[j] == new_path.segments@[j]@);
                } else {
                    assert(sv[j] == new_path.segments@[j]@);
                }
            }
            assert(sv =~= expected);
        }
        Ok(FactoryCall { path: new_path, provider_args: self.provider_calls() })
    }
}

/// Which factory a user-supplied instance is wrapped in.
pub open spec fn instance_factory_path(mode: ManualKind) -> PathV {
    match mode {
        ManualKind::ClonedInstance => plain_path_view(seq!["dirk"@, "component"@, "instance_binds"@, "ClonedInstanceFactory"@, "new"@]),
        ManualKind::ScopedInstance => plain_path_view(seq!["dirk"@, "component"@, "instance_binds"@, "ScopedInstanceFactory"@, "new"@]),
    }
}

impl ManualKind {
    /// The path of the constructor that wraps a user-supplied instance.
    pub fn get_new_factory(&self) -> (r: PathModel)
        ensures
            r@ == instance_factory_path(*self),
    {
        match self {
            ManualKind::ClonedInstance => {
                let r = plain_path(&["dirk", "component", "instance_binds", "ClonedInstanceFactory", "new"]);
                proof {
                    assert(strs_view(seq!["dirk", "component", "instance_binds", "ClonedInstanceFactory", "new"]) =~= seq!["dirk"@, "component"@, "instance_binds"@, "ClonedInstanceFactory"@, "new"@]);
                }
                r
            },
            ManualKind::ScopedInstance => {
                let r = plain_path(&["dirk", "component", "instance_binds", "ScopedInstanceFactory", "new"]);
                proof {
                    assert(strs_view(seq!["dirk", "component", "instance_binds", "ScopedInstanceFactory", "new"]) =~= seq!["dirk"@, "component"@, "instance_binds"@, "ScopedInstanceFactory"@, "new"@]);
                }
                r
            },
        }
    }
}

} // verus!

verus! {

/// Copies a list of strings, keeping its view.
pub fn clone_strings(v: &Vec<String>) -> (r: Vec<String>)
    ensures
        strings_view(r@) == strings_view(v@),
{
    let mut r: Vec<String> = Vec::new();
    let mut i: usize = 0;
    while i < v.len()
        invariant
            i <= v@.len(),
            r@.len() == i,
            forall|j: int| 0 <= j < i ==> #[trigger] r@[j]@ == v@[j]@,
        decreases v@.len() - i,
    {
        r.push(v[i].clone());
        i = i + 1;
    }
    proof {
        assert(strings_view(r@) =~= strings_view(v@));
    }
    r
}

impl BindingKind {
    /// Copies the binding kind, keeping its view.
    pub fn clone_kind(&self) -> (r: BindingKind)
        ensures
            r@ == self@,
    {
        match self {
            BindingKind::Automatic { kind, ty, dependencies } => BindingKind::Automatic {
                kind: *kind,
                ty: clone_type(ty),
                dependencies: clone_strings(dependencies),
            },
            BindingKind::Manual { mode, ty } => BindingKind::Manual { mode: *mode, ty: clone_type(ty) },
        }
    }
}

impl Binding {
    /// Copies the binding, keeping its view.
    pub fn clone_binding(&self) -> (r: Binding)
        ensures
            r@ == self@,
    {
        Binding { identifier: self.identifier.clone(), kind: self.kind.clone_kind(), index: self.index }
    }
}

} // verus!
