//! The `inject`, `use_injectable` and `component` macros of the first
//! generation, which name what they generate with `Factory` and `Stiletto`.

use std::cmp::Ordering;

use vstd::prelude::*;
use vstd::string::*;

use crate::macros::binding::{arc_rwlock, rc_refcell, strings_view, wrap_arc_rwlock, wrap_rc_refcell};
use crate::macros::error::Expected;
use crate::macros::naming::{
    factory_prefix_scoped, factory_prefix_singleton, factory_prefix_static, prefixed, scoped_prefix,
    singleton_prefix, static_prefix,
};
use crate::macros::order::contains_name;
use crate::macros::provides::{
    impl_items_view, lemma_true_positions_bounded, provided_args, provided_args_spec, true_positions, ImplItemModel, ImplItemV,
    ProvidedArg, ProvidedArgV, ProvidesError, ProvidesErrorV,
};
use crate::macros::syntax::{
    clone_segments, clone_type, lemma_segments_view_index, segments_view, PathModel, SegmentV, TypeModel,
    TypeV,
};
use crate::macros::use_tree::{convert_spec, convert_use_tree, UseTreeModel};

verus! {

/// Which kind of provider the `inject` macros generate.
#[derive(Clone, Copy, Debug, PartialEq, Eq, Structural)]
pub enum InjectMacroInput {
    Static,
    Scoped,
    Singleton,
}

/// The prefix of the factory's name for a kind of provider.
pub open spec fn inject_prefix(k: InjectMacroInput) -> Seq<char> {
    match k {
        InjectMacroInput::Static => static_prefix(),
        InjectMacroInput::Scoped => scoped_prefix(),
        InjectMacroInput::Singleton => singleton_prefix(),
    }
}

impl InjectMacroInput {
    /// The prefix of the factory's name (see [`inject_prefix`]).
    pub fn factory_prefix(&self) -> (r: &'static str)
        ensures
            r@ == inject_prefix(*self),
    {
        match self {
            InjectMacroInput::Static => factory_prefix_static(),
            InjectMacroInput::Scoped => factory_prefix_scoped(),
            InjectMacroInput::Singleton => factory_prefix_singleton(),
        }
    }
}

/// An error of the `inject` macros.
#[derive(Clone, Copy, Debug, PartialEq, Eq, Structural)]
pub enum InjectError {
    /// The `impl` block implements a trait.
    InjectOnTrait,
    /// The `impl` block does not hold exactly one `fn`.
    InvalidFunctionCount,
    /// `Self` is not a path.
    NotAPath,
    /// `Self` is a path without segments.
    EmptyPath,
    /// Syntax of another kind than the one expected.
    Unexpected(Expected),
}

/// The position of the one `fn` of an `impl` block whose items are `fn`s
/// where `flags` holds: refused on a trait's implementation, and where
/// there is not exactly one `fn`.
pub open spec fn first_function_spec(is_trait_impl: bool, flags: Seq<bool>) -> Result<int, InjectError> {
    let pos = true_positions(flags, flags.len());
    if is_trait_impl {
        Err(InjectError::InjectOnTrait)
    } else if pos.len() != 1 {
        Err(InjectError::InvalidFunctionCount)
    } else {
        Ok(pos[0])
    }
}

/// Finds the one `fn` of an `impl` block (see [`first_function_spec`]).
pub fn get_first_function(is_trait_impl: bool, flags: &Vec<bool>) -> (r: Result<usize, InjectError>)
    ensures
        match r {
            Ok(i) => first_function_spec(is_trait_impl, flags@) == Ok::<int, InjectError>(i as int),
            Err(e) => first_function_spec(is_trait_impl, flags@) == Err::<int, InjectError>(e),
        },
{
    if is_trait_impl {
        return Err(InjectError::InjectOnTrait);
    }
    let mut found: Option<usize> = None;
    let mut i: usize = 0;
    proof {
        assert(true_positions(flags@, 0).len() == 0);
    }
    while i < flags.len()
        invariant
            !is_trait_impl,
            i <= flags@.len(),
            true_positions(flags@, i as nat).len() <= 1,
            match found {
                None => true_positions(flags@, i as nat).len() == 0,
                Some(p) => true_positions(flags@, i as nat) == seq![p as int],
            },
        decreases flags@.len() - i,
    {
        if flags[i] {
            match found {
                Some(_) => {
                    proof {
                        assert(true_positions(flags@, (i + 1) as nat).len() == 2);
                        lemma_true_positions_grow(flags@, (i + 1) as nat, flags@.len());
                    }
                    return Err(InjectError::InvalidFunctionCount);
                },
                None => {
                    found = Some(i);
                },
            }
        }
        i = i + 1;
    }
    match found {
        Some(p) => Ok(p),
        None => Err(InjectError::InvalidFunctionCount),
    }
}

/// The `true` positions only grow with more flags.
proof fn lemma_true_positions_grow(flags: Seq<bool>, i: nat, n: nat)
    requires
        i <= n <= flags.len(),
    ensures
        true_positions(flags, i).len() <= true_positions(flags, n).len(),
    decreases n - i,
{
    if i < n {
        lemma_true_positions_grow(flags, i, (n - 1) as nat);
    }
}

/// `Stiletto`, the base name, then the suffix.
pub open spec fn stiletto_name(base: Seq<char>, suffix: Seq<char>) -> Seq<char> {
    "Stiletto"@ + base + suffix
}

/// Builds `Stiletto{base}{suffix}`, with an empty suffix where none is given.
pub fn get_stiletto_name(base: &String, suffix: Option<&str>) -> (r: String)
    ensures
        r@ == stiletto_name(
            base@,
            match suffix {
                Some(s) => s@,
                None => Seq::<char>::empty(),
            },
        ),
{
    let suffix: &str = match suffix {
        Some(s) => s,
        None => "",
    };
    proof {
        reveal_strlit("");
    }
    String::from_str("Stiletto").concat(base.as_str()).concat(suffix)
}

/// The factory's type: `Self` with `Factory` before the last segment's
/// name, its arguments kept.
pub open spec fn stiletto_factory_spec(t: TypeV) -> Result<TypeV, InjectError> {
    match t {
        TypeV::Path { qself, path } => if path.segments.len() == 0 {
            Err(InjectError::EmptyPath)
        } else {
            let last = path.segments.last();
            Ok(
                TypeV::Path {
                    qself,
                    path: crate::macros::syntax::PathV {
                        leading_colon: path.leading_colon,
                        segments: path.segments.update(
                            path.segments.len() - 1,
                            SegmentV { ident: "Factory"@ + last.ident, args: last.args },
                        ),
                    },
                },
            )
        },
        _ => Err(InjectError::NotAPath),
    }
}

/// Builds the factory's type (see [`stiletto_factory_spec`]).
pub fn get_factory_ty(t: &TypeModel) -> (r: Result<TypeModel, InjectError>)
    ensures
        match r {
            Ok(f) => stiletto_factory_spec(t@) == Ok::<TypeV, InjectError>(f@),
            Err(e) => stiletto_factory_spec(t@) == Err::<TypeV, InjectError>(e),
        },
{
    match t {
        TypeModel::Path { qself, path } => {
            proof {
                assert(t@ == TypeV::Path { qself: *qself, path: path@ });
                lemma_segments_view_index(path.segments@);
            }
            let n = path.segments.len();
            if n == 0 {
                return Err(InjectError::EmptyPath);
            }
            let mut segments = clone_segments(&path.segments);
            let ghost before = segments@;
            let last = &path.segments[n - 1];
            let seg = crate::macros::syntax::Segment {
                ident: prefixed("Factory", &last.ident),
                args: crate::macros::syntax::clone_path_args(&last.args),
            };
            let ghost sv = seg@;
            segments.set(n - 1, seg);
            proof {
                lemma_segments_view_index(segments@);
                lemma_segments_view_index(before);
                assert(segments_view(segments@) =~= segments_view(path.segments@).update(n - 1, sv));
            }
            let p = PathModel { leading_colon: path.leading_colon, segments };
            let r = TypeModel::Path { qself: *qself, path: p };
            proof {
                assert(r@ == TypeV::Path { qself: *qself, path: p@ });
            }
            Ok(r)
        },
        _ => Err(InjectError::NotAPath),
    }
}

/// The `use` tree of `use_injectable`: every imported name with `Factory`
/// before it; `None` where the tree holds a glob.
pub fn injectable_use_tree(tree: &UseTreeModel) -> (r: Option<UseTreeModel>)
    ensures
        match r {
            Some(c) => convert_spec(tree@, "Factory"@, Seq::empty()) == Some(c@),
            None => convert_spec(tree@, "Factory"@, Seq::empty()) is None,
        },
{
    proof {
        reveal_strlit("");
        assert(""@ =~= Seq::<char>::empty());
    }
    convert_use_tree(tree, "Factory", "")
}

/// How the first generation orders two bindings: `a` comes first where `b`
/// depends on it, and last otherwise; they are never equal.
pub open spec fn stiletto_less(a_ident: Seq<char>, b_deps: Seq<Seq<char>>) -> bool {
    b_deps.contains(a_ident)
}

/// Compares the binding named `a_ident` with a binding that depends on
/// `b_deps` (see [`stiletto_less`]).
pub fn stiletto_order(a_ident: &String, b_deps: &Vec<String>) -> (r: Ordering)
    ensures
        r == (if stiletto_less(a_ident@, strings_view(b_deps@)) {
            Ordering::Less
        } else {
            Ordering::Greater
        }),
{
    if contains_name(b_deps, a_ident) {
        Ordering::Less
    } else {
        Ordering::Greater
    }
}

/// The type of the instances the first generation's providers hand out:
/// scoped ones in `Rc<RefCell<_>>`, singletons in `Arc<RwLock<_>>`.
pub open spec fn inject_wrap(k: InjectMacroInput, t: TypeV) -> TypeV {
    match k {
        InjectMacroInput::Static => t,
        InjectMacroInput::Scoped => rc_refcell(t),
        InjectMacroInput::Singleton => arc_rwlock(t),
    }
}

/// What the first generation's factory is made of: the position of the
/// constructor among the block's items, its dependencies, the factory's
/// type and the type of the instances handed out.
#[derive(Debug)]
pub struct InjectPlan {
    pub function: usize,
    pub args: Vec<ProvidedArg>,
    pub factory: TypeModel,
    pub injected: TypeModel,
}

/// The plan of the `inject` macros for an `impl` block, or why they refuse
/// it: the block must hold exactly one `fn` and implement no trait (see
/// [`first_function_spec`]), every argument of the constructor must be a
/// dependency, and `Self` must be a path with segments.
pub open spec fn inject_spec(
    kind: InjectMacroInput,
    is_trait_impl: bool,
    self_ty: TypeV,
    items: Seq<ImplItemV>,
) -> Result<(int, Seq<ProvidedArgV>, TypeV, TypeV), InjectError> {
    match first_function_spec(is_trait_impl, items.map_values(|i: ImplItemV| i is Fn)) {
        Err(e) => Err(e),
        Ok(pos) => match provided_args_spec(items[pos]->Fn_inputs, items[pos]->Fn_inputs.len()) {
            Err(ProvidesErrorV::Unexpected(e)) => Err(InjectError::Unexpected(e)),
            Err(_) => Err(InjectError::Unexpected(Expected::TypedArgument)),
            Ok(args) => match stiletto_factory_spec(self_ty) {
                Err(e) => Err(e),
                Ok(f) => Ok((pos, args, f, inject_wrap(kind, self_ty))),
            },
        },
    }
}

/// The plan of the `inject` macros (see [`inject_spec`]).
pub fn inject_plan(kind: InjectMacroInput, is_trait_impl: bool, self_ty: &TypeModel, items: &Vec<ImplItemModel>) -> (r:
    Result<InjectPlan, InjectError>)
    ensures
        match r {
            Ok(p) => inject_spec(kind, is_trait_impl, self_ty@, impl_items_view(items@)) == Ok::<_, InjectError>(
                (p.function as int, p.args@.map_values(|a: ProvidedArg| a@), p.factory@, p.injected@),
            ),
            Err(e) => inject_spec(kind, is_trait_impl, self_ty@, impl_items_view(items@)) == Err::<
                (int, Seq<ProvidedArgV>, TypeV, TypeV),
                InjectError,
            >(e),
        },
{
    let ghost iv = impl_items_view(items@);
    let mut flags: Vec<bool> = Vec::new();
    let mut i: usize = 0;
    while i < items.len()
        invariant
            i <= items@.len(),
            iv == impl_items_view(items@),
            flags@.len() == i,
            forall|k: int| 0 <= k < i ==> #[trigger] flags@[k] == (iv[k] is Fn),
        decreases items@.len() - i,
    {
        proof {
            assert(iv[i as int] == items@[i as int]@);
        }
        flags.push(matches!(items[i], ImplItemModel::Fn { .. }));
        i = i + 1;
    }
    proof {
        assert(flags@ =~= iv.map_values(|i: ImplItemV| i is Fn));
    }
    let pos = get_first_function(is_trait_impl, &flags)?;
    proof {
        lemma_true_positions_bounded(flags@, flags@.len());
        assert(iv[pos as int] == items@[pos as int]@);
    }
    let inputs = match &items[pos] {
        ImplItemModel::Fn { inputs, .. } => inputs,
        ImplItemModel::Other => return Err(InjectError::InvalidFunctionCount),
    };
    let args = match provided_args(inputs) {
        Ok(a) => a,
        Err(ProvidesError::Unexpected(e)) => return Err(InjectError::Unexpected(e)),
        Err(_) => return Err(InjectError::Unexpected(Expected::TypedArgument)),
    };
    let factory = get_factory_ty(self_ty)?;
    let injected = match kind {
        InjectMacroInput::Static => clone_type(self_ty),
        InjectMacroInput::Scoped => wrap_rc_refcell(clone_type(self_ty)),
        InjectMacroInput::Singleton => wrap_arc_rwlock(clone_type(self_ty)),
    };
    Ok(InjectPlan { function: pos, args, factory, injected })
}

} // verus!
