//! The `provides` macro: the factory that an `impl` block with one
//! constructor `fn` is turned into.

use itertools::Itertools;
use vstd::prelude::*;
use vstd::string::*;

use crate::macros::binding::{
    arc_rwlock, automatic_prefix, binding_wrapped_ty, rc_refcell, str_equal, wrap_arc_rwlock, wrap_rc_refcell,
    AutomaticKind, BindingKindV,
};
use crate::macros::error::{ComponentErrorV, Expected};
use crate::macros::casing::{to_uppercase, uppercase};
use crate::macros::naming::{get_provider_name, prefixed, provider_name};
use crate::macros::trait_impl::{param_argument, param_to_argument, params_view, GenericParamModel, GenericParamV};
use crate::macros::naming::{
    factory_prefix_scoped, factory_prefix_singleton, factory_prefix_static, scoped_prefix, singleton_prefix,
    static_prefix,
};
use crate::macros::syntax::{
    bounds_view, clone_segments, clone_type, generic_arg_view, generic_args_view, lemma_bounds_view_index,
    lemma_generic_args_view_index, lemma_segments_view_index, plain_path, plain_path_view, segment_view, segments_view,
    strs_view, wrap_type, wrapped_type_view, Bound, BoundV, GenericArg, PathArgs, PathArgsV, PathModel, PathV, Segment,
    SegmentV, TypeModel, TypeV,
};

verus! {

/// Which kind of provider the `provides` macro generates.
#[derive(Clone, Copy, Debug, PartialEq, Eq, Structural)]
pub enum ProvidesMacroInput {
    /// A new instance per component, shared within it (`scoped_inject`).
    Scoped,
    /// One instance for the whole program (`singleton_inject`).
    Singleton,
    /// A new instance on every request (`static_inject`).
    Static,
}

impl Default for ProvidesMacroInput {
    /// An empty attribute asks for a static provider.
    fn default() -> (r: Self)
        ensures
            r == ProvidesMacroInput::Static,
    {
        ProvidesMacroInput::Static
    }
}

/// The prefix of the factory's name for a kind of provider.
pub open spec fn provides_prefix(k: ProvidesMacroInput) -> Seq<char> {
    match k {
        ProvidesMacroInput::Static => static_prefix(),
        ProvidesMacroInput::Scoped => scoped_prefix(),
        ProvidesMacroInput::Singleton => singleton_prefix(),
    }
}

/// The type of the instances a provider hands out, for instances of type
/// `t`: scoped ones in `Rc<RefCell<_>>`, singletons in `Arc<RwLock<_>>`.
pub open spec fn provides_wrap(k: ProvidesMacroInput, t: TypeV) -> TypeV {
    match k {
        ProvidesMacroInput::Static => t,
        ProvidesMacroInput::Scoped => rc_refcell(t),
        ProvidesMacroInput::Singleton => arc_rwlock(t),
    }
}

/// The constructors that the constructor call is wrapped in, innermost
/// first.
pub open spec fn call_wrappers_spec(k: ProvidesMacroInput) -> Seq<PathV> {
    match k {
        ProvidesMacroInput::Static => Seq::empty(),
        ProvidesMacroInput::Scoped => seq![
            plain_path_view(seq!["std"@, "cell"@, "RefCell"@, "new"@]),
            plain_path_view(seq!["std"@, "rc"@, "Rc"@, "new"@]),
        ],
        ProvidesMacroInput::Singleton => seq![
            plain_path_view(seq!["std"@, "sync"@, "RwLock"@, "new"@]),
            plain_path_view(seq!["std"@, "sync"@, "Arc"@, "new"@]),
        ],
    }
}

/// Where a factory finds the provider of a dependency when it creates an
/// instance: in its own field (`self.name`), or in the local variable `name`.
pub enum ProviderReceiver {
    SelfField(String),
    Local(String),
}

/// The view of a [`ProviderReceiver`].
pub enum ProviderReceiverV {
    SelfField(Seq<char>),
    Local(Seq<char>),
}

impl View for ProviderReceiver {
    type V = ProviderReceiverV;

    open spec fn view(&self) -> ProviderReceiverV {
        match self {
            ProviderReceiver::SelfField(s) => ProviderReceiverV::SelfField(s@),
            ProviderReceiver::Local(s) => ProviderReceiverV::Local(s@),
        }
    }
}

/// A static factory creates an instance on every request, from the
/// providers in its fields; the others create their one instance when they
/// are made, from the providers they are made with.
pub open spec fn receiver_spec(k: ProvidesMacroInput, name: Seq<char>) -> ProviderReceiverV {
    match k {
        ProvidesMacroInput::Static => ProviderReceiverV::SelfField(name),
        _ => ProviderReceiverV::Local(name),
    }
}

impl ProvidesMacroInput {
    /// The prefix of the factory's name (see [`provides_prefix`]).
    pub fn factory_prefix(&self) -> (r: &'static str)
        ensures
            r@ == provides_prefix(*self),
    {
        match self {
            ProvidesMacroInput::Static => factory_prefix_static(),
            ProvidesMacroInput::Scoped => factory_prefix_scoped(),
            ProvidesMacroInput::Singleton => factory_prefix_singleton(),
        }
    }

    /// Wraps the type of the instances (see [`provides_wrap`]).
    pub fn wrap_type(&self, injectable_ty: TypeModel) -> (r: TypeModel)
        ensures
            r@ == provides_wrap(*self, injectable_ty@),
    {
        match self {
            ProvidesMacroInput::Static => injectable_ty,
            ProvidesMacroInput::Scoped => wrap_rc_refcell(injectable_ty),
            ProvidesMacroInput::Singleton => wrap_arc_rwlock(injectable_ty),
        }
    }

    /// The constructors the constructor call is wrapped in, innermost first
    /// (see [`call_wrappers_spec`]).
    pub fn wrap_call(&self) -> (r: Vec<PathModel>)
        ensures
            r@.map_values(|p: PathModel| p@) == call_wrappers_spec(*self),
    {
        let mut r: Vec<PathModel> = Vec::new();
        match self {
            ProvidesMacroInput::Static => {},
            ProvidesMacroInput::Scoped => {
                r.push(plain_path(&["std", "cell", "RefCell", "new"]));
                r.push(plain_path(&["std", "rc", "Rc", "new"]));
                proof {
                    assert(strs_view(seq!["std", "cell", "RefCell", "new"]) =~= seq!["std"@, "cell"@, "RefCell"@, "new"@]);
                    assert(strs_view(seq!["std", "rc", "Rc", "new"]) =~= seq!["std"@, "rc"@, "Rc"@, "new"@]);
                }
            },
            ProvidesMacroInput::Singleton => {
                r.push(plain_path(&["std", "sync", "RwLock", "new"]));
                r.push(plain_path(&["std", "sync", "Arc", "new"]));
                proof {
                    assert(strs_view(seq!["std", "sync", "RwLock", "new"]) =~= seq!["std"@, "sync"@, "RwLock"@, "new"@]);
                    assert(strs_view(seq!["std", "sync", "Arc", "new"]) =~= seq!["std"@, "sync"@, "Arc"@, "new"@]);
                }
            },
        }
        proof {
            assert(r@.map_values(|p: PathModel| p@) =~= call_wrappers_spec(*self));
        }
        r
    }

    /// Where the provider named `ident` is found (see [`receiver_spec`]).
    pub fn receiver(&self, ident: String) -> (r: ProviderReceiver)
        ensures
            r@ == receiver_spec(*self, ident@),
    {
        match self {
            ProvidesMacroInput::Static => ProviderReceiver::SelfField(ident),
            _ => ProviderReceiver::Local(ident),
        }
    }
}

// ---------------------------------------------------------------------------
// The input
// ---------------------------------------------------------------------------

/// The pattern of a `fn` argument: a plain identifier, or something else.
pub enum PatModel {
    Ident(String),
    Other,
}

/// A `fn` argument: `self` in some form, or a pattern with a type.
pub enum FnArgModel {
    Receiver,
    Typed { pat: PatModel, ty: TypeModel },
}

/// An item of an `impl` block: a `fn` with its name, arguments and return
/// type (`None` where none is written), or something else.
pub enum ImplItemModel {
    Fn { ident: String, inputs: Vec<FnArgModel>, output: Option<TypeModel> },
    Other,
}

/// The views of the above.
pub enum PatV {
    Ident(Seq<char>),
    Other,
}

pub enum FnArgV {
    Receiver,
    Typed { pat: PatV, ty: TypeV },
}

pub enum ImplItemV {
    Fn { ident: Seq<char>, inputs: Seq<FnArgV>, output: Option<TypeV> },
    Other,
}

impl View for FnArgModel {
    type V = FnArgV;

    open spec fn view(&self) -> FnArgV {
        match self {
            FnArgModel::Receiver => FnArgV::Receiver,
            FnArgModel::Typed { pat, ty } => FnArgV::Typed {
                pat: match pat {
                    PatModel::Ident(s) => PatV::Ident(s@),
                    PatModel::Other => PatV::Other,
                },
                ty: ty@,
            },
        }
    }
}

/// The views of a list of `fn` arguments.
pub open spec fn fn_args_view(s: Seq<FnArgModel>) -> Seq<FnArgV> {
    s.map_values(|a: FnArgModel| a@)
}

impl View for ImplItemModel {
    type V = ImplItemV;

    open spec fn view(&self) -> ImplItemV {
        match self {
            ImplItemModel::Fn { ident, inputs, output } => ImplItemV::Fn {
                ident: ident@,
                inputs: fn_args_view(inputs@),
                output: match output {
                    Some(t) => Some(t@),
                    None => None,
                },
            },
            ImplItemModel::Other => ImplItemV::Other,
        }
    }
}

/// The views of a list of `impl` items.
pub open spec fn impl_items_view(s: Seq<ImplItemModel>) -> Seq<ImplItemV> {
    s.map_values(|i: ImplItemModel| i@)
}

/// The `impl` block that the `provides` macro is placed on, with the
/// macro's argument.
pub struct ProvidesInput {
    pub kind: ProvidesMacroInput,
    /// The type the block implements, `Self`.
    pub self_ty: TypeModel,
    /// The block's generic parameters.
    pub params: Vec<GenericParamModel>,
    pub items: Vec<ImplItemModel>,
}

/// An error of the `provides` macro.
#[derive(Debug)]
pub enum ProvidesError {
    /// The block does not hold exactly one `fn`: it holds this many.
    InvalidFunctionCount(usize),
    /// The `fn` does not return `Self`.
    InvalidReturnType,
    /// A singleton's constructor takes arguments.
    SingletonWithArgs,
    /// Syntax of another kind than the one expected.
    Unexpected(Expected),
    /// A path without segments.
    EmptyPath,
}

/// The view of a [`ProvidesError`].
pub enum ProvidesErrorV {
    InvalidFunctionCount(nat),
    InvalidReturnType,
    SingletonWithArgs,
    Unexpected(Expected),
    EmptyPath,
}

impl View for ProvidesError {
    type V = ProvidesErrorV;

    open spec fn view(&self) -> ProvidesErrorV {
        match self {
            ProvidesError::InvalidFunctionCount(n) => ProvidesErrorV::InvalidFunctionCount(*n as nat),
            ProvidesError::InvalidReturnType => ProvidesErrorV::InvalidReturnType,
            ProvidesError::SingletonWithArgs => ProvidesErrorV::SingletonWithArgs,
            ProvidesError::Unexpected(e) => ProvidesErrorV::Unexpected(*e),
            ProvidesError::EmptyPath => ProvidesErrorV::EmptyPath,
        }
    }
}

// ---------------------------------------------------------------------------
// Counting the constructor
// ---------------------------------------------------------------------------

/// The positions of the `true` flags among the first `n`.
pub open spec fn true_positions(flags: Seq<bool>, n: nat) -> Seq<int>
    decreases n,
{
    if n == 0 {
        Seq::empty()
    } else if flags[n - 1] {
        true_positions(flags, (n - 1) as nat).push(n - 1)
    } else {
        true_positions(flags, (n - 1) as nat)
    }
}

/// What counting the `fn`s of an `impl` block gives, for `fn` flags `flags`:
/// the position of the one `fn`, or how many `fn`s there are.
pub open spec fn exactly_one_spec(flags: Seq<bool>) -> Result<int, nat> {
    let pos = true_positions(flags, flags.len());
    if pos.len() == 1 {
        Ok(pos[0])
    } else {
        Err(pos.len())
    }
}

/// Calls itertools' `exactly_one` on the items of `positions`: it gives the
/// one item where there is exactly one, and an error otherwise.
#[verifier::external_body]
fn exactly_one(positions: &Vec<usize>) -> (r: Option<usize>)
    ensures
        match r {
            Some(p) => positions@ == seq![p],
            None => positions@.len() != 1,
        },
{
    positions.iter().exactly_one().ok().copied()
}

/// The position of the one `fn` among the items, or how many `fn`s there
/// are (see [`exactly_one_spec`]).
pub fn count_functions(items: &Vec<ImplItemModel>) -> (r: Result<usize, usize>)
    ensures
        match r {
            Ok(p) => exactly_one_spec(impl_items_view(items@).map_values(|i: ImplItemV| i is Fn)) == Ok::<int, nat>(p as int),
            Err(n) => exactly_one_spec(impl_items_view(items@).map_values(|i: ImplItemV| i is Fn)) == Err::<int, nat>(n as nat),
        },
{
    let ghost iv = impl_items_view(items@);
    let ghost flags = iv.map_values(|i: ImplItemV| i is Fn);
    let mut positions: Vec<usize> = Vec::new();
    let mut i: usize = 0;
    while i < items.len()
        invariant
            i <= items@.len(),
            iv == impl_items_view(items@),
            flags == iv.map_values(|i: ImplItemV| i is Fn),
            flags.len() == items@.len(),
            positions@.len() <= i,
            positions@.map_values(|u: usize| u as int) == true_positions(flags, i as nat),
        decreases items@.len() - i,
    {
        proof {
            assert(iv[i as int] == items@[i as int]@);
            assert(flags[i as int] == (iv[i as int] is Fn));
        }
        if matches!(items[i], ImplItemModel::Fn { .. }) {
            positions.push(i);
            proof {
                assert(positions@.map_values(|u: usize| u as int) =~= true_positions(flags, i as nat).push(i as int));
            }
        }
        i = i + 1;
    }
    match exactly_one(&positions) {
        Some(p) => {
            proof {
                assert(positions@.map_values(|u: usize| u as int)[0] == p as int);
            }
            Ok(p)
        },
        None => Err(positions.len()),
    }
}

// ---------------------------------------------------------------------------
// The factory
// ---------------------------------------------------------------------------

/// The path `Self`.
pub open spec fn is_self_path(p: PathV) -> bool {
    &&& !p.leading_colon
    &&& p.segments.len() == 1
    &&& p.segments[0].args is Empty
    &&& p.segments[0].ident == "Self"@
}

/// `dirk::provides::Provider<t>`.
pub open spec fn provider_type(t: TypeV) -> TypeV {
    wrapped_type_view(seq!["dirk"@, "provides"@, "Provider"@], t)
}

/// `std::rc::Rc<dyn dirk::provides::Provider<t>>`, the type of the field
/// that holds the provider of a dependency of type `t`.
pub open spec fn provider_field_type(t: TypeV) -> TypeV {
    wrapped_type_view(seq!["std"@, "rc"@, "Rc"@], TypeV::TraitObject(seq![BoundV::Trait(provider_type(t)->path)]))
}

/// A dependency of the constructor: the argument's name, the name of the
/// factory's field and argument that hold its provider, the argument's type
/// and the type of that field.
#[derive(Debug)]
pub struct ProvidedArg {
    pub ident: String,
    pub provider: String,
    pub ty: TypeModel,
    pub field_ty: TypeModel,
}

/// The view of a [`ProvidedArg`].
pub struct ProvidedArgV {
    pub ident: Seq<char>,
    pub provider: Seq<char>,
    pub ty: TypeV,
    pub field_ty: TypeV,
}

impl View for ProvidedArg {
    type V = ProvidedArgV;

    open spec fn view(&self) -> ProvidedArgV {
        ProvidedArgV { ident: self.ident@, provider: self.provider@, ty: self.ty@, field_ty: self.field_ty@ }
    }
}

/// The dependencies of the first `n` arguments of the constructor, or why
/// one is refused: `self` is not a dependency, and the pattern must be a
/// plain identifier.
pub open spec fn provided_args_spec(inputs: Seq<FnArgV>, n: nat) -> Result<Seq<ProvidedArgV>, ProvidesErrorV>
    decreases n,
{
    if n == 0 {
        Ok(Seq::empty())
    } else {
        match provided_args_spec(inputs, (n - 1) as nat) {
            Err(e) => Err(e),
            Ok(acc) => match inputs[n - 1] {
                FnArgV::Receiver => Err(ProvidesErrorV::Unexpected(Expected::TypedArgument)),
                FnArgV::Typed { pat, ty } => match pat {
                    PatV::Ident(name) => Ok(
                        acc.push(
                            ProvidedArgV {
                                ident: name,
                                provider: provider_name(name),
                                ty,
                                field_ty: provider_field_type(ty),
                            },
                        ),
                    ),
                    PatV::Other => Err(ProvidesErrorV::Unexpected(Expected::IdentPattern)),
                },
            },
        }
    }
}

/// The type `t`, a path, with its last segment replaced.
pub open spec fn with_last_segment(t: TypeV, seg: SegmentV) -> TypeV {
    TypeV::Path {
        qself: t->qself,
        path: PathV {
            leading_colon: t->path.leading_colon,
            segments: t->path.segments.update(t->path.segments.len() - 1, seg),
        },
    }
}

/// The upper-cased names of the segments, one after the other.
pub open spec fn upper_concat(segs: Seq<SegmentV>) -> Seq<char>
    decreases segs.len(),
{
    if segs.len() == 0 {
        Seq::empty()
    } else {
        upper_concat(segs.drop_last()) + uppercase(segs.last().ident)
    }
}

/// What the generated factory is made of.
pub struct ProvidesPlan {
    /// The type of the instances handed out (see [`provides_wrap`]).
    pub injected: TypeModel,
    /// `dirk::provides::Provider<injected>`.
    pub provider: TypeModel,
    /// The factory's type: `Self` with the last segment's name prefixed and
    /// the block's parameters as its arguments.
    pub factory: TypeModel,
    /// The factory's type without arguments on the last segment.
    pub factory_path: TypeModel,
    /// `Self` without arguments on the last segment.
    pub injectable_path: TypeModel,
    /// The constructor's name.
    pub function: String,
    /// The constructor's dependencies.
    pub args: Vec<ProvidedArg>,
    /// Where each dependency's provider is found when an instance is made.
    pub receivers: Vec<ProviderReceiver>,
    /// The constructors the constructor call is wrapped in, innermost first.
    pub call_wrappers: Vec<PathModel>,
    /// The name of the program-wide instance of a singleton's factory.
    pub instance_name: Option<String>,
}

/// The view of a [`ProvidesPlan`].
pub struct ProvidesPlanV {
    pub injected: TypeV,
    pub provider: TypeV,
    pub factory: TypeV,
    pub factory_path: TypeV,
    pub injectable_path: TypeV,
    pub function: Seq<char>,
    pub args: Seq<ProvidedArgV>,
    pub receivers: Seq<ProviderReceiverV>,
    pub call_wrappers: Seq<PathV>,
    pub instance_name: Option<Seq<char>>,
}

impl View for ProvidesPlan {
    type V = ProvidesPlanV;

    open spec fn view(&self) -> ProvidesPlanV {
        ProvidesPlanV {
            injected: self.injected@,
            provider: self.provider@,
            factory: self.factory@,
            factory_path: self.factory_path@,
            injectable_path: self.injectable_path@,
            function: self.function@,
            args: self.args@.map_values(|a: ProvidedArg| a@),
            receivers: self.receivers@.map_values(|r: ProviderReceiver| r@),
            call_wrappers: self.call_wrappers@.map_values(|p: PathModel| p@),
            instance_name: match self.instance_name {
                Some(s) => Some(s@),
                None => None,
            },
        }
    }
}

/// The plan of the factory once the constructor `ident` with dependencies
/// `args` has been found and checked.
pub open spec fn provides_plan_spec(
    kind: ProvidesMacroInput,
    self_ty: TypeV,
    params: Seq<GenericParamV>,
    ident: Seq<char>,
    args: Seq<ProvidedArgV>,
) -> ProvidesPlanV {
    let last = self_ty->path.segments.last();
    let factory_name = provides_prefix(kind) + last.ident;
    let factory = with_last_segment(
        self_ty,
        SegmentV {
            ident: factory_name,
            args: PathArgsV::AngleBracketed(params.map_values(|p: GenericParamV| param_argument(p))),
        },
    );
    let factory_path = with_last_segment(self_ty, SegmentV { ident: factory_name, args: PathArgsV::Empty });
    ProvidesPlanV {
        injected: provides_wrap(kind, self_ty),
        provider: provider_type(provides_wrap(kind, self_ty)),
        factory,
        factory_path,
        injectable_path: with_last_segment(self_ty, SegmentV { ident: last.ident, args: PathArgsV::Empty }),
        function: ident,
        args,
        receivers: args.map_values(|a: ProvidedArgV| receiver_spec(kind, a.provider)),
        call_wrappers: call_wrappers_spec(kind),
        instance_name: if kind == ProvidesMacroInput::Singleton {
            Some(upper_concat(factory_path->path.segments))
        } else {
            None
        },
    }
}

/// The factory the `provides` macro generates for `input`, or why it
/// refuses it. In order: the block must hold exactly one `fn` (see
/// [`exactly_one_spec`]); it must return `Self`; a singleton's constructor
/// takes no arguments; `Self` must be a path with segments; and every
/// argument of the constructor must be a dependency (see
/// [`provided_args_spec`]).
pub open spec fn provides_spec(input: ProvidesInput) -> Result<ProvidesPlanV, ProvidesErrorV> {
    let items = impl_items_view(input.items@);
    let flags = items.map_values(|i: ImplItemV| i is Fn);
    match exactly_one_spec(flags) {
        Err(n) => Err(ProvidesErrorV::InvalidFunctionCount(n)),
        Ok(pos) => match items[pos] {
            ImplItemV::Fn { ident, inputs, output } => match output {
                None => Err(ProvidesErrorV::Unexpected(Expected::ReturnTypeGiven)),
                Some(t) => if !(t is Path) {
                    Err(ProvidesErrorV::Unexpected(Expected::PathType))
                } else if !is_self_path(t->path) {
                    Err(ProvidesErrorV::InvalidReturnType)
                } else if input.kind == ProvidesMacroInput::Singleton && inputs.len() > 0 {
                    Err(ProvidesErrorV::SingletonWithArgs)
                } else if !(input.self_ty@ is Path) {
                    Err(ProvidesErrorV::Unexpected(Expected::PathType))
                } else if input.self_ty@->path.segments.len() == 0 {
                    Err(ProvidesErrorV::EmptyPath)
                } else {
                    match provided_args_spec(inputs, inputs.len()) {
                        Err(e) => Err(e),
                        Ok(args) => Ok(
                            provides_plan_spec(input.kind, input.self_ty@, params_view(input.params@), ident, args),
                        ),
                    }
                },
            },
            ImplItemV::Other => Err(ProvidesErrorV::InvalidFunctionCount(0)),
        },
    }
}

/// The factories of the three kinds have distinct prefixes.
pub proof fn lemma_prefixes_distinct()
    ensures
        static_prefix() != scoped_prefix(),
        static_prefix() != singleton_prefix(),
        scoped_prefix() != singleton_prefix(),
{
    reveal_strlit("StaticFactory");
    reveal_strlit("ScopedFactory");
    reveal_strlit("SingletonFactory");
    assert(static_prefix()[1] != scoped_prefix()[1]);
    assert(static_prefix().len() != singleton_prefix().len());
    assert(scoped_prefix().len() != singleton_prefix().len());
}

/// A factory provides the type it hands out: the plan's provider is the
/// provider of the injected type, and the injected type is exactly the type
/// that a component binding of the kind whose factories carry the same
/// prefix expects of this factory.
pub proof fn lemma_provider_provides_injected(input: ProvidesInput, plan: ProvidesPlanV)
    requires
        provides_spec(input) == Ok::<_, ProvidesErrorV>(plan),
    ensures
        plan.provider == provider_type(plan.injected),
        forall|ak: AutomaticKind, deps: Seq<Seq<char>>|
            automatic_prefix(ak) == provides_prefix(input.kind) && (ak != AutomaticKind::Singleton || deps.len() == 0)
                ==> #[trigger] binding_wrapped_ty(BindingKindV::Automatic { kind: ak, ty: input.self_ty@, dependencies: deps })
                == Ok::<_, ComponentErrorV>(plan.injected),
{
    lemma_prefixes_distinct();
    assert(input.self_ty@ is Path);
}

/// Builds the type of the field that holds a provider of `t` (see
/// [`provider_field_type`]).
pub fn make_provider_field_type(t: TypeModel) -> (r: TypeModel)
    ensures
        r@ == provider_field_type(t@),
{
    let ghost tv = t@;
    let provider = wrap_type(&["dirk", "provides", "Provider"], t);
    proof {
        assert(strs_view(seq!["dirk", "provides", "Provider"]) =~= seq!["dirk"@, "provides"@, "Provider"@]);
    }
    let path = match provider {
        TypeModel::Path { path, .. } => path,
        _ => PathModel { leading_colon: false, segments: Vec::new() },
    };
    let ghost pv = path@;
    proof {
        assert(pv == provider_type(tv)->path);
    }
    let mut bounds: Vec<Bound> = Vec::new();
    bounds.push(Bound::Trait(path));
    proof {
        lemma_bounds_view_index(bounds@);
        assert(bounds_view(bounds@) =~= seq![BoundV::Trait(pv)]);
    }
    let dyn_ty = TypeModel::TraitObject(bounds);
    let r = wrap_type(&["std", "rc", "Rc"], dyn_ty);
    proof {
        assert(strs_view(seq!["std", "rc", "Rc"]) =~= seq!["std"@, "rc"@, "Rc"@]);
    }
    r
}

/// Builds `dirk::provides::Provider<t>`.
fn make_provider_type(t: TypeModel) -> (r: TypeModel)
    ensures
        r@ == provider_type(t@),
{
    let r = wrap_type(&["dirk", "provides", "Provider"], t);
    proof {
        assert(strs_view(seq!["dirk", "provides", "Provider"]) =~= seq!["dirk"@, "provides"@, "Provider"@]);
    }
    r
}

/// The dependencies of the constructor (see [`provided_args_spec`]).
pub fn provided_args(inputs: &Vec<FnArgModel>) -> (r: Result<Vec<ProvidedArg>, ProvidesError>)
    ensures
        match r {
            Ok(v) => provided_args_spec(fn_args_view(inputs@), inputs@.len()) == Ok::<_, ProvidesErrorV>(
                v@.map_values(|a: ProvidedArg| a@),
            ),
            Err(e) => provided_args_spec(fn_args_view(inputs@), inputs@.len()) == Err::<Seq<ProvidedArgV>, _>(e@),
        },
{
    let ghost iv = fn_args_view(inputs@);
    let mut r: Vec<ProvidedArg> = Vec::new();
    let mut i: usize = 0;
    proof {
        assert(r@.map_values(|a: ProvidedArg| a@) =~= Seq::<ProvidedArgV>::empty());
    }
    while i < inputs.len()
        invariant
            i <= inputs@.len(),
            iv == fn_args_view(inputs@),
            provided_args_spec(iv, i as nat) == Ok::<_, ProvidesErrorV>(r@.map_values(|a: ProvidedArg| a@)),
        decreases inputs@.len() - i,
    {
        proof {
            assert(iv[i as int] == inputs@[i as int]@);
        }
        match &inputs[i] {
            FnArgModel::Receiver => {
                proof {
                    lemma_provided_args_err_persists(iv, (i + 1) as nat, inputs@.len());
                }
                return Err(ProvidesError::Unexpected(Expected::TypedArgument));
            },
            FnArgModel::Typed { pat, ty } => match pat {
                PatModel::Ident(name) => {
                    let ghost before = r@.map_values(|a: ProvidedArg| a@);
                    let arg = ProvidedArg {
                        ident: name.clone(),
                        provider: get_provider_name(name),
                        ty: clone_type(ty),
                        field_ty: make_provider_field_type(clone_type(ty)),
                    };
                    r.push(arg);
                    proof {
                        assert(r@.map_values(|a: ProvidedArg| a@) =~= before.push(arg@));
                    }
                },
                PatModel::Other => {
                    proof {
                        lemma_provided_args_err_persists(iv, (i + 1) as nat, inputs@.len());
                    }
                    return Err(ProvidesError::Unexpected(Expected::IdentPattern));
                },
            },
        }
        i = i + 1;
    }
    Ok(r)
}

/// Once an argument has been refused, the error stays for every longer
/// prefix of the arguments.
pub proof fn lemma_provided_args_err_persists(inputs: Seq<FnArgV>, i: nat, n: nat)
    requires
        i <= n,
        provided_args_spec(inputs, i) is Err,
    ensures
        provided_args_spec(inputs, n) == provided_args_spec(inputs, i),
    decreases n - i,
{
    if i < n {
        lemma_provided_args_err_persists(inputs, i, (n - 1) as nat);
    }
}

/// Copies the path type `t`, replacing its last segment by `seg`.
fn replace_last_segment(t: &TypeModel, seg: Segment) -> (r: TypeModel)
    requires
        t@ is Path,
        t@->path.segments.len() > 0,
    ensures
        r@ == with_last_segment(t@, seg@),
{
    match t {
        TypeModel::Path { qself, path } => {
            proof {
                assert(t@ == TypeV::Path { qself: *qself, path: path@ });
            }
            let mut segments = clone_segments(&path.segments);
            let n = segments.len();
            let ghost sv = seg@;
            let ghost before = segments@;
            segments.set(n - 1, seg);
            proof {
                lemma_segments_view_index(segments@);
                lemma_segments_view_index(before);
                lemma_segments_view_index(path.segments@);
                assert(segments_view(segments@) =~= segments_view(path.segments@).update(n - 1, sv));
            }
            let p = PathModel { leading_colon: path.leading_colon, segments };
            let r = TypeModel::Path { qself: *qself, path: p };
            proof {
                assert(r@ == TypeV::Path { qself: *qself, path: p@ });
            }
            r
        },
        _ => clone_type(t),
    }
}

/// The upper-cased names of the segments of a path type, one after the
/// other (see [`upper_concat`]).
fn instance_name_of(t: &TypeModel) -> (r: String)
    requires
        t@ is Path,
    ensures
        r@ == upper_concat(t@->path.segments),
{
    match t {
        TypeModel::Path { qself, path } => {
            proof {
                assert(t@ == TypeV::Path { qself: *qself, path: path@ });
                lemma_segments_view_index(path.segments@);
            }
            let ghost sv = segments_view(path.segments@);
            let mut r = String::new();
            let mut i: usize = 0;
            proof {
                assert(sv.take(0) =~= Seq::<SegmentV>::empty());
            }
            while i < path.segments.len()
                invariant
                    i <= path.segments@.len(),
                    sv == segments_view(path.segments@),
                    sv.len() == path.segments@.len(),
                    forall|k: int| 0 <= k < sv.len() ==> #[trigger] sv[k] == segment_view(path.segments@[k]),
                    r@ == upper_concat(sv.take(i as int)),
                decreases path.segments@.len() - i,
            {
                let up = to_uppercase(path.segments[i].ident.as_str());
                proof {
                    assert(sv.take(i + 1).drop_last() =~= sv.take(i as int));
                    assert(sv.take(i + 1).last() == sv[i as int]);
                }
                r = r.concat(up.as_str());
                i = i + 1;
            }
            proof {
                assert(sv.take(i as int) =~= sv);
            }
            r
        },
        _ => String::new(),
    }
}

/// The factory the `provides` macro generates for `input` (see
/// [`provides_spec`]).
pub fn process_provides(input: &ProvidesInput) -> (r: Result<ProvidesPlan, ProvidesError>)
    ensures
        match r {
            Ok(plan) => provides_spec(*input) == Ok::<_, ProvidesErrorV>(plan@),
            Err(e) => provides_spec(*input) == Err::<ProvidesPlanV, _>(e@),
        },
{
    let ghost items = impl_items_view(input.items@);
    let ghost flags = items.map_values(|i: ImplItemV| i is Fn);
    let pos = match count_functions(&input.items) {
        Ok(p) => p,
        Err(n) => return Err(ProvidesError::InvalidFunctionCount(n)),
    };
    proof {
        lemma_true_positions_bounded(flags, flags.len());
        assert(items[pos as int] == input.items@[pos as int]@);
    }
    let (ident, inputs, output) = match &input.items[pos] {
        ImplItemModel::Fn { ident, inputs, output } => (ident, inputs, output),
        ImplItemModel::Other => return Err(ProvidesError::InvalidFunctionCount(0)),
    };
    let t = match output {
        Some(t) => t,
        None => return Err(ProvidesError::Unexpected(Expected::ReturnTypeGiven)),
    };
    let tp = match t {
        TypeModel::Path { path, qself } => {
            proof {
                assert(t@ == TypeV::Path { qself: *qself, path: path@ });
            }
            path
        },
        _ => return Err(ProvidesError::Unexpected(Expected::PathType)),
    };
    if !is_self(tp) {
        return Err(ProvidesError::InvalidReturnType);
    }
    if matches!(input.kind, ProvidesMacroInput::Singleton) && inputs.len() > 0 {
        proof {
            assert(fn_args_view(inputs@).len() == inputs@.len());
        }
        return Err(ProvidesError::SingletonWithArgs);
    }
    let nseg = match &input.self_ty {
        TypeModel::Path { path, qself } => {
            proof {
                assert(input.self_ty@ == TypeV::Path { qself: *qself, path: path@ });
                lemma_segments_view_index(path.segments@);
            }
            path.segments.len()
        },
        _ => return Err(ProvidesError::Unexpected(Expected::PathType)),
    };
    if nseg == 0 {
        return Err(ProvidesError::EmptyPath);
    }
    let args = provided_args(inputs)?;
    let plan = build_plan(input, ident, args);
    Ok(plan)
}

/// Every position among the `true` positions is the position of a flag.
pub proof fn lemma_true_positions_bounded(flags: Seq<bool>, n: nat)
    requires
        n <= flags.len(),
    ensures
        forall|k: int| 0 <= k < true_positions(flags, n).len() ==> 0 <= #[trigger] true_positions(flags, n)[k] < n
            && flags[true_positions(flags, n)[k]],
    decreases n,
{
    if n > 0 {
        lemma_true_positions_bounded(flags, (n - 1) as nat);
        let prev = true_positions(flags, (n - 1) as nat);
        let cur = true_positions(flags, n);
        assert forall|k: int| 0 <= k < cur.len() implies 0 <= #[trigger] cur[k] < n && flags[cur[k]] by {
            if k < prev.len() {
                assert(cur[k] == prev[k]);
            }
        }
    }
}

/// Whether the path is `Self` (see [`is_self_path`]).
fn is_self(p: &PathModel) -> (r: bool)
    ensures
        r == is_self_path(p@),
{
    proof {
        lemma_segments_view_index(p.segments@);
    }
    if p.leading_colon || p.segments.len() != 1 {
        return false;
    }
    proof {
        assert(p@.segments[0] == segment_view(p.segments@[0]));
        reveal_strlit("Self");
    }
    match &p.segments[0].args {
        PathArgs::Empty => str_equal(&p.segments[0].ident, "Self"),
        _ => false,
    }
}

/// Assembles the plan once the constructor is checked (see
/// [`provides_plan_spec`]).
fn build_plan(input: &ProvidesInput, ident: &String, args: Vec<ProvidedArg>) -> (r: ProvidesPlan)
    requires
        input.self_ty@ is Path,
        input.self_ty@->path.segments.len() > 0,
    ensures
        r@ == provides_plan_spec(input.kind, input.self_ty@, params_view(input.params@), ident@, args@.map_values(|a: ProvidedArg| a@)),
{
    let ghost sv = input.self_ty@;
    let last_ident = match &input.self_ty {
        TypeModel::Path { path, qself } => {
            proof {
                assert(sv == TypeV::Path { qself: *qself, path: path@ });
                lemma_segments_view_index(path.segments@);
            }
            let n = path.segments.len();
            proof {
                assert(sv->path.segments.last() == segment_view(path.segments@[n - 1]));
            }
            path.segments[n - 1].ident.clone()
        },
        _ => String::new(),
    };
    let factory_name = prefixed(input.kind.factory_prefix(), &last_ident);
    let mut fargs: Vec<GenericArg> = Vec::new();
    let mut i: usize = 0;
    let ghost pv = params_view(input.params@);
    while i < input.params.len()
        invariant
            i <= input.params@.len(),
            pv == params_view(input.params@),
            fargs@.len() == i,
            forall|k: int| 0 <= k < i ==> #[trigger] generic_arg_view(fargs@[k]) == param_argument(pv[k]),
        decreases input.params@.len() - i,
    {
        proof {
            assert(pv[i as int] == input.params@[i as int]@);
        }
        fargs.push(param_to_argument(&input.params[i]));
        i = i + 1;
    }
    proof {
        lemma_generic_args_view_index(fargs@);
        assert(generic_args_view(fargs@) =~= pv.map_values(|p: GenericParamV| param_argument(p)));
    }
    let factory = replace_last_segment(
        &input.self_ty,
        Segment { ident: factory_name.clone(), args: PathArgs::AngleBracketed(fargs) },
    );
    let factory_path = replace_last_segment(&input.self_ty, Segment { ident: factory_name, args: PathArgs::Empty });
    let injectable_path = replace_last_segment(&input.self_ty, Segment { ident: last_ident, args: PathArgs::Empty });
    let injected = input.kind.wrap_type(clone_type(&input.self_ty));
    let provider = make_provider_type(input.kind.wrap_type(clone_type(&input.self_ty)));
    let mut receivers: Vec<ProviderReceiver> = Vec::new();
    let mut k: usize = 0;
    while k < args.len()
        invariant
            k <= args@.len(),
            receivers@.len() == k,
            forall|q: int| 0 <= q < k ==> #[trigger] receivers@[q]@ == receiver_spec(input.kind, args@[q]@.provider),
        decreases args@.len() - k,
    {
        receivers.push(input.kind.receiver(args[k].provider.clone()));
        k = k + 1;
    }
    let instance_name = if matches!(input.kind, ProvidesMacroInput::Singleton) {
        Some(instance_name_of(&factory_path))
    } else {
        None
    };
    let r = ProvidesPlan {
        injected,
        provider,
        factory,
        factory_path,
        injectable_path,
        function: ident.clone(),
        args,
        receivers,
        call_wrappers: input.kind.wrap_call(),
        instance_name,
    };
    proof {
        let expected = provides_plan_spec(input.kind, sv, pv, ident@, r.args@.map_values(|a: ProvidedArg| a@));
        assert(r@.receivers =~= expected.receivers);
        assert(r@.factory == expected.factory);
        assert(r@.factory_path == expected.factory_path);
    }
    r
}

} // verus!
