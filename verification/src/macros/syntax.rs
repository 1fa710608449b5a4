//! A plain-value model of the parts of Rust syntax that the macros inspect:
//! types, paths, path segments and generic arguments, with a mathematical view.

use vstd::prelude::*;
use vstd::string::*;

verus! {

/// A generic argument inside angle brackets, as in `Vec<T>` or `Foo<'a, N>`.
#[derive(Debug)]
pub enum GenericArg {
    Type(TypeModel),
    Lifetime(String),
    Const,
    AssocType,
    AssocConst,
    Constraint,
}

/// The arguments that follow a path segment.
#[derive(Debug)]
pub enum PathArgs {
    Empty,
    AngleBracketed(Vec<GenericArg>),
    Parenthesized,
}

/// One segment of a path: an identifier and its arguments.
#[derive(Debug)]
pub struct Segment {
    pub ident: String,
    pub args: PathArgs,
}

/// A path such as `std::rc::Rc<T>`.
#[derive(Debug)]
pub struct PathModel {
    pub leading_colon: bool,
    pub segments: Vec<Segment>,
}

/// A bound in `impl A + B` or `dyn A + 'a`.
#[derive(Debug)]
pub enum Bound {
    Trait(PathModel),
    Lifetime(String),
    Verbatim,
    Other,
}

/// A Rust type.
#[derive(Debug)]
pub enum TypeModel {
    Array(Box<TypeModel>),
    BareFn,
    Group(Box<TypeModel>),
    ImplTrait(Vec<Bound>),
    Infer,
    Macro,
    Never,
    Paren(Box<TypeModel>),
    Path { qself: bool, path: PathModel },
    Ptr(Box<TypeModel>),
    Reference(Box<TypeModel>),
    Slice(Box<TypeModel>),
    TraitObject(Vec<Bound>),
    Tuple(Vec<TypeModel>),
    Verbatim,
}

// ---------------------------------------------------------------------------
// Mathematical views
// ---------------------------------------------------------------------------

pub enum GenericArgV {
    Type(TypeV),
    Lifetime(Seq<char>),
    Const,
    AssocType,
    AssocConst,
    Constraint,
}

pub enum PathArgsV {
    Empty,
    AngleBracketed(Seq<GenericArgV>),
    Parenthesized,
}

pub struct SegmentV {
    pub ident: Seq<char>,
    pub args: PathArgsV,
}

pub struct PathV {
    pub leading_colon: bool,
    pub segments: Seq<SegmentV>,
}

pub enum BoundV {
    Trait(PathV),
    Lifetime(Seq<char>),
    Verbatim,
    Other,
}

pub enum TypeV {
    Array(Box<TypeV>),
    BareFn,
    Group(Box<TypeV>),
    ImplTrait(Seq<BoundV>),
    Infer,
    Macro,
    Never,
    Paren(Box<TypeV>),
    Path { qself: bool, path: PathV },
    Ptr(Box<TypeV>),
    Reference(Box<TypeV>),
    Slice(Box<TypeV>),
    TraitObject(Seq<BoundV>),
    Tuple(Seq<TypeV>),
    Verbatim,
}

pub open spec fn type_view(t: TypeModel) -> TypeV
    decreases t, 0int,
{
    match t {
        TypeModel::Array(e) => TypeV::Array(Box::new(type_view(*e))),
        TypeModel::BareFn => TypeV::BareFn,
        TypeModel::Group(e) => TypeV::Group(Box::new(type_view(*e))),
        TypeModel::ImplTrait(b) => TypeV::ImplTrait(bounds_view(b@)),
        TypeModel::Infer => TypeV::Infer,
        TypeModel::Macro => TypeV::Macro,
        TypeModel::Never => TypeV::Never,
        TypeModel::Paren(e) => TypeV::Paren(Box::new(type_view(*e))),
        TypeModel::Path { qself, path } => TypeV::Path { qself, path: path_view(path) },
        TypeModel::Ptr(e) => TypeV::Ptr(Box::new(type_view(*e))),
        TypeModel::Reference(e) => TypeV::Reference(Box::new(type_view(*e))),
        TypeModel::Slice(e) => TypeV::Slice(Box::new(type_view(*e))),
        TypeModel::TraitObject(b) => TypeV::TraitObject(bounds_view(b@)),
        TypeModel::Tuple(ts) => TypeV::Tuple(types_view(ts@)),
        TypeModel::Verbatim => TypeV::Verbatim,
    }
}

pub open spec fn types_view(s: Seq<TypeModel>) -> Seq<TypeV>
    decreases s, 1int,
{
    if s.len() == 0 {
        Seq::empty()
    } else {
        types_view(s.drop_last()).push(type_view(s.last()))
    }
}

pub open spec fn path_view(p: PathModel) -> PathV
    decreases p, 0int,
{
    PathV { leading_colon: p.leading_colon, segments: segments_view(p.segments@) }
}

pub open spec fn segments_view(s: Seq<Segment>) -> Seq<SegmentV>
    decreases s, 1int,
{
    if s.len() == 0 {
        Seq::empty()
    } else {
        segments_view(s.drop_last()).push(segment_view(s.last()))
    }
}

pub open spec fn segment_view(s: Segment) -> SegmentV
    decreases s, 0int,
{
    SegmentV { ident: s.ident@, args: path_args_view(s.args) }
}

pub open spec fn path_args_view(a: PathArgs) -> PathArgsV
    decreases a, 0int,
{
    match a {
        PathArgs::Empty => PathArgsV::Empty,
        PathArgs::AngleBracketed(v) => PathArgsV::AngleBracketed(generic_args_view(v@)),
        PathArgs::Parenthesized => PathArgsV::Parenthesized,
    }
}

pub open spec fn generic_args_view(s: Seq<GenericArg>) -> Seq<GenericArgV>
    decreases s, 1int,
{
    if s.len() == 0 {
        Seq::empty()
    } else {
        generic_args_view(s.drop_last()).push(generic_arg_view(s.last()))
    }
}

pub open spec fn generic_arg_view(a: GenericArg) -> GenericArgV
    decreases a, 0int,
{
    match a {
        GenericArg::Type(t) => GenericArgV::Type(type_view(t)),
        GenericArg::Lifetime(l) => GenericArgV::Lifetime(l@),
        GenericArg::Const => GenericArgV::Const,
        GenericArg::AssocType => GenericArgV::AssocType,
        GenericArg::AssocConst => GenericArgV::AssocConst,
        GenericArg::Constraint => GenericArgV::Constraint,
    }
}

pub open spec fn bounds_view(s: Seq<Bound>) -> Seq<BoundV>
    decreases s, 1int,
{
    if s.len() == 0 {
        Seq::empty()
    } else {
        bounds_view(s.drop_last()).push(bound_view(s.last()))
    }
}

pub open spec fn bound_view(b: Bound) -> BoundV
    decreases b, 0int,
{
    match b {
        Bound::Trait(p) => BoundV::Trait(path_view(p)),
        Bound::Lifetime(l) => BoundV::Lifetime(l@),
        Bound::Verbatim => BoundV::Verbatim,
        Bound::Other => BoundV::Other,
    }
}

impl View for TypeModel {
    type V = TypeV;

    open spec fn view(&self) -> TypeV {
        type_view(*self)
    }
}

impl View for PathModel {
    type V = PathV;

    open spec fn view(&self) -> PathV {
        path_view(*self)
    }
}

impl View for Segment {
    type V = SegmentV;

    open spec fn view(&self) -> SegmentV {
        segment_view(*self)
    }
}

impl View for PathArgs {
    type V = PathArgsV;

    open spec fn view(&self) -> PathArgsV {
        path_args_view(*self)
    }
}

impl View for GenericArg {
    type V = GenericArgV;

    open spec fn view(&self) -> GenericArgV {
        generic_arg_view(*self)
    }
}

impl View for Bound {
    type V = BoundV;

    open spec fn view(&self) -> BoundV {
        bound_view(*self)
    }
}

// ---------------------------------------------------------------------------
// Lemmas on list views
// ---------------------------------------------------------------------------

/// The view of a list has the list's length, and each element's view in place.
pub proof fn lemma_segments_view_index(s: Seq<Segment>)
    ensures
        segments_view(s).len() == s.len(),
        forall|i: int| 0 <= i < s.len() ==> #[trigger] segments_view(s)[i] == segment_view(s[i]),
    decreases s.len(),
{
    if s.len() > 0 {
        lemma_segments_view_index(s.drop_last());
    }
}

/// The view of a list has the list's length, and each element's view in place.
pub proof fn lemma_generic_args_view_index(s: Seq<GenericArg>)
    ensures
        generic_args_view(s).len() == s.len(),
        forall|i: int| 0 <= i < s.len() ==> #[trigger] generic_args_view(s)[i] == generic_arg_view(s[i]),
    decreases s.len(),
{
    if s.len() > 0 {
        lemma_generic_args_view_index(s.drop_last());
    }
}

/// The view of a list has the list's length, and each element's view in place.
pub proof fn lemma_types_view_index(s: Seq<TypeModel>)
    ensures
        types_view(s).len() == s.len(),
        forall|i: int| 0 <= i < s.len() ==> #[trigger] types_view(s)[i] == type_view(s[i]),
    decreases s.len(),
{
    if s.len() > 0 {
        lemma_types_view_index(s.drop_last());
    }
}

/// The view of a list has the list's length, and each element's view in place.
pub proof fn lemma_bounds_view_index(s: Seq<Bound>)
    ensures
        bounds_view(s).len() == s.len(),
        forall|i: int| 0 <= i < s.len() ==> #[trigger] bounds_view(s)[i] == bound_view(s[i]),
    decreases s.len(),
{
    if s.len() > 0 {
        lemma_bounds_view_index(s.drop_last());
    }
}

// ---------------------------------------------------------------------------
// Building paths
// ---------------------------------------------------------------------------

/// A segment without arguments.
pub open spec fn plain_segment(ident: Seq<char>) -> SegmentV {
    SegmentV { ident, args: PathArgsV::Empty }
}

/// The path type `a::b::...::Last<inner>`: every name but the last is a plain
/// segment, the last carries `inner` as its single generic argument.
pub open spec fn wrapped_type_view(names: Seq<Seq<char>>, inner: TypeV) -> TypeV {
    TypeV::Path {
        qself: false,
        path: PathV {
            leading_colon: false,
            segments: Seq::new(
                names.len(),
                |i: int|
                    if i < names.len() - 1 {
                        plain_segment(names[i])
                    } else {
                        SegmentV {
                            ident: names[i],
                            args: PathArgsV::AngleBracketed(seq![GenericArgV::Type(inner)]),
                        }
                    },
            ),
        },
    }
}

/// The views of a list of string slices.
pub open spec fn strs_view(names: Seq<&str>) -> Seq<Seq<char>> {
    names.map_values(|s: &str| s@)
}

/// Builds the path type `names[0]::...::names[last]<inner>`.
pub fn wrap_type(names: &[&str], inner: TypeModel) -> (r: TypeModel)
    requires
        names@.len() >= 1,
    ensures
        r@ == wrapped_type_view(strs_view(names@), inner@),
{
    let mut segments: Vec<Segment> = Vec::new();
    let n = names.len();
    let mut i: usize = 0;
    while i + 1 < n
        invariant
            n == names@.len(),
            n >= 1,
            i + 1 <= n,
            segments@.len() == i,
            forall|j: int| 0 <= j < i ==> #[trigger] segment_view(segments@[j]) == plain_segment(names@[j]@),
        decreases n - i,
    {
        let seg = Segment { ident: String::from_str(names[i]), args: PathArgs::Empty };
        segments.push(seg);
        i = i + 1;
    }
    let ghost inner_v = inner@;
    let mut args: Vec<GenericArg> = Vec::new();
    args.push(GenericArg::Type(inner));
    proof {
        lemma_generic_args_view_index(args@);
        assert(generic_args_view(args@) == seq![GenericArgV::Type(inner_v)]);
    }
    let last = Segment { ident: String::from_str(names[n - 1]), args: PathArgs::AngleBracketed(args) };
    segments.push(last);
    proof {
        lemma_segments_view_index(segments@);
        let expected = wrapped_type_view(strs_view(names@), inner_v);
        assert(segments_view(segments@) =~= expected->path.segments);
    }
    let path = PathModel { leading_colon: false, segments };
    proof {
        let expected = wrapped_type_view(strs_view(names@), inner_v);
        assert(path_view(path) == expected->path);
    }
    let r = TypeModel::Path { qself: false, path };
    proof {
        let expected = wrapped_type_view(strs_view(names@), inner_v);
        assert(type_view(r) == TypeV::Path { qself: false, path: path_view(path) });
        assert(r@ == expected);
    }
    r
}

/// The path `a::b::...::z`, without arguments.
pub open spec fn plain_path_view(names: Seq<Seq<char>>) -> PathV {
    PathV { leading_colon: false, segments: Seq::new(names.len(), |i: int| plain_segment(names[i])) }
}

/// Builds the path `names[0]::...::names[last]`.
pub fn plain_path(names: &[&str]) -> (r: PathModel)
    ensures
        r@ == plain_path_view(strs_view(names@)),
{
    let mut segments: Vec<Segment> = Vec::new();
    let n = names.len();
    let mut i: usize = 0;
    while i < n
        invariant
            n == names@.len(),
            i <= n,
            segments@.len() == i,
            forall|j: int| 0 <= j < i ==> #[trigger] segment_view(segments@[j]) == plain_segment(names@[j]@),
        decreases n - i,
    {
        let seg = Segment { ident: String::from_str(names[i]), args: PathArgs::Empty };
        segments.push(seg);
        i = i + 1;
    }
    proof {
        lemma_segments_view_index(segments@);
        assert(segments_view(segments@) =~= plain_path_view(strs_view(names@)).segments);
    }
    PathModel { leading_colon: false, segments }
}

// ---------------------------------------------------------------------------
// Deep copies
// ---------------------------------------------------------------------------

/// Copies a type, keeping its view.
pub fn clone_type(t: &TypeModel) -> (r: TypeModel)
    ensures
        r@ == t@,
    decreases t, 0int,
{
    match t {
        TypeModel::Array(e) => TypeModel::Array(Box::new(clone_type(e))),
        TypeModel::BareFn => TypeModel::BareFn,
        TypeModel::Group(e) => TypeModel::Group(Box::new(clone_type(e))),
        TypeModel::ImplTrait(b) => TypeModel::ImplTrait(clone_bounds(b)),
        TypeModel::Infer => TypeModel::Infer,
        TypeModel::Macro => TypeModel::Macro,
        TypeModel::Never => TypeModel::Never,
        TypeModel::Paren(e) => TypeModel::Paren(Box::new(clone_type(e))),
        TypeModel::Path { qself, path } => TypeModel::Path { qself: *qself, path: clone_path(path) },
        TypeModel::Ptr(e) => TypeModel::Ptr(Box::new(clone_type(e))),
        TypeModel::Reference(e) => TypeModel::Reference(Box::new(clone_type(e))),
        TypeModel::Slice(e) => TypeModel::Slice(Box::new(clone_type(e))),
        TypeModel::TraitObject(b) => TypeModel::TraitObject(clone_bounds(b)),
        TypeModel::Tuple(ts) => TypeModel::Tuple(clone_types(ts)),
        TypeModel::Verbatim => TypeModel::Verbatim,
    }
}

/// Copies a list of types, keeping its view.
pub fn clone_types(v: &Vec<TypeModel>) -> (r: Vec<TypeModel>)
    ensures
        types_view(r@) == types_view(v@),
        r@.len() == v@.len(),
    decreases v, 1int,
{
    let mut r: Vec<TypeModel> = Vec::new();
    let mut i: usize = 0;
    while i < v.len()
        invariant
            i <= v@.len(),
            r@.len() == i,
            types_view(r@) == types_view(v@.subrange(0, i as int)),
        decreases v@.len() - i,
    {
        proof {
            assert(decreases_to!(v => v@[i as int])) by {
                broadcast use vstd::std_specs::vec::axiom_vec_index_decreases;
            }
        }
        let c = clone_type(&v[i]);
        let ghost old_r = r@;
        r.push(c);
        proof {
            assert(r@.drop_last() == old_r);
            assert(v@.subrange(0, i + 1).drop_last() == v@.subrange(0, i as int));
        }
        i = i + 1;
    }
    proof {
        assert(v@.subrange(0, v@.len() as int) == v@);
    }
    r
}

/// Copies a path, keeping its view.
pub fn clone_path(p: &PathModel) -> (r: PathModel)
    ensures
        r@ == p@,
    decreases p, 0int,
{
    PathModel { leading_colon: p.leading_colon, segments: clone_segments(&p.segments) }
}

/// Copies a list of path segments, keeping its view.
pub fn clone_segments(v: &Vec<Segment>) -> (r: Vec<Segment>)
    ensures
        segments_view(r@) == segments_view(v@),
        r@.len() == v@.len(),
    decreases v, 1int,
{
    let mut r: Vec<Segment> = Vec::new();
    let mut i: usize = 0;
    while i < v.len()
        invariant
            i <= v@.len(),
            r@.len() == i,
            segments_view(r@) == segments_view(v@.subrange(0, i as int)),
        decreases v@.len() - i,
    {
        proof {
            assert(decreases_to!(v => v@[i as int])) by {
                broadcast use vstd::std_specs::vec::axiom_vec_index_decreases;
            }
        }
        let c = clone_segment(&v[i]);
        let ghost old_r = r@;
        r.push(c);
        proof {
            assert(r@.drop_last() == old_r);
            assert(v@.subrange(0, i + 1).drop_last() == v@.subrange(0, i as int));
        }
        i = i + 1;
    }
    proof {
        assert(v@.subrange(0, v@.len() as int) == v@);
    }
    r
}

/// Copies a path segment, keeping its view.
pub fn clone_segment(s: &Segment) -> (r: Segment)
    ensures
        r@ == s@,
    decreases s, 0int,
{
    Segment { ident: s.ident.clone(), args: clone_path_args(&s.args) }
}

/// Copies path arguments, keeping their view.
pub fn clone_path_args(a: &PathArgs) -> (r: PathArgs)
    ensures
        r@ == a@,
    decreases a, 0int,
{
    match a {
        PathArgs::Empty => PathArgs::Empty,
        PathArgs::AngleBracketed(v) => PathArgs::AngleBracketed(clone_generic_args(v)),
        PathArgs::Parenthesized => PathArgs::Parenthesized,
    }
}

/// Copies a list of generic arguments, keeping its view.
pub fn clone_generic_args(v: &Vec<GenericArg>) -> (r: Vec<GenericArg>)
    ensures
        generic_args_view(r@) == generic_args_view(v@),
        r@.len() == v@.len(),
    decreases v, 1int,
{
    let mut r: Vec<GenericArg> = Vec::new();
    let mut i: usize = 0;
    while i < v.len()
        invariant
            i <= v@.len(),
            r@.len() == i,
            generic_args_view(r@) == generic_args_view(v@.subrange(0, i as int)),
        decreases v@.len() - i,
    {
        proof {
            assert(decreases_to!(v => v@[i as int])) by {
                broadcast use vstd::std_specs::vec::axiom_vec_index_decreases;
            }
        }
        let c = clone_generic_arg(&v[i]);
        let ghost old_r = r@;
        r.push(c);
        proof {
            assert(r@.drop_last() == old_r);
            assert(v@.subrange(0, i + 1).drop_last() == v@.subrange(0, i as int));
        }
        i = i + 1;
    }
    proof {
        assert(v@.subrange(0, v@.len() as int) == v@);
    }
    r
}

/// Copies a generic argument, keeping its view.
pub fn clone_generic_arg(a: &GenericArg) -> (r: GenericArg)
    ensures
        r@ == a@,
    decreases a, 0int,
{
    match a {
        GenericArg::Type(t) => GenericArg::Type(clone_type(t)),
        GenericArg::Lifetime(l) => GenericArg::Lifetime(l.clone()),
        GenericArg::Const => GenericArg::Const,
        GenericArg::AssocType => GenericArg::AssocType,
        GenericArg::AssocConst => GenericArg::AssocConst,
        GenericArg::Constraint => GenericArg::Constraint,
    }
}

/// Copies a list of bounds, keeping its view.
pub fn clone_bounds(v: &Vec<Bound>) -> (r: Vec<Bound>)
    ensures
        bounds_view(r@) == bounds_view(v@),
        r@.len() == v@.len(),
    decreases v, 1int,
{
    let mut r: Vec<Bound> = Vec::new();
    let mut i: usize = 0;
    while i < v.len()
        invariant
            i <= v@.len(),
            r@.len() == i,
            bounds_view(r@) == bounds_view(v@.subrange(0, i as int)),
        decreases v@.len() - i,
    {
        proof {
            assert(decreases_to!(v => v@[i as int])) by {
                broadcast use vstd::std_specs::vec::axiom_vec_index_decreases;
            }
        }
        let c = clone_bound(&v[i]);
        let ghost old_r = r@;
        r.push(c);
        proof {
            assert(r@.drop_last() == old_r);
            assert(v@.subrange(0, i + 1).drop_last() == v@.subrange(0, i as int));
        }
        i = i + 1;
    }
    proof {
        assert(v@.subrange(0, v@.len() as int) == v@);
    }
    r
}

/// Copies a bound, keeping its view.
pub fn clone_bound(b: &Bound) -> (r: Bound)
    ensures
        r@ == b@,
    decreases b, 0int,
{
    match b {
        Bound::Trait(p) => Bound::Trait(clone_path(p)),
        Bound::Lifetime(l) => Bound::Lifetime(l.clone()),
        Bound::Verbatim => Bound::Verbatim,
        Bound::Other => Bound::Other,
    }
}

} // verus!
