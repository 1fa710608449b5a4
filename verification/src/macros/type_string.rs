//! Turning a type into a string that can stand in an identifier, as the
//! `inject` macro names what it generates after the injected type.

use vstd::prelude::*;
use vstd::string::*;

use crate::macros::casing::{to_uppercase, uppercase};
use crate::macros::syntax::{
    bound_view, bounds_view, generic_arg_view, generic_args_view, lemma_bounds_view_index,
    lemma_generic_args_view_index, lemma_segments_view_index, lemma_types_view_index, segment_view, segments_view, type_view, types_view, Bound, BoundV, GenericArg, GenericArgV, PathArgs,
    PathArgsV, Segment, SegmentV, TypeModel, TypeV,
};

verus! {

/// Why a type cannot be turned into a string.
#[derive(Clone, Copy, Debug, PartialEq, Eq, Structural)]
pub enum StringifyError {
    /// `_` in place of a type.
    TypeInferenceNotSupported,
    /// An associated type or constant, or a constraint, as a generic argument.
    UnsupportedGenericArg,
    /// A kind of type that has no string: a `fn` pointer, an `impl <trait>`,
    /// a macro, `!`, a type with a qualified self, parenthesized arguments.
    UnsupportedType,
    /// A bound that is neither a trait nor a lifetime.
    UnsupportedTypeParamBound,
}

/// The string of a type, or why there is none. `Err(None)` stands for a
/// construct the macro stops on without an answer: a `const` generic
/// argument, or a bound of a kind the macro does not know.
pub type Stringified = Result<Seq<char>, Option<StringifyError>>;

/// `pre`, the string, `post`; an error stays.
pub open spec fn surround(r: Stringified, pre: Seq<char>, post: Seq<char>) -> Stringified {
    match r {
        Ok(s) => Ok(pre + s + post),
        Err(e) => Err(e),
    }
}

/// The string of a type:
/// `[T]`-like arrays `_a_T_a_`, groups `_g_T_`, parentheses nothing,
/// references `_r_T`, pointers `_p_T`, slices `_s_T`, trait objects `_b_`
/// and each bound, tuples `_t_` before each element and at the end, paths
/// `_` and the name of each segment, followed by its arguments.
pub open spec fn stringify_type(t: TypeV) -> Stringified
    decreases t, 0int,
{
    match t {
        TypeV::Array(e) => surround(stringify_type(*e), "_a_"@, "_a_"@),
        TypeV::BareFn => Err(Some(StringifyError::UnsupportedType)),
        TypeV::Group(e) => surround(stringify_type(*e), "_g_"@, "_"@),
        TypeV::ImplTrait(_) => Err(Some(StringifyError::UnsupportedType)),
        TypeV::Infer => Err(Some(StringifyError::TypeInferenceNotSupported)),
        TypeV::Macro => Err(Some(StringifyError::UnsupportedType)),
        TypeV::Never => Err(Some(StringifyError::UnsupportedType)),
        TypeV::Paren(e) => stringify_type(*e),
        TypeV::Path { qself, path } => if qself {
            Err(Some(StringifyError::UnsupportedType))
        } else {
            stringify_segments(path.segments)
        },
        TypeV::Ptr(e) => surround(stringify_type(*e), "_p_"@, Seq::empty()),
        TypeV::Reference(e) => surround(stringify_type(*e), "_r_"@, Seq::empty()),
        TypeV::Slice(e) => surround(stringify_type(*e), "_s_"@, Seq::empty()),
        TypeV::TraitObject(bs) => stringify_bounds(bs),
        TypeV::Tuple(ts) => surround(stringify_tuple(ts), Seq::empty(), "_t_"@),
        TypeV::Verbatim => Err(Some(StringifyError::UnsupportedType)),
    }
}

/// `_t_` and the string of each type, in order; the first error stops it.
pub open spec fn stringify_tuple(ts: Seq<TypeV>) -> Stringified
    decreases ts, 1int,
{
    if ts.len() == 0 {
        Ok(Seq::empty())
    } else {
        match stringify_tuple(ts.drop_last()) {
            Err(e) => Err(e),
            Ok(acc) => surround(stringify_type(ts.last()), acc + "_t_"@, Seq::empty()),
        }
    }
}

/// The strings of the segments of a path, in order.
pub open spec fn stringify_segments(segs: Seq<SegmentV>) -> Stringified
    decreases segs, 1int,
{
    if segs.len() == 0 {
        Ok(Seq::empty())
    } else {
        match stringify_segments(segs.drop_last()) {
            Err(e) => Err(e),
            Ok(acc) => surround(stringify_segment(segs.last()), acc, Seq::empty()),
        }
    }
}

/// `_`, the segment's name, then its arguments.
pub open spec fn stringify_segment(seg: SegmentV) -> Stringified
    decreases seg, 0int,
{
    surround(stringify_path_args(seg.args), "_"@ + seg.ident, Seq::empty())
}

/// The arguments of a segment: nothing, or the strings of the
/// angle-bracketed arguments one after the other.
pub open spec fn stringify_path_args(a: PathArgsV) -> Stringified
    decreases a, 0int,
{
    match a {
        PathArgsV::Empty => Ok(Seq::empty()),
        PathArgsV::AngleBracketed(args) => stringify_args(args),
        PathArgsV::Parenthesized => Err(Some(StringifyError::UnsupportedType)),
    }
}

/// The strings of generic arguments, one after the other.
pub open spec fn stringify_args(args: Seq<GenericArgV>) -> Stringified
    decreases args, 1int,
{
    if args.len() == 0 {
        Ok(Seq::empty())
    } else {
        match stringify_args(args.drop_last()) {
            Err(e) => Err(e),
            Ok(acc) => surround(stringify_arg(args.last()), acc, Seq::empty()),
        }
    }
}

/// The string of a generic argument: a type's string, nothing for a
/// lifetime.
pub open spec fn stringify_arg(a: GenericArgV) -> Stringified
    decreases a, 0int,
{
    match a {
        GenericArgV::Type(t) => stringify_type(t),
        GenericArgV::Lifetime(_) => Ok(Seq::empty()),
        GenericArgV::Const => Err(None),
        _ => Err(Some(StringifyError::UnsupportedGenericArg)),
    }
}

/// `_` and the upper-cased name of each segment.
pub open spec fn upper_segments(segs: Seq<SegmentV>) -> Seq<char>
    decreases segs.len(),
{
    if segs.len() == 0 {
        Seq::empty()
    } else {
        upper_segments(segs.drop_last()) + "_"@ + uppercase(segs.last().ident)
    }
}

/// The string of a bound: a trait's path with upper-cased names, nothing
/// for a lifetime.
pub open spec fn stringify_bound(b: BoundV) -> Stringified {
    match b {
        BoundV::Trait(p) => Ok(upper_segments(p.segments)),
        BoundV::Lifetime(_) => Ok(Seq::empty()),
        BoundV::Verbatim => Err(Some(StringifyError::UnsupportedTypeParamBound)),
        BoundV::Other => Err(None),
    }
}

/// `_b_` and the string of each bound, in order.
pub open spec fn stringify_bounds(bs: Seq<BoundV>) -> Stringified
    decreases bs.len(),
{
    if bs.len() == 0 {
        Ok(Seq::empty())
    } else {
        match stringify_bounds(bs.drop_last()) {
            Err(e) => Err(e),
            Ok(acc) => surround(stringify_bound(bs.last()), acc + "_b_"@, Seq::empty()),
        }
    }
}

// ---------------------------------------------------------------------------
// Errors stay
// ---------------------------------------------------------------------------

proof fn lemma_tuple_err_persists(s: Seq<TypeV>, i: nat, n: nat)
    requires
        i <= n <= s.len(),
        stringify_tuple(s.take(i as int)) is Err,
    ensures
        stringify_tuple(s.take(n as int)) == stringify_tuple(s.take(i as int)),
    decreases n - i,
{
    if i < n {
        lemma_tuple_err_persists(s, i, (n - 1) as nat);
        assert(s.take(n as int).drop_last() =~= s.take(n - 1));
    }
}

proof fn lemma_segments_err_persists(s: Seq<SegmentV>, i: nat, n: nat)
    requires
        i <= n <= s.len(),
        stringify_segments(s.take(i as int)) is Err,
    ensures
        stringify_segments(s.take(n as int)) == stringify_segments(s.take(i as int)),
    decreases n - i,
{
    if i < n {
        lemma_segments_err_persists(s, i, (n - 1) as nat);
        assert(s.take(n as int).drop_last() =~= s.take(n - 1));
    }
}

proof fn lemma_args_err_persists(s: Seq<GenericArgV>, i: nat, n: nat)
    requires
        i <= n <= s.len(),
        stringify_args(s.take(i as int)) is Err,
    ensures
        stringify_args(s.take(n as int)) == stringify_args(s.take(i as int)),
    decreases n - i,
{
    if i < n {
        lemma_args_err_persists(s, i, (n - 1) as nat);
        assert(s.take(n as int).drop_last() =~= s.take(n - 1));
    }
}

proof fn lemma_bounds_err_persists(s: Seq<BoundV>, i: nat, n: nat)
    requires
        i <= n <= s.len(),
        stringify_bounds(s.take(i as int)) is Err,
    ensures
        stringify_bounds(s.take(n as int)) == stringify_bounds(s.take(i as int)),
    decreases n - i,
{
    if i < n {
        lemma_bounds_err_persists(s, i, (n - 1) as nat);
        assert(s.take(n as int).drop_last() =~= s.take(n - 1));
    }
}

// ---------------------------------------------------------------------------
// Executable
// ---------------------------------------------------------------------------

/// A result agrees with a stringified result that is an answer.
pub open spec fn agrees_str(r: Result<String, StringifyError>, s: Stringified) -> bool {
    match r {
        Ok(x) => s == Ok::<Seq<char>, Option<StringifyError>>(x@),
        Err(e) => s == Err::<Seq<char>, Option<StringifyError>>(Some(e)),
    }
}

/// `pre`, `s`, `post` as a string.
fn around(pre: &str, s: String, post: &str) -> (r: String)
    ensures
        r@ == pre@ + s@ + post@,
{
    String::from_str(pre).concat(s.as_str()).concat(post)
}

impl TypeModel {
    /// The string of the type (see [`stringify_type`]).
    pub fn stringify(&self) -> (r: Result<String, StringifyError>)
        requires
            stringify_type(self@) != Err::<Seq<char>, Option<StringifyError>>(None),
        ensures
            agrees_str(r, stringify_type(self@)),
        decreases self, 0int,
    {
        proof {
            reveal_strlit("");
            assert(""@ =~= Seq::<char>::empty());
        }
        match self {
            TypeModel::Array(e) => {
                let s = e.stringify()?;
                Ok(around("_a_", s, "_a_"))
            },
            TypeModel::BareFn => Err(StringifyError::UnsupportedType),
            TypeModel::Group(e) => {
                let s = e.stringify()?;
                Ok(around("_g_", s, "_"))
            },
            TypeModel::ImplTrait(_) => Err(StringifyError::UnsupportedType),
            TypeModel::Infer => Err(StringifyError::TypeInferenceNotSupported),
            TypeModel::Macro => Err(StringifyError::UnsupportedType),
            TypeModel::Never => Err(StringifyError::UnsupportedType),
            TypeModel::Paren(e) => e.stringify(),
            TypeModel::Path { qself, path } => {
                if *qself {
                    Err(StringifyError::UnsupportedType)
                } else {
                    proof {
                        assert(self@ == TypeV::Path { qself: *qself, path: path@ });
                    }
                    stringify_segment_list(&path.segments)
                }
            },
            TypeModel::Ptr(e) => {
                let s = e.stringify()?;
                Ok(around("_p_", s, ""))
            },
            TypeModel::Reference(e) => {
                let s = e.stringify()?;
                Ok(around("_r_", s, ""))
            },
            TypeModel::Slice(e) => {
                let s = e.stringify()?;
                Ok(around("_s_", s, ""))
            },
            TypeModel::TraitObject(bs) => stringify_bound_list(bs),
            TypeModel::Tuple(ts) => {
                let s = stringify_type_list(ts)?;
                Ok(around("", s, "_t_"))
            },
            TypeModel::Verbatim => Err(StringifyError::UnsupportedType),
        }
    }
}

/// The string of the elements of a tuple (see [`stringify_tuple`]).
fn stringify_type_list(v: &Vec<TypeModel>) -> (r: Result<String, StringifyError>)
    requires
        stringify_tuple(types_view(v@)) != Err::<Seq<char>, Option<StringifyError>>(None),
    ensures
        agrees_str(r, stringify_tuple(types_view(v@))),
    decreases v, 1int,
{
    let ghost sv = types_view(v@);
    proof {
        lemma_types_view_index(v@);
        assert(sv.take(0) =~= Seq::<TypeV>::empty());
        assert(sv.take(sv.len() as int) =~= sv);
    }
    let mut acc = String::new();
    let mut i: usize = 0;
    while i < v.len()
        invariant
            i <= v@.len(),
            sv == types_view(v@),
            sv.len() == v@.len(),
            forall|k: int| 0 <= k < v@.len() ==> #[trigger] sv[k] == type_view(v@[k]),
            stringify_tuple(sv) != Err::<Seq<char>, Option<StringifyError>>(None),
            sv.take(sv.len() as int) == sv,
            stringify_tuple(sv.take(i as int)) == Ok::<Seq<char>, Option<StringifyError>>(acc@),
        decreases v@.len() - i,
    {
        proof {
            assert(sv.take(i + 1).drop_last() =~= sv.take(i as int));
            assert(sv.take(i + 1).last() == sv[i as int]);
            if stringify_type(sv[i as int]) is Err {
                lemma_tuple_err_persists(sv, (i + 1) as nat, sv.len());
            }
            assert(decreases_to!(v => v@[i as int])) by {
                broadcast use vstd::std_specs::vec::axiom_vec_index_decreases;
            }
        }
        match v[i].stringify() {
            Ok(s) => {
                acc = acc.concat("_t_").concat(s.as_str());
            },
            Err(e) => {
                return Err(e);
            },
        }
        i = i + 1;
    }
    Ok(acc)
}

/// The strings of the segments of a path (see [`stringify_segments`]).
fn stringify_segment_list(v: &Vec<Segment>) -> (r: Result<String, StringifyError>)
    requires
        stringify_segments(segments_view(v@)) != Err::<Seq<char>, Option<StringifyError>>(None),
    ensures
        agrees_str(r, stringify_segments(segments_view(v@))),
    decreases v, 1int,
{
    let ghost sv = segments_view(v@);
    proof {
        lemma_segments_view_index(v@);
        assert(sv.take(0) =~= Seq::<SegmentV>::empty());
        assert(sv.take(sv.len() as int) =~= sv);
    }
    let mut acc = String::new();
    let mut i: usize = 0;
    while i < v.len()
        invariant
            i <= v@.len(),
            sv == segments_view(v@),
            sv.len() == v@.len(),
            forall|k: int| 0 <= k < v@.len() ==> #[trigger] sv[k] == segment_view(v@[k]),
            stringify_segments(sv) != Err::<Seq<char>, Option<StringifyError>>(None),
            sv.take(sv.len() as int) == sv,
            stringify_segments(sv.take(i as int)) == Ok::<Seq<char>, Option<StringifyError>>(acc@),
        decreases v@.len() - i,
    {
        proof {
            assert(sv.take(i + 1).drop_last() =~= sv.take(i as int));
            assert(sv.take(i + 1).last() == sv[i as int]);
            if stringify_segment(sv[i as int]) is Err {
                lemma_segments_err_persists(sv, (i + 1) as nat, sv.len());
            }
            assert(decreases_to!(v => v@[i as int])) by {
                broadcast use vstd::std_specs::vec::axiom_vec_index_decreases;
            }
        }
        match stringify_one_segment(&v[i]) {
            Ok(s) => {
                acc = acc.concat(s.as_str());
            },
            Err(e) => {
                return Err(e);
            },
        }
        i = i + 1;
    }
    Ok(acc)
}

/// The string of a segment (see [`stringify_segment`]).
fn stringify_one_segment(seg: &Segment) -> (r: Result<String, StringifyError>)
    requires
        stringify_segment(seg@) != Err::<Seq<char>, Option<StringifyError>>(None),
    ensures
        agrees_str(r, stringify_segment(seg@)),
    decreases seg, 0int,
{
    proof {
        reveal_strlit("");
        assert(""@ =~= Seq::<char>::empty());
    }
    let args = stringify_path_arguments(&seg.args)?;
    let r = around("_", seg.ident.clone(), "").concat(args.as_str());
    proof {
        assert(r@ =~= "_"@ + seg@.ident + args@ + Seq::<char>::empty());
    }
    Ok(r)
}

/// The string of a segment's arguments (see [`stringify_path_args`]).
fn stringify_path_arguments(a: &PathArgs) -> (r: Result<String, StringifyError>)
    requires
        stringify_path_args(a@) != Err::<Seq<char>, Option<StringifyError>>(None),
    ensures
        agrees_str(r, stringify_path_args(a@)),
    decreases a, 0int,
{
    match a {
        PathArgs::Empty => Ok(String::new()),
        PathArgs::AngleBracketed(args) => stringify_arg_list(args),
        PathArgs::Parenthesized => Err(StringifyError::UnsupportedType),
    }
}

/// The strings of generic arguments (see [`stringify_args`]).
fn stringify_arg_list(v: &Vec<GenericArg>) -> (r: Result<String, StringifyError>)
    requires
        stringify_args(generic_args_view(v@)) != Err::<Seq<char>, Option<StringifyError>>(None),
    ensures
        agrees_str(r, stringify_args(generic_args_view(v@))),
    decreases v, 1int,
{
    let ghost sv = generic_args_view(v@);
    proof {
        lemma_generic_args_view_index(v@);
        assert(sv.take(0) =~= Seq::<GenericArgV>::empty());
        assert(sv.take(sv.len() as int) =~= sv);
    }
    let mut acc = String::new();
    let mut i: usize = 0;
    while i < v.len()
        invariant
            i <= v@.len(),
            sv == generic_args_view(v@),
            sv.len() == v@.len(),
            forall|k: int| 0 <= k < v@.len() ==> #[trigger] sv[k] == generic_arg_view(v@[k]),
            stringify_args(sv) != Err::<Seq<char>, Option<StringifyError>>(None),
            sv.take(sv.len() as int) == sv,
            stringify_args(sv.take(i as int)) == Ok::<Seq<char>, Option<StringifyError>>(acc@),
        decreases v@.len() - i,
    {
        proof {
            assert(sv.take(i + 1).drop_last() =~= sv.take(i as int));
            assert(sv.take(i + 1).last() == sv[i as int]);
            if stringify_arg(sv[i as int]) is Err {
                lemma_args_err_persists(sv, (i + 1) as nat, sv.len());
            }
            assert(decreases_to!(v => v@[i as int])) by {
                broadcast use vstd::std_specs::vec::axiom_vec_index_decreases;
            }
        }
        match stringify_argument(&v[i]) {
            Ok(s) => {
                acc = acc.concat(s.as_str());
            },
            Err(e) => {
                return Err(e);
            },
        }
        i = i + 1;
    }
    Ok(acc)
}

/// The string of a generic argument (see [`stringify_arg`]).
fn stringify_argument(a: &GenericArg) -> (r: Result<String, StringifyError>)
    requires
        stringify_arg(a@) != Err::<Seq<char>, Option<StringifyError>>(None),
    ensures
        agrees_str(r, stringify_arg(a@)),
    decreases a, 0int,
{
    match a {
        GenericArg::Type(t) => t.stringify(),
        GenericArg::Lifetime(_) => Ok(String::new()),
        GenericArg::Const => Err(StringifyError::UnsupportedGenericArg),
        _ => Err(StringifyError::UnsupportedGenericArg),
    }
}

/// The string of a trait path: `_` and the upper-cased name of each segment
/// (see [`upper_segments`]).
fn upper_segment_list(v: &Vec<Segment>) -> (r: String)
    ensures
        r@ == upper_segments(segments_view(v@)),
{
    let ghost sv = segments_view(v@);
    proof {
        lemma_segments_view_index(v@);
        assert(sv.take(0) =~= Seq::<SegmentV>::empty());
    }
    let mut acc = String::new();
    let mut i: usize = 0;
    while i < v.len()
        invariant
            i <= v@.len(),
            sv == segments_view(v@),
            sv.len() == v@.len(),
            forall|k: int| 0 <= k < v@.len() ==> #[trigger] sv[k] == segment_view(v@[k]),
            acc@ == upper_segments(sv.take(i as int)),
        decreases v@.len() - i,
    {
        proof {
            assert(sv.take(i + 1).drop_last() =~= sv.take(i as int));
            assert(sv.take(i + 1).last() == sv[i as int]);
        }
        let up = to_uppercase(v[i].ident.as_str());
        acc = acc.concat("_").concat(up.as_str());
        i = i + 1;
    }
    proof {
        assert(sv.take(i as int) =~= sv);
    }
    acc
}

/// The string of a bound (see [`stringify_bound`]).
fn stringify_one_bound(b: &Bound) -> (r: Result<String, StringifyError>)
    requires
        stringify_bound(b@) != Err::<Seq<char>, Option<StringifyError>>(None),
    ensures
        agrees_str(r, stringify_bound(b@)),
{
    match b {
        Bound::Trait(p) => Ok(upper_segment_list(&p.segments)),
        Bound::Lifetime(_) => Ok(String::new()),
        Bound::Verbatim => Err(StringifyError::UnsupportedTypeParamBound),
        Bound::Other => Err(StringifyError::UnsupportedTypeParamBound),
    }
}

/// The string of the bounds of a trait object (see [`stringify_bounds`]).
fn stringify_bound_list(v: &Vec<Bound>) -> (r: Result<String, StringifyError>)
    requires
        stringify_bounds(bounds_view(v@)) != Err::<Seq<char>, Option<StringifyError>>(None),
    ensures
        agrees_str(r, stringify_bounds(bounds_view(v@))),
{
    let ghost sv = bounds_view(v@);
    proof {
        lemma_bounds_view_index(v@);
        assert(sv.take(0) =~= Seq::<BoundV>::empty());
        assert(sv.take(sv.len() as int) =~= sv);
    }
    let mut acc = String::new();
    let mut i: usize = 0;
    while i < v.len()
        invariant
            i <= v@.len(),
            sv == bounds_view(v@),
            sv.len() == v@.len(),
            forall|k: int| 0 <= k < v@.len() ==> #[trigger] sv[k] == bound_view(v@[k]),
            stringify_bounds(sv) != Err::<Seq<char>, Option<StringifyError>>(None),
            sv.take(sv.len() as int) == sv,
            stringify_bounds(sv.take(i as int)) == Ok::<Seq<char>, Option<StringifyError>>(acc@),
        decreases v@.len() - i,
    {
        proof {
            assert(sv.take(i + 1).drop_last() =~= sv.take(i as int));
            assert(sv.take(i + 1).last() == sv[i as int]);
            if stringify_bound(sv[i as int]) is Err {
                lemma_bounds_err_persists(sv, (i + 1) as nat, sv.len());
            }
        }
        match stringify_one_bound(&v[i]) {
            Ok(s) => {
                acc = acc.concat("_b_").concat(s.as_str());
            },
            Err(e) => {
                return Err(e);
            },
        }
        i = i + 1;
    }
    Ok(acc)
}

} // verus!
