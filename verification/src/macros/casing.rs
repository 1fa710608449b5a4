//! Case conversions of identifiers, done by outside code.

use convert_case::{Case, Casing};
use vstd::prelude::*;

verus! {

/// What `convert_case`'s `to_case(Case::Pascal)` returns for a text.
pub uninterp spec fn pascal_case(s: Seq<char>) -> Seq<char>;

/// What std's `str::to_uppercase` returns for a text.
pub uninterp spec fn uppercase(s: Seq<char>) -> Seq<char>;

/// Calls `convert_case::Casing::to_case` with `Case::Pascal` on `s`.
/// The contract only names the result: it is a function of `s` alone.
#[verifier::external_body]
pub(crate) fn to_pascal_case(s: &str) -> (r: String)
    ensures
        r@ == pascal_case(s@),
{
    s.to_case(Case::Pascal)
}

/// Calls std's `str::to_uppercase` on `s`.
/// The contract only names the result: it is a function of `s` alone.
#[verifier::external_body]
pub(crate) fn to_uppercase(s: &str) -> (r: String)
    ensures
        r@ == uppercase(s@),
{
    s.to_uppercase()
}

} // verus!
