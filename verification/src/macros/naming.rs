//! Names of the items that the macros generate.

use vstd::prelude::*;
use vstd::string::*;

verus! {

/// The prefix of the factory generated for a singleton provider.
pub open spec fn singleton_prefix() -> Seq<char> {
    "SingletonFactory"@
}

/// The prefix of the factory generated for a scoped provider.
pub open spec fn scoped_prefix() -> Seq<char> {
    "ScopedFactory"@
}

/// The prefix of the factory generated for a static provider.
pub open spec fn static_prefix() -> Seq<char> {
    "StaticFactory"@
}

/// `FACTORY_PREFIX_SINGLETON` of the generated code.
pub fn factory_prefix_singleton() -> (r: &'static str)
    ensures
        r@ == singleton_prefix(),
{
    "SingletonFactory"
}

/// `FACTORY_PREFIX_SCOPED` of the generated code.
pub fn factory_prefix_scoped() -> (r: &'static str)
    ensures
        r@ == scoped_prefix(),
{
    "ScopedFactory"
}

/// `FACTORY_PREFIX_STATIC` of the generated code.
pub fn factory_prefix_static() -> (r: &'static str)
    ensures
        r@ == static_prefix(),
{
    "StaticFactory"
}

/// The name of a generated component item: `Dirk`, the trait's name, then
/// the suffix.
pub open spec fn dirk_name(base: Seq<char>, suffix: Seq<char>) -> Seq<char> {
    "Dirk"@ + base + suffix
}

/// Builds `Dirk{base}{suffix}`, with an empty suffix where none is given.
pub fn get_dirk_name(base: &String, suffix: Option<&str>) -> (r: String)
    ensures
        r@ == dirk_name(
            base@,
            match suffix {
                Some(s) => s@,
                None => Seq::<char>::empty(),
            },
        ),
{
    let suffix: &str = match suffix {
        Some(s) => s,
        None => "",
    };
    proof {
        reveal_strlit("");
    }
    let r = String::from_str("Dirk").concat(base.as_str()).concat(suffix);
    r
}

/// The name of the field or argument that holds the provider of `ident`.
pub open spec fn provider_name(ident: Seq<char>) -> Seq<char> {
    ident + "_provider"@
}

/// Builds `{ident}_provider`.
pub fn get_provider_name(ident: &String) -> (r: String)
    ensures
        r@ == provider_name(ident@),
{
    ident.clone().concat("_provider")
}

/// `prefix` directly followed by `ident`, as in `StaticFactoryEngine`.
pub fn prefixed(prefix: &str, ident: &String) -> (r: String)
    ensures
        r@ == prefix@ + ident@,
{
    String::from_str(prefix).concat(ident.as_str())
}

/// `prefix`, `ident` and `postfix` in a row, as in `DirkCarBuilder`.
pub fn surrounded(prefix: &str, ident: &String, postfix: &str) -> (r: String)
    ensures
        r@ == prefix@ + ident@ + postfix@,
{
    String::from_str(prefix).concat(ident.as_str()).concat(postfix)
}

/// The decimal digits of `n`, most significant first.
pub open spec fn decimal(n: nat) -> Seq<char>
    decreases n,
{
    if n < 10 {
        seq![digit_char(n)]
    } else {
        decimal(n / 10).push(digit_char(n % 10))
    }
}

/// The character of a decimal digit.
pub open spec fn digit_char(d: nat) -> char {
    if d == 0 { '0' }
    else if d == 1 { '1' }
    else if d == 2 { '2' }
    else if d == 3 { '3' }
    else if d == 4 { '4' }
    else if d == 5 { '5' }
    else if d == 6 { '6' }
    else if d == 7 { '7' }
    else if d == 8 { '8' }
    else { '9' }
}

fn digit_str(d: usize) -> (r: &'static str)
    requires
        d < 10,
    ensures
        r@ == seq![digit_char(d as nat)],
{
    proof {
        reveal_strlit("0");
        reveal_strlit("1");
        reveal_strlit("2");
        reveal_strlit("3");
        reveal_strlit("4");
        reveal_strlit("5");
        reveal_strlit("6");
        reveal_strlit("7");
        reveal_strlit("8");
        reveal_strlit("9");
    }
    if d == 0 { "0" }
    else if d == 1 { "1" }
    else if d == 2 { "2" }
    else if d == 3 { "3" }
    else if d == 4 { "4" }
    else if d == 5 { "5" }
    else if d == 6 { "6" }
    else if d == 7 { "7" }
    else if d == 8 { "8" }
    else { "9" }
}

/// Writes `n` in decimal.
pub fn to_decimal(n: usize) -> (r: String)
    ensures
        r@ == decimal(n as nat),
    decreases n,
{
    if n < 10 {
        String::from_str(digit_str(n))
    } else {
        let head = to_decimal(n / 10);
        let r = head.concat(digit_str(n % 10));
        r
    }
}

/// The type parameter that stands for the state of another instance binding
/// in a partial builder impl: `S` and the binding's position.
pub open spec fn opaque_param_name(index: nat) -> Seq<char> {
    "S"@ + decimal(index)
}

/// Builds `S{index}`.
pub fn get_opaque_param_name(index: usize) -> (r: String)
    ensures
        r@ == opaque_param_name(index as nat),
{
    String::from_str("S").concat(to_decimal(index).as_str())
}

/// Different bindings get different provider fields: the provider name
/// determines the binding's name.
pub proof fn lemma_provider_name_injective(a: Seq<char>, b: Seq<char>)
    requires
        provider_name(a) == provider_name(b),
    ensures
        a == b,
{
    reveal_strlit("_provider");
    assert(provider_name(a).len() == a.len() + "_provider"@.len());
    assert(provider_name(b).len() == b.len() + "_provider"@.len());
    assert(a.len() == b.len());
    assert forall|i: int| 0 <= i < a.len() implies a[i] == b[i] by {
        assert(provider_name(a)[i] == a[i]);
        assert(provider_name(b)[i] == b[i]);
    }
    assert(a =~= b);
}

/// Different traits get different generated names for the same suffix.
pub proof fn lemma_dirk_name_injective(a: Seq<char>, b: Seq<char>, suffix: Seq<char>)
    requires
        dirk_name(a, suffix) == dirk_name(b, suffix),
    ensures
        a == b,
{
    reveal_strlit("Dirk");
    let p = "Dirk"@;
    assert(dirk_name(a, suffix).len() == p.len() + a.len() + suffix.len());
    assert(dirk_name(b, suffix).len() == p.len() + b.len() + suffix.len());
    assert(a.len() == b.len());
    assert forall|i: int| 0 <= i < a.len() implies a[i] == b[i] by {
        assert(dirk_name(a, suffix)[p.len() + i] == a[i]);
        assert(dirk_name(b, suffix)[p.len() + i] == b[i]);
    }
    assert(a =~= b);
}

} // verus!
