//! The arguments of the macros' attributes, read from their tokens: the
//! kind of provider of `provides` and `use_provides`, and the list of
//! bindings of `component`.

use vstd::prelude::*;

use crate::macros::binding::{str_equal, AutomaticKind, ManualKind};
use crate::macros::provides::{lemma_prefixes_distinct, provides_prefix, ProvidesMacroInput};
use crate::macros::use_tree::{use_inject_prefix, UseInjectMacroInput};

verus! {

/// The delimiter of a token group.
#[derive(Clone, Copy, Debug, PartialEq, Eq, Structural)]
pub enum Delim {
    Paren,
    Bracket,
    Brace,
    Invisible,
}

/// A token of an attribute's arguments.
pub enum TokenModel {
    Ident(String),
    Punct(char),
    Literal(String),
    Group { delim: Delim, tokens: Vec<TokenModel> },
}

/// The view of a [`TokenModel`].
pub enum TokenV {
    Ident(Seq<char>),
    Punct(char),
    Literal(Seq<char>),
    Group { delim: Delim, tokens: Seq<TokenV> },
}

pub open spec fn token_view(t: TokenModel) -> TokenV
    decreases t, 0int,
{
    match t {
        TokenModel::Ident(s) => TokenV::Ident(s@),
        TokenModel::Punct(c) => TokenV::Punct(c),
        TokenModel::Literal(s) => TokenV::Literal(s@),
        TokenModel::Group { delim, tokens } => TokenV::Group { delim, tokens: tokens_view(tokens@) },
    }
}

pub open spec fn tokens_view(s: Seq<TokenModel>) -> Seq<TokenV>
    decreases s, 1int,
{
    if s.len() == 0 {
        Seq::empty()
    } else {
        tokens_view(s.drop_last()).push(token_view(s.last()))
    }
}

impl View for TokenModel {
    type V = TokenV;

    open spec fn view(&self) -> TokenV {
        token_view(*self)
    }
}

/// The view of a list of tokens has one element per token.
pub proof fn lemma_tokens_view_index(s: Seq<TokenModel>)
    ensures
        tokens_view(s).len() == s.len(),
        forall|i: int| 0 <= i < s.len() ==> #[trigger] tokens_view(s)[i] == token_view(s[i]),
    decreases s.len(),
{
    if s.len() > 0 {
        lemma_tokens_view_index(s.drop_last());
    }
}

/// Why an attribute's arguments cannot be read.
#[derive(Clone, Copy, Debug, PartialEq, Eq, Structural)]
pub enum AttrError {
    /// An identifier was expected (keywords and `_` are not identifiers).
    ExpectedIdent,
    /// `:` was expected.
    ExpectedColon,
    /// A keyword naming the kind of a binding or provider was expected.
    ExpectedKind,
    /// A parenthesized type was expected.
    ExpectedParens,
    /// `,` was expected.
    ExpectedComma,
    /// The arguments go on where they should have ended.
    UnexpectedToken,
}

// ---------------------------------------------------------------------------
// The kind of provider
// ---------------------------------------------------------------------------

/// The kind of provider an attribute names: none for no arguments, which
/// means a static provider.
pub open spec fn provider_kind_spec(ts: Seq<TokenV>) -> Result<ProvidesMacroInput, AttrError> {
    if ts.len() == 0 {
        Ok(ProvidesMacroInput::Static)
    } else if ts.len() > 1 {
        if ts[0] matches TokenV::Ident(k) && (k == "singleton_inject"@ || k == "scoped_inject"@ || k
            == "static_inject"@) {
            Err(AttrError::UnexpectedToken)
        } else {
            Err(AttrError::ExpectedKind)
        }
    } else {
        match ts[0] {
            TokenV::Ident(k) => if k == "singleton_inject"@ {
                Ok(ProvidesMacroInput::Singleton)
            } else if k == "scoped_inject"@ {
                Ok(ProvidesMacroInput::Scoped)
            } else if k == "static_inject"@ {
                Ok(ProvidesMacroInput::Static)
            } else {
                Err(AttrError::ExpectedKind)
            },
            _ => Err(AttrError::ExpectedKind),
        }
    }
}

/// The kind of provider named by a keyword, if it is one.
fn provider_keyword(k: &String) -> (r: Option<ProvidesMacroInput>)
    ensures
        r == (if k@ == "singleton_inject"@ {
            Some(ProvidesMacroInput::Singleton)
        } else if k@ == "scoped_inject"@ {
            Some(ProvidesMacroInput::Scoped)
        } else if k@ == "static_inject"@ {
            Some(ProvidesMacroInput::Static)
        } else {
            None
        }),
{
    if str_equal(k, "singleton_inject") {
        Some(ProvidesMacroInput::Singleton)
    } else if str_equal(k, "scoped_inject") {
        Some(ProvidesMacroInput::Scoped)
    } else if str_equal(k, "static_inject") {
        Some(ProvidesMacroInput::Static)
    } else {
        None
    }
}

impl ProvidesMacroInput {
    /// Reads the argument of `provides` (see [`provider_kind_spec`]).
    pub fn parse(ts: &Vec<TokenModel>) -> (r: Result<ProvidesMacroInput, AttrError>)
        ensures
            r == provider_kind_spec(tokens_view(ts@)),
    {
        proof {
            lemma_tokens_view_index(ts@);
        }
        if ts.len() == 0 {
            return Ok(ProvidesMacroInput::Static);
        }
        let kind = match &ts[0] {
            TokenModel::Ident(k) => provider_keyword(k),
            _ => None,
        };
        match kind {
            None => Err(AttrError::ExpectedKind),
            Some(k) => if ts.len() > 1 {
                Err(AttrError::UnexpectedToken)
            } else {
                Ok(k)
            },
        }
    }
}

/// The same kind, for `use_provides`.
pub open spec fn use_kind(k: ProvidesMacroInput) -> UseInjectMacroInput {
    match k {
        ProvidesMacroInput::Singleton => UseInjectMacroInput::Singleton,
        ProvidesMacroInput::Scoped => UseInjectMacroInput::Scoped,
        ProvidesMacroInput::Static => UseInjectMacroInput::Static,
    }
}

/// The keyword that names each binding kind in `#[component(...)]`.
pub open spec fn keyword_name(k: BindingKeyword) -> Seq<char> {
    match k {
        BindingKeyword::Automatic(AutomaticKind::Singleton) => "singleton_bind"@,
        BindingKeyword::Automatic(AutomaticKind::Scoped) => "scoped_bind"@,
        BindingKeyword::Automatic(AutomaticKind::Static) => "static_bind"@,
        BindingKeyword::Manual(ManualKind::ClonedInstance) => "cloned_instance_bind"@,
        BindingKeyword::Manual(ManualKind::ScopedInstance) => "scoped_instance_bind"@,
    }
}

/// Each binding keyword is read as the kind it names, and nothing else is a
/// keyword: a name is read as the kind `b` exactly where it is `b`'s
/// keyword; so distinct keywords give distinct kinds.
pub proof fn lemma_binding_keywords_read_back(name: Seq<char>, b: BindingKeyword)
    ensures
        binding_keyword_spec(name) == Some(b) <==> name == keyword_name(b),
{
    reveal_strlit("singleton_bind");
    reveal_strlit("scoped_bind");
    reveal_strlit("static_bind");
    reveal_strlit("cloned_instance_bind");
    reveal_strlit("scoped_instance_bind");
    let s1 = "singleton_bind"@;
    let s2 = "scoped_bind"@;
    let s3 = "static_bind"@;
    let s4 = "cloned_instance_bind"@;
    let s5 = "scoped_instance_bind"@;
    assert(s1.len() != s2.len() && s1.len() != s3.len() && s1.len() != s4.len() && s1.len() != s5.len());
    assert(s2[1] != s3[1]);
    assert(s2.len() != s4.len() && s2.len() != s5.len());
    assert(s3.len() != s4.len() && s3.len() != s5.len());
    assert(s4[0] != s5[0]);
}

/// `use_provides` imports the factories that `provides` generates: for
/// each kind, the prefix that `use_provides` adds is the prefix of the
/// factories `provides` names, and distinct kinds have distinct prefixes.
pub proof fn lemma_use_provides_prefix(k: ProvidesMacroInput, l: ProvidesMacroInput)
    ensures
        use_inject_prefix(use_kind(k)) == provides_prefix(k),
        k != l ==> use_inject_prefix(use_kind(k)) != use_inject_prefix(use_kind(l)),
{
    lemma_prefixes_distinct();
}

impl UseInjectMacroInput {
    /// Reads the argument of `use_provides`, which is that of `provides`.
    pub fn parse(ts: &Vec<TokenModel>) -> (r: Result<UseInjectMacroInput, AttrError>)
        ensures
            match provider_kind_spec(tokens_view(ts@)) {
                Ok(k) => r == Ok::<UseInjectMacroInput, AttrError>(use_kind(k)),
                Err(e) => r == Err::<UseInjectMacroInput, AttrError>(e),
            },
    {
        match ProvidesMacroInput::parse(ts) {
            Ok(ProvidesMacroInput::Singleton) => Ok(UseInjectMacroInput::Singleton),
            Ok(ProvidesMacroInput::Scoped) => Ok(UseInjectMacroInput::Scoped),
            Ok(ProvidesMacroInput::Static) => Ok(UseInjectMacroInput::Static),
            Err(e) => Err(e),
        }
    }
}

/// `use_component` takes no arguments.
pub fn parse_use_component(ts: &Vec<TokenModel>) -> (r: Result<(), AttrError>)
    ensures
        r is Ok <==> ts@.len() == 0,
        r is Err ==> r == Err::<(), AttrError>(AttrError::UnexpectedToken),
{
    if ts.len() == 0 {
        Ok(())
    } else {
        Err(AttrError::UnexpectedToken)
    }
}

// ---------------------------------------------------------------------------
// Bindings
// ---------------------------------------------------------------------------

/// Rust's keywords and `_`, which are not identifiers.
pub open spec fn is_reserved(s: Seq<char>) -> bool {
    ||| s == "_"@ || s == "abstract"@ || s == "as"@ || s == "async"@ || s == "await"@
    ||| s == "become"@ || s == "box"@ || s == "break"@ || s == "const"@ || s == "continue"@
    ||| s == "crate"@ || s == "do"@ || s == "dyn"@ || s == "else"@ || s == "enum"@
    ||| s == "extern"@ || s == "false"@ || s == "final"@ || s == "fn"@ || s == "for"@
    ||| s == "if"@ || s == "impl"@ || s == "in"@ || s == "let"@ || s == "loop"@
    ||| s == "macro"@ || s == "match"@ || s == "mod"@ || s == "move"@ || s == "mut"@
    ||| s == "override"@ || s == "priv"@ || s == "pub"@ || s == "ref"@ || s == "return"@
    ||| s == "Self"@ || s == "self"@ || s == "static"@ || s == "struct"@ || s == "super"@
    ||| s == "trait"@ || s == "true"@ || s == "try"@ || s == "type"@ || s == "typeof"@
    ||| s == "unsafe"@ || s == "unsized"@ || s == "use"@ || s == "virtual"@ || s == "where"@
    ||| s == "while"@ || s == "yield"@
}

/// Whether the name is reserved (see [`is_reserved`]).
fn reserved(s: &String) -> (r: bool)
    ensures
        r == is_reserved(s@),
{
    str_equal(s, "_") || str_equal(s, "abstract") || str_equal(s, "as") || str_equal(s, "async")
        || str_equal(s, "await") || str_equal(s, "become") || str_equal(s, "box") || str_equal(s, "break")
        || str_equal(s, "const") || str_equal(s, "continue") || str_equal(s, "crate") || str_equal(s, "do")
        || str_equal(s, "dyn") || str_equal(s, "else") || str_equal(s, "enum") || str_equal(s, "extern")
        || str_equal(s, "false") || str_equal(s, "final") || str_equal(s, "fn") || str_equal(s, "for")
        || str_equal(s, "if") || str_equal(s, "impl") || str_equal(s, "in") || str_equal(s, "let")
        || str_equal(s, "loop") || str_equal(s, "macro") || str_equal(s, "match") || str_equal(s, "mod")
        || str_equal(s, "move") || str_equal(s, "mut") || str_equal(s, "override") || str_equal(s, "priv")
        || str_equal(s, "pub") || str_equal(s, "ref") || str_equal(s, "return") || str_equal(s, "Self")
        || str_equal(s, "self") || str_equal(s, "static") || str_equal(s, "struct") || str_equal(s, "super")
        || str_equal(s, "trait") || str_equal(s, "true") || str_equal(s, "try") || str_equal(s, "type")
        || str_equal(s, "typeof") || str_equal(s, "unsafe") || str_equal(s, "unsized") || str_equal(s, "use")
        || str_equal(s, "virtual") || str_equal(s, "where") || str_equal(s, "while") || str_equal(s, "yield")
}

/// The token is an identifier that is not reserved.
pub open spec fn is_plain_ident(t: TokenV) -> bool {
    t matches TokenV::Ident(s) && !is_reserved(s)
}

/// The kind a binding keyword names.
#[derive(Clone, Copy, Debug)]
pub enum BindingKeyword {
    Automatic(AutomaticKind),
    Manual(ManualKind),
}

/// The kind a binding keyword names, if the name is one.
pub open spec fn binding_keyword_spec(k: Seq<char>) -> Option<BindingKeyword> {
    if k == "singleton_bind"@ {
        Some(BindingKeyword::Automatic(AutomaticKind::Singleton))
    } else if k == "scoped_bind"@ {
        Some(BindingKeyword::Automatic(AutomaticKind::Scoped))
    } else if k == "static_bind"@ {
        Some(BindingKeyword::Automatic(AutomaticKind::Static))
    } else if k == "cloned_instance_bind"@ {
        Some(BindingKeyword::Manual(ManualKind::ClonedInstance))
    } else if k == "scoped_instance_bind"@ {
        Some(BindingKeyword::Manual(ManualKind::ScopedInstance))
    } else {
        None
    }
}

/// A binding as written: its name, kind, the position of the parenthesized
/// group that holds its type among the attribute's tokens, and for a
/// provided binding its dependencies, where a bracketed list follows.
#[derive(Debug)]
pub struct BindingSyntax {
    pub ident: String,
    pub kind: BindingKeyword,
    pub ty_group: usize,
    pub dependencies: Option<Vec<String>>,
}

/// The view of a [`BindingSyntax`].
pub struct BindingSyntaxV {
    pub ident: Seq<char>,
    pub kind: BindingKeyword,
    pub ty_group: int,
    pub dependencies: Option<Seq<Seq<char>>>,
}

impl View for BindingSyntax {
    type V = BindingSyntaxV;

    open spec fn view(&self) -> BindingSyntaxV {
        BindingSyntaxV {
            ident: self.ident@,
            kind: self.kind,
            ty_group: self.ty_group as int,
            dependencies: match self.dependencies {
                Some(d) => Some(d@.map_values(|s: String| s@)),
                None => None,
            },
        }
    }
}

/// The identifiers of a bracketed list from position `i` on: identifiers
/// separated by commas, a trailing comma allowed.
pub open spec fn idents_from(ts: Seq<TokenV>, i: nat) -> Result<Seq<Seq<char>>, AttrError>
    decreases ts.len() - i,
{
    if i >= ts.len() {
        Ok(Seq::empty())
    } else if !is_plain_ident(ts[i as int]) {
        Err(AttrError::ExpectedIdent)
    } else if i + 1 >= ts.len() {
        Ok(seq![ts[i as int]->Ident_0])
    } else if ts[i + 1int] != TokenV::Punct(',') {
        Err(AttrError::ExpectedComma)
    } else {
        match idents_from(ts, i + 2) {
            Ok(rest) => Ok(seq![ts[i as int]->Ident_0] + rest),
            Err(e) => Err(e),
        }
    }
}

/// The kind a token names, if it is a binding keyword.
pub open spec fn token_keyword(t: TokenV) -> Option<BindingKeyword> {
    match t {
        TokenV::Ident(k) => binding_keyword_spec(k),
        _ => None,
    }
}

/// The token is a group with the delimiter `d`.
pub open spec fn is_group(t: TokenV, d: Delim) -> bool {
    match t {
        TokenV::Group { delim, .. } => delim == d,
        _ => false,
    }
}

/// The number of tokens the binding at position `i` spans: name, `:`,
/// kind, the parenthesized type, and for a provided binding the bracketed
/// dependencies where they follow.
pub open spec fn binding_len(ts: Seq<TokenV>, i: int) -> nat {
    if i + 4 < ts.len() && (token_keyword(ts[i + 2]) matches Some(BindingKeyword::Automatic(_))) && is_group(
        ts[i + 4],
        Delim::Bracket,
    ) {
        5
    } else {
        4
    }
}

/// The binding at position `i`, or why it cannot be read.
pub open spec fn binding_at(ts: Seq<TokenV>, i: int) -> Result<BindingSyntaxV, AttrError> {
    if i >= ts.len() || !is_plain_ident(ts[i]) {
        Err(AttrError::ExpectedIdent)
    } else if i + 1 >= ts.len() || ts[i + 1] != TokenV::Punct(':') {
        Err(AttrError::ExpectedColon)
    } else if i + 2 >= ts.len() || token_keyword(ts[i + 2]) is None {
        Err(AttrError::ExpectedKind)
    } else if i + 3 >= ts.len() || !is_group(ts[i + 3], Delim::Paren) {
        Err(AttrError::ExpectedParens)
    } else {
        let kind = token_keyword(ts[i + 2])->Some_0;
        match kind {
            BindingKeyword::Manual(_) => Ok(
                BindingSyntaxV { ident: ts[i]->Ident_0, kind, ty_group: i + 3, dependencies: None },
            ),
            BindingKeyword::Automatic(_) => if binding_len(ts, i) == 5 {
                match idents_from(ts[i + 4]->Group_tokens, 0) {
                    Ok(deps) => Ok(
                        BindingSyntaxV { ident: ts[i]->Ident_0, kind, ty_group: i + 3, dependencies: Some(deps) },
                    ),
                    Err(e) => Err(e),
                }
            } else {
                Ok(BindingSyntaxV { ident: ts[i]->Ident_0, kind, ty_group: i + 3, dependencies: Some(Seq::empty()) })
            },
        }
    }
}

/// The bindings from position `i` on: bindings separated by commas, a
/// trailing comma allowed.
pub open spec fn bindings_from(ts: Seq<TokenV>, i: nat) -> Result<Seq<BindingSyntaxV>, AttrError>
    decreases ts.len() - i,
{
    if i >= ts.len() {
        Ok(Seq::empty())
    } else {
        match binding_at(ts, i as int) {
            Err(e) => Err(e),
            Ok(b) => {
                let j = i + binding_len(ts, i as int);
                if j >= ts.len() {
                    Ok(seq![b])
                } else if ts[j as int] != TokenV::Punct(',') {
                    Err(AttrError::ExpectedComma)
                } else {
                    match bindings_from(ts, j + 1) {
                        Ok(rest) => Ok(seq![b] + rest),
                        Err(e) => Err(e),
                    }
                }
            },
        }
    }
}

/// The arguments of `component`: whether they start with the marker
/// `__inner ,` that the macro adds when it hands the trait on to itself,
/// then the bindings.
pub open spec fn component_attr_spec(ts: Seq<TokenV>) -> Result<(bool, Seq<BindingSyntaxV>), AttrError> {
    if ts.len() > 0 && ts[0] == TokenV::Ident("__inner"@) {
        if ts.len() < 2 || ts[1] != TokenV::Punct(',') {
            Err(AttrError::ExpectedComma)
        } else {
            match bindings_from(ts, 2) {
                Ok(bs) => Ok((true, bs)),
                Err(e) => Err(e),
            }
        }
    } else {
        match bindings_from(ts, 0) {
            Ok(bs) => Ok((false, bs)),
            Err(e) => Err(e),
        }
    }
}

/// The marker `__inner ,` that the `component` macro puts before the
/// bindings when it hands the trait on to itself.
pub open spec fn inner_marker() -> Seq<TokenV> {
    seq![TokenV::Ident("__inner"@), TokenV::Punct(',')]
}

/// A binding as written, read `k` tokens further on.
pub open spec fn shifted_syntax(b: BindingSyntaxV, k: int) -> BindingSyntaxV {
    BindingSyntaxV { ident: b.ident, kind: b.kind, ty_group: b.ty_group + k, dependencies: b.dependencies }
}

/// The bindings as written, read `k` tokens further on.
pub open spec fn shifted_syntaxes(bs: Seq<BindingSyntaxV>, k: int) -> Seq<BindingSyntaxV> {
    bs.map_values(|b: BindingSyntaxV| shifted_syntax(b, k))
}

/// Reading the bindings behind the marker reads the same bindings, two
/// tokens further on.
proof fn lemma_bindings_behind_marker(ts: Seq<TokenV>, i: nat)
    ensures
        bindings_from(inner_marker() + ts, i + 2) == match bindings_from(ts, i) {
            Ok(bs) => Ok(shifted_syntaxes(bs, 2)),
            Err(e) => Err::<Seq<BindingSyntaxV>, AttrError>(e),
        },
    decreases ts.len() - i,
{
    let t2 = inner_marker() + ts;
    assert(t2.len() == ts.len() + 2);
    assert forall|k: int| 0 <= k < ts.len() implies #[trigger] t2[k + 2] == ts[k] by {}
    if i < ts.len() {
        let ii = i as int;
        assert(binding_len(t2, ii + 2) == binding_len(ts, ii));
        assert(binding_at(t2, ii + 2) == match binding_at(ts, ii) {
            Ok(b) => Ok(shifted_syntax(b, 2)),
            Err(e) => Err::<BindingSyntaxV, AttrError>(e),
        });
        let j = i + binding_len(ts, ii);
        if j < ts.len() {
            lemma_bindings_behind_marker(ts, j + 1);
            assert(j + 2 + 1 == (j + 1) + 2);
        }
        match bindings_from(ts, i) {
            Ok(bs) => {
                match binding_at(ts, ii) {
                    Ok(b) => {
                        if j >= ts.len() {
                            assert(shifted_syntaxes(seq![b], 2) =~= seq![shifted_syntax(b, 2)]);
                        } else {
                            let rest = bindings_from(ts, j + 1)->Ok_0;
                            assert(shifted_syntaxes(seq![b] + rest, 2) =~= seq![shifted_syntax(b, 2)]
                                + shifted_syntaxes(rest, 2));
                        }
                    },
                    Err(_) => {},
                }
            },
            Err(_) => {},
        }
    } else {
        assert(shifted_syntaxes(Seq::<BindingSyntaxV>::empty(), 2) =~= Seq::<BindingSyntaxV>::empty());
    }
}

/// The arguments that the `component` macro hands on to itself, the marker
/// `__inner ,` followed by the arguments it was given, read back as the
/// same bindings: marked as handed on, with the same names, kinds and
/// dependencies, their types two tokens further on.
pub proof fn lemma_marked_arguments_read_back(ts: Seq<TokenV>, bs: Seq<BindingSyntaxV>)
    requires
        component_attr_spec(ts) == Ok::<_, AttrError>((false, bs)),
    ensures
        component_attr_spec(inner_marker() + ts) == Ok::<_, AttrError>((true, shifted_syntaxes(bs, 2))),
{
    let t2 = inner_marker() + ts;
    assert(t2[0] == TokenV::Ident("__inner"@));
    assert(t2[1] == TokenV::Punct(','));
    lemma_bindings_behind_marker(ts, 0);
}

/// The identifiers of a bracketed list (see [`idents_from`]).
fn parse_idents(ts: &Vec<TokenModel>) -> (r: Result<Vec<String>, AttrError>)
    ensures
        match r {
            Ok(v) => idents_from(tokens_view(ts@), 0) == Ok::<_, AttrError>(out_view(v@)),
            Err(e) => idents_from(tokens_view(ts@), 0) == Err::<Seq<Seq<char>>, _>(e),
        },
{
    let ghost tv = tokens_view(ts@);
    proof {
        lemma_tokens_view_index(ts@);
        assert(out_view(Seq::empty()) =~= Seq::<Seq<char>>::empty());
    }
    let mut out: Vec<String> = Vec::new();
    let mut i: usize = 0;
    while i < ts.len()
        invariant
            tv == tokens_view(ts@),
            tv.len() == ts@.len(),
            forall|k: int| 0 <= k < ts@.len() ==> #[trigger] tv[k] == token_view(ts@[k]),
            i <= ts@.len(),
            idents_from(tv, 0) == match idents_from(tv, i as nat) {
                Ok(rest) => Ok(out_view(out@) + rest),
                Err(e) => Err::<Seq<Seq<char>>, AttrError>(e),
            },
        decreases ts@.len() - i,
    {
        let name = match &ts[i] {
            TokenModel::Ident(s) => {
                if reserved(s) {
                    return Err(AttrError::ExpectedIdent);
                }
                s
            },
            _ => {
                return Err(AttrError::ExpectedIdent);
            },
        };
        let ghost before = out_view(out@);
        out.push(name.clone());
        proof {
            assert(out_view(out@) =~= before.push(name@));
        }
        if i + 1 >= ts.len() {
            proof {
                assert(idents_from(tv, i as nat) == Ok::<Seq<Seq<char>>, AttrError>(seq![name@]));
                assert(before + seq![name@] =~= out_view(out@));
            }
            return Ok(out);
        }
        match &ts[i + 1] {
            TokenModel::Punct(c) => {
                if *c != ',' {
                    return Err(AttrError::ExpectedComma);
                }
            },
            _ => {
                return Err(AttrError::ExpectedComma);
            },
        }
        proof {
            assert forall|rest: Seq<Seq<char>>| #![trigger seq![name@] + rest]
                before + (seq![name@] + rest) =~= out_view(out@) + rest by {}
        }
        i = i + 2;
    }
    proof {
        assert(out_view(out@) + Seq::<Seq<char>>::empty() =~= out_view(out@));
    }
    Ok(out)
}

/// The views of a list of names.
pub open spec fn out_view(s: Seq<String>) -> Seq<Seq<char>> {
    s.map_values(|x: String| x@)
}

/// The kind a binding keyword names (see [`binding_keyword_spec`]).
fn binding_keyword(k: &String) -> (r: Option<BindingKeyword>)
    ensures
        r == binding_keyword_spec(k@),
{
    if str_equal(k, "singleton_bind") {
        Some(BindingKeyword::Automatic(AutomaticKind::Singleton))
    } else if str_equal(k, "scoped_bind") {
        Some(BindingKeyword::Automatic(AutomaticKind::Scoped))
    } else if str_equal(k, "static_bind") {
        Some(BindingKeyword::Automatic(AutomaticKind::Static))
    } else if str_equal(k, "cloned_instance_bind") {
        Some(BindingKeyword::Manual(ManualKind::ClonedInstance))
    } else if str_equal(k, "scoped_instance_bind") {
        Some(BindingKeyword::Manual(ManualKind::ScopedInstance))
    } else {
        None
    }
}

/// The views of a list of bindings as written.
pub open spec fn syntaxes_view(s: Seq<BindingSyntax>) -> Seq<BindingSyntaxV> {
    s.map_values(|b: BindingSyntax| b@)
}

/// Whether the token is a group with the delimiter `d` (see [`is_group`]).
fn group_with(t: &TokenModel, d: Delim) -> (r: bool)
    ensures
        r == is_group(t@, d),
{
    match t {
        TokenModel::Group { delim, .. } => *delim == d,
        _ => false,
    }
}

/// The binding keyword a token is, if any (see [`token_keyword`]).
fn keyword_of(t: &TokenModel) -> (r: Option<BindingKeyword>)
    ensures
        r == token_keyword(t@),
{
    match t {
        TokenModel::Ident(k) => binding_keyword(k),
        _ => None,
    }
}

/// Reads the binding at position `i` (see [`binding_at`] and
/// [`binding_len`]).
fn parse_binding(ts: &Vec<TokenModel>, i: usize) -> (r: Result<(BindingSyntax, usize), AttrError>)
    requires
        i < ts@.len(),
    ensures
        match r {
            Ok((b, n)) => binding_at(tokens_view(ts@), i as int) == Ok::<_, AttrError>(b@) && n == binding_len(
                tokens_view(ts@),
                i as int,
            ),
            Err(e) => binding_at(tokens_view(ts@), i as int) == Err::<BindingSyntaxV, _>(e),
        },
{
    let ghost tv = tokens_view(ts@);
    proof {
        lemma_tokens_view_index(ts@);
    }
    let ident = match &ts[i] {
        TokenModel::Ident(s) => {
            if reserved(s) {
                return Err(AttrError::ExpectedIdent);
            }
            s
        },
        _ => return Err(AttrError::ExpectedIdent),
    };
    if ts.len() - i <= 1 {
        return Err(AttrError::ExpectedColon);
    }
    match &ts[i + 1] {
        TokenModel::Punct(c) => {
            if *c != ':' {
                return Err(AttrError::ExpectedColon);
            }
        },
        _ => return Err(AttrError::ExpectedColon),
    }
    if ts.len() - i <= 2 {
        return Err(AttrError::ExpectedKind);
    }
    let kind = match keyword_of(&ts[i + 2]) {
        Some(k) => k,
        None => return Err(AttrError::ExpectedKind),
    };
    if ts.len() - i <= 3 || !group_with(&ts[i + 3], Delim::Paren) {
        return Err(AttrError::ExpectedParens);
    }
    match kind {
        BindingKeyword::Manual(m) => Ok(
            (BindingSyntax { ident: ident.clone(), kind: BindingKeyword::Manual(m), ty_group: i + 3, dependencies: None }, 4),
        ),
        BindingKeyword::Automatic(a) => {
            if ts.len() - i > 4 && group_with(&ts[i + 4], Delim::Bracket) {
                let deps = match &ts[i + 4] {
                    TokenModel::Group { tokens, .. } => {
                        proof {
                            assert(tv[i + 4] == TokenV::Group { delim: Delim::Bracket, tokens: tokens_view(tokens@) });
                        }
                        parse_idents(tokens)?
                    },
                    _ => Vec::new(),
                };
                let b = BindingSyntax {
                    ident: ident.clone(),
                    kind: BindingKeyword::Automatic(a),
                    ty_group: i + 3,
                    dependencies: Some(deps),
                };
                Ok((b, 5))
            } else {
                let b = BindingSyntax {
                    ident: ident.clone(),
                    kind: BindingKeyword::Automatic(a),
                    ty_group: i + 3,
                    dependencies: Some(Vec::new()),
                };
                proof {
                    assert(b@.dependencies == Some(Seq::<Seq<char>>::empty()));
                }
                Ok((b, 4))
            }
        },
    }
}

/// Reads the bindings from position `start` on (see [`bindings_from`]).
fn parse_bindings_from(ts: &Vec<TokenModel>, start: usize) -> (r: Result<Vec<BindingSyntax>, AttrError>)
    requires
        start <= ts@.len(),
    ensures
        match r {
            Ok(v) => bindings_from(tokens_view(ts@), start as nat) == Ok::<_, AttrError>(syntaxes_view(v@)),
            Err(e) => bindings_from(tokens_view(ts@), start as nat) == Err::<Seq<BindingSyntaxV>, _>(e),
        },
{
    let ghost tv = tokens_view(ts@);
    proof {
        lemma_tokens_view_index(ts@);
        assert(syntaxes_view(Seq::empty()) =~= Seq::<BindingSyntaxV>::empty());
    }
    let mut out: Vec<BindingSyntax> = Vec::new();
    let mut i: usize = start;
    proof {
        assert forall|rest: Seq<BindingSyntaxV>| #![trigger syntaxes_view(out@) + rest]
            syntaxes_view(out@) + rest =~= rest by {}
    }
    while i < ts.len()
        invariant
            tv == tokens_view(ts@),
            tv.len() == ts@.len(),
            forall|k: int| 0 <= k < ts@.len() ==> #[trigger] tv[k] == token_view(ts@[k]),
            start <= i <= ts@.len(),
            bindings_from(tv, start as nat) == match bindings_from(tv, i as nat) {
                Ok(rest) => Ok(syntaxes_view(out@) + rest),
                Err(e) => Err::<Seq<BindingSyntaxV>, AttrError>(e),
            },
        decreases ts@.len() - i,
    {
        let (b, n) = parse_binding(ts, i)?;
        let ghost before = syntaxes_view(out@);
        let ghost bv = b@;
        out.push(b);
        proof {
            assert(syntaxes_view(out@) =~= before.push(bv));
        }
        if ts.len() - i <= n {
            proof {
                assert(bindings_from(tv, i as nat) == Ok::<_, AttrError>(seq![bv]));
                assert(before + seq![bv] =~= syntaxes_view(out@));
            }
            return Ok(out);
        }
        let j = i + n;
        match &ts[j] {
            TokenModel::Punct(c) => {
                if *c != ',' {
                    return Err(AttrError::ExpectedComma);
                }
            },
            _ => return Err(AttrError::ExpectedComma),
        }
        proof {
            assert(tv[j as int] == TokenV::Punct(','));
            assert forall|rest: Seq<BindingSyntaxV>| #![trigger seq![bv] + rest]
                before + (seq![bv] + rest) =~= syntaxes_view(out@) + rest by {}
        }
        i = j + 1;
    }
    proof {
        assert(syntaxes_view(out@) + Seq::<BindingSyntaxV>::empty() =~= syntaxes_view(out@));
    }
    Ok(out)
}

/// Reads the arguments of `component` (see [`component_attr_spec`]).
pub fn parse_component_attr(ts: &Vec<TokenModel>) -> (r: Result<(bool, Vec<BindingSyntax>), AttrError>)
    ensures
        match r {
            Ok((inner, v)) => component_attr_spec(tokens_view(ts@)) == Ok::<_, AttrError>((inner, syntaxes_view(v@))),
            Err(e) => component_attr_spec(tokens_view(ts@)) == Err::<(bool, Seq<BindingSyntaxV>), _>(e),
        },
{
    proof {
        lemma_tokens_view_index(ts@);
    }
    let inner = ts.len() > 0 && match &ts[0] {
        TokenModel::Ident(s) => str_equal(s, "__inner"),
        _ => false,
    };
    proof {
        if ts@.len() > 0 {
            assert(tokens_view(ts@)[0] == token_view(ts@[0]));
        }
    }
    if inner {
        let comma = ts.len() >= 2 && match &ts[1] {
            TokenModel::Punct(c) => *c == ',',
            _ => false,
        };
        if !comma {
            return Err(AttrError::ExpectedComma);
        }
        let bs = parse_bindings_from(ts, 2)?;
        Ok((true, bs))
    } else {
        let bs = parse_bindings_from(ts, 0)?;
        Ok((false, bs))
    }
}

} // verus!
