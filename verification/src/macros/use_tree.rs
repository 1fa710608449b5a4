//! The `use_provides` and `use_component` macros: a `use` item is repeated
//! with every imported name turned into the name of a generated item.

use vstd::prelude::*;
use vstd::string::*;

use crate::macros::naming::{
    factory_prefix_scoped, factory_prefix_singleton, factory_prefix_static, scoped_prefix, singleton_prefix,
    static_prefix, surrounded,
};

verus! {

/// The tree of a `use` item.
pub enum UseTreeModel {
    /// `ident::tree`.
    Path { ident: String, tree: Box<UseTreeModel> },
    /// `{a, b, ...}`.
    Group(Vec<UseTreeModel>),
    /// A name.
    Name(String),
    /// `ident as rename`.
    Rename { ident: String, rename: String },
    /// `*`.
    Glob,
}

/// The view of a [`UseTreeModel`].
pub enum UseTreeV {
    Path { ident: Seq<char>, tree: Box<UseTreeV> },
    Group(Seq<UseTreeV>),
    Name(Seq<char>),
    Rename { ident: Seq<char>, rename: Seq<char> },
    Glob,
}

pub open spec fn use_tree_view(t: UseTreeModel) -> UseTreeV
    decreases t, 0int,
{
    match t {
        UseTreeModel::Path { ident, tree } => UseTreeV::Path { ident: ident@, tree: Box::new(use_tree_view(*tree)) },
        UseTreeModel::Group(items) => UseTreeV::Group(use_trees_view(items@)),
        UseTreeModel::Name(n) => UseTreeV::Name(n@),
        UseTreeModel::Rename { ident, rename } => UseTreeV::Rename { ident: ident@, rename: rename@ },
        UseTreeModel::Glob => UseTreeV::Glob,
    }
}

pub open spec fn use_trees_view(s: Seq<UseTreeModel>) -> Seq<UseTreeV>
    decreases s, 1int,
{
    if s.len() == 0 {
        Seq::empty()
    } else {
        use_trees_view(s.drop_last()).push(use_tree_view(s.last()))
    }
}

impl View for UseTreeModel {
    type V = UseTreeV;

    open spec fn view(&self) -> UseTreeV {
        use_tree_view(*self)
    }
}

/// The view of a list of trees has one element per tree.
pub proof fn lemma_use_trees_view_index(s: Seq<UseTreeModel>)
    ensures
        use_trees_view(s).len() == s.len(),
        forall|i: int| 0 <= i < s.len() ==> #[trigger] use_trees_view(s)[i] == use_tree_view(s[i]),
    decreases s.len(),
{
    if s.len() > 0 {
        lemma_use_trees_view_index(s.drop_last());
    }
}

/// The tree with every imported name `n`, and every new name of a renaming,
/// turned into `prefix`, `n`, `postfix`; `None` where the tree holds a glob,
/// whose names are not known.
pub open spec fn convert_spec(t: UseTreeV, prefix: Seq<char>, postfix: Seq<char>) -> Option<UseTreeV>
    decreases t, 0int,
{
    match t {
        UseTreeV::Path { ident, tree } => match convert_spec(*tree, prefix, postfix) {
            Some(c) => Some(UseTreeV::Path { ident, tree: Box::new(c) }),
            None => None,
        },
        UseTreeV::Group(items) => match convert_all_spec(items, prefix, postfix) {
            Some(c) => Some(UseTreeV::Group(c)),
            None => None,
        },
        UseTreeV::Name(n) => Some(UseTreeV::Name(prefix + n + postfix)),
        UseTreeV::Rename { ident, rename } => Some(
            UseTreeV::Rename { ident: prefix + ident + postfix, rename: prefix + rename + postfix },
        ),
        UseTreeV::Glob => None,
    }
}

/// [`convert_spec`] on each tree of a group; `None` where one of them holds
/// a glob.
pub open spec fn convert_all_spec(s: Seq<UseTreeV>, prefix: Seq<char>, postfix: Seq<char>) -> Option<Seq<UseTreeV>>
    decreases s, 1int,
{
    if s.len() == 0 {
        Some(Seq::empty())
    } else {
        match convert_all_spec(s.drop_last(), prefix, postfix) {
            Some(prev) => match convert_spec(s.last(), prefix, postfix) {
                Some(c) => Some(prev.push(c)),
                None => None,
            },
            None => None,
        }
    }
}

/// The tree holds a glob.
pub open spec fn has_glob(t: UseTreeV) -> bool
    decreases t, 0int,
{
    match t {
        UseTreeV::Path { tree, .. } => has_glob(*tree),
        UseTreeV::Group(items) => any_glob(items),
        UseTreeV::Glob => true,
        _ => false,
    }
}

/// One of the trees holds a glob.
pub open spec fn any_glob(s: Seq<UseTreeV>) -> bool
    decreases s, 1int,
{
    if s.len() == 0 {
        false
    } else {
        any_glob(s.drop_last()) || has_glob(s.last())
    }
}

/// The tree converts exactly where it holds no glob.
pub proof fn lemma_convert_fails_exactly_on_glob(t: UseTreeV, prefix: Seq<char>, postfix: Seq<char>)
    ensures
        convert_spec(t, prefix, postfix) is None <==> has_glob(t),
    decreases t, 0int,
{
    match t {
        UseTreeV::Path { tree, .. } => lemma_convert_fails_exactly_on_glob(*tree, prefix, postfix),
        UseTreeV::Group(items) => lemma_convert_all_fails_exactly_on_glob(items, prefix, postfix),
        _ => {},
    }
}

/// A group converts exactly where none of its trees holds a glob.
pub proof fn lemma_convert_all_fails_exactly_on_glob(s: Seq<UseTreeV>, prefix: Seq<char>, postfix: Seq<char>)
    ensures
        convert_all_spec(s, prefix, postfix) is None <==> any_glob(s),
    decreases s, 1int,
{
    if s.len() > 0 {
        lemma_convert_all_fails_exactly_on_glob(s.drop_last(), prefix, postfix);
        lemma_convert_fails_exactly_on_glob(s.last(), prefix, postfix);
    }
}

/// With nothing to add, a tree without a glob converts to itself.
pub proof fn lemma_convert_empty_is_identity(t: UseTreeV)
    requires
        !has_glob(t),
    ensures
        convert_spec(t, Seq::empty(), Seq::empty()) == Some(t),
    decreases t, 0int,
{
    match t {
        UseTreeV::Path { tree, .. } => {
            lemma_convert_empty_is_identity(*tree);
        },
        UseTreeV::Group(items) => {
            lemma_convert_all_empty_is_identity(items);
        },
        UseTreeV::Name(n) => {
            assert(Seq::<char>::empty() + n + Seq::<char>::empty() =~= n);
        },
        UseTreeV::Rename { ident, rename } => {
            assert(Seq::<char>::empty() + ident + Seq::<char>::empty() =~= ident);
            assert(Seq::<char>::empty() + rename + Seq::<char>::empty() =~= rename);
        },
        UseTreeV::Glob => {},
    }
}

/// With nothing to add, a group without a glob converts to itself.
pub proof fn lemma_convert_all_empty_is_identity(s: Seq<UseTreeV>)
    requires
        !any_glob(s),
    ensures
        convert_all_spec(s, Seq::empty(), Seq::empty()) == Some(s),
    decreases s, 1int,
{
    if s.len() > 0 {
        lemma_convert_all_empty_is_identity(s.drop_last());
        lemma_convert_empty_is_identity(s.last());
        assert(s.drop_last().push(s.last()) =~= s);
    }
}

/// Converts the tree (see [`convert_spec`]); `None` where it holds a glob.
pub fn convert_use_tree(tree: &UseTreeModel, prefix: &str, postfix: &str) -> (r: Option<UseTreeModel>)
    ensures
        match r {
            Some(c) => convert_spec(tree@, prefix@, postfix@) == Some(c@),
            None => convert_spec(tree@, prefix@, postfix@) is None,
        },
    decreases tree, 0int,
{
    match tree {
        UseTreeModel::Path { ident, tree: inner } => {
            let c = convert_use_tree(inner, prefix, postfix)?;
            Some(UseTreeModel::Path { ident: ident.clone(), tree: Box::new(c) })
        },
        UseTreeModel::Group(items) => {
            let c = convert_use_trees(items, prefix, postfix)?;
            Some(UseTreeModel::Group(c))
        },
        UseTreeModel::Name(n) => Some(UseTreeModel::Name(surrounded(prefix, n, postfix))),
        UseTreeModel::Rename { ident, rename } => Some(
            UseTreeModel::Rename { ident: surrounded(prefix, ident, postfix), rename: surrounded(prefix, rename, postfix) },
        ),
        UseTreeModel::Glob => None,
    }
}

/// Converts each tree of a group (see [`convert_all_spec`]).
pub fn convert_use_trees(items: &Vec<UseTreeModel>, prefix: &str, postfix: &str) -> (r: Option<Vec<UseTreeModel>>)
    ensures
        match r {
            Some(c) => convert_all_spec(use_trees_view(items@), prefix@, postfix@) == Some(use_trees_view(c@)),
            None => convert_all_spec(use_trees_view(items@), prefix@, postfix@) is None,
        },
    decreases items, 1int,
{
    let ghost iv = use_trees_view(items@);
    proof {
        lemma_use_trees_view_index(items@);
    }
    let mut out: Vec<UseTreeModel> = Vec::new();
    let mut i: usize = 0;
    proof {
        assert(iv.take(0) =~= Seq::<UseTreeV>::empty());
        assert(use_trees_view(out@) =~= Seq::<UseTreeV>::empty());
    }
    while i < items.len()
        invariant
            i <= items@.len(),
            iv == use_trees_view(items@),
            iv.len() == items@.len(),
            forall|k: int| 0 <= k < items@.len() ==> #[trigger] iv[k] == use_tree_view(items@[k]),
            convert_all_spec(iv.take(i as int), prefix@, postfix@) == Some(use_trees_view(out@)),
        decreases items@.len() - i,
    {
        proof {
            assert(iv.take(i + 1).drop_last() =~= iv.take(i as int));
            assert(iv.take(i + 1).last() == iv[i as int]);
        }
        match convert_use_tree(&items[i], prefix, postfix) {
            Some(c) => {
                let ghost before = out@;
                out.push(c);
                proof {
                    assert(out@.drop_last() =~= before);
                    assert(use_trees_view(out@) == use_trees_view(before).push(use_tree_view(c)));
                }
            },
            None => {
                proof {
                    lemma_convert_all_none_persists(iv, prefix@, postfix@, (i + 1) as nat, iv.len());
                    assert(iv.take(iv.len() as int) =~= iv);
                }
                return None;
            },
        }
        i = i + 1;
    }
    proof {
        assert(iv.take(i as int) =~= iv);
    }
    Some(out)
}

/// Once a prefix of a group fails to convert, every longer prefix does.
proof fn lemma_convert_all_none_persists(s: Seq<UseTreeV>, prefix: Seq<char>, postfix: Seq<char>, i: nat, n: nat)
    requires
        i <= n <= s.len(),
        convert_all_spec(s.take(i as int), prefix, postfix) is None,
    ensures
        convert_all_spec(s.take(n as int), prefix, postfix) is None,
    decreases n - i,
{
    if i < n {
        lemma_convert_all_none_persists(s, prefix, postfix, i, (n - 1) as nat);
        assert(s.take(n as int).drop_last() =~= s.take(n - 1));
    }
}

/// Which kind of provider the imported names are factories of.
#[derive(Clone, Copy, Debug, PartialEq, Eq, Structural)]
pub enum UseInjectMacroInput {
    Scoped,
    Singleton,
    Static,
}

impl Default for UseInjectMacroInput {
    /// An empty attribute imports the factories of static providers.
    fn default() -> (r: Self)
        ensures
            r == UseInjectMacroInput::Static,
    {
        UseInjectMacroInput::Static
    }
}

/// The prefix of the factories' names for a kind of provider.
pub open spec fn use_inject_prefix(k: UseInjectMacroInput) -> Seq<char> {
    match k {
        UseInjectMacroInput::Singleton => singleton_prefix(),
        UseInjectMacroInput::Scoped => scoped_prefix(),
        UseInjectMacroInput::Static => static_prefix(),
    }
}

impl UseInjectMacroInput {
    /// The prefix of the factories' names (see [`use_inject_prefix`]).
    pub fn factory_prefix(&self) -> (r: &'static str)
        ensures
            r@ == use_inject_prefix(*self),
    {
        match self {
            UseInjectMacroInput::Singleton => factory_prefix_singleton(),
            UseInjectMacroInput::Scoped => factory_prefix_scoped(),
            UseInjectMacroInput::Static => factory_prefix_static(),
        }
    }

    /// The `use` tree that imports the factories of the imported names:
    /// each name with the kind's prefix; `None` where the tree holds a glob.
    pub fn convert_use_tree(&self, tree: &UseTreeModel) -> (r: Option<UseTreeModel>)
        ensures
            match r {
                Some(c) => convert_spec(tree@, use_inject_prefix(*self), Seq::empty()) == Some(c@),
                None => convert_spec(tree@, use_inject_prefix(*self), Seq::empty()) is None,
            },
    {
        proof {
            reveal_strlit("");
            assert(""@ =~= Seq::<char>::empty());
        }
        convert_use_tree(tree, self.factory_prefix(), "")
    }
}

/// The two `use` trees of `use_component`: the components' marker types
/// (`Dirk` and the name), then their builders (`Dirk`, the name, `Builder`);
/// `None` where the tree holds a glob.
pub fn use_component_trees(tree: &UseTreeModel) -> (r: Option<(UseTreeModel, UseTreeModel)>)
    ensures
        match r {
            Some((d, b)) => convert_spec(tree@, "Dirk"@, Seq::empty()) == Some(d@) && convert_spec(
                tree@,
                "Dirk"@,
                "Builder"@,
            ) == Some(b@),
            None => has_glob(tree@),
        },
{
    proof {
        reveal_strlit("");
        assert(""@ =~= Seq::<char>::empty());
        lemma_convert_fails_exactly_on_glob(tree@, "Dirk"@, Seq::empty());
    }
    let dirk = convert_use_tree(tree, "Dirk", "")?;
    proof {
        lemma_convert_fails_exactly_on_glob(tree@, "Dirk"@, "Builder"@);
    }
    let builder = convert_use_tree(tree, "Dirk", "Builder")?;
    Some((dirk, builder))
}

} // verus!
