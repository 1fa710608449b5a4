//! The order in which the bindings of a component are processed.

use vstd::prelude::*;

use crate::macros::binding::{binding_dependencies, strings_view, Binding, BindingKindV, BindingV};

verus! {

/// The binding kind `k` lists `name` among its dependencies.
pub open spec fn depends_on(k: BindingKindV, name: Seq<char>) -> bool {
    match binding_dependencies(k) {
        Some(d) => d.contains(name),
        None => false,
    }
}

/// Whether the list `v` holds `name`.
pub fn contains_name(v: &Vec<String>, name: &String) -> (r: bool)
    ensures
        r == strings_view(v@).contains(name@),
{
    let mut i: usize = 0;
    while i < v.len()
        invariant
            i <= v@.len(),
            forall|j: int| 0 <= j < i ==> v@[j]@ != name@,
        decreases v@.len() - i,
    {
        if v[i] == *name {
            proof {
                assert(strings_view(v@)[i as int] == name@);
            }
            return true;
        }
        i = i + 1;
    }
    proof {
        if strings_view(v@).contains(name@) {
            let k = choose|k: int| 0 <= k < strings_view(v@).len() && strings_view(v@)[k] == name@;
            assert(v@[k]@ == name@);
        }
    }
    false
}

fn depends_on_exec(b: &Binding, name: &String) -> (r: bool)
    ensures
        r == depends_on(b.kind@, name@),
{
    match b.kind.dependencies() {
        Some(d) => contains_name(d, name),
        None => false,
    }
}

/// The views of a list of bindings.
pub open spec fn bindings_view(s: Seq<Binding>) -> Seq<BindingV> {
    s.map_values(|b: Binding| b@)
}

/// Binding `i` of `table` waits for binding `j`: it depends on `j`'s name
/// and is another binding. A binding that names itself waits for nothing.
pub open spec fn waits_for(table: Seq<BindingV>, i: int, j: int) -> bool {
    i != j && depends_on(table[i].kind, table[j].identifier)
}

/// Binding `i` is not placed yet, and every binding it waits for is.
pub open spec fn ready(table: Seq<BindingV>, placed: Seq<int>, i: int) -> bool {
    &&& !placed.contains(i)
    &&& forall|j: int| 0 <= j < table.len() && #[trigger] waits_for(table, i, j) ==> placed.contains(j)
}

/// The smallest position below `n` where `p` holds, if there is one.
pub open spec fn first_where(p: spec_fn(int) -> bool, n: nat) -> Option<int>
    decreases n,
{
    if n == 0 {
        None
    } else {
        match first_where(p, (n - 1) as nat) {
            Some(i) => Some(i),
            None => if p(n - 1) {
                Some(n - 1)
            } else {
                None
            },
        }
    }
}

/// The position placed after the positions `placed`: the first binding that
/// is ready; where none is (the rest wait for each other in a cycle), the
/// first binding not placed yet.
pub open spec fn next_index(table: Seq<BindingV>, placed: Seq<int>) -> int {
    match first_where(|i: int| ready(table, placed, i), table.len()) {
        Some(i) => i,
        None => match first_where(|i: int| !placed.contains(i), table.len()) {
            Some(i) => i,
            None => 0,
        },
    }
}

/// The first `k` positions of the processing order of `table`.
pub open spec fn order_indices(table: Seq<BindingV>, k: nat) -> Seq<int>
    decreases k,
{
    if k == 0 {
        Seq::empty()
    } else {
        let placed = order_indices(table, (k - 1) as nat);
        placed.push(next_index(table, placed))
    }
}

/// The order in which the bindings `table` are processed: again and again
/// the binding earliest in the table whose dependencies are all placed, so
/// that, where no dependencies form a cycle, each binding comes after those
/// it depends on (see [`lemma_deps_first_iff_acyclic`]).
pub open spec fn processing_order_spec(table: Seq<BindingV>) -> Seq<BindingV> {
    order_indices(table, table.len()).map_values(|i: int| table[i])
}

/// The positions `s` are positions of `table`, and there is one at least.
pub open spec fn nonempty_positions(table: Seq<BindingV>, s: Set<int>) -> bool {
    &&& forall|i: int| #[trigger] s.contains(i) ==> 0 <= i < table.len()
    &&& exists|i: int| #[trigger] s.contains(i)
}

/// One of the bindings at positions `s` waits for none of the others.
pub open spec fn has_free_member(table: Seq<BindingV>, s: Set<int>) -> bool {
    exists|i: int| #[trigger] s.contains(i) && forall|j: int| #[trigger] s.contains(j) ==> !waits_for(table, i, j)
}

/// The dependencies of `table` form no cycle: among any bindings of it,
/// one waits for none of the others.
pub open spec fn acyclic(table: Seq<BindingV>) -> bool {
    forall|s: Set<int>| #[trigger] nonempty_positions(table, s) ==> has_free_member(table, s)
}

/// Every binding of `s` comes after the bindings it depends on.
pub open spec fn deps_first(s: Seq<BindingV>) -> bool {
    forall|i: int, j: int| 0 <= i < j < s.len() ==> !depends_on(#[trigger] s[i].kind, #[trigger] s[j].identifier)
}

/// What [`first_where`] gives: the smallest position below `n` where `p`
/// holds, or `None` where it holds nowhere below `n`.
pub proof fn lemma_first_where(p: spec_fn(int) -> bool, n: nat)
    ensures
        match first_where(p, n) {
            Some(i) => 0 <= i < n && p(i) && forall|m: int| 0 <= m < i ==> !#[trigger] p(m),
            None => forall|m: int| 0 <= m < n ==> !#[trigger] p(m),
        },
    decreases n,
{
    if n > 0 {
        lemma_first_where(p, (n - 1) as nat);
    }
}

/// Fewer than `n` positions do not cover `0..n`.
proof fn lemma_some_position_left(placed: Seq<int>, n: nat)
    requires
        placed.len() < n,
    ensures
        exists|i: int| 0 <= i < n && !placed.contains(i),
{
    if forall|i: int| 0 <= i < n ==> placed.contains(i) {
        vstd::set_lib::lemma_int_range(0, n as int);
        placed.lemma_cardinality_of_set();
        assert(vstd::set_lib::set_int_range(0, n as int).subset_of(placed.to_set()));
        vstd::seq_lib::seq_to_set_is_finite(placed);
        vstd::set_lib::lemma_len_subset(vstd::set_lib::set_int_range(0, n as int), placed.to_set());
    }
}

/// `n` distinct positions below `n` cover `0..n`.
proof fn lemma_positions_cover(placed: Seq<int>, n: nat, i: int)
    requires
        placed.len() == n,
        placed.no_duplicates(),
        forall|q: int| 0 <= q < n ==> 0 <= #[trigger] placed[q] < n,
        0 <= i < n,
    ensures
        placed.contains(i),
{
    if !placed.contains(i) {
        placed.unique_seq_to_set();
        vstd::set_lib::lemma_int_range(0, n as int);
        let rest = vstd::set_lib::set_int_range(0, n as int).remove(i);
        assert(placed.to_set().subset_of(rest)) by {
            assert forall|x: int| placed.to_set().contains(x) implies rest.contains(x) by {
                let q = choose|q: int| 0 <= q < placed.len() && placed[q] == x;
            }
        }
        vstd::set_lib::lemma_len_subset(placed.to_set(), rest);
    }
}

/// The first `k` positions of the processing order are `k` distinct
/// positions of the table, and the first `m` of them are the first `m`
/// positions of the order.
pub proof fn lemma_order_indices(table: Seq<BindingV>, k: nat)
    requires
        k <= table.len(),
    ensures
        order_indices(table, k).len() == k,
        order_indices(table, k).no_duplicates(),
        forall|q: int| 0 <= q < k ==> 0 <= #[trigger] order_indices(table, k)[q] < table.len(),
        forall|m: nat| m <= k ==> #[trigger] order_indices(table, k).take(m as int) == order_indices(table, m),
    decreases k,
{
    if k > 0 {
        let placed = order_indices(table, (k - 1) as nat);
        lemma_order_indices(table, (k - 1) as nat);
        let next = next_index(table, placed);
        let rp = |i: int| ready(table, placed, i);
        let up = |i: int| !placed.contains(i);
        lemma_first_where(rp, table.len());
        lemma_first_where(up, table.len());
        lemma_some_position_left(placed, table.len());
        assert(0 <= next < table.len() && !placed.contains(next)) by {
            match first_where(rp, table.len()) {
                Some(i) => {},
                None => {
                    let i = choose|i: int| 0 <= i < table.len() && !placed.contains(i);
                    assert(up(i));
                },
            }
        }
        let cur = order_indices(table, k);
        assert(cur == placed.push(next));
        assert forall|m: nat| m <= k implies #[trigger] cur.take(m as int) == order_indices(table, m) by {
            if m == k {
                assert(cur.take(m as int) =~= cur);
            } else {
                assert(cur.take(m as int) =~= placed.take(m as int));
            }
        }
    }
}

/// Every binding of the table comes once in its processing order.
pub proof fn lemma_processing_order_permutation(table: Seq<BindingV>)
    ensures
        order_indices(table, table.len()).len() == table.len(),
        order_indices(table, table.len()).no_duplicates(),
        forall|i: int| 0 <= i < table.len() <==> #[trigger] order_indices(table, table.len()).contains(i),
        processing_order_spec(table).len() == table.len(),
        forall|q: int| 0 <= q < table.len() ==> #[trigger] processing_order_spec(table)[q] == table[order_indices(table, table.len())[q]],
{
    let idx = order_indices(table, table.len());
    lemma_order_indices(table, table.len());
    assert forall|i: int| 0 <= i < table.len() <==> #[trigger] idx.contains(i) by {
        if 0 <= i < table.len() {
            lemma_positions_cover(idx, table.len(), i);
        }
        if idx.contains(i) {
            let q = choose|q: int| 0 <= q < idx.len() && idx[q] == i;
        }
    }
}

/// Where the dependencies of `table` form no cycle, each binding of the
/// processing order is ready when it is placed.
proof fn lemma_acyclic_step_ready(table: Seq<BindingV>, k: nat)
    requires
        acyclic(table),
        k < table.len(),
    ensures
        ready(table, order_indices(table, k), next_index(table, order_indices(table, k))),
{
    let placed = order_indices(table, k);
    lemma_order_indices(table, k);
    lemma_some_position_left(placed, table.len());
    let s = Set::new(|i: int| 0 <= i < table.len() && !placed.contains(i));
    let w = choose|i: int| 0 <= i < table.len() && !placed.contains(i);
    assert(s.contains(w));
    assert(nonempty_positions(table, s));
    let f = choose|i: int| #[trigger] s.contains(i) && forall|j: int| #[trigger] s.contains(j) ==> !waits_for(table, i, j);
    assert(ready(table, placed, f)) by {
        assert forall|j: int| 0 <= j < table.len() && #[trigger] waits_for(table, f, j) implies placed.contains(j) by {
            if !placed.contains(j) {
                assert(s.contains(j));
            }
        }
    }
    let rp = |i: int| ready(table, placed, i);
    lemma_first_where(rp, table.len());
    assert(rp(f));
}

/// Where the dependencies of the bindings form no cycle, every binding is
/// processed after the bindings it depends on.
pub proof fn lemma_acyclic_deps_first(table: Seq<BindingV>)
    requires
        acyclic(table),
    ensures
        deps_first(processing_order_spec(table)),
{
    let n = table.len();
    let idx = order_indices(table, n);
    let o = processing_order_spec(table);
    lemma_order_indices(table, n);
    lemma_processing_order_permutation(table);
    assert forall|p: int, q: int| 0 <= p < q < o.len() implies !depends_on(#[trigger] o[p].kind, #[trigger] o[q].identifier) by {
        let placed = order_indices(table, p as nat);
        assert(idx.take(p) == placed);
        assert(idx.take(p + 1) == order_indices(table, (p + 1) as nat));
        assert(idx[p] == next_index(table, placed)) by {
            assert(order_indices(table, (p + 1) as nat)[p] == idx[p]);
        }
        lemma_acyclic_step_ready(table, p as nat);
        if depends_on(o[p].kind, o[q].identifier) {
            assert(idx[p] != idx[q]);
            assert(waits_for(table, idx[p], idx[q]));
            assert(placed.contains(idx[q]));
            let r = choose|r: int| 0 <= r < placed.len() && placed[r] == idx[q];
            assert(idx[r] == idx[q]);
        }
    }
}

/// Each binding of the processing order comes after the bindings it
/// depends on exactly where the dependencies form no cycle: where they
/// form one, some binding comes before a binding it depends on.
pub proof fn lemma_deps_first_iff_acyclic(table: Seq<BindingV>)
    ensures
        deps_first(processing_order_spec(table)) <==> acyclic(table),
{
    if acyclic(table) {
        lemma_acyclic_deps_first(table);
    }
    if deps_first(processing_order_spec(table)) {
        let n = table.len();
        let idx = order_indices(table, n);
        let o = processing_order_spec(table);
        lemma_processing_order_permutation(table);
        assert forall|s: Set<int>| #[trigger] nonempty_positions(table, s) implies has_free_member(table, s) by {
            let w = choose|i: int| #[trigger] s.contains(i);
            assert(idx.contains(w));
            let pw = choose|p: int| 0 <= p < idx.len() && idx[p] == w;
            let inside = |p: int| s.contains(idx[p]);
            lemma_first_where(inside, n);
            assert(inside(pw));
            let p = first_where(inside, n)->Some_0;
            let f = idx[p];
            assert(s.contains(f));
            assert forall|j: int| #[trigger] s.contains(j) implies !waits_for(table, f, j) by {
                assert(idx.contains(j));
                let q = choose|q: int| 0 <= q < idx.len() && idx[q] == j;
                assert(inside(q));
                if q > p {
                    assert(o[p] == table[f] && o[q] == table[j]);
                    assert(!depends_on(o[p].kind, o[q].identifier));
                }
            }
        }
    }
}

/// Whether binding `i` of `table` is ready, with `placed` marking the
/// bindings placed so far.
fn is_ready(table: &Vec<Binding>, placed: &Vec<bool>, i: usize) -> (r: bool)
    requires
        placed@.len() == table@.len(),
        i < table@.len(),
    ensures
        r == (!placed@[i as int] && forall|j: int|
            0 <= j < table@.len() && #[trigger] waits_for(bindings_view(table@), i as int, j) ==> placed@[j]),
{
    let ghost tv = bindings_view(table@);
    if placed[i] {
        return false;
    }
    let mut j: usize = 0;
    while j < table.len()
        invariant
            tv == bindings_view(table@),
            placed@.len() == table@.len(),
            i < table@.len(),
            j <= table@.len(),
            forall|q: int| 0 <= q < j && #[trigger] waits_for(tv, i as int, q) ==> placed@[q],
        decreases table@.len() - j,
    {
        proof {
            assert(tv[i as int] == table@[i as int]@);
            assert(tv[j as int] == table@[j as int]@);
        }
        if j != i && !placed[j] && depends_on_exec(&table[i], &table[j].identifier) {
            proof {
                assert(waits_for(tv, i as int, j as int));
            }
            return false;
        }
        j = j + 1;
    }
    true
}

/// The bindings `table` in their processing order (see
/// [`processing_order_spec`]).
pub fn processing_order(table: &Vec<Binding>) -> (r: Vec<Binding>)
    ensures
        bindings_view(r@) == processing_order_spec(bindings_view(table@)),
{
    let ghost tv = bindings_view(table@);
    let n = table.len();
    let mut placed: Vec<bool> = Vec::new();
    while placed.len() < n
        invariant
            placed@.len() <= n,
            forall|q: int| 0 <= q < placed@.len() ==> !placed@[q],
        decreases n - placed@.len(),
    {
        placed.push(false);
    }
    let mut order: Vec<Binding> = Vec::new();
    let ghost mut idx: Seq<int> = Seq::empty();
    let mut k: usize = 0;
    while k < n
        invariant
            tv == bindings_view(table@),
            n == table@.len(),
            tv.len() == n,
            k <= n,
            placed@.len() == n,
            idx == order_indices(tv, k as nat),
            forall|i: int| 0 <= i < n ==> placed@[i] == idx.contains(i),
            bindings_view(order@) == idx.map_values(|i: int| tv[i]),
        decreases n - k,
    {
        proof {
            lemma_order_indices(tv, k as nat);
            lemma_some_position_left(idx, n as nat);
        }
        let mut found: Option<usize> = None;
        let mut i: usize = 0;
        while i < n
            invariant_except_break
                found is None,
            invariant
                tv == bindings_view(table@),
                n == table@.len(),
                placed@.len() == n,
                forall|q: int| 0 <= q < n ==> placed@[q] == idx.contains(q),
                i <= n,
                forall|m: int| 0 <= m < i ==> !#[trigger] ready(tv, idx, m),
            ensures
                match found {
                    Some(f) => f < n && ready(tv, idx, f as int) && forall|m: int| 0 <= m < f ==> !#[trigger] ready(tv, idx, m),
                    None => forall|m: int| 0 <= m < n ==> !#[trigger] ready(tv, idx, m),
                },
            decreases n - i,
        {
            if is_ready(table, &placed, i) {
                proof {
                    assert forall|j: int| 0 <= j < tv.len() && #[trigger] waits_for(tv, i as int, j) implies idx.contains(j) by {
                        assert(placed@[j]);
                    }
                    assert(ready(tv, idx, i as int));
                }
                found = Some(i);
                break;
            }
            proof {
                if ready(tv, idx, i as int) {
                    assert forall|j: int| 0 <= j < table@.len() && #[trigger] waits_for(tv, i as int, j) implies placed@[j] by {
                        assert(idx.contains(j));
                    }
                }
            }
            i = i + 1;
        }
        let next: usize = match found {
            Some(f) => f,
            None => {
                let mut u: usize = 0;
                while u < n && placed[u]
                    invariant
                        n == table@.len(),
                        placed@.len() == n,
                        forall|q: int| 0 <= q < n ==> placed@[q] == idx.contains(q),
                        u <= n,
                        forall|m: int| 0 <= m < u ==> #[trigger] idx.contains(m),
                        exists|m: int| 0 <= m < n && !#[trigger] idx.contains(m),
                    decreases n - u,
                {
                    u = u + 1;
                }
                proof {
                    if u == n {
                        let m = choose|m: int| 0 <= m < n && !#[trigger] idx.contains(m);
                        assert(false);
                    }
                }
                u
            },
        };
        proof {
            let rp = |i: int| ready(tv, idx, i);
            let up = |i: int| !idx.contains(i);
            lemma_first_where(rp, n as nat);
            lemma_first_where(up, n as nat);
            match found {
                Some(f) => {
                    assert(rp(f as int));
                    match first_where(rp, n as nat) {
                        Some(g) => {
                            if g < f {
                                assert(!rp(g));
                            } else if g > f {
                                assert(!rp(f as int));
                            }
                        },
                        None => {
                            assert(!rp(f as int));
                        },
                    }
                },
                None => {
                    assert forall|m: int| 0 <= m < n implies !#[trigger] rp(m) by {
                        assert(!ready(tv, idx, m));
                    }
                    assert(first_where(rp, n as nat) is None);
                    assert(up(next as int));
                    match first_where(up, n as nat) {
                        Some(g) => {
                            if g < next {
                                assert(idx.contains(g));
                            } else if g > next {
                                assert(!up(next as int));
                            }
                        },
                        None => {
                            assert(!up(next as int));
                        },
                    }
                },
            }
            assert(next as int == next_index(tv, idx));
        }
        placed.set(next, true);
        let ghost old_order = order@;
        order.push(table[next].clone_binding());
        proof {
            let old_idx = idx;
            idx = idx.push(next as int);
            assert(idx == order_indices(tv, (k + 1) as nat));
            assert forall|q: int| 0 <= q < n implies placed@[q] == idx.contains(q) by {
                if q != next {
                    if idx.contains(q) {
                        let r = choose|r: int| 0 <= r < idx.len() && idx[r] == q;
                        assert(old_idx[r] == q);
                    }
                    if old_idx.contains(q) {
                        let r = choose|r: int| 0 <= r < old_idx.len() && old_idx[r] == q;
                        assert(idx[r] == q);
                    }
                } else {
                    assert(idx[old_idx.len() as int] == q);
                }
            }
            assert(tv[next as int] == table@[next as int]@);
            assert(order@ == old_order.push(order@.last()));
            assert(bindings_view(order@) =~= bindings_view(old_order).push(tv[next as int]));
            assert(bindings_view(order@) =~= idx.map_values(|i: int| tv[i])) by {
                assert forall|q: int| 0 <= q < idx.len() implies #[trigger] bindings_view(order@)[q] == tv[idx[q]] by {
                    if q < old_idx.len() {
                        assert(old_idx.map_values(|i: int| tv[i])[q] == tv[old_idx[q]]);
                    }
                }
            }
        }
        k = k + 1;
    }
    order
}
} // verus!
