//! Lexicographic order on character sequences (the order of `String`, which
//! compares UTF-8 bytes and so agrees with code point order) and sorted,
//! duplicate-free string sets.

use vstd::prelude::*;

verus! {

/// `a` sorts strictly before `b` in lexicographic code point order.
pub open spec fn lex_lt(a: Seq<char>, b: Seq<char>) -> bool
    decreases a.len(),
{
    if a.len() == 0 {
        b.len() > 0
    } else if b.len() == 0 {
        false
    } else if a[0] < b[0] {
        true
    } else if a[0] > b[0] {
        false
    } else {
        lex_lt(a.drop_first(), b.drop_first())
    }
}

/// No sequence sorts before itself.
pub proof fn lemma_lex_irreflexive(a: Seq<char>)
    ensures
        !lex_lt(a, a),
    decreases a.len(),
{
    if a.len() > 0 {
        lemma_lex_irreflexive(a.drop_first());
    }
}

/// The order is transitive.
pub proof fn lemma_lex_transitive(a: Seq<char>, b: Seq<char>, c: Seq<char>)
    requires
        lex_lt(a, b),
        lex_lt(b, c),
    ensures
        lex_lt(a, c),
    decreases a.len(),
{
    if a.len() > 0 && b.len() > 0 && c.len() > 0 {
        if a[0] == b[0] && b[0] == c[0] {
            lemma_lex_transitive(a.drop_first(), b.drop_first(), c.drop_first());
        }
    }
}

/// Two different sequences are ordered one way or the other.
pub proof fn lemma_lex_total(a: Seq<char>, b: Seq<char>)
    requires
        a != b,
    ensures
        lex_lt(a, b) || lex_lt(b, a),
    decreases a.len(),
{
    if a.len() > 0 && b.len() > 0 {
        if a[0] == b[0] {
            assert(a[0] == b[0]);
            if a.drop_first() == b.drop_first() {
                assert(a =~= seq![a[0]] + a.drop_first());
                assert(b =~= seq![b[0]] + b.drop_first());
            }
            lemma_lex_total(a.drop_first(), b.drop_first());
        }
    } else if a.len() == 0 && b.len() == 0 {
        assert(a =~= b);
    }
}

/// The order is asymmetric.
pub proof fn lemma_lex_asymmetric(a: Seq<char>, b: Seq<char>)
    requires
        lex_lt(a, b),
    ensures
        !lex_lt(b, a),
{
    if lex_lt(b, a) {
        lemma_lex_transitive(a, b, a);
        lemma_lex_irreflexive(a);
    }
}

/// Whether `a` sorts strictly before `b`.
pub fn lex_lt_exec(a: &[char], b: &[char]) -> (r: bool)
    ensures
        r == lex_lt(a@, b@),
{
    let mut i: usize = 0;
    assert(a@.subrange(0, a@.len() as int) == a@);
    assert(b@.subrange(0, b@.len() as int) == b@);
    while i < a.len() && i < b.len() && a[i] == b[i]
        invariant
            i <= a@.len(),
            i <= b@.len(),
            lex_lt(a@, b@) == lex_lt(a@.subrange(i as int, a@.len() as int), b@.subrange(i as int, b@.len() as int)),
        decreases a@.len() - i,
    {
        let ghost sa = a@.subrange(i as int, a@.len() as int);
        let ghost sb = b@.subrange(i as int, b@.len() as int);
        assert(sa.drop_first() == a@.subrange(i + 1, a@.len() as int));
        assert(sb.drop_first() == b@.subrange(i + 1, b@.len() as int));
        i += 1;
    }
    let ghost sa = a@.subrange(i as int, a@.len() as int);
    let ghost sb = b@.subrange(i as int, b@.len() as int);
    if i == a.len() {
        i < b.len()
    } else if i == b.len() {
        false
    } else {
        assert(sa[0] == a@[i as int] && sb[0] == b@[i as int]);
        a[i] < b[i]
    }
}

/// Whether `s` is strictly increasing (so sorted and duplicate-free).
pub open spec fn strictly_sorted(s: Seq<Seq<char>>) -> bool {
    forall|i: int, j: int| 0 <= i < j < s.len() ==> lex_lt(#[trigger] s[i], #[trigger] s[j])
}

/// The character views of a vector of character vectors.
pub open spec fn views(v: Seq<Vec<char>>) -> Seq<Seq<char>> {
    v.map_values(|x: Vec<char>| x@)
}

/// The character views of a vector of strings.
pub open spec fn string_views(v: Seq<String>) -> Seq<Seq<char>> {
    v.map_values(|x: String| x@)
}

/// Inserts `x` into the sorted set `v`, keeping it sorted and duplicate-free.
pub fn insert_sorted(v: &mut Vec<Vec<char>>, x: Vec<char>)
    requires
        strictly_sorted(views(old(v)@)),
    ensures
        strictly_sorted(views(final(v)@)),
        forall|t: Seq<char>| #[trigger] views(final(v)@).contains(t) <==> views(old(v)@).contains(t) || t == x@,
{
    let ghost old_views = views(v@);
    let mut p: usize = 0;
    while p < v.len() && lex_lt_exec(&v[p], &x)
        invariant
            p <= v@.len(),
            v@ == old(v)@,
            forall|k: int| 0 <= k < p ==> lex_lt(#[trigger] v@[k]@, x@),
        decreases v@.len() - p,
    {
        p += 1;
    }
    if p < v.len() && crate::order::chars_eq(&v[p], &x) {
        proof {
            assert forall|t: Seq<char>| #[trigger] views(v@).contains(t) <==> old_views.contains(t) || t == x@ by {
                if t == x@ {
                    assert(views(v@)[p as int] == t);
                }
            }
        }
        return ;
    }
    let ghost xv = x@;
    v.insert(p, x);
    proof {
        let nv = views(v@);
        assert(nv == old_views.insert(p as int, xv));
        if p < old_views.len() {
            assert(old_views[p as int] != xv);
            assert(!lex_lt(old_views[p as int], xv));
            lemma_lex_total(old_views[p as int], xv);
        }
        assert forall|i: int, j: int| 0 <= i < j < nv.len() implies lex_lt(#[trigger] nv[i], #[trigger] nv[j]) by {
            if j < p {
            } else if j == p {
            } else if i == p {
                if j - 1 > p {
                    lemma_lex_transitive(xv, old_views[p as int], old_views[j - 1]);
                }
            } else if i < p {
                if j - 1 > p {
                    lemma_lex_transitive(old_views[i], xv, old_views[p as int]);
                    lemma_lex_transitive(old_views[i], old_views[p as int], old_views[j - 1]);
                } else {
                    lemma_lex_transitive(old_views[i], xv, old_views[p as int]);
                }
            } else {
            }
        }
        assert forall|t: Seq<char>| #[trigger] nv.contains(t) <==> old_views.contains(t) || t == xv by {
            if old_views.contains(t) {
                let k = choose|k: int| 0 <= k < old_views.len() && old_views[k] == t;
                if k < p {
                    assert(nv[k] == t);
                } else {
                    assert(nv[k + 1] == t);
                }
            }
            if t == xv {
                assert(nv[p as int] == t);
            }
            if nv.contains(t) {
                let k = choose|k: int| 0 <= k < nv.len() && nv[k] == t;
                if k < p {
                    assert(old_views[k] == t);
                } else if k > p {
                    assert(old_views[k - 1] == t);
                }
            }
        }
    }
}

/// Whether two character slices are equal.
pub fn chars_eq(a: &[char], b: &[char]) -> (r: bool)
    ensures
        r == (a@ == b@),
{
    if a.len() != b.len() {
        return false;
    }
    let mut i: usize = 0;
    while i < a.len()
        invariant
            a@.len() == b@.len(),
            i <= a@.len(),
            forall|k: int| 0 <= k < i ==> a@[k] == b@[k],
        decreases a@.len() - i,
    {
        if a[i] != b[i] {
            return false;
        }
        i += 1;
    }
    assert(a@ =~= b@);
    true
}


/// Position in `order` (indices into `keys`) before the first key that sorts
/// strictly after `x`.
pub open spec fn key_pos(keys: Seq<Seq<char>>, order: Seq<usize>, x: Seq<char>) -> int
    decreases order.len(),
{
    if order.len() == 0 {
        0
    } else if lex_lt(x, keys[order[0] as int]) {
        0
    } else {
        1 + key_pos(keys, order.drop_first(), x)
    }
}

/// The indices of the first `n` keys in stable sorted order: ordered by key,
/// equal keys in their given order (insertion sort).
pub open spec fn key_order(keys: Seq<Seq<char>>, n: int) -> Seq<usize>
    decreases n,
{
    if n <= 0 {
        Seq::empty()
    } else {
        let o = key_order(keys, n - 1);
        o.insert(key_pos(keys, o, keys[n - 1]), (n - 1) as usize)
    }
}

proof fn lemma_key_pos(keys: Seq<Seq<char>>, order: Seq<usize>, x: Seq<char>, k: int)
    requires
        0 <= k <= order.len(),
        forall|j: int| 0 <= j < k ==> !lex_lt(x, keys[#[trigger] order[j] as int]),
        k < order.len() ==> lex_lt(x, keys[order[k] as int]),
    ensures
        key_pos(keys, order, x) == k,
    decreases k,
{
    if k > 0 {
        assert(!lex_lt(x, keys[order[0] as int]));
        let rest = order.drop_first();
        assert forall|j: int| 0 <= j < k - 1 implies !lex_lt(x, keys[#[trigger] rest[j] as int]) by {
            assert(rest[j] == order[j + 1]);
        }
        if k - 1 < rest.len() {
            assert(rest[k - 1] == order[k]);
        }
        lemma_key_pos(keys, rest, x, k - 1);
    }
}

/// The insertion position lies within the ordering.
pub proof fn lemma_key_pos_range(keys: Seq<Seq<char>>, order: Seq<usize>, x: Seq<char>)
    ensures
        0 <= key_pos(keys, order, x) <= order.len(),
    decreases order.len(),
{
    if order.len() > 0 {
        lemma_key_pos_range(keys, order.drop_first(), x);
    }
}

/// The stable order lists each index below `n` once.
pub proof fn lemma_key_order_perm(keys: Seq<Seq<char>>, n: int)
    requires
        0 <= n <= keys.len(),
        keys.len() <= usize::MAX,
    ensures
        key_order(keys, n).len() == n,
        forall|j: int| 0 <= j < n ==> #[trigger] key_order(keys, n)[j] < n,
    decreases n,
{
    if n > 0 {
        lemma_key_order_perm(keys, n - 1);
        let o = key_order(keys, n - 1);
        lemma_key_pos_range(keys, o, keys[n - 1]);
        let p = key_pos(keys, o, keys[n - 1]);
        let o2 = o.insert(p, (n - 1) as usize);
        assert forall|j: int| 0 <= j < n implies #[trigger] o2[j] < n by {
            if j < p {
                assert(o2[j] == o[j]);
            } else if j > p {
                assert(o2[j] == o[j - 1]);
            } else {
                assert(o2[j] == (n - 1) as usize);
            }
        }
    }
}

/// The indices of `keys` in stable sorted order.
pub fn key_order_exec(keys: &Vec<Vec<char>>) -> (r: Vec<usize>)
    ensures
        r@ == key_order(views(keys@), keys@.len() as int),
        r@.len() == keys@.len(),
        forall|j: int| 0 <= j < r@.len() ==> #[trigger] r@[j] < keys@.len(),
{
    let ghost ks = views(keys@);
    let mut order: Vec<usize> = Vec::new();
    let mut n: usize = 0;
    while n < keys.len()
        invariant
            n <= keys@.len(),
            ks == views(keys@),
            order@ == key_order(ks, n as int),
            order@.len() == n,
            forall|j: int| 0 <= j < order@.len() ==> #[trigger] order@[j] < n,
        decreases keys@.len() - n,
    {
        let mut k: usize = 0;
        while k < order.len() && !lex_lt_exec(&keys[n], &keys[order[k]])
            invariant
                k <= order@.len(),
                n < keys@.len(),
                ks == views(keys@),
                forall|j: int| 0 <= j < order@.len() ==> #[trigger] order@[j] < n,
                forall|j: int| 0 <= j < k ==> !lex_lt(ks[n as int], ks[#[trigger] order@[j] as int]),
            decreases order@.len() - k,
        {
            k += 1;
        }
        proof {
            lemma_key_pos(ks, order@, ks[n as int], k as int);
        }
        let ghost o = order@;
        order.insert(k, n);
        proof {
            assert forall|j: int| 0 <= j < order@.len() implies #[trigger] order@[j] < n + 1 by {
                if j < k {
                    assert(order@[j] == o[j]);
                } else if j > k {
                    assert(order@[j] == o[j - 1]);
                }
            }
        }
        n += 1;
    }
    order
}

} // verus!
