//! Orders used to present GGUF contents: lexicographic order of text, and
//! a stable sort expressed as a permutation of positions.

use vstd::prelude::*;

verus! {

/// Lexicographic order of character sequences by code point. For Rust
/// strings this is the order `str::cmp` gives, since UTF-8 byte order
/// follows code point order.
pub open spec fn lex_lt(a: Seq<char>, b: Seq<char>) -> bool
    decreases a.len(),
{
    if a.len() == 0 {
        b.len() > 0
    } else if b.len() == 0 {
        false
    } else if a[0] != b[0] {
        (a[0] as u32) < (b[0] as u32)
    } else {
        lex_lt(a.drop_first(), b.drop_first())
    }
}

/// Lexicographic order is a strict total order.
pub proof fn lemma_lex_lt_strict_total(a: Seq<char>, b: Seq<char>, c: Seq<char>)
    ensures
        !lex_lt(a, a),
        lex_lt(a, b) ==> !lex_lt(b, a),
        lex_lt(a, b) && lex_lt(b, c) ==> lex_lt(a, c),
        a != b ==> lex_lt(a, b) || lex_lt(b, a),
    decreases a.len(),
{
    if a.len() > 0 && b.len() > 0 && c.len() > 0 {
        lemma_lex_lt_strict_total(a.drop_first(), b.drop_first(), c.drop_first());
        if a[0] == b[0] && a.drop_first() == b.drop_first() {
            assert(a =~= seq![a[0]] + a.drop_first());
            assert(b =~= seq![b[0]] + b.drop_first());
        }
        if (a[0] as u32) == (b[0] as u32) {
            vstd::utf8::char_u32_cast(a[0], a[0] as u32);
            vstd::utf8::char_u32_cast(b[0], b[0] as u32);
        }
        if (b[0] as u32) == (c[0] as u32) {
            vstd::utf8::char_u32_cast(b[0], b[0] as u32);
            vstd::utf8::char_u32_cast(c[0], c[0] as u32);
        }
        if (a[0] as u32) == (c[0] as u32) {
            vstd::utf8::char_u32_cast(a[0], a[0] as u32);
            vstd::utf8::char_u32_cast(c[0], c[0] as u32);
        }
    } else if a.len() > 0 && b.len() > 0 {
        lemma_lex_lt_strict_total(a.drop_first(), b.drop_first(), c);
        if a[0] == b[0] && a.drop_first() == b.drop_first() {
            assert(a =~= seq![a[0]] + a.drop_first());
            assert(b =~= seq![b[0]] + b.drop_first());
        }
        if (a[0] as u32) == (b[0] as u32) {
            vstd::utf8::char_u32_cast(a[0], a[0] as u32);
            vstd::utf8::char_u32_cast(b[0], b[0] as u32);
        }
    } else if a.len() > 0 {
        lemma_lex_lt_strict_total(a.drop_first(), a.drop_first(), c);
    }
    if a.len() == 0 && b.len() == 0 {
        assert(a =~= b);
    }
}

/// Whether `a` comes strictly before `b` in [`lex_lt`] order.
pub fn lex_less(a: &Vec<char>, b: &Vec<char>) -> (r: bool)
    ensures
        r == lex_lt(a@, b@),
{
    let mut i: usize = 0;
    assert(a@.skip(0) =~= a@);
    assert(b@.skip(0) =~= b@);
    while i < a.len() && i < b.len() && a[i] == b[i]
        invariant
            i <= a.len(),
            i <= b.len(),
            lex_lt(a@, b@) == lex_lt(a@.skip(i as int), b@.skip(i as int)),
        decreases a.len() - i,
    {
        assert(a@.skip(i as int).drop_first() =~= a@.skip(i + 1));
        assert(b@.skip(i as int).drop_first() =~= b@.skip(i + 1));
        i = i + 1;
    }
    if i == a.len() {
        i < b.len()
    } else if i == b.len() {
        false
    } else {
        (a[i] as u32) < (b[i] as u32)
    }
}

/// `lt` is a strict total order on the positions below `n`.
pub open spec fn strict_total_on(lt: spec_fn(int, int) -> bool, n: int) -> bool {
    &&& forall|a: int| 0 <= a < n ==> !#[trigger] lt(a, a)
    &&& forall|a: int, b: int, c: int|
        0 <= a < n && 0 <= b < n && 0 <= c < n && #[trigger] lt(a, b) && #[trigger] lt(b, c) ==> lt(a, c)
    &&& forall|a: int, b: int| 0 <= a < n && 0 <= b < n && a != b ==> #[trigger] lt(a, b) || #[trigger] lt(b, a)
}

/// `perm` lists every position below `n` exactly once, in `lt` order.
pub open spec fn sorted_permutation(perm: Seq<usize>, n: int, lt: spec_fn(int, int) -> bool) -> bool {
    &&& perm.len() == n
    &&& forall|i: int| 0 <= i < n ==> #[trigger] perm[i] < n
    &&& forall|i: int, j: int| 0 <= i < j < n ==> perm[i] != perm[j]
    &&& forall|i: int, j: int| 0 <= i < j < n ==> lt(#[trigger] perm[i] as int, #[trigger] perm[j] as int)
}

/// Insertion sort of the positions `0..n` by a strict total order `lt`,
/// decided by `less`.
pub fn sort_positions<F: Fn(usize, usize) -> bool>(n: usize, less: F, lt: Ghost<spec_fn(int, int) -> bool>) -> (perm: Vec<usize>)
    requires
        strict_total_on(lt@, n as int),
        forall|a: usize, b: usize| a < n && b < n ==> #[trigger] less.requires((a, b)),
        forall|a: usize, b: usize, r: bool| a < n && b < n && #[trigger] less.ensures((a, b), r) ==> r == lt@(a as int, b as int),
    ensures
        sorted_permutation(perm@, n as int, lt@),
{
    let mut perm: Vec<usize> = Vec::new();
    let mut i: usize = 0;
    while i < n
        invariant
            i <= n,
            strict_total_on(lt@, n as int),
            forall|a: usize, b: usize| a < n && b < n ==> #[trigger] less.requires((a, b)),
            forall|a: usize, b: usize, r: bool| a < n && b < n && #[trigger] less.ensures((a, b), r) ==> r == lt@(a as int, b as int),
            sorted_permutation(perm@, i as int, lt@),
        decreases n - i,
    {
        let mut p: usize = perm.len();
        while p > 0 && less(i, perm[p - 1])
            invariant
                p <= perm.len(),
                perm.len() == i,
                i < n,
                strict_total_on(lt@, n as int),
                forall|a: usize, b: usize| a < n && b < n ==> #[trigger] less.requires((a, b)),
                forall|a: usize, b: usize, r: bool| a < n && b < n && #[trigger] less.ensures((a, b), r) ==> r == lt@(a as int, b as int),
                sorted_permutation(perm@, i as int, lt@),
                forall|q: int| p <= q < perm.len() ==> lt@(i as int, #[trigger] perm@[q] as int),
            decreases p,
        {
            p = p - 1;
        }
        proof {
            if p > 0 {
                assert(!lt@(i as int, perm@[p - 1] as int));
                assert(perm@[p - 1] != i);
                assert(lt@(perm@[p - 1] as int, i as int));
                assert forall|q: int| 0 <= q < p implies lt@(#[trigger] perm@[q] as int, i as int) by {
                    if q < p - 1 {
                        assert(lt@(perm@[q] as int, perm@[p - 1] as int));
                    }
                }
            }
        }
        let ghost old_perm = perm@;
        perm.insert(p, i);
        proof {
            assert(perm@ == old_perm.insert(p as int, i));
            assert forall|a: int, b: int| 0 <= a < b < i + 1 implies lt@(#[trigger] perm@[a] as int, #[trigger] perm@[b] as int) by {
                if a < p && b < p {
                    assert(perm@[a] == old_perm[a] && perm@[b] == old_perm[b]);
                } else if a < p && b == p {
                    assert(perm@[a] == old_perm[a]);
                } else if a < p {
                    assert(perm@[a] == old_perm[a] && perm@[b] == old_perm[b - 1]);
                    assert(lt@(old_perm[a] as int, i as int));
                    assert(lt@(i as int, old_perm[b - 1] as int));
                } else if a == p {
                    assert(perm@[b] == old_perm[b - 1]);
                } else {
                    assert(perm@[a] == old_perm[a - 1] && perm@[b] == old_perm[b - 1]);
                }
            }
            assert forall|a: int, b: int| 0 <= a < b < i + 1 implies perm@[a] != perm@[b] by {
                if a < p && b < p {
                } else if a < p && b == p {
                    assert(perm@[a] == old_perm[a]);
                } else if a < p {
                    assert(perm@[a] == old_perm[a] && perm@[b] == old_perm[b - 1]);
                } else if a == p {
                    assert(perm@[b] == old_perm[b - 1]);
                } else {
                    assert(perm@[a] == old_perm[a - 1] && perm@[b] == old_perm[b - 1]);
                }
            }
            assert forall|a: int| 0 <= a < i + 1 implies #[trigger] perm@[a] < i + 1 by {
                if a < p {
                    assert(perm@[a] == old_perm[a]);
                } else if a > p {
                    assert(perm@[a] == old_perm[a - 1]);
                }
            }
        }
        i = i + 1;
    }
    perm
}


/// A sorted permutation lists every position below `n`.
pub proof fn law_sorted_permutation_covers(perm: Seq<usize>, n: int, lt: spec_fn(int, int) -> bool, x: int)
    requires
        sorted_permutation(perm, n, lt),
        0 <= x < n,
    ensures
        exists|i: int| 0 <= i < n && perm[i] == x,
{
    broadcast use vstd::seq_lib::seq_to_set_is_finite;

    let ps = Seq::new(n as nat, |i: int| perm[i] as int);
    assert(ps.no_duplicates()) by {
        assert forall|i: int, j: int| 0 <= i < ps.len() && 0 <= j < ps.len() && i != j implies ps[i] != ps[j] by {
            if i < j {
                assert(perm[i] != perm[j]);
            } else {
                assert(perm[j] != perm[i]);
            }
        }
    }
    ps.unique_seq_to_set();
    vstd::set_lib::lemma_int_range(0, n);
    let range = vstd::set_lib::set_int_range(0, n);
    assert(ps.to_set().subset_of(range)) by {
        assert forall|v: int| ps.to_set().contains(v) implies range.contains(v) by {
            let i = choose|i: int| 0 <= i < ps.len() && ps[i] == v;
            assert(perm[i] < n);
        }
    }
    vstd::set_lib::lemma_subset_equality(ps.to_set(), range);
    assert(range.contains(x));
    assert(ps.to_set().contains(x));
    let i = choose|i: int| 0 <= i < ps.len() && ps[i] == x;
    assert(perm[i] == x);
}

proof fn lemma_sorted_permutations_agree_from(
    p: Seq<usize>,
    q: Seq<usize>,
    n: int,
    lt: spec_fn(int, int) -> bool,
    k: int,
)
    requires
        strict_total_on(lt, n),
        sorted_permutation(p, n, lt),
        sorted_permutation(q, n, lt),
        0 <= k <= n,
        forall|i: int| 0 <= i < k ==> p[i] == q[i],
    ensures
        p == q,
    decreases n - k,
{
    if k == n {
        assert(p =~= q);
    } else {
        let a = p[k] as int;
        let b = q[k] as int;
        if a != b {
            if lt(a, b) {
                law_sorted_permutation_covers(q, n, lt, a);
                let j = choose|j: int| 0 <= j < n && q[j] == a;
                if j < k {
                    assert(p[j] == q[j]);
                    assert(p[j] != p[k]);
                } else {
                    assert(j != k);
                    assert(lt(q[k] as int, q[j] as int));
                    assert(lt(a, a));
                }
            } else {
                assert(lt(b, a));
                law_sorted_permutation_covers(p, n, lt, b);
                let j = choose|j: int| 0 <= j < n && p[j] == b;
                if j < k {
                    assert(p[j] == q[j]);
                    assert(q[j] != q[k]);
                } else {
                    assert(j != k);
                    assert(lt(p[k] as int, p[j] as int));
                    assert(lt(b, b));
                }
            }
        }
        lemma_sorted_permutations_agree_from(p, q, n, lt, k + 1);
    }
}

/// Under a strict total order there is exactly one sorted permutation: a
/// sort by such an order has one possible result.
pub proof fn law_sorted_permutation_unique(p: Seq<usize>, q: Seq<usize>, n: int, lt: spec_fn(int, int) -> bool)
    requires
        strict_total_on(lt, n),
        sorted_permutation(p, n, lt),
        sorted_permutation(q, n, lt),
    ensures
        p == q,
{
    lemma_sorted_permutations_agree_from(p, q, n, lt, 0);
}

} // verus!
