//! Lexicographic order on sequences of numbers, and a stable sort by such
//! keys. Every ordering the library uses (strings, numbers, paths, pairs of
//! them) is expressed as a key of this form.

use vstd::prelude::*;

verus! {

/// Lexicographic "strictly less" on number sequences: the first difference
/// decides, and a proper prefix comes first (the order of `str` and `String`
/// when the numbers are code points).
pub open spec fn lex_lt(a: Seq<u32>, b: Seq<u32>) -> bool
    decreases a.len(),
{
    if b.len() == 0 {
        false
    } else if a.len() == 0 {
        true
    } else if a[0] < b[0] {
        true
    } else if a[0] > b[0] {
        false
    } else {
        lex_lt(a.drop_first(), b.drop_first())
    }
}

/// `lex_lt` is irreflexive.
pub proof fn lemma_lex_irreflexive(a: Seq<u32>)
    ensures
        !lex_lt(a, a),
    decreases a.len(),
{
    if a.len() > 0 {
        lemma_lex_irreflexive(a.drop_first());
    }
}

/// `lex_lt` is transitive.
pub proof fn lemma_lex_transitive(a: Seq<u32>, b: Seq<u32>, c: Seq<u32>)
    requires
        lex_lt(a, b),
        lex_lt(b, c),
    ensures
        lex_lt(a, c),
    decreases a.len(),
{
    if a.len() > 0 && b.len() > 0 && c.len() > 0 && a[0] == b[0] && b[0] == c[0] {
        lemma_lex_transitive(a.drop_first(), b.drop_first(), c.drop_first());
    }
}

/// Of two different sequences, one is `lex_lt` the other.
pub proof fn lemma_lex_total(a: Seq<u32>, b: Seq<u32>)
    ensures
        lex_lt(a, b) || lex_lt(b, a) || a == b,
    decreases a.len(),
{
    if a.len() > 0 && b.len() > 0 && a[0] == b[0] {
        lemma_lex_total(a.drop_first(), b.drop_first());
        if a.drop_first() == b.drop_first() {
            assert(a =~= seq![a[0]] + a.drop_first());
            assert(b =~= seq![b[0]] + b.drop_first());
        }
    } else if a.len() == 0 && b.len() == 0 {
        assert(a =~= b);
    }
}

/// `lex_lt` is asymmetric.
pub proof fn lemma_lex_asymmetric(a: Seq<u32>, b: Seq<u32>)
    requires
        lex_lt(a, b),
    ensures
        !lex_lt(b, a),
    decreases a.len(),
{
    if a.len() > 0 && b.len() > 0 && a[0] == b[0] {
        lemma_lex_asymmetric(a.drop_first(), b.drop_first());
    }
}

/// Whether `a` comes strictly before `b` lexicographically.
pub fn lex_less(a: &Vec<u32>, b: &Vec<u32>) -> (res: bool)
    ensures
        res == lex_lt(a@, b@),
{
    let mut i: usize = 0;
    assert(a@.skip(0) =~= a@);
    assert(b@.skip(0) =~= b@);
    while i < a.len() && i < b.len()
        invariant
            i <= a@.len(),
            i <= b@.len(),
            lex_lt(a@, b@) == lex_lt(a@.skip(i as int), b@.skip(i as int)),
        decreases a@.len() - i,
    {
        if a[i] < b[i] {
            return true;
        }
        if a[i] > b[i] {
            return false;
        }
        assert(a@.skip(i as int).drop_first() =~= a@.skip(i + 1));
        assert(b@.skip(i as int).drop_first() =~= b@.skip(i + 1));
        i = i + 1;
    }
    i == a.len() && i < b.len()
}

/// Whether `a` and `b` hold the same numbers.
pub fn keys_equal(a: &Vec<u32>, b: &Vec<u32>) -> (res: bool)
    ensures
        res == (a@ == b@),
{
    if a.len() != b.len() {
        return false;
    }
    let mut i: usize = 0;
    while i < a.len()
        invariant
            a@.len() == b@.len(),
            i <= a@.len(),
            forall|j: int| 0 <= j < i ==> a@[j] == b@[j],
        decreases a@.len() - i,
    {
        if a[i] != b[i] {
            return false;
        }
        i = i + 1;
    }
    assert(a@ =~= b@);
    true
}

/// The numbers of each key vector.
pub open spec fn key_views(keys: Seq<Vec<u32>>) -> Seq<Seq<u32>> {
    keys.map_values(|k: Vec<u32>| k@)
}

/// Item `i` goes before item `j` in a stable sort by `keys`: its key is
/// smaller (larger when `descending`), or the keys are equal and `i` came
/// first in the input.
pub open spec fn goes_before(keys: Seq<Seq<u32>>, descending: bool, i: int, j: int) -> bool {
    if descending {
        lex_lt(keys[j], keys[i]) || (keys[i] == keys[j] && i < j)
    } else {
        lex_lt(keys[i], keys[j]) || (keys[i] == keys[j] && i < j)
    }
}

/// `perm` lists the input positions `0..keys.len()` in the order in which a
/// stable sort by `keys` places them. Such a list is a permutation, and there
/// is exactly one (see [`lemma_stable_order_unique`]).
pub open spec fn is_stable_order(keys: Seq<Seq<u32>>, descending: bool, perm: Seq<int>) -> bool {
    &&& perm.len() == keys.len()
    &&& forall|k: int| 0 <= k < perm.len() ==> 0 <= #[trigger] perm[k] < keys.len()
    &&& forall|k: int, l: int|
        0 <= k < l < perm.len() ==> goes_before(keys, descending, #[trigger] perm[k], #[trigger] perm[l])
}

/// The items of `items` in the order `perm`.
pub open spec fn permuted<T>(items: Seq<T>, perm: Seq<int>) -> Seq<T> {
    perm.map_values(|i: int| items[i])
}

proof fn lemma_goes_before_irreflexive(keys: Seq<Seq<u32>>, d: bool, i: int)
    ensures
        !goes_before(keys, d, i, i),
{
    lemma_lex_irreflexive(keys[i]);
}

proof fn lemma_goes_before_transitive(keys: Seq<Seq<u32>>, d: bool, i: int, j: int, k: int)
    requires
        goes_before(keys, d, i, j),
        goes_before(keys, d, j, k),
    ensures
        goes_before(keys, d, i, k),
{
    if d {
        if lex_lt(keys[j], keys[i]) && lex_lt(keys[k], keys[j]) {
            lemma_lex_transitive(keys[k], keys[j], keys[i]);
        }
    } else {
        if lex_lt(keys[i], keys[j]) && lex_lt(keys[j], keys[k]) {
            lemma_lex_transitive(keys[i], keys[j], keys[k]);
        }
    }
}

proof fn lemma_goes_before_total(keys: Seq<Seq<u32>>, d: bool, i: int, j: int)
    requires
        i != j,
    ensures
        goes_before(keys, d, i, j) || goes_before(keys, d, j, i),
{
    lemma_lex_total(keys[i], keys[j]);
}

proof fn lemma_goes_before_asymmetric(keys: Seq<Seq<u32>>, d: bool, i: int, j: int)
    requires
        goes_before(keys, d, i, j),
    ensures
        !goes_before(keys, d, j, i),
{
    if lex_lt(keys[i], keys[j]) {
        lemma_lex_asymmetric(keys[i], keys[j]);
    }
    if lex_lt(keys[j], keys[i]) {
        lemma_lex_asymmetric(keys[j], keys[i]);
    }
    if keys[i] == keys[j] {
        lemma_lex_irreflexive(keys[i]);
    }
}

/// Whether input item `i` goes before input item `j`.
fn goes_before_exec(keys: &Vec<Vec<u32>>, descending: bool, i: usize, j: usize) -> (res: bool)
    requires
        i < keys@.len(),
        j < keys@.len(),
    ensures
        res == goes_before(key_views(keys@), descending, i as int, j as int),
{
    let ki = &keys[i];
    let kj = &keys[j];
    if descending {
        lex_less(kj, ki) || (keys_equal(ki, kj) && i < j)
    } else {
        lex_less(ki, kj) || (keys_equal(ki, kj) && i < j)
    }
}

/// Sorts `items` stably by `keys` (one key per item), ascending or
/// descending. Returns the sorted items together with the order `perm` in
/// which they were taken from the input.
pub fn stable_sort<T>(items: Vec<T>, keys: &Vec<Vec<u32>>, descending: bool) -> (res: (
    Vec<T>,
    Ghost<Seq<int>>,
))
    requires
        items@.len() == keys@.len(),
    ensures
        is_stable_order(key_views(keys@), descending, res.1@),
        res.0@ == permuted(items@, res.1@),
{
    let ghost items0 = items@;
    let ghost kv = key_views(keys@);
    let n = items.len();
    let mut rest = items;
    let mut out: Vec<T> = Vec::new();
    let mut out_idx: Vec<usize> = Vec::new();
    let ghost mut perm: Seq<int> = seq![];
    while rest.len() > 0
        invariant
            n == items0.len(),
            n == keys@.len(),
            kv == key_views(keys@),
            rest@ == items0.take(rest@.len() as int),
            rest@.len() <= n,
            out_idx@.len() == n - rest@.len(),
            perm.len() == out_idx@.len(),
            forall|k: int| 0 <= k < perm.len() ==> #[trigger] perm[k] == out_idx@[k] as int,
            forall|k: int| 0 <= k < perm.len() ==> rest@.len() <= #[trigger] perm[k] < n,
            forall|k: int, l: int|
                0 <= k < l < perm.len() ==> goes_before(kv, descending, #[trigger] perm[k], #[trigger] perm[l]),
            out@ == permuted(items0, perm),
        decreases rest@.len(),
    {
        let idx = rest.len() - 1;
        let x = rest.pop().unwrap();
        assert(rest@ =~= items0.take(idx as int));
        assert forall|k: int| 0 <= k < out_idx@.len() implies idx < #[trigger] out_idx@[k] < n by {
            assert(perm[k] == out_idx@[k] as int);
        }
        let mut p: usize = 0;
        while p < out_idx.len() && !goes_before_exec(keys, descending, idx, out_idx[p])
            invariant
                n == keys@.len(),
                kv == key_views(keys@),
                idx < n,
                p <= out_idx@.len(),
                perm.len() == out_idx@.len(),
                forall|k: int| 0 <= k < perm.len() ==> #[trigger] perm[k] == out_idx@[k] as int,
                forall|k: int| 0 <= k < perm.len() ==> idx < #[trigger] perm[k] < n,
                forall|k: int| 0 <= k < out_idx@.len() ==> idx < #[trigger] out_idx@[k] < n,
                forall|k: int| 0 <= k < p ==> goes_before(kv, descending, #[trigger] perm[k], idx as int),
            decreases out_idx@.len() - p,
        {
            proof {
                lemma_goes_before_total(kv, descending, idx as int, perm[p as int]);
            }
            p = p + 1;
        }
        proof {
            if p < out_idx@.len() {
                assert(goes_before(kv, descending, idx as int, perm[p as int]));
            }
        }
        let ghost old_perm = perm;
        out.insert(p, x);
        out_idx.insert(p, idx);
        proof {
            perm = perm.insert(p as int, idx as int);
            assert forall|k: int, l: int|
                0 <= k < l < perm.len() implies goes_before(kv, descending, #[trigger] perm[k], #[trigger] perm[l]) by {
                if k < p && l < p {
                    assert(perm[k] == old_perm[k] && perm[l] == old_perm[l]);
                } else if k < p && l == p {
                    assert(perm[k] == old_perm[k]);
                } else if k < p && l > p {
                    assert(perm[k] == old_perm[k] && perm[l] == old_perm[l - 1]);
                } else if k == p {
                    assert(perm[l] == old_perm[l - 1]);
                    if l - 1 > p {
                        lemma_goes_before_transitive(kv, descending, idx as int, old_perm[p as int], old_perm[l - 1]);
                    }
                } else {
                    assert(perm[k] == old_perm[k - 1] && perm[l] == old_perm[l - 1]);
                }
            }
            assert(out@ =~= permuted(items0, perm));
        }
    }
    (out, Ghost(perm))
}

/// Any two orders that both satisfy [`is_stable_order`] for the same keys
/// are equal: a stable sort has exactly one result.
pub proof fn lemma_stable_order_unique(keys: Seq<Seq<u32>>, d: bool, p: Seq<int>, q: Seq<int>)
    requires
        is_stable_order(keys, d, p),
        is_stable_order(keys, d, q),
    ensures
        p == q,
{
    // Position of each input index in `p` and `q` is its rank: the number of
    // indices that go before it.
    assert forall|k: int| 0 <= k < p.len() implies p[k] == q[k] by {
        lemma_rank(keys, d, p, k);
        lemma_rank(keys, d, q, k);
        if p[k] != q[k] {
            lemma_rank_position(keys, d, p, q, k);
        }
    }
    assert(p =~= q);
}

/// A stable order lists every input position exactly once: sorting neither
/// loses nor repeats an item.
pub proof fn lemma_stable_order_is_permutation(keys: Seq<Seq<u32>>, d: bool, p: Seq<int>)
    requires
        is_stable_order(keys, d, p),
    ensures
        forall|k: int, l: int| 0 <= k < p.len() && 0 <= l < p.len() && k != l ==> p[k] != p[l],
        forall|i: int| 0 <= i < keys.len() ==> p.contains(i),
{
    lemma_distinct(keys, d, p);
    lemma_covers(keys, d, p);
}

/// The set of indices that go before `x`.
pub open spec fn before_set(keys: Seq<Seq<u32>>, d: bool, x: int) -> Set<int> {
    Set::new(|i: int| 0 <= i < keys.len() && goes_before(keys, d, i, x))
}

proof fn lemma_distinct(keys: Seq<Seq<u32>>, d: bool, p: Seq<int>)
    requires
        is_stable_order(keys, d, p),
    ensures
        forall|k: int, l: int| 0 <= k < p.len() && 0 <= l < p.len() && k != l ==> p[k] != p[l],
{
    assert forall|k: int, l: int| 0 <= k < p.len() && 0 <= l < p.len() && k != l implies p[k] != p[l] by {
        if k < l {
            assert(goes_before(keys, d, p[k], p[l]));
        } else {
            assert(goes_before(keys, d, p[l], p[k]));
        }
        lemma_goes_before_irreflexive(keys, d, p[k]);
    }
}

proof fn lemma_covers(keys: Seq<Seq<u32>>, d: bool, p: Seq<int>)
    requires
        is_stable_order(keys, d, p),
    ensures
        forall|i: int| 0 <= i < keys.len() ==> p.contains(i),
{
    lemma_distinct(keys, d, p);
    let s = p.to_set();
    assert(p.no_duplicates());
    p.unique_seq_to_set();
    assert(s.len() == keys.len());
    assert(s.subset_of(Set::new(|i: int| 0 <= i < keys.len())));
    vstd::set_lib::lemma_int_range(0, keys.len() as int);
    let r = vstd::set_lib::set_int_range(0, keys.len() as int);
    assert(s.subset_of(r));
    vstd::set_lib::lemma_subset_equality(s, r);
    assert forall|i: int| 0 <= i < keys.len() implies p.contains(i) by {
        assert(r.contains(i));
        assert(s.contains(i));
    }
}

/// In a stable order, the position of an item is the number of items that go
/// before it.
proof fn lemma_rank(keys: Seq<Seq<u32>>, d: bool, p: Seq<int>, k: int)
    requires
        is_stable_order(keys, d, p),
        0 <= k < p.len(),
    ensures
        before_set(keys, d, p[k]) == p.take(k).to_set(),
{
    lemma_distinct(keys, d, p);
    lemma_covers(keys, d, p);
    assert forall|i: int| before_set(keys, d, p[k]).contains(i) <==> p.take(k).to_set().contains(i) by {
        if before_set(keys, d, p[k]).contains(i) {
            assert(p.contains(i));
            let m = choose|m: int| 0 <= m < p.len() && p[m] == i;
            if m >= k {
                if m == k {
                    lemma_goes_before_irreflexive(keys, d, i);
                } else {
                    assert(goes_before(keys, d, p[k], p[m]));
                    lemma_goes_before_asymmetric(keys, d, p[k], p[m]);
                }
            }
            assert(p.take(k)[m] == i);
        }
        if p.take(k).to_set().contains(i) {
            assert(p.take(k).contains(i));
            let m = choose|m: int| 0 <= m < k && p.take(k)[m] == i;
            assert(p[m] == i);
            assert(goes_before(keys, d, p[m], p[k]));
        }
    }
    assert(before_set(keys, d, p[k]) =~= p.take(k).to_set());
}

proof fn lemma_rank_position(keys: Seq<Seq<u32>>, d: bool, p: Seq<int>, q: Seq<int>, k: int)
    requires
        is_stable_order(keys, d, p),
        is_stable_order(keys, d, q),
        0 <= k < p.len(),
        before_set(keys, d, p[k]) == p.take(k).to_set(),
        before_set(keys, d, q[k]) == q.take(k).to_set(),
    ensures
        p[k] == q[k],
{
    lemma_distinct(keys, d, p);
    lemma_distinct(keys, d, q);
    if p[k] != q[k] {
        lemma_goes_before_total(keys, d, p[k], q[k]);
        let a = p[k];
        let b = q[k];
        // Both before-sets have exactly k elements.
        assert(p.take(k).no_duplicates());
        assert(q.take(k).no_duplicates());
        p.take(k).unique_seq_to_set();
        q.take(k).unique_seq_to_set();
        if goes_before(keys, d, a, b) {
            // everything before a is before b, and a itself is before b
            assert forall|i: int| before_set(keys, d, a).contains(i) implies before_set(keys, d, b).contains(i) by {
                lemma_goes_before_transitive(keys, d, i, a, b);
            }
            lemma_goes_before_irreflexive(keys, d, a);
            assert(before_set(keys, d, b).contains(a));
            assert(!before_set(keys, d, a).contains(a));
            assert(before_set(keys, d, a).insert(a).subset_of(before_set(keys, d, b)));
            vstd::set_lib::lemma_len_subset(before_set(keys, d, a).insert(a), before_set(keys, d, b));
        } else {
            assert forall|i: int| before_set(keys, d, b).contains(i) implies before_set(keys, d, a).contains(i) by {
                lemma_goes_before_transitive(keys, d, i, b, a);
            }
            lemma_goes_before_irreflexive(keys, d, b);
            assert(before_set(keys, d, a).contains(b));
            assert(!before_set(keys, d, b).contains(b));
            assert(before_set(keys, d, b).insert(b).subset_of(before_set(keys, d, a)));
            vstd::set_lib::lemma_len_subset(before_set(keys, d, b).insert(b), before_set(keys, d, a));
        }
    }
}

} // verus!
