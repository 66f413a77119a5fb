//! Stable insertion sort, as a specification and for the keys that the
//! fingerprint orders by, with the facts that make sorting forget the
//! order of its input.
use vstd::prelude::*;

verus! {

/// Inserts `x` into `s` after every element that `x` is not less than,
/// scanning from the end (so equal elements keep their order).
pub open spec fn insert_sorted<T>(s: Seq<T>, x: T, lt: spec_fn(T, T) -> bool) -> Seq<T>
    decreases s.len(),
{
    if s.len() == 0 {
        seq![x]
    } else if lt(x, s.last()) {
        insert_sorted(s.drop_last(), x, lt).push(s.last())
    } else {
        s.push(x)
    }
}

/// Stable insertion sort of `s` by `lt`.
pub open spec fn isort<T>(s: Seq<T>, lt: spec_fn(T, T) -> bool) -> Seq<T>
    decreases s.len(),
{
    if s.len() == 0 {
        Seq::empty()
    } else {
        insert_sorted(isort(s.drop_last(), lt), s.last(), lt)
    }
}

/// `lt` is irreflexive and transitive.
pub open spec fn strict_order<T>(lt: spec_fn(T, T) -> bool) -> bool {
    &&& forall|a: T| !#[trigger] lt(a, a)
    &&& forall|a: T, b: T, c: T| #[trigger] lt(a, b) && #[trigger] lt(b, c) ==> lt(a, c)
}

/// `lt` orders any two different elements of `s`.
pub open spec fn total_on<T>(lt: spec_fn(T, T) -> bool, s: Seq<T>) -> bool {
    forall|i: int, j: int|
        0 <= i < s.len() && 0 <= j < s.len() && s[i] != s[j] ==> lt(#[trigger] s[i], #[trigger] s[j])
            || lt(s[j], s[i])
}

pub open spec fn sorted_by<T>(s: Seq<T>, lt: spec_fn(T, T) -> bool) -> bool {
    forall|i: int, j: int| 0 <= i < j < s.len() ==> !lt(#[trigger] s[j], #[trigger] s[i])
}

/// Where `lt` places `x` in the sorted `s`, `insert_sorted` is
/// `Seq::insert` at that index.
pub proof fn lemma_insert_sorted_at<T>(s: Seq<T>, x: T, lt: spec_fn(T, T) -> bool, j: int)
    requires
        0 <= j <= s.len(),
        forall|k: int| j <= k < s.len() ==> lt(x, #[trigger] s[k]),
        j == 0 || !lt(x, s[j - 1]),
    ensures
        insert_sorted(s, x, lt) == s.insert(j, x),
    decreases s.len(),
{
    if s.len() == 0 {
        assert(s.insert(j, x) =~= seq![x]);
    } else if j == s.len() {
        assert(s.insert(j, x) =~= s.push(x));
    } else {
        assert(lt(x, s.last()));
        lemma_insert_sorted_at(s.drop_last(), x, lt, j);
        assert(s.drop_last().insert(j, x).push(s.last()) =~= s.insert(j, x));
    }
}

pub proof fn lemma_insert_sorted_multiset<T>(s: Seq<T>, x: T, lt: spec_fn(T, T) -> bool)
    ensures
        insert_sorted(s, x, lt).to_multiset() == s.to_multiset().insert(x),
        insert_sorted(s, x, lt).len() == s.len() + 1,
    decreases s.len(),
{
    broadcast use vstd::seq_lib::group_to_multiset_ensures;

    if s.len() == 0 {
        assert(seq![x] =~= Seq::<T>::empty().push(x));
    } else if lt(x, s.last()) {
        lemma_insert_sorted_multiset(s.drop_last(), x, lt);
        assert(s.drop_last().push(s.last()) =~= s);
    }
}

pub proof fn lemma_isort_multiset<T>(s: Seq<T>, lt: spec_fn(T, T) -> bool)
    ensures
        isort(s, lt).to_multiset() == s.to_multiset(),
        isort(s, lt).len() == s.len(),
    decreases s.len(),
{
    broadcast use vstd::seq_lib::group_to_multiset_ensures;

    if s.len() > 0 {
        lemma_isort_multiset(s.drop_last(), lt);
        lemma_insert_sorted_multiset(isort(s.drop_last(), lt), s.last(), lt);
        assert(s.drop_last().push(s.last()) =~= s);
    }
}

/// Every element of the sorted sequence comes from the input.
pub proof fn lemma_isort_elements<T>(s: Seq<T>, lt: spec_fn(T, T) -> bool)
    ensures
        isort(s, lt).len() == s.len(),
        forall|k: int| 0 <= k < s.len() ==> s.contains(#[trigger] isort(s, lt)[k]),
{
    broadcast use vstd::seq_lib::group_to_multiset_ensures;

    lemma_isort_multiset(s, lt);
    assert forall|k: int| 0 <= k < s.len() implies s.contains(#[trigger] isort(s, lt)[k]) by {
        assert(isort(s, lt).to_multiset().count(isort(s, lt)[k]) > 0);
    }
}

/// Applying a function to each element keeps two sequences with the
/// same elements with the same elements.
pub proof fn lemma_map_values_multiset<A, B>(s1: Seq<A>, s2: Seq<A>, f: spec_fn(A) -> B)
    requires
        s1.to_multiset() == s2.to_multiset(),
    ensures
        s1.map_values(f).to_multiset() == s2.map_values(f).to_multiset(),
    decreases s1.len(),
{
    broadcast use vstd::seq_lib::group_to_multiset_ensures;
    broadcast use vstd::multiset::group_multiset_axioms;

    if s1.len() == 0 {
        vstd::seq_lib::to_multiset_len(s1);
        vstd::seq_lib::to_multiset_len(s2);
        assert(s2.len() == 0);
        assert(s1.map_values(f) =~= s2.map_values(f));
    } else {
        let x = s1.last();
        let p1 = s1.drop_last();
        assert(p1.push(x) =~= s1);
        assert(s1.to_multiset().count(x) > 0);
        assert(s2.contains(x));
        let j = choose|j: int| 0 <= j < s2.len() && s2[j] == x;
        let p2 = s2.remove(j);
        assert(p1.to_multiset() =~= s1.to_multiset().remove(x));
        assert(p2.to_multiset() == s2.to_multiset().remove(x));
        lemma_map_values_multiset(p1, p2, f);
        assert(s1.map_values(f) =~= p1.map_values(f).push(f(x)));
        assert(s2.map_values(f) =~= p2.map_values(f).insert(j, f(x)));
    }
}

pub proof fn lemma_insert_sorted_sorted<T>(s: Seq<T>, x: T, lt: spec_fn(T, T) -> bool)
    requires
        strict_order(lt),
        total_on(lt, s),
        sorted_by(s, lt),
    ensures
        sorted_by(insert_sorted(s, x, lt), lt),
        forall|k: int|
            0 <= k < insert_sorted(s, x, lt).len() ==> #[trigger] insert_sorted(s, x, lt)[k] == x
                || s.contains(insert_sorted(s, x, lt)[k]),
    decreases s.len(),
{
    if s.len() == 0 {
    } else if lt(x, s.last()) {
        let p = s.drop_last();
        assert(total_on(lt, p)) by {
            assert forall|i: int, j: int|
                0 <= i < p.len() && 0 <= j < p.len() && p[i] != p[j] implies lt(#[trigger] p[i], #[trigger] p[j])
                    || lt(p[j], p[i]) by {
                assert(p[i] == s[i] && p[j] == s[j]);
            }
        }
        lemma_insert_sorted_sorted(p, x, lt);
        let q = insert_sorted(p, x, lt);
        let r = q.push(s.last());
        assert forall|i: int, j: int| 0 <= i < j < r.len() implies !lt(#[trigger] r[j], #[trigger] r[i]) by {
            if j == r.len() - 1 && i < q.len() {
                if q[i] == x {
                    if lt(s[s.len() - 1], x) {
                        assert(lt(x, x));
                    }
                } else {
                    assert(p.contains(q[i]));
                    let k = choose|k: int| 0 <= k < p.len() && p[k] == q[i];
                    assert(s[k] == q[i]);
                    assert(!lt(s[s.len() - 1], s[k]));
                }
            }
        }
        assert forall|k: int| 0 <= k < r.len() implies #[trigger] r[k] == x || s.contains(r[k]) by {
            if k < q.len() {
                if q[k] != x {
                    assert(p.contains(q[k]));
                    let m = choose|m: int| 0 <= m < p.len() && p[m] == q[k];
                    assert(s[m] == q[k]);
                }
            } else {
                assert(s[s.len() - 1] == r[k]);
            }
        }
    } else {
        let r = s.push(x);
        assert forall|i: int, j: int| 0 <= i < j < r.len() implies !lt(#[trigger] r[j], #[trigger] r[i]) by {
            if j == r.len() - 1 && i < s.len() {
                if lt(x, s[i]) {
                    if i < s.len() - 1 {
                        assert(!lt(s[s.len() - 1], s[i]));
                        if s[i] != s[s.len() - 1] {
                            assert(lt(s[i], s[s.len() - 1]) || lt(s[s.len() - 1], s[i]));
                            assert(lt(s[i], s[s.len() - 1]));
                        }
                    }
                }
            }
        }
        assert forall|k: int| 0 <= k < r.len() implies #[trigger] r[k] == x || s.contains(r[k]) by {
            if k < s.len() {
                assert(s[k] == r[k]);
            }
        }
    }
}

pub proof fn lemma_isort_sorted<T>(s: Seq<T>, lt: spec_fn(T, T) -> bool)
    requires
        strict_order(lt),
        total_on(lt, s),
    ensures
        sorted_by(isort(s, lt), lt),
    decreases s.len(),
{
    broadcast use vstd::seq_lib::group_to_multiset_ensures;

    if s.len() > 0 {
        let p = s.drop_last();
        assert(total_on(lt, p)) by {
            assert forall|i: int, j: int|
                0 <= i < p.len() && 0 <= j < p.len() && p[i] != p[j] implies lt(#[trigger] p[i], #[trigger] p[j])
                    || lt(p[j], p[i]) by {
                assert(p[i] == s[i] && p[j] == s[j]);
            }
        }
        lemma_isort_sorted(p, lt);
        lemma_isort_multiset(p, lt);
        let q = isort(p, lt);
        assert(total_on(lt, q)) by {
            assert forall|i: int, j: int|
                0 <= i < q.len() && 0 <= j < q.len() && q[i] != q[j] implies lt(#[trigger] q[i], #[trigger] q[j])
                    || lt(q[j], q[i]) by {
                assert(q.to_multiset().count(q[i]) > 0);
                assert(q.to_multiset().count(q[j]) > 0);
                assert(p.contains(q[i]));
                assert(p.contains(q[j]));
                let a = choose|a: int| 0 <= a < p.len() && p[a] == q[i];
                let b = choose|b: int| 0 <= b < p.len() && p[b] == q[j];
                assert(s[a] == q[i] && s[b] == q[j]);
            }
        }
        lemma_insert_sorted_sorted(q, s.last(), lt);
    }
}

/// Two sequences sorted by a strict total order with the same elements
/// are equal.
pub proof fn lemma_sorted_unique<T>(a: Seq<T>, b: Seq<T>, lt: spec_fn(T, T) -> bool)
    requires
        strict_order(lt),
        total_on(lt, a),
        sorted_by(a, lt),
        sorted_by(b, lt),
        a.to_multiset() == b.to_multiset(),
    ensures
        a == b,
    decreases a.len(),
{
    broadcast use vstd::seq_lib::group_to_multiset_ensures;

    vstd::seq_lib::lemma_multiset_commutative(a, Seq::<T>::empty());
    if a.len() == 0 {
        assert(b.to_multiset().len() == 0);
        assert(b.len() == 0);
        assert(a =~= b);
    } else {
        assert(a.to_multiset().len() == a.len());
        assert(b.to_multiset().len() == b.len());
        assert(b.len() > 0);
        let x = a.last();
        let y = b.last();
        assert(a.to_multiset().count(x) > 0);
        assert(b.contains(x));
        assert(b[b.len() - 1] == y);
        assert(b.contains(y));
        assert(b.to_multiset().count(y) > 0);
        assert(a.contains(y));
        let ix = choose|i: int| 0 <= i < b.len() && b[i] == x;
        let iy = choose|i: int| 0 <= i < a.len() && a[i] == y;
        if x != y {
            assert(lt(a[a.len() - 1], a[iy]) || lt(a[iy], a[a.len() - 1]));
            if lt(x, y) {
                assert(!lt(a[a.len() - 1], a[iy]) || iy == a.len() - 1);
            } else {
                assert(lt(y, x));
                assert(!lt(b[b.len() - 1], b[ix]) || ix == b.len() - 1);
            }
        }
        assert(x == y);
        assert(a.drop_last().to_multiset() == a.to_multiset().remove(x)) by {
            assert(a.drop_last().push(x) =~= a);
        }
        assert(b.drop_last().to_multiset() == b.to_multiset().remove(x)) by {
            assert(b.drop_last().push(x) =~= b);
        }
        let pa = a.drop_last();
        assert(total_on(lt, pa)) by {
            assert forall|i: int, j: int|
                0 <= i < pa.len() && 0 <= j < pa.len() && pa[i] != pa[j] implies lt(#[trigger] pa[i], #[trigger] pa[j])
                    || lt(pa[j], pa[i]) by {
                assert(pa[i] == a[i] && pa[j] == a[j]);
            }
        }
        lemma_sorted_unique(pa, b.drop_last(), lt);
        assert(a.drop_last().push(x) =~= a);
        assert(b.drop_last().push(x) =~= b);
    }
}

/// Sorting forgets the order of its input: permutations sort alike.
pub proof fn lemma_isort_permutation<T>(s1: Seq<T>, s2: Seq<T>, lt: spec_fn(T, T) -> bool)
    requires
        strict_order(lt),
        total_on(lt, s1),
        s1.to_multiset() == s2.to_multiset(),
    ensures
        isort(s1, lt) == isort(s2, lt),
{
    broadcast use vstd::seq_lib::group_to_multiset_ensures;

    lemma_isort_multiset(s1, lt);
    lemma_isort_multiset(s2, lt);
    assert(total_on(lt, s2)) by {
        assert forall|i: int, j: int|
            0 <= i < s2.len() && 0 <= j < s2.len() && s2[i] != s2[j] implies lt(#[trigger] s2[i], #[trigger] s2[j])
                || lt(s2[j], s2[i]) by {
            assert(s2.to_multiset().count(s2[i]) > 0);
            assert(s2.to_multiset().count(s2[j]) > 0);
            assert(s1.contains(s2[i]));
            assert(s1.contains(s2[j]));
        }
    }
    lemma_isort_sorted(s1, lt);
    lemma_isort_sorted(s2, lt);
    let q = isort(s1, lt);
    assert(total_on(lt, q)) by {
        assert forall|i: int, j: int|
            0 <= i < q.len() && 0 <= j < q.len() && q[i] != q[j] implies lt(#[trigger] q[i], #[trigger] q[j])
                || lt(q[j], q[i]) by {
            assert(q.to_multiset().count(q[i]) > 0);
            assert(q.to_multiset().count(q[j]) > 0);
            assert(s1.contains(q[i]));
            assert(s1.contains(q[j]));
        }
    }
    lemma_sorted_unique(q, isort(s2, lt), lt);
}

// ---------------------------------------------------------------------
// Order of strings
// ---------------------------------------------------------------------

/// Lexicographic order of character sequences by code point, which is
/// the byte order of their UTF-8 encodings that `str`'s `Ord` uses.
pub open spec fn seq_lt(a: Seq<char>, b: Seq<char>) -> bool
    decreases a.len(),
{
    if a.len() == 0 {
        b.len() > 0
    } else if b.len() == 0 {
        false
    } else if (a[0] as u32) < (b[0] as u32) {
        true
    } else if a[0] == b[0] {
        seq_lt(a.drop_first(), b.drop_first())
    } else {
        false
    }
}

pub proof fn lemma_seq_lt_irreflexive(a: Seq<char>)
    ensures
        !seq_lt(a, a),
    decreases a.len(),
{
    if a.len() > 0 {
        lemma_seq_lt_irreflexive(a.drop_first());
    }
}

pub proof fn lemma_seq_lt_transitive(a: Seq<char>, b: Seq<char>, c: Seq<char>)
    requires
        seq_lt(a, b),
        seq_lt(b, c),
    ensures
        seq_lt(a, c),
    decreases a.len(),
{
    if a.len() > 0 && b.len() > 0 && c.len() > 0 {
        broadcast use vstd::utf8::char_u32_cast;
        if a[0] == b[0] && b[0] == c[0] {
            lemma_seq_lt_transitive(a.drop_first(), b.drop_first(), c.drop_first());
        }
    }
}

pub proof fn lemma_seq_lt_total(a: Seq<char>, b: Seq<char>)
    requires
        a != b,
    ensures
        seq_lt(a, b) || seq_lt(b, a),
    decreases a.len(),
{
    if a.len() > 0 && b.len() > 0 {
        broadcast use vstd::utf8::char_u32_cast;
        if (a[0] as u32) == (b[0] as u32) {
            vstd::utf8::char_u32_cast(a[0], a[0] as u32);
            vstd::utf8::char_u32_cast(b[0], b[0] as u32);
        }
        if a[0] == b[0] {
            assert(a.drop_first() != b.drop_first()) by {
                if a.drop_first() == b.drop_first() {
                    assert(a =~= seq![a[0]] + a.drop_first());
                    assert(b =~= seq![b[0]] + b.drop_first());
                }
            }
            lemma_seq_lt_total(a.drop_first(), b.drop_first());
        }
    } else if a.len() == 0 && b.len() == 0 {
        assert(a =~= b);
    }
}

/// `str < str`.
pub fn str_lt(a: &str, b: &str) -> (r: bool)
    ensures
        r == seq_lt(a@, b@),
{
    let x = crate::text::chars_of(a);
    let y = crate::text::chars_of(b);
    let mut i: usize = 0;
    assert(x@.skip(0) =~= x@);
    assert(y@.skip(0) =~= y@);
    while i < x.len() && i < y.len() && x[i] == y[i]
        invariant
            0 <= i <= x@.len(),
            i <= y@.len(),
            seq_lt(x@, y@) == seq_lt(x@.skip(i as int), y@.skip(i as int)),
        decreases x.len() - i,
    {
        assert(x@.skip(i as int).drop_first() =~= x@.skip(i + 1));
        assert(y@.skip(i as int).drop_first() =~= y@.skip(i + 1));
        i += 1;
    }
    assert(x@.skip(0) =~= x@);
    assert(y@.skip(0) =~= y@);
    if i == x.len() {
        i < y.len()
    } else if i == y.len() {
        false
    } else {
        (x[i] as u32) < (y[i] as u32)
    }
}

} // verus!
