//! Orderings of functions and the stable-sort relation between sequences.

use vstd::prelude::*;

use crate::report::{Function, Sort};

verus! {

/// The value that `s` orders by.
pub open spec fn key(f: Function, s: Sort) -> u64 {
    match s {
        Sort::Text => f.text,
        Sort::Stack => f.stack,
        Sort::Address => f.addr,
    }
}

/// `a` must stand before `b` under `s`: sizes descend, addresses ascend.
pub open spec fn before(a: Function, b: Function, s: Sort) -> bool {
    match s {
        Sort::Text => a.text > b.text,
        Sort::Stack => a.stack > b.stack,
        Sort::Address => a.addr < b.addr,
    }
}

/// No function stands after one that `s` puts after it.
pub open spec fn ordered(v: Seq<Function>, s: Sort) -> bool {
    forall|i: int, j: int| 0 <= i < j < v.len() ==> !before(#[trigger] v[j], #[trigger] v[i], s)
}

/// The functions of `v` whose key under `s` is `k`, in their order in `v`.
pub open spec fn with_key(v: Seq<Function>, s: Sort, k: u64) -> Seq<Function>
    decreases v.len(),
{
    if v.len() == 0 {
        Seq::empty()
    } else {
        let r = with_key(v.drop_last(), s, k);
        if key(v.last(), s) == k {
            r.push(v.last())
        } else {
            r
        }
    }
}

/// `out` is `orig` sorted by `s`, functions with equal keys keeping their
/// relative order.
pub open spec fn stable_sort_of(orig: Seq<Function>, out: Seq<Function>, s: Sort) -> bool {
    &&& ordered(out, s)
    &&& forall|k: u64| #[trigger] with_key(out, s, k) == with_key(orig, s, k)
}

/// Whether `a` must stand before `b` under `s`.
pub fn precedes(a: &Function, b: &Function, s: Sort) -> (r: bool)
    ensures
        r == before(*a, *b, s),
{
    match s {
        Sort::Text => a.text > b.text,
        Sort::Stack => a.stack > b.stack,
        Sort::Address => a.addr < b.addr,
    }
}

pub proof fn lemma_with_key_append(a: Seq<Function>, b: Seq<Function>, s: Sort, k: u64)
    ensures
        with_key(a + b, s, k) == with_key(a, s, k) + with_key(b, s, k),
    decreases b.len(),
{
    if b.len() == 0 {
        assert(a + b =~= a);
        assert(with_key(a, s, k) + with_key(b, s, k) =~= with_key(a, s, k));
    } else {
        lemma_with_key_append(a, b.drop_last(), s, k);
        assert((a + b).drop_last() =~= a + b.drop_last());
        assert((a + b).last() == b.last());
        let wa = with_key(a, s, k);
        let wb = with_key(b.drop_last(), s, k);
        assert((wa + wb).push(b.last()) =~= wa + wb.push(b.last()));
    }
}

pub proof fn lemma_with_key_absent(v: Seq<Function>, s: Sort, k: u64)
    requires
        forall|i: int| 0 <= i < v.len() ==> key(#[trigger] v[i], s) != k,
    ensures
        with_key(v, s, k) == Seq::<Function>::empty(),
    decreases v.len(),
{
    if v.len() > 0 {
        lemma_with_key_absent(v.drop_last(), s, k);
    }
}

/// Inserting `x` after every function that it need not precede, and before
/// the rest, extends a stable sort by one function.
pub proof fn lemma_insert_sorted(prev: Seq<Function>, out: Seq<Function>, x: Function, p: int, s: Sort)
    requires
        stable_sort_of(prev, out, s),
        0 <= p <= out.len(),
        forall|j: int| 0 <= j < p ==> !(#[trigger] before(x, out[j], s)),
        p < out.len() ==> before(x, out[p], s),
    ensures
        stable_sort_of(prev.push(x), out.insert(p, x), s),
{
    let n = out.insert(p, x);
    assert forall|j: int| p <= j < out.len() implies #[trigger] before(x, out[j], s) by {
        if j > p {
            assert(!before(out[j], out[p], s));
        }
    }
    assert forall|i: int, j: int| 0 <= i < j < n.len() implies !before(#[trigger] n[j], #[trigger] n[i], s) by {
        if j < p {
            assert(!before(out[j], out[i], s));
        } else if j == p {
            assert(!before(x, out[i], s));
        } else if i < p {
            assert(!before(out[j - 1], out[i], s));
        } else if i == p {
            assert(before(x, out[j - 1], s));
        } else {
            assert(!before(out[j - 1], out[i - 1], s));
        }
    }
    let head = out.take(p);
    let tail = out.skip(p);
    assert(out =~= head + tail);
    assert(n =~= head + (seq![x] + tail));
    assert forall|k: u64| #[trigger] with_key(n, s, k) == with_key(prev.push(x), s, k) by {
        assert(prev.push(x).drop_last() =~= prev);
        lemma_with_key_append(head, tail, s, k);
        lemma_with_key_append(head, seq![x] + tail, s, k);
        lemma_with_key_append(seq![x], tail, s, k);
        assert(seq![x].drop_last() =~= Seq::<Function>::empty());
        assert(seq![x].last() == x);
        assert(with_key(Seq::<Function>::empty(), s, k) =~= Seq::<Function>::empty());
        assert(with_key(out, s, k) == with_key(prev, s, k));
        if k == key(x, s) {
            assert forall|i: int| 0 <= i < tail.len() implies key(#[trigger] tail[i], s) != k by {
                assert(before(x, out[p + i], s));
            }
            lemma_with_key_absent(tail, s, k);
            assert(with_key(seq![x], s, k) =~= seq![x]);
            assert(with_key(n, s, k) =~= with_key(prev, s, k).push(x));
        } else {
            assert(with_key(seq![x], s, k) =~= Seq::<Function>::empty());
            assert(with_key(n, s, k) =~= with_key(prev, s, k));
        }
    }
}

} // verus!

verus! {

/// No two functions of `v` share an address.
pub open spec fn distinct_addresses(v: Seq<Function>) -> bool {
    forall|i: int, j: int| 0 <= i < j < v.len() ==> (#[trigger] v[i]).addr != (#[trigger] v[j]).addr
}

/// How often `x` occurs in `v`.
pub open spec fn occurrences(v: Seq<Function>, x: Function) -> nat
    decreases v.len(),
{
    if v.len() == 0 {
        0
    } else {
        occurrences(v.drop_last(), x) + if v.last() == x {
            1nat
        } else {
            0nat
        }
    }
}

proof fn lemma_occurrences_with_key(v: Seq<Function>, s: Sort, k: u64, x: Function)
    ensures
        occurrences(with_key(v, s, k), x) == if key(x, s) == k {
            occurrences(v, x)
        } else {
            0
        },
    decreases v.len(),
{
    if v.len() > 0 {
        lemma_occurrences_with_key(v.drop_last(), s, k, x);
        let w = with_key(v.drop_last(), s, k);
        if key(v.last(), s) == k {
            assert(w.push(v.last()).drop_last() =~= w);
        }
    }
}

proof fn lemma_occurs(v: Seq<Function>, i: int)
    requires
        0 <= i < v.len(),
    ensures
        occurrences(v, v[i]) >= 1,
    decreases v.len(),
{
    if i < v.len() - 1 {
        lemma_occurs(v.drop_last(), i);
    }
}

proof fn lemma_occurrences_all_same(v: Seq<Function>, f: Function)
    requires
        forall|i: int| 0 <= i < v.len() ==> v[i] == f,
    ensures
        occurrences(v, f) == v.len(),
    decreases v.len(),
{
    if v.len() > 0 {
        lemma_occurrences_all_same(v.drop_last(), f);
    }
}

/// Equal occurrence counts pin down a sequence of at most one function.
proof fn lemma_same_occurrences_short(a: Seq<Function>, b: Seq<Function>)
    requires
        a.len() <= 1,
        forall|x: Function| occurrences(a, x) == occurrences(b, x),
    ensures
        a == b,
{
    if a.len() == 0 {
        if b.len() > 0 {
            lemma_occurs(b, 0);
            assert(occurrences(a, b[0]) == 0);
        }
        assert(a =~= b);
    } else {
        let f = a[0];
        assert(a.drop_last() =~= Seq::<Function>::empty());
        assert forall|x: Function| #[trigger] occurrences(a, x) == if x == f { 1nat } else { 0nat } by {
            assert(occurrences(a.drop_last(), x) == 0);
            assert(a.last() == f);
        }
        assert forall|i: int| 0 <= i < b.len() implies b[i] == f by {
            lemma_occurs(b, i);
            assert(occurrences(a, b[i]) >= 1);
        }
        lemma_occurrences_all_same(b, f);
        assert(occurrences(a, f) == 1);
        assert(a =~= b);
    }
}

proof fn lemma_with_address_short(v: Seq<Function>, k: u64)
    requires
        distinct_addresses(v),
    ensures
        with_key(v, Sort::Address, k).len() <= 1,
    decreases v.len(),
{
    if v.len() > 0 {
        let d = v.drop_last();
        assert(distinct_addresses(d)) by {
            assert forall|i: int, j: int| 0 <= i < j < d.len() implies (#[trigger] d[i]).addr
                != (#[trigger] d[j]).addr by {
                assert(v[i].addr != v[j].addr);
            }
        }
        if v.last().addr == k {
            assert forall|i: int| 0 <= i < d.len() implies key(#[trigger] d[i], Sort::Address) != k by {
                assert(v[i].addr != v[v.len() - 1].addr);
            }
            lemma_with_key_absent(d, Sort::Address, k);
        } else {
            lemma_with_address_short(d, k);
        }
    }
}

/// A stable sort keeps every function as often as it occurs.
pub proof fn lemma_sort_keeps_occurrences(a: Seq<Function>, b: Seq<Function>, s: Sort, x: Function)
    requires
        stable_sort_of(a, b, s),
    ensures
        occurrences(b, x) == occurrences(a, x),
{
    lemma_occurrences_with_key(a, s, key(x, s), x);
    lemma_occurrences_with_key(b, s, key(x, s), x);
    assert(with_key(b, s, key(x, s)) == with_key(a, s, key(x, s)));
}

/// Where addresses are distinct, sorting by address after a sort by any key
/// gives the order that sorting the starting sequence by address gives:
/// the earlier ordering leaves no trace.
pub proof fn lemma_address_order_restored(r0: Seq<Function>, r1: Seq<Function>, r2: Seq<Function>, s: Sort)
    requires
        distinct_addresses(r0),
        stable_sort_of(r0, r1, s),
        stable_sort_of(r1, r2, Sort::Address),
    ensures
        stable_sort_of(r0, r2, Sort::Address),
        forall|d: Seq<Function>| #[trigger] stable_sort_of(r0, d, Sort::Address) ==> d == r2,
{
    lemma_address_order_restored_sorted(r0, r1, r2, s);
    assert forall|d: Seq<Function>| #[trigger] stable_sort_of(r0, d, Sort::Address) implies d == r2 by {
        lemma_stable_sort_unique(r0, d, r2, Sort::Address);
    }
}

proof fn lemma_address_order_restored_sorted(r0: Seq<Function>, r1: Seq<Function>, r2: Seq<Function>, s: Sort)
    requires
        distinct_addresses(r0),
        stable_sort_of(r0, r1, s),
        stable_sort_of(r1, r2, Sort::Address),
    ensures
        stable_sort_of(r0, r2, Sort::Address),
{
    assert forall|k: u64| #[trigger] with_key(r2, Sort::Address, k) == with_key(r0, Sort::Address, k) by {
        let w0 = with_key(r0, Sort::Address, k);
        let w1 = with_key(r1, Sort::Address, k);
        assert forall|x: Function| occurrences(w0, x) == occurrences(w1, x) by {
            lemma_sort_keeps_occurrences(r0, r1, s, x);
            lemma_occurrences_with_key(r0, Sort::Address, k, x);
            lemma_occurrences_with_key(r1, Sort::Address, k, x);
        }
        lemma_with_address_short(r0, k);
        lemma_same_occurrences_short(w0, w1);
        assert(with_key(r2, Sort::Address, k) == w1);
    }
}

} // verus!

verus! {

proof fn lemma_with_key_witness(v: Seq<Function>, s: Sort, k: u64)
    requires
        with_key(v, s, k).len() > 0,
    ensures
        exists|j: int| 0 <= j < v.len() && key(#[trigger] v[j], s) == k,
    decreases v.len(),
{
    if key(v.last(), s) == k {
        assert(key(v[v.len() - 1], s) == k);
    } else {
        lemma_with_key_witness(v.drop_last(), s, k);
        let j = choose|j: int| 0 <= j < v.drop_last().len() && key(#[trigger] v.drop_last()[j], s) == k;
        assert(v[j] == v.drop_last()[j]);
    }
}

proof fn lemma_last_key_agrees(b: Seq<Function>, c: Seq<Function>, s: Sort)
    requires
        b.len() > 0,
        ordered(c, s),
        with_key(c, s, key(b.last(), s)) == with_key(b, s, key(b.last(), s)),
    ensures
        c.len() > 0,
        !before(c.last(), b.last(), s),
{
    let k = key(b.last(), s);
    assert(with_key(b, s, k).len() > 0);
    lemma_with_key_witness(c, s, k);
    let j = choose|j: int| 0 <= j < c.len() && key(#[trigger] c[j], s) == k;
    if j < c.len() - 1 {
        assert(!before(c[c.len() - 1], c[j], s));
    }
}

proof fn lemma_ordered_drop_last(v: Seq<Function>, s: Sort)
    requires
        v.len() > 0,
        ordered(v, s),
    ensures
        ordered(v.drop_last(), s),
{
    let d = v.drop_last();
    assert forall|i: int, j: int| 0 <= i < j < d.len() implies !before(#[trigger] d[j], #[trigger] d[i], s) by {
        assert(!before(v[j], v[i], s));
    }
}

proof fn lemma_same_keys_equal(b: Seq<Function>, c: Seq<Function>, s: Sort)
    requires
        ordered(b, s),
        ordered(c, s),
        forall|k: u64| #[trigger] with_key(b, s, k) == with_key(c, s, k),
    ensures
        b == c,
    decreases b.len(),
{
    if b.len() == 0 {
        if c.len() > 0 {
            lemma_last_key_agrees(c, b, s);
        }
        assert(b =~= c);
    } else {
        lemma_last_key_agrees(b, c, s);
        lemma_last_key_agrees(c, b, s);
        let x = b.last();
        let y = c.last();
        let kk = key(x, s);
        assert(key(y, s) == kk);
        let b1 = b.drop_last();
        let c1 = c.drop_last();
        assert(with_key(b, s, kk) == with_key(b1, s, kk).push(x));
        assert(with_key(c, s, kk) == with_key(c1, s, kk).push(y));
        assert(with_key(b1, s, kk) =~= with_key(b, s, kk).drop_last());
        assert(with_key(c1, s, kk) =~= with_key(c, s, kk).drop_last());
        assert(x == with_key(b, s, kk).last());
        assert(y == with_key(c, s, kk).last());
        assert forall|k: u64| #[trigger] with_key(b1, s, k) == with_key(c1, s, k) by {
            if k != kk {
                assert(with_key(b, s, k) == with_key(b1, s, k));
                assert(with_key(c, s, k) == with_key(c1, s, k));
            }
        }
        lemma_ordered_drop_last(b, s);
        lemma_ordered_drop_last(c, s);
        lemma_same_keys_equal(b1, c1, s);
        assert(b =~= b1.push(x));
        assert(c =~= c1.push(y));
    }
}

/// A stable sort has exactly one outcome.
pub proof fn lemma_stable_sort_unique(a: Seq<Function>, b: Seq<Function>, c: Seq<Function>, s: Sort)
    requires
        stable_sort_of(a, b, s),
        stable_sort_of(a, c, s),
    ensures
        b == c,
{
    assert forall|k: u64| #[trigger] with_key(b, s, k) == with_key(c, s, k) by {
        assert(with_key(b, s, k) == with_key(a, s, k));
        assert(with_key(c, s, k) == with_key(a, s, k));
    }
    lemma_same_keys_equal(b, c, s);
}

} // verus!

verus! {

proof fn lemma_occurs_somewhere(v: Seq<Function>, x: Function)
    requires
        occurrences(v, x) >= 1,
    ensures
        exists|i: int| 0 <= i < v.len() && v[i] == x,
    decreases v.len(),
{
    if v.last() == x {
        assert(v[v.len() - 1] == x);
    } else {
        lemma_occurs_somewhere(v.drop_last(), x);
        let i = choose|i: int| 0 <= i < v.drop_last().len() && v.drop_last()[i] == x;
        assert(v[i] == x);
    }
}

proof fn lemma_occurs_twice(v: Seq<Function>, i: int, j: int)
    requires
        0 <= i < j < v.len(),
        v[i] == v[j],
    ensures
        occurrences(v, v[i]) >= 2,
    decreases v.len(),
{
    let d = v.drop_last();
    if j == v.len() - 1 {
        assert(d[i] == v[i]);
        lemma_occurs(d, i);
    } else {
        assert(d[i] == v[i] && d[j] == v[j]);
        lemma_occurs_twice(d, i, j);
    }
}

proof fn lemma_distinct_occurs_once(v: Seq<Function>, x: Function)
    requires
        distinct_addresses(v),
    ensures
        occurrences(v, x) <= 1,
    decreases v.len(),
{
    if v.len() > 0 {
        let d = v.drop_last();
        assert(distinct_addresses(d)) by {
            assert forall|i: int, j: int| 0 <= i < j < d.len() implies (#[trigger] d[i]).addr
                != (#[trigger] d[j]).addr by {
                assert(v[i].addr != v[j].addr);
            }
        }
        lemma_distinct_occurs_once(d, x);
        if v.last() == x && occurrences(d, x) >= 1 {
            lemma_occurs_somewhere(d, x);
            let i = choose|i: int| 0 <= i < d.len() && d[i] == x;
            assert(v[i].addr != v[v.len() - 1].addr);
        }
    }
}

/// A stable sort keeps addresses distinct.
pub proof fn lemma_sort_keeps_distinct(a: Seq<Function>, b: Seq<Function>, s: Sort)
    requires
        stable_sort_of(a, b, s),
        distinct_addresses(a),
    ensures
        distinct_addresses(b),
{
    assert forall|i: int, j: int| 0 <= i < j < b.len() implies (#[trigger] b[i]).addr
        != (#[trigger] b[j]).addr by {
        if b[i].addr == b[j].addr {
            lemma_sort_keeps_occurrences(a, b, s, b[i]);
            lemma_sort_keeps_occurrences(a, b, s, b[j]);
            lemma_distinct_occurs_once(a, b[i]);
            if b[i] == b[j] {
                lemma_occurs_twice(b, i, j);
            } else {
                lemma_occurs(b, i);
                lemma_occurs(b, j);
                lemma_occurs_somewhere(a, b[i]);
                lemma_occurs_somewhere(a, b[j]);
                let p = choose|p: int| 0 <= p < a.len() && a[p] == b[i];
                let q = choose|q: int| 0 <= q < a.len() && a[q] == b[j];
                if p < q {
                    assert(a[p].addr != a[q].addr);
                } else {
                    assert(a[q].addr != a[p].addr);
                }
            }
        }
    }
}

} // verus!
