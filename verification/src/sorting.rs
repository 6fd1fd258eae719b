//! Orders: the order of texts that `str` comparison gives, and stable
//! sorting of listings by an order of their own.
use vstd::prelude::*;

use crate::text::chars_of;

verus! {

/// `a` sorts before `b`: compared character by character, a proper prefix
/// first (the order of `str`, since UTF-8 keeps the order of code points).
pub open spec fn text_less(a: Seq<char>, b: Seq<char>) -> bool
    decreases a.len(),
{
    if a.len() == 0 {
        b.len() > 0
    } else if b.len() == 0 {
        false
    } else if a[0] != b[0] {
        a[0] < b[0]
    } else {
        text_less(a.drop_first(), b.drop_first())
    }
}

/// No text sorts before itself.
pub proof fn lemma_text_less_irreflexive(a: Seq<char>)
    ensures
        !text_less(a, a),
    decreases a.len(),
{
    if a.len() > 0 {
        lemma_text_less_irreflexive(a.drop_first());
    }
}

/// Of two texts, at most one sorts before the other.
pub proof fn lemma_text_less_asymmetric(a: Seq<char>, b: Seq<char>)
    ensures
        text_less(a, b) ==> !text_less(b, a),
    decreases a.len(),
{
    if a.len() > 0 && b.len() > 0 && a[0] == b[0] {
        lemma_text_less_asymmetric(a.drop_first(), b.drop_first());
    }
}

/// Of two different texts, one sorts before the other.
pub proof fn lemma_text_less_total(a: Seq<char>, b: Seq<char>)
    ensures
        a != b ==> text_less(a, b) || text_less(b, a),
    decreases a.len(),
{
    if a.len() == 0 {
        if b.len() == 0 {
            assert(a =~= b);
        }
    } else if b.len() > 0 && a[0] == b[0] {
        lemma_text_less_total(a.drop_first(), b.drop_first());
        if a.drop_first() == b.drop_first() {
            assert(a =~= seq![a[0]] + a.drop_first());
            assert(b =~= seq![b[0]] + b.drop_first());
        }
    }
}

/// The order is transitive.
pub proof fn lemma_text_less_transitive(a: Seq<char>, b: Seq<char>, c: Seq<char>)
    requires
        text_less(a, b),
        text_less(b, c),
    ensures
        text_less(a, c),
    decreases a.len(),
{
    if a.len() > 0 && b.len() > 0 && c.len() > 0 && a[0] == b[0] && b[0] == c[0] {
        lemma_text_less_transitive(a.drop_first(), b.drop_first(), c.drop_first());
    }
}

/// `a < b` in the order of `str`.
pub fn text_less_exec(a: &str, b: &str) -> (r: bool)
    ensures
        r == text_less(a@, b@),
{
    let av = chars_of(a);
    let bv = chars_of(b);
    let mut i: usize = 0;
    assert(av@.subrange(0, av@.len() as int) =~= av@);
    assert(bv@.subrange(0, bv@.len() as int) =~= bv@);
    while i < av.len() && i < bv.len()
        invariant
            i <= av@.len(),
            i <= bv@.len(),
            av@ == a@,
            bv@ == b@,
            text_less(a@, b@) == text_less(av@.subrange(i as int, av@.len() as int), bv@.subrange(i as int, bv@.len() as int)),
        decreases av@.len() - i,
    {
        if av[i] != bv[i] {
            return av[i] < bv[i];
        }
        assert(av@.subrange(i as int, av@.len() as int).drop_first() =~= av@.subrange(i + 1, av@.len() as int));
        assert(bv@.subrange(i as int, bv@.len() as int).drop_first() =~= bv@.subrange(i + 1, bv@.len() as int));
        i += 1;
    }
    i >= av.len() && i < bv.len()
}

/// A listing order: `precedes` says which of two entries comes first.
pub trait Ranked: Sized {
    spec fn precedes(&self, other: &Self) -> bool;

    /// `precedes` is a strict weak order: of two entries at most one
    /// precedes the other, and what does not come before its successor's
    /// successor either.
    proof fn lemma_order(a: Self, b: Self, c: Self)
        ensures
            a.precedes(&b) ==> !b.precedes(&a),
            !a.precedes(&b) && !b.precedes(&c) ==> !a.precedes(&c),
    ;

    fn precedes_exec(&self, other: &Self) -> (r: bool)
        ensures
            r == self.precedes(other),
    ;
}

/// `x` put after every entry of the ordered `ss` that it does not precede.
pub open spec fn insert_ranked<T: Ranked>(ss: Seq<T>, x: T) -> Seq<T>
    decreases ss.len(),
{
    if ss.len() == 0 {
        seq![x]
    } else if x.precedes(&ss.last()) {
        insert_ranked(ss.drop_last(), x).push(ss.last())
    } else {
        ss.push(x)
    }
}

/// `xs` in order, entries that neither precedes kept in their order (a
/// stable sort, as `sort_by` is).
pub open spec fn ranked<T: Ranked>(xs: Seq<T>) -> Seq<T>
    decreases xs.len(),
{
    if xs.len() == 0 {
        Seq::empty()
    } else {
        insert_ranked(ranked(xs.drop_last()), xs.last())
    }
}

/// No entry of `xs` precedes an entry before it.
pub open spec fn in_order<T: Ranked>(xs: Seq<T>) -> bool {
    forall|i: int, j: int| #![trigger xs[i], xs[j]] 0 <= i < j < xs.len() ==> !xs[j].precedes(&xs[i])
}

#[verifier::spinoff_prover]
pub proof fn lemma_insert_ranked<T: Ranked>(ss: Seq<T>, x: T)
    requires
        in_order(ss),
    ensures
        in_order(insert_ranked(ss, x)),
        insert_ranked(ss, x).to_multiset() == ss.to_multiset().insert(x),
    decreases ss.len(),
{
    broadcast use vstd::seq_lib::group_to_multiset_ensures;

    if ss.len() == 0 {
        assert(seq![x] =~= Seq::<T>::empty().push(x));
    } else {
        let init = ss.drop_last();
        let l = ss.last();
        assert(init.push(l) =~= ss);
        if x.precedes(&l) {
            assert(in_order(init));
            lemma_insert_ranked(init, x);
            let r = insert_ranked(init, x);
            assert forall|i: int, j: int| #![trigger r.push(l)[i], r.push(l)[j]]
                0 <= i < j < r.len() + 1 implies !r.push(l)[j].precedes(&r.push(l)[i]) by {
                if j == r.len() {
                    let y = r[i];
                    assert(r.contains(y));
                    assert(r.to_multiset().count(y) > 0);
                    if y == x {
                        T::lemma_order(x, l, x);
                    } else {
                        assert(init.to_multiset().count(y) > 0);
                        assert(init.contains(y));
                        let k = choose|k: int| 0 <= k < init.len() && init[k] == y;
                        assert(ss[k] == y);
                        assert(ss[ss.len() - 1] == l);
                    }
                } else {
                    assert(r.push(l)[i] == r[i] && r.push(l)[j] == r[j]);
                }
            }
        } else {
            assert forall|i: int, j: int| #![trigger ss.push(x)[i], ss.push(x)[j]]
                0 <= i < j < ss.len() + 1 implies !ss.push(x)[j].precedes(&ss.push(x)[i]) by {
                if j == ss.len() {
                    if i < ss.len() - 1 {
                        assert(ss[ss.len() - 1] == l);
                        T::lemma_order(x, l, ss[i]);
                    }
                } else {
                    assert(ss.push(x)[i] == ss[i] && ss.push(x)[j] == ss[j]);
                }
            }
        }
    }
}

/// Sorting a listing keeps every entry, as often as it occurs, and puts
/// them in order: no entry precedes one listed before it.
pub proof fn law_ranked_is_ordered<T: Ranked>(xs: Seq<T>)
    ensures
        in_order(ranked(xs)),
        ranked(xs).to_multiset() == xs.to_multiset(),
    decreases xs.len(),
{
    broadcast use vstd::seq_lib::group_to_multiset_ensures;

    if xs.len() == 0 {
        assert(ranked(xs) =~= xs);
    } else {
        law_ranked_is_ordered(xs.drop_last());
        lemma_insert_ranked(ranked(xs.drop_last()), xs.last());
        assert(xs.drop_last().push(xs.last()) =~= xs);
    }
}

/// Sort `v` stably in its listing order.
#[verifier::spinoff_prover]
pub fn sort_ranked<T: Ranked>(v: &mut Vec<T>)
    ensures
        final(v)@ == ranked(old(v)@),
{
    let ghost v0 = v@;
    let mut i: usize = 0;
    assert(v0.take(0) =~= Seq::<T>::empty());
    assert(v@.skip(0) =~= v0);
    while i < v.len()
        invariant
            i <= v@.len(),
            v@.len() == v0.len(),
            v@.take(i as int) == ranked(v0.take(i as int)),
            v@.skip(i as int) == v0.skip(i as int),
        decreases v0.len() - i,
    {
        let ghost sorted = v@.take(i as int);
        let ghost before = v@;
        let x = v.remove(i);
        assert(x == v0[i as int]) by {
            assert(before[i as int] == before.skip(i as int)[0]);
        }
        assert(v@.take(i as int) =~= sorted);
        let mut j: usize = i;
        assert(sorted.take(i as int) =~= sorted);
        assert(sorted.subrange(i as int, i as int) =~= Seq::<T>::empty());
        while j > 0 && x.precedes_exec(&v[j - 1])
            invariant
                j <= i,
                i <= v@.len(),
                v@.take(i as int) == sorted,
                sorted.len() == i,
                insert_ranked(sorted, x) == insert_ranked(sorted.take(j as int), x) + sorted.subrange(j as int, i as int),
            decreases j,
        {
            proof {
                assert(v@[j - 1] == sorted[j - 1]);
                let t = sorted.take(j as int);
                assert(t.drop_last() =~= sorted.take(j - 1));
                assert(t.last() == sorted[j - 1]);
                assert(insert_ranked(t, x) == insert_ranked(sorted.take(j - 1), x).push(sorted[j - 1]));
                assert(insert_ranked(sorted.take(j - 1), x).push(sorted[j - 1]) + sorted.subrange(j as int, i as int)
                    =~= insert_ranked(sorted.take(j - 1), x) + sorted.subrange(j - 1, i as int));
            }
            j -= 1;
        }
        proof {
            if j > 0 {
                assert(v@[j - 1] == sorted[j - 1]);
                assert(sorted.take(j as int).last() == sorted[j - 1]);
            }
            assert(insert_ranked(sorted.take(j as int), x) == sorted.take(j as int).push(x));
            assert(insert_ranked(sorted, x) =~= sorted.insert(j as int, x));
        }
        let ghost mid = v@;
        v.insert(j, x);
        proof {
            assert(v0.take(i + 1).drop_last() =~= v0.take(i as int));
            assert(v0.take(i + 1).last() == v0[i as int]);
            assert(v@.take(i + 1) =~= sorted.insert(j as int, x));
            assert(before.skip(i as int).drop_first() =~= before.skip(i + 1));
            assert(v@.skip(i + 1) =~= mid.skip(i as int));
            assert(mid.skip(i as int) =~= before.skip(i + 1));
            assert(v0.skip(i as int).drop_first() =~= v0.skip(i + 1));
        }
        i += 1;
    }
    assert(v0.take(v0.len() as int) =~= v0);
    assert(v@.take(v@.len() as int) =~= v@);
}

/// The order of texts is a strict weak order.
pub proof fn lemma_text_order(a: Seq<char>, b: Seq<char>, c: Seq<char>)
    ensures
        text_less(a, b) ==> !text_less(b, a),
        !text_less(a, b) && !text_less(b, c) ==> !text_less(a, c),
{
    lemma_text_less_asymmetric(a, b);
    if !text_less(a, b) && !text_less(b, c) && a != b && b != c {
        lemma_text_less_total(a, b);
        lemma_text_less_total(b, c);
        lemma_text_less_transitive(c, b, a);
        lemma_text_less_asymmetric(c, a);
    }
}

} // verus!
