//! Orders: lexicographic order of texts, and a stable sort by a total
//! preorder.

use vstd::prelude::*;
use crate::text;

verus! {

/// Lexicographic order of character sequences by code point, the order of
/// `String` comparison.
pub open spec fn text_le(a: Seq<char>, b: Seq<char>) -> bool
    decreases a.len(),
{
    if a.len() == 0 {
        true
    } else if b.len() == 0 {
        false
    } else if a[0] != b[0] {
        a[0] < b[0]
    } else {
        text_le(a.drop_first(), b.drop_first())
    }
}

/// Strict lexicographic order of character sequences.
pub open spec fn text_lt(a: Seq<char>, b: Seq<char>) -> bool {
    text_le(a, b) && a != b
}

pub proof fn lemma_text_le_total(a: Seq<char>, b: Seq<char>)
    ensures
        text_le(a, b) || text_le(b, a),
    decreases a.len(),
{
    if a.len() > 0 && b.len() > 0 && a[0] == b[0] {
        lemma_text_le_total(a.drop_first(), b.drop_first());
    }
}

pub proof fn lemma_text_le_antisymmetric(a: Seq<char>, b: Seq<char>)
    requires
        text_le(a, b),
        text_le(b, a),
    ensures
        a == b,
    decreases a.len(),
{
    if a.len() == 0 {
        assert(b.len() == 0);
        assert(a =~= b);
    } else {
        assert(b.len() > 0);
        assert(a[0] == b[0]);
        lemma_text_le_antisymmetric(a.drop_first(), b.drop_first());
        assert(a =~= seq![a[0]] + a.drop_first());
        assert(b =~= seq![b[0]] + b.drop_first());
    }
}

pub proof fn lemma_text_le_transitive(a: Seq<char>, b: Seq<char>, c: Seq<char>)
    requires
        text_le(a, b),
        text_le(b, c),
    ensures
        text_le(a, c),
    decreases a.len(),
{
    if a.len() > 0 && b.len() > 0 && c.len() > 0 && a[0] == b[0] && b[0] == c[0] {
        lemma_text_le_transitive(a.drop_first(), b.drop_first(), c.drop_first());
    }
}

proof fn lemma_text_le_skip(a: Seq<char>, b: Seq<char>, i: int)
    requires
        0 <= i <= a.len(),
        i <= b.len(),
        a.take(i) == b.take(i),
    ensures
        text_le(a, b) == text_le(a.skip(i), b.skip(i)),
    decreases i,
{
    if i > 0 {
        assert(a[0] == a.take(i)[0]);
        assert(b[0] == b.take(i)[0]);
        assert(a.drop_first().take(i - 1) =~= a.take(i).drop_first());
        assert(b.drop_first().take(i - 1) =~= b.take(i).drop_first());
        lemma_text_le_skip(a.drop_first(), b.drop_first(), i - 1);
        assert(a.drop_first().skip(i - 1) =~= a.skip(i));
        assert(b.drop_first().skip(i - 1) =~= b.skip(i));
    } else {
        assert(a.skip(0) =~= a);
        assert(b.skip(0) =~= b);
    }
}

/// Whether `a` comes before `b` or equals it in lexicographic order.
pub fn text_le_exec(a: &str, b: &str) -> (r: bool)
    ensures
        r == text_le(a@, b@),
{
    let x = text::chars_of(a);
    let y = text::chars_of(b);
    let mut i: usize = 0;
    while i < x.len() && i < y.len() && x[i] == y[i]
        invariant
            i <= x@.len(),
            i <= y@.len(),
            x@.take(i as int) == y@.take(i as int),
        decreases x.len() - i,
    {
        assert(x@.take(i + 1) =~= x@.take(i as int).push(x@[i as int]));
        assert(y@.take(i + 1) =~= y@.take(i as int).push(y@[i as int]));
        i = i + 1;
    }
    proof {
        lemma_text_le_skip(x@, y@, i as int);
    }
    if i == x.len() {
        true
    } else if i == y.len() {
        false
    } else {
        assert(x@.skip(i as int)[0] == x@[i as int]);
        assert(y@.skip(i as int)[0] == y@[i as int]);
        x[i] < y[i]
    }
}

/// A total preorder on the values of a type, decidable by `is_before_or_same`.
pub trait SortOrder: Sized {
    /// Whether `a` may come before `b` in a sorted list.
    spec fn before_or_same(a: Self, b: Self) -> bool;

    proof fn lemma_total(a: Self, b: Self)
        ensures
            Self::before_or_same(a, b) || Self::before_or_same(b, a),
    ;

    proof fn lemma_transitive(a: Self, b: Self, c: Self)
        requires
            Self::before_or_same(a, b),
            Self::before_or_same(b, c),
        ensures
            Self::before_or_same(a, c),
    ;

    fn is_before_or_same(&self, other: &Self) -> (r: bool)
        ensures
            r == Self::before_or_same(*self, *other),
    ;
}

/// Whether `s` is sorted by the order of `T`.
pub open spec fn sorted_in<T: SortOrder>(s: Seq<T>) -> bool {
    forall|i: int, j: int| 0 <= i < j < s.len() ==> T::before_or_same(#[trigger] s[i], #[trigger] s[j])
}

/// Whether `out` holds the items of `input`, the item at `i` being
/// `input[p[i]]`, each item of `input` once.
pub open spec fn is_permutation_by<T>(out: Seq<T>, input: Seq<T>, p: Seq<int>) -> bool {
    &&& p.len() == out.len()
    &&& out.len() == input.len()
    &&& forall|i: int| 0 <= i < p.len() ==> 0 <= #[trigger] p[i] < input.len() && out[i] == input[p[i]]
    &&& forall|i: int, j: int| 0 <= i < j < p.len() ==> #[trigger] p[i] != #[trigger] p[j]
}

/// Whether items of `out` that tie in the order of `T` keep the order they
/// have in the input, the item at `i` coming from index `p[i]`.
pub open spec fn keeps_ties_in_order<T: SortOrder>(out: Seq<T>, p: Seq<int>) -> bool {
    forall|i: int, j: int|
        0 <= i < j < out.len() && T::before_or_same(#[trigger] out[j], #[trigger] out[i]) ==> p[i]
            < p[j]
}

/// Whether `out` is `input` sorted by the order of `T`, items that tie
/// keeping their order: what a stable sort returns.
pub open spec fn is_stable_sort_of<T: SortOrder>(out: Seq<T>, input: Seq<T>) -> bool {
    &&& sorted_in(out)
    &&& exists|p: Seq<int>| is_permutation_by(out, input, p) && keeps_ties_in_order(out, p)
}

/// `items` sorted stably by the order of `T`.
pub fn stable_sort<T: SortOrder>(items: Vec<T>) -> (r: Vec<T>)
    ensures
        is_stable_sort_of(r@, items@),
{
    let mut rest = items;
    let ghost all = rest@;
    let total = rest.len();
    assert(all.len() == total);
    let mut out: Vec<T> = Vec::new();
    let ghost mut p: Seq<int> = Seq::empty();
    let mut k: usize = 0;
    while rest.len() > 0
        invariant
            all == items@,
            all.len() <= usize::MAX,
            k + rest@.len() == all.len(),
            rest@ == all.skip(k as int),
            out@.len() == k,
            sorted_in(out@),
            is_permutation_by(out@, all.take(k as int), p),
            keeps_ties_in_order(out@, p),
        decreases rest.len(),
    {
        let ghost before = rest@;
        let x = rest.remove(0);
        assert(x == all[k as int]);
        assert(rest@ =~= all.skip(k + 1));
        let mut pos: usize = out.len();
        while pos > 0 && !out[pos - 1].is_before_or_same(&x)
            invariant
                pos <= out@.len(),
                forall|m: int| pos <= m < out@.len() ==> !T::before_or_same(#[trigger] out@[m], x),
            decreases pos,
        {
            pos = pos - 1;
        }
        let ghost old_out = out@;
        let ghost old_p = p;
        out.insert(pos, x);
        proof {
            p = old_p.insert(pos as int, k as int);
            let n = out@.len();
            assert(out@ == old_out.insert(pos as int, x));
            assert forall|m: int| pos <= m < old_out.len() implies T::before_or_same(
                x,
                #[trigger] old_out[m],
            ) by {
                T::lemma_total(x, old_out[m]);
            }
            assert forall|i: int, j: int| 0 <= i < j < n implies T::before_or_same(
                #[trigger] out@[i],
                #[trigger] out@[j],
            ) by {
                if j < pos {
                    assert(out@[i] == old_out[i] && out@[j] == old_out[j]);
                } else if j == pos {
                    assert(out@[i] == old_out[i]);
                    assert(T::before_or_same(old_out[pos - 1], x));
                    if i < pos - 1 {
                        T::lemma_transitive(old_out[i], old_out[pos - 1], x);
                    }
                } else if i == pos {
                    assert(out@[j] == old_out[j - 1]);
                } else if i < pos {
                    assert(out@[i] == old_out[i] && out@[j] == old_out[j - 1]);
                } else {
                    assert(out@[i] == old_out[i - 1] && out@[j] == old_out[j - 1]);
                }
            }
            assert(all.take(k + 1) =~= all.take(k as int).push(x));
            assert forall|i: int| 0 <= i < p.len() implies 0 <= #[trigger] p[i] < all.take(
                k + 1,
            ).len() && out@[i] == all.take(k + 1)[p[i]] by {
                if i < pos {
                    assert(p[i] == old_p[i]);
                    assert(out@[i] == old_out[i]);
                } else if i == pos {
                } else {
                    assert(p[i] == old_p[i - 1]);
                    assert(out@[i] == old_out[i - 1]);
                }
            }
            assert forall|i: int, j: int| 0 <= i < j < p.len() implies #[trigger] p[i]
                != #[trigger] p[j] by {
                if i < pos && j < pos {
                    assert(p[i] == old_p[i] && p[j] == old_p[j]);
                } else if i < pos && j == pos {
                    assert(p[i] == old_p[i]);
                    assert(0 <= old_p[i] < k);
                } else if i < pos {
                    assert(p[i] == old_p[i] && p[j] == old_p[j - 1]);
                } else if i == pos {
                    assert(p[j] == old_p[j - 1]);
                    assert(0 <= old_p[j - 1] < k);
                } else {
                    assert(p[i] == old_p[i - 1] && p[j] == old_p[j - 1]);
                }
            }
            assert forall|i: int, j: int|
                0 <= i < j < n && T::before_or_same(#[trigger] out@[j], #[trigger] out@[i]) implies p[i]
                < p[j] by {
                if i < pos && j < pos {
                    assert(p[i] == old_p[i] && p[j] == old_p[j]);
                    assert(out@[i] == old_out[i] && out@[j] == old_out[j]);
                } else if i < pos && j == pos {
                    assert(p[i] == old_p[i]);
                    assert(0 <= old_p[i] < k);
                } else if i < pos {
                    assert(p[i] == old_p[i] && p[j] == old_p[j - 1]);
                    assert(out@[i] == old_out[i] && out@[j] == old_out[j - 1]);
                } else if i == pos {
                    assert(out@[j] == old_out[j - 1]);
                    assert(!T::before_or_same(old_out[j - 1], x));
                } else {
                    assert(p[i] == old_p[i - 1] && p[j] == old_p[j - 1]);
                    assert(out@[i] == old_out[i - 1] && out@[j] == old_out[j - 1]);
                }
            }
        }
        k = k + 1;
    }
    assert(all.take(k as int) =~= all);
    out
}

} // verus!
