//! Total orders used for deterministic output, and a verified stable
//! insertion sort.

use vstd::prelude::*;
use vstd::seq_lib::{to_multiset_build, to_multiset_contains, to_multiset_insert};
use vstd::multiset::Multiset;

verus! {

/// A total preorder with an executable comparison.
pub trait Ordered: Sized {
    /// `self` sorts no later than `other`.
    spec fn le_spec(self, other: Self) -> bool;

    proof fn lemma_le_total(a: Self, b: Self)
        ensures Self::le_spec(a, b) || Self::le_spec(b, a);

    proof fn lemma_le_trans(a: Self, b: Self, c: Self)
        requires Self::le_spec(a, b), Self::le_spec(b, c),
        ensures Self::le_spec(a, c);

    fn le(&self, other: &Self) -> (r: bool)
        ensures r == self.le_spec(*other);
}

/// `s` is sorted by `le_spec`.
pub open spec fn sorted_le<T: Ordered>(s: Seq<T>) -> bool {
    forall|i: int, j: int| 0 <= i < j < s.len() ==> #[trigger] s[i].le_spec(#[trigger] s[j])
}

/// A copy of a vector of `Copy` values.
pub fn copy_vec<T: Copy>(v: &Vec<T>) -> (r: Vec<T>)
    ensures r@ == v@,
{
    let mut out: Vec<T> = Vec::new();
    let mut i: usize = 0;
    while i < v.len()
        invariant
            i <= v@.len(),
            out@ == v@.subrange(0, i as int),
        decreases v@.len() - i,
    {
        out.push(v[i]);
        i = i + 1;
        assert(out@ =~= v@.subrange(0, i as int));
    }
    assert(v@.subrange(0, v@.len() as int) =~= v@);
    out
}

/// `r` is `v` rearranged: `r[k]` is `v[pos[k]]` for distinct positions
/// `pos`, and elements that sort equally keep their order from `v`.
pub open spec fn stable_arrangement<T: Ordered>(v: Seq<T>, r: Seq<T>, pos: Seq<int>) -> bool {
    &&& pos.len() == r.len()
    &&& r.len() == v.len()
    &&& forall|k: int| 0 <= k < r.len() ==> 0 <= #[trigger] pos[k] < v.len() && r[k] == v[pos[k]]
    &&& forall|k: int, l: int| 0 <= k < l < r.len() ==> #[trigger] pos[k] != #[trigger] pos[l]
        && (r[k].le_spec(r[l]) && r[l].le_spec(r[k]) ==> pos[k] < pos[l])
}

/// `r` is a stable rearrangement of `v`.
pub open spec fn stable_perm<T: Ordered>(v: Seq<T>, r: Seq<T>) -> bool {
    exists|pos: Seq<int>| stable_arrangement(v, r, pos)
}

/// Sorts `v` by `le_spec`, stably: the result is a permutation of `v` in
/// which elements that sort equally keep their order.
pub fn sort_le<T: Ordered>(v: Vec<T>) -> (r: Vec<T>)
    ensures
        sorted_le(r@),
        r@.to_multiset() == v@.to_multiset(),
        stable_perm(v@, r@),
{
    let ghost orig = v@;
    let mut rest = v;
    let mut out: Vec<T> = Vec::new();
    let ghost mut pos: Seq<int> = Seq::empty();
    proof {
        assert(out@.to_multiset() =~= Multiset::empty()) by {
            broadcast use vstd::seq_lib::group_to_multiset_ensures;
        }
        assert(rest@ =~= orig.subrange(0, rest@.len() as int));
    }
    while rest.len() > 0
        invariant
            sorted_le(out@),
            out@.to_multiset().add(rest@.to_multiset()) == orig.to_multiset(),
            rest@ == orig.subrange(0, rest@.len() as int),
            out@.len() + rest@.len() == orig.len(),
            pos.len() == out@.len(),
            forall|k: int| 0 <= k < out@.len() ==> rest@.len() <= #[trigger] pos[k] < orig.len() && out@[k] == orig[pos[k]],
            forall|k: int, l: int| 0 <= k < l < out@.len() ==> #[trigger] pos[k] != #[trigger] pos[l]
                && (out@[k].le_spec(out@[l]) && out@[l].le_spec(out@[k]) ==> pos[k] < pos[l]),
        decreases rest@.len(),
    {
        let ghost before_rest = rest@;
        let x = rest.pop().unwrap();
        let ghost n = rest@.len() as int;
        proof {
            assert(before_rest =~= rest@.push(x));
            to_multiset_build(rest@, x);
            assert(x == orig[n]);
            assert(rest@ =~= orig.subrange(0, n));
        }
        let mut p: usize = 0;
        while p < out.len() && !x.le(&out[p])
            invariant
                p <= out@.len(),
                forall|q: int| 0 <= q < p ==> !x.le_spec(#[trigger] out@[q]),
            decreases out@.len() - p,
        {
            p = p + 1;
        }
        let ghost before_out = out@;
        let ghost before_pos = pos;
        out.insert(p, x);
        proof {
            pos = before_pos.insert(p as int, n);
            to_multiset_insert(before_out, p as int, x);
            assert(out@ =~= before_out.insert(p as int, x));
            assert forall|k: int| 0 <= k < out@.len() implies rest@.len() <= #[trigger] pos[k] < orig.len() && out@[k] == orig[pos[k]] by {
                if k < p {
                    assert(pos[k] == before_pos[k] && out@[k] == before_out[k]);
                } else if k > p {
                    assert(pos[k] == before_pos[k - 1] && out@[k] == before_out[k - 1]);
                }
            }
            assert forall|k: int, l: int| 0 <= k < l < out@.len() implies #[trigger] pos[k] != #[trigger] pos[l]
                && (out@[k].le_spec(out@[l]) && out@[l].le_spec(out@[k]) ==> pos[k] < pos[l]) by {
                if l < p {
                    assert(pos[k] == before_pos[k] && pos[l] == before_pos[l]);
                    assert(out@[k] == before_out[k] && out@[l] == before_out[l]);
                } else if l == p {
                    assert(pos[k] == before_pos[k] && out@[k] == before_out[k]);
                    assert(!x.le_spec(before_out[k]));
                } else if k == p {
                    assert(pos[l] == before_pos[l - 1]);
                } else if k < p {
                    assert(pos[k] == before_pos[k] && pos[l] == before_pos[l - 1]);
                    assert(out@[k] == before_out[k] && out@[l] == before_out[l - 1]);
                } else {
                    assert(pos[k] == before_pos[k - 1] && pos[l] == before_pos[l - 1]);
                    assert(out@[k] == before_out[k - 1] && out@[l] == before_out[l - 1]);
                }
            }
            assert forall|i: int, j: int| 0 <= i < j < out@.len() implies #[trigger] out@[i].le_spec(#[trigger] out@[j]) by {
                if j < p {
                    assert(out@[i] == before_out[i] && out@[j] == before_out[j]);
                } else if j == p {
                    assert(out@[i] == before_out[i]);
                    assert(!x.le_spec(before_out[i]));
                    T::lemma_le_total(x, before_out[i]);
                } else if i == p {
                    assert(out@[j] == before_out[j - 1]);
                    if p < before_out.len() {
                        assert(x.le_spec(before_out[p as int]));
                        if j - 1 > p {
                            assert(before_out[p as int].le_spec(before_out[j - 1]));
                            T::lemma_le_trans(x, before_out[p as int], before_out[j - 1]);
                        }
                    }
                } else if i < p {
                    assert(out@[i] == before_out[i] && out@[j] == before_out[j - 1]);
                } else {
                    assert(out@[i] == before_out[i - 1] && out@[j] == before_out[j - 1]);
                }
            }
            assert(out@.to_multiset().add(rest@.to_multiset()) =~= orig.to_multiset()) by {
                broadcast use vstd::multiset::group_multiset_axioms;
            }
        }
    }
    proof {
        assert(rest@.to_multiset() =~= Multiset::empty()) by {
            broadcast use vstd::seq_lib::group_to_multiset_ensures;
        }
        assert(out@.to_multiset() =~= orig.to_multiset()) by {
            broadcast use vstd::multiset::group_multiset_axioms;
        }
        assert(stable_arrangement(orig, out@, pos));
    }
    out
}

/// Two sequences with the same multiset hold the same elements.
pub proof fn lemma_perm_contains<T>(a: Seq<T>, b: Seq<T>)
    requires
        a.to_multiset() == b.to_multiset(),
    ensures
        forall|x: T| a.contains(x) <==> b.contains(x),
{
    broadcast use vstd::seq_lib::group_to_multiset_ensures;
    assert forall|x: T| a.contains(x) <==> b.contains(x) by {
        to_multiset_contains(a, x);
        to_multiset_contains(b, x);
    }
}

/// A permutation of a sequence without duplicates has none.
pub proof fn lemma_perm_no_duplicates<T>(a: Seq<T>, b: Seq<T>)
    requires
        a.to_multiset() == b.to_multiset(),
        a.no_duplicates(),
    ensures
        b.no_duplicates(),
{
    a.lemma_multiset_has_no_duplicates();
    b.lemma_multiset_has_no_duplicates_conv();
}

/// Permuting a sequence permutes its image.
pub proof fn lemma_map_perm<A, B>(a: Seq<A>, b: Seq<A>, f: spec_fn(A) -> B)
    requires
        a.to_multiset() == b.to_multiset(),
    ensures
        a.map_values(f).to_multiset() == b.map_values(f).to_multiset(),
    decreases a.len(),
{
    broadcast use vstd::seq_lib::group_to_multiset_ensures;
    broadcast use vstd::multiset::group_multiset_axioms;
    if a.len() == 0 {
        assert(a.to_multiset().len() == 0);
        assert(b.to_multiset().len() == b.len());
        assert(b.len() == 0);
        assert(a.map_values(f) =~= Seq::<B>::empty());
        assert(b.map_values(f) =~= Seq::<B>::empty());
    } else {
        let x = a.last();
        let a2 = a.drop_last();
        assert(a =~= a2.push(x));
        assert(a.to_multiset().count(x) > 0);
        assert(b.contains(x));
        let i = choose|i: int| 0 <= i < b.len() && b[i] == x;
        let b2 = b.remove(i);
        assert(b2.len() == b.len() - 1);
        assert(a2.to_multiset() =~= b2.to_multiset());
        lemma_map_perm(a2, b2, f);
        assert(a.map_values(f) =~= a2.map_values(f).push(f(x)));
        assert forall|j: int| 0 <= j < b.len() implies #[trigger] b.map_values(f)[j] == b2.map_values(f).insert(i, f(x))[j] by {
            if j < i {
                assert(b2[j] == b[j]);
            } else if j > i {
                assert(b2[j - 1] == b[j]);
            }
        }
        assert(b.map_values(f) =~= b2.map_values(f).insert(i, f(x)));
        to_multiset_insert(b2.map_values(f), i, f(x));
    }
}

/// How often a filter keeps a value.
pub proof fn lemma_filter_count<A>(s: Seq<A>, p: spec_fn(A) -> bool, v: A)
    ensures
        s.filter(p).to_multiset().count(v) == if p(v) { s.to_multiset().count(v) } else { 0 },
    decreases s.len(),
{
    broadcast use vstd::seq_lib::group_to_multiset_ensures;
    broadcast use vstd::multiset::group_multiset_axioms;
    if s.len() == 0 {
        assert(s.filter(p) =~= Seq::<A>::empty()) by {
            reveal(Seq::filter);
        }
    } else {
        let x = s.last();
        let t = s.drop_last();
        assert(s =~= t.push(x));
        t.lemma_filter_push(x, p);
        lemma_filter_count(t, p, v);
    }
}

/// Filtering keeps equal multisets equal.
pub proof fn lemma_filter_perm<A>(a: Seq<A>, b: Seq<A>, p: spec_fn(A) -> bool)
    requires
        a.to_multiset() == b.to_multiset(),
    ensures
        a.filter(p).to_multiset() == b.filter(p).to_multiset(),
{
    assert forall|v: A| #[trigger] a.filter(p).to_multiset().count(v) == b.filter(p).to_multiset().count(v) by {
        lemma_filter_count(a, p, v);
        lemma_filter_count(b, p, v);
    }
    assert(a.filter(p).to_multiset() =~= b.filter(p).to_multiset());
}

/// What a pushed sequence holds.
pub proof fn lemma_push_contains<T>(s: Seq<T>, x: T, c: T)
    ensures
        s.push(x).contains(c) <==> s.contains(c) || c == x,
{
    if s.push(x).contains(c) {
        let i = choose|i: int| 0 <= i < s.push(x).len() && s.push(x)[i] == c;
        if i < s.len() {
            assert(s[i] == c);
        }
    }
    if s.contains(c) {
        let i = choose|i: int| 0 <= i < s.len() && s[i] == c;
        assert(s.push(x)[i] == c);
    }
    if c == x {
        assert(s.push(x)[s.len() as int] == c);
    }
}

} // verus!
