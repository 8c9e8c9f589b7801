//! Stable sorting of records by a text key, in the order of `str`'s `Ord`.
use vstd::prelude::*;
use crate::text::{lemma_seq_le_total, lemma_seq_le_trans, seq_le, str_le};

verus! {

/// A record with a text key to sort by.
pub trait SortKey: Sized {
    /// The key.
    spec fn sort_key(&self) -> Seq<char>;

    /// The key as a string.
    fn key_str(&self) -> (r: &str)
        ensures
            r@ == self.sort_key(),
    ;
}

/// Keys never decrease along the sequence.
pub open spec fn sorted_by_key<T: SortKey>(s: Seq<T>) -> bool {
    forall|i: int, j: int| 0 <= i < j < s.len() ==> seq_le((#[trigger] s[i]).sort_key(), (#[trigger] s[j]).sort_key())
}

/// Whether a record has key `k`.
pub open spec fn key_is<T: SortKey>(k: Seq<char>) -> spec_fn(T) -> bool {
    |x: T| x.sort_key() == k
}

/// The records with key `k`, in order.
pub open spec fn with_key<T: SortKey>(s: Seq<T>, k: Seq<char>) -> Seq<T> {
    s.filter(key_is::<T>(k))
}

/// `r` is `s` sorted stably by key: sorted, and holding for each key the
/// same records in the same order.
pub open spec fn stable_sorted<T: SortKey>(r: Seq<T>, s: Seq<T>) -> bool {
    sorted_by_key(r) && forall|k: Seq<char>| #[trigger] with_key(r, k) == with_key(s, k)
}

proof fn lemma_with_key_push<T: SortKey>(s: Seq<T>, f: T, k: Seq<char>)
    ensures
        with_key(s.push(f), k) == if f.sort_key() == k {
            with_key(s, k).push(f)
        } else {
            with_key(s, k)
        },
{
    reveal(Seq::filter);
    assert(s.push(f).drop_last() == s);
}

proof fn lemma_filter_none<T>(s: Seq<T>, pr: spec_fn(T) -> bool)
    requires
        forall|j: int| 0 <= j < s.len() ==> !pr(#[trigger] s[j]),
    ensures
        s.filter(pr) == Seq::<T>::empty(),
    decreases s.len(),
{
    reveal(Seq::filter);
    if s.len() > 0 {
        lemma_filter_none(s.drop_last(), pr);
        assert(!pr(s[s.len() - 1]));
    }
}

proof fn lemma_with_key_insert<T: SortKey>(ov: Seq<T>, p: int, f: T, k: Seq<char>)
    requires
        0 <= p <= ov.len(),
        forall|j: int| p <= j < ov.len() ==> (#[trigger] ov[j]).sort_key() != f.sort_key(),
    ensures
        with_key(ov.take(p) + seq![f] + ov.skip(p), k) == if k == f.sort_key() {
            with_key(ov, k).push(f)
        } else {
            with_key(ov, k)
        },
{
    let pr = key_is::<T>(k);
    let a = ov.take(p);
    let b = ov.skip(p);
    Seq::filter_distributes_over_add(a + seq![f], b, pr);
    Seq::filter_distributes_over_add(a, seq![f], pr);
    Seq::filter_distributes_over_add(a, b, pr);
    assert(ov == a + b);
    lemma_with_key_push(Seq::<T>::empty(), f, k);
    assert(Seq::<T>::empty().push(f) == seq![f]);
    assert(with_key(Seq::<T>::empty(), k) == Seq::<T>::empty()) by {
        reveal(Seq::filter);
    }
    if k == f.sort_key() {
        assert forall|j: int| 0 <= j < b.len() implies !pr(#[trigger] b[j]) by {
            assert(b[j] == ov[p + j]);
        }
        lemma_filter_none(b, pr);
        assert(b.filter(pr) == Seq::<T>::empty());
        assert(seq![f].filter(pr) == seq![f]);
        assert(ov.filter(pr) == a.filter(pr) + b.filter(pr));
        assert(ov.filter(pr) =~= a.filter(pr));
        assert((a + seq![f] + b).filter(pr) == (a + seq![f]).filter(pr) + b.filter(pr));
        assert((a + seq![f]).filter(pr) == a.filter(pr) + seq![f].filter(pr));
        assert((a + seq![f] + b).filter(pr) =~= a.filter(pr).push(f));
        assert(with_key(ov.take(p) + seq![f] + ov.skip(p), k) =~= with_key(ov, k).push(f));
    } else {
        assert(with_key(ov.take(p) + seq![f] + ov.skip(p), k) =~= with_key(ov, k));
    }
}

/// Sorts records by key, keeping the order of equal keys (`sort_by` on
/// the key's `cmp`).
pub fn sort_by_key<T: SortKey>(v: Vec<T>) -> (r: Vec<T>)
    ensures
        stable_sorted(r@, v@),
{
    let ghost input = v@;
    let mut out: Vec<T> = Vec::new();
    let mut rest = v;
    let mut i: usize = 0;
    let n = rest.len();
    assert(input.take(0) =~= Seq::<T>::empty());
    assert forall|k: Seq<char>| #[trigger] with_key(out@, k) == with_key(input.take(0), k) by {
        reveal(Seq::filter);
        assert(out@ =~= Seq::<T>::empty());
    }
    while i < n
        invariant
            n == input.len(),
            i <= n,
            rest@.len() == n - i,
            forall|j: int| 0 <= j < n - i ==> #[trigger] rest@[j] == input[i + j],
            sorted_by_key(out@),
            forall|k: Seq<char>| #[trigger] with_key(out@, k) == with_key(input.take(i as int), k),
        decreases n - i,
    {
        let f = rest.remove(0);
        assert(f == input[i as int]);
        let ghost d = f.sort_key();
        let mut p: usize = 0;
        let ghost ov = out@;
        while p < out.len() && str_le(out[p].key_str(), f.key_str())
            invariant
                ov == out@,
                d == f.sort_key(),
                p <= out@.len(),
                forall|j: int| 0 <= j < p ==> seq_le((#[trigger] ov[j]).sort_key(), d),
            decreases out@.len() - p,
        {
            p = p + 1;
        }
        // every record from p on has a key above d
        assert forall|j: int| p <= j < ov.len() implies !seq_le((#[trigger] ov[j]).sort_key(), d) by {
            if seq_le(ov[j].sort_key(), d) {
                assert(!seq_le(ov[p as int].sort_key(), d));
                if j > p {
                    assert(seq_le(ov[p as int].sort_key(), ov[j].sort_key()));
                    lemma_seq_le_trans(ov[p as int].sort_key(), ov[j].sort_key(), d);
                }
            }
        }
        assert forall|j: int| p <= j < ov.len() implies (#[trigger] ov[j]).sort_key() != d by {
            lemma_seq_le_total(d, d);
            assert(!seq_le(ov[j].sort_key(), d));
        }
        let ghost fv = f;
        out.insert(p, f);
        proof {
            let nv = out@;
            assert(nv =~= ov.take(p as int) + seq![fv] + ov.skip(p as int));
            assert(ov =~= ov.take(p as int) + ov.skip(p as int));
            assert forall|a: int, b: int| 0 <= a < b < nv.len() implies seq_le(
                (#[trigger] nv[a]).sort_key(),
                (#[trigger] nv[b]).sort_key(),
            ) by {
                if b < p {
                    assert(nv[a] == ov[a] && nv[b] == ov[b]);
                } else if b == p {
                    assert(nv[a] == ov[a]);
                } else if a == p {
                    assert(nv[b] == ov[b - 1]);
                    assert(!seq_le(ov[b - 1].sort_key(), d));
                    lemma_seq_le_total(ov[b - 1].sort_key(), d);
                } else if a < p {
                    assert(nv[a] == ov[a]);
                    assert(nv[b] == ov[b - 1]);
                } else {
                    assert(nv[a] == ov[a - 1]);
                    assert(nv[b] == ov[b - 1]);
                }
            }
            assert(input.take(i + 1) =~= input.take(i as int).push(fv));
            assert forall|k: Seq<char>| #[trigger] with_key(nv, k) == with_key(input.take(i + 1), k) by {
                lemma_with_key_insert(ov, p as int, fv, k);
                lemma_with_key_push(input.take(i as int), fv, k);
            }
        }
        i = i + 1;
    }
    assert(input.take(n as int) == input);
    out
}

} // verus!
