//! Records kept by date (backups, recovery plans), listed newest first.

use vstd::prelude::*;
use crate::text::{le, lemma_lex_total, lemma_lex_trans, lex_le};

verus! {

/// A record that carries the time it was made, as text that sorts in time
/// order.
pub trait Dated {
    /// When the record was made.
    spec fn date(&self) -> Seq<char>;

    /// When the record was made.
    fn created_at(&self) -> (r: &str)
        ensures
            r@ == self.date(),
    ;
}

/// Whether `s` runs from the newest record to the oldest.
pub open spec fn newest_first<T: Dated>(s: Seq<T>) -> bool {
    forall|i: int, j: int|
        0 <= i < j < s.len() ==> lex_le((#[trigger] s[j]).date(), (#[trigger] s[i]).date())
}

/// Puts `b` into `out`, newest first, after every record at least as new.
pub fn insert_newest_first<T: Dated>(out: &mut Vec<T>, b: T)
    requires
        newest_first(old(out)@),
    ensures
        newest_first(final(out)@),
        final(out)@.to_multiset() == old(out)@.to_multiset().insert(b),
{
    let mut p: usize = 0;
    while p < out.len() && le(b.created_at(), out[p].created_at())
        invariant
            0 <= p <= out.len(),
            forall|j: int| 0 <= j < p ==> lex_le(b.date(), (#[trigger] out@[j]).date()),
        decreases out.len() - p,
    {
        p = p + 1;
    }
    let ghost before = out@;
    let ghost key = b.date();
    let ghost bb = b;
    out.insert(p, b);
    proof {
        let after = out@;
        before.insert_ensures(p as int, bb);
        assert(after =~= before.insert(p as int, bb));
        if p < before.len() {
            lemma_lex_total(key, before[p as int].date());
        }
        assert forall|i: int, j: int| 0 <= i < j < after.len() implies lex_le(
            (#[trigger] after[j]).date(),
            (#[trigger] after[i]).date(),
        ) by {
            if j < p {
                assert(after[i] == before[i] && after[j] == before[j]);
            } else if j == p {
                assert(after[j] == bb && after[i] == before[i]);
            } else if i == p {
                assert(after[i] == bb && after[j] == before[j - 1]);
                if j - 1 > p {
                    lemma_lex_trans(before[j - 1].date(), before[p as int].date(), key);
                }
            } else if i < p {
                assert(after[i] == before[i] && after[j] == before[j - 1]);
            } else {
                assert(after[i] == before[i - 1] && after[j] == before[j - 1]);
            }
        }
        broadcast use vstd::seq_lib::group_to_multiset_ensures;
        let t = before.take(p as int);
        let sk = before.skip(p as int);
        assert(after =~= t + (seq![bb] + sk));
        assert(before =~= t + sk);
        vstd::seq_lib::lemma_multiset_commutative(t, seq![bb] + sk);
        vstd::seq_lib::lemma_multiset_commutative(seq![bb], sk);
        vstd::seq_lib::lemma_multiset_commutative(t, sk);
        assert(seq![bb] =~= Seq::<T>::empty().push(bb));
        broadcast use vstd::multiset::group_multiset_axioms;
        assert(after.to_multiset() =~= before.to_multiset().insert(bb));
    }
}


/// The records of `v`, newest first; records of the same date keep their
/// order.
pub fn sort_newest_first<T: Dated>(v: Vec<T>) -> (r: Vec<T>)
    ensures
        newest_first(r@),
        r@.to_multiset() == v@.to_multiset(),
{
    let ghost orig = v@;
    assert(orig.len() == v.len());
    let mut rest = v;
    let mut out: Vec<T> = Vec::new();
    let mut k: usize = 0;
    proof {
        broadcast use vstd::seq_lib::group_to_multiset_ensures;
        assert(orig.take(0) =~= Seq::<T>::empty());
        assert(orig.skip(0) =~= orig);
    }
    while rest.len() > 0
        invariant
            k + rest@.len() == orig.len(),
            orig.len() <= usize::MAX,
            rest@ == orig.skip(k as int),
            newest_first(out@),
            out@.to_multiset() == orig.take(k as int).to_multiset(),
        decreases rest.len(),
    {
        let x = rest.remove(0);
        let ghost xx = x;
        proof {
            assert(xx == orig[k as int]);
            assert(rest@ =~= orig.skip(k + 1));
            assert(orig.take(k + 1) =~= orig.take(k as int).push(xx));
        }
        insert_newest_first(&mut out, x);
        proof {
            broadcast use vstd::seq_lib::group_to_multiset_ensures;
            assert(orig.take(k as int).push(xx).to_multiset() == orig.take(k as int).to_multiset().insert(xx));
        }
        k = k + 1;
    }
    assert(orig.take(k as int) =~= orig);
    out
}

} // verus!
