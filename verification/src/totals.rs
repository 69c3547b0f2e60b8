//! Adding up the lengths of the sequences that a finite map holds.

use vstd::prelude::*;

verus! {

/// The number of entries in all sequences of a finite map, added up.
pub open spec fn total_len<K, E>(m: Map<K, Seq<E>>) -> nat
    decreases m.dom().len(),
    when m.dom().finite()
    via total_len_decreases::<K, E>
{
    if m.dom().len() > 0 {
        let k = m.dom().choose();
        m[k].len() + total_len(m.remove(k))
    } else {
        0
    }
}

#[via_fn]
proof fn total_len_decreases<K, E>(m: Map<K, Seq<E>>) {
    if m.dom().len() > 0 {
        assert(m.remove(m.dom().choose()).dom() =~= m.dom().remove(m.dom().choose()));
    }
}

/// A map without keys has no entries.
pub proof fn lemma_total_len_empty<K, E>()
    ensures
        total_len(Map::<K, Seq<E>>::empty()) == 0,
{
}

/// The sum does not depend on the order in which the keys are taken: any key
/// of the map can be split off first.
pub proof fn lemma_total_len_split<K, E>(m: Map<K, Seq<E>>, k: K)
    requires
        m.dom().finite(),
        m.contains_key(k),
    ensures
        total_len(m) == m[k].len() + total_len(m.remove(k)),
    decreases m.dom().len(),
{
    let c = m.dom().choose();
    assert(m.dom().len() > 0) by {
        if m.dom().len() == 0 {
            assert(m.dom() =~= Set::empty());
        }
    }
    if c != k {
        lemma_total_len_split(m.remove(c), k);
        lemma_total_len_split(m.remove(k), c);
        assert(m.remove(c).remove(k) =~= m.remove(k).remove(c));
    }
}

/// Filing a sequence under a key replaces what that key held before and
/// leaves every other sequence as it was.
pub proof fn lemma_total_len_insert<K, E>(m: Map<K, Seq<E>>, k: K, s: Seq<E>)
    requires
        m.dom().finite(),
    ensures
        total_len(m.insert(k, s)) == total_len(m.remove(k)) + s.len(),
        m.contains_key(k) ==> total_len(m.insert(k, s)) == total_len(m) - m[k].len() + s.len(),
        !m.contains_key(k) ==> total_len(m.insert(k, s)) == total_len(m) + s.len(),
{
    lemma_total_len_split(m.insert(k, s), k);
    assert(m.insert(k, s).remove(k) =~= m.remove(k));
    if m.contains_key(k) {
        lemma_total_len_split(m, k);
    } else {
        assert(m.remove(k) =~= m);
    }
}

/// No single sequence is longer than the total.
pub proof fn lemma_total_len_bounds_each<K, E>(m: Map<K, Seq<E>>, k: K)
    requires
        m.dom().finite(),
        m.contains_key(k),
    ensures
        m[k].len() <= total_len(m),
{
    lemma_total_len_split(m, k);
}

/// Where every sequence of `whole` is as long as the sequences of `left` and
/// `right` under the same key together, the totals add up in the same way.
pub proof fn lemma_total_len_additive<K, E>(
    whole: Map<K, Seq<E>>,
    left: Map<K, Seq<E>>,
    right: Map<K, Seq<E>>,
)
    requires
        whole.dom().finite(),
        left.dom() == whole.dom(),
        right.dom() == whole.dom(),
        forall|k: K| #[trigger]
            whole.contains_key(k) ==> whole[k].len() == left[k].len() + right[k].len(),
    ensures
        total_len(whole) == total_len(left) + total_len(right),
    decreases whole.dom().len(),
{
    if whole.dom().len() > 0 {
        let k = whole.dom().choose();
        lemma_total_len_split(whole, k);
        lemma_total_len_split(left, k);
        lemma_total_len_split(right, k);
        assert forall|x: K| #[trigger] whole.remove(k).contains_key(x) implies whole.remove(
            k,
        )[x].len() == left.remove(k)[x].len() + right.remove(k)[x].len() by {
            assert(whole.contains_key(x));
        }
        lemma_total_len_additive(whole.remove(k), left.remove(k), right.remove(k));
    }
}

} // verus!
