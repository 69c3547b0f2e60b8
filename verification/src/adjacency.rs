//! The mathematical model of an adjacency-list graph: a finite map from each
//! vertex key to the sequence of its outgoing edges, in insertion order. What
//! the graph's operations do is said here, as functions on such maps, and so
//! is what follows from that.

use crate::totals::{
    lemma_total_len_additive, lemma_total_len_insert, lemma_total_len_split, total_len,
};
use vstd::prelude::*;

verus! {

/// What a graph is, as a value: every vertex key with its outgoing
/// `(target, weight)` entries, oldest first.
pub type Adjacency<T> = Map<T, Seq<(T, i32)>>;

/// Whether some entry of the list leads to `k`.
pub open spec fn leads_to<T>(s: Seq<(T, i32)>, k: T) -> bool {
    exists|i: int| 0 <= i < s.len() && (#[trigger] s[i]).0 == k
}

/// Whether `w` is the weight of the first entry of the list that leads to `k`.
pub open spec fn is_first_weight_to<T>(s: Seq<(T, i32)>, k: T, w: i32) -> bool {
    exists|i: int|
        0 <= i < s.len() && #[trigger] s[i] == (k, w) && forall|j: int|
            0 <= j < i ==> (#[trigger] s[j]).0 != k
}

/// The entries of the list that do not lead to `k`, in their order.
pub open spec fn entries_avoiding<T>(s: Seq<(T, i32)>, k: T) -> Seq<(T, i32)> {
    s.filter(|e: (T, i32)| e.0 != k)
}

/// The entries of the list that lead to `k`, in their order.
pub open spec fn entries_into<T>(s: Seq<(T, i32)>, k: T) -> Seq<(T, i32)> {
    s.filter(|e: (T, i32)| e.0 == k)
}

/// The graph with `k` among its vertices: a new vertex has no edges, one that
/// is there already keeps its edges.
pub open spec fn with_vertex<T>(m: Adjacency<T>, k: T) -> Adjacency<T> {
    if m.contains_key(k) {
        m
    } else {
        m.insert(k, Seq::empty())
    }
}

/// How many of the two ends of a new edge are not vertices yet.
pub open spec fn missing_ends<T>(m: Adjacency<T>, from: T, to: T) -> nat {
    if m.contains_key(from) {
        if m.contains_key(to) {
            0
        } else {
            1
        }
    } else {
        if m.contains_key(to) || to == from {
            1
        } else {
            2
        }
    }
}

/// The graph with one more edge from `from` to `to`, after the edges that
/// `from` has already. Both ends become vertices if they were not.
pub open spec fn with_edge<T>(m: Adjacency<T>, from: T, to: T, wt: i32) -> Adjacency<T> {
    let ends = with_vertex(with_vertex(m, from), to);
    ends.insert(from, ends[from].push((to, wt)))
}

/// The graph without the vertex `k`: its own list is gone, and so is every
/// entry of another list that led to it.
pub open spec fn without_vertex<T>(m: Adjacency<T>, k: T) -> Adjacency<T> {
    Map::new(|x: T| m.contains_key(x) && x != k, |x: T| entries_avoiding(m[x], k))
}

/// The edges that lead to `k` from the other vertices, filed by their source.
pub open spec fn edges_into<T>(m: Adjacency<T>, k: T) -> Adjacency<T> {
    Map::new(|x: T| m.contains_key(x) && x != k, |x: T| entries_into(m[x], k))
}

/// The number of edges that `k` is an end of, a self-loop counted once: the
/// edges that leave `k`, and those that lead to it from other vertices.
pub open spec fn incident_edges<T>(m: Adjacency<T>, k: T) -> nat {
    m[k].len() + total_len(edges_into(m, k))
}

/// How the two selections go on when one more entry comes after the list.
pub proof fn lemma_entries_push<T>(s: Seq<(T, i32)>, e: (T, i32), k: T)
    ensures
        entries_avoiding(s.push(e), k) == if e.0 != k {
            entries_avoiding(s, k).push(e)
        } else {
            entries_avoiding(s, k)
        },
        entries_into(s.push(e), k) == if e.0 == k {
            entries_into(s, k).push(e)
        } else {
            entries_into(s, k)
        },
{
    reveal(Seq::filter);
    assert(s.push(e).drop_last() =~= s);
}

/// Every entry either leads to `k` or does not: the two selections share
/// out the list between them.
pub proof fn lemma_entries_partition<T>(s: Seq<(T, i32)>, k: T)
    ensures
        entries_avoiding(s, k).len() + entries_into(s, k).len() == s.len(),
    decreases s.len(),
{
    reveal(Seq::filter);
    if s.len() > 0 {
        lemma_entries_partition(s.drop_last(), k);
    }
}

/// A list that does not lead to `k` loses nothing when the entries that lead
/// to `k` are taken out.
pub proof fn lemma_entries_avoiding_unchanged<T>(s: Seq<(T, i32)>, k: T)
    requires
        !leads_to(s, k),
    ensures
        entries_avoiding(s, k) == s,
    decreases s.len(),
{
    reveal(Seq::filter);
    if s.len() > 0 {
        assert forall|i: int| 0 <= i < s.drop_last().len() implies (#[trigger] s.drop_last()[i]).0
            != k by {
            assert(s.drop_last()[i] == s[i]);
        }
        lemma_entries_avoiding_unchanged(s.drop_last(), k);
        assert(s.last().0 != k);
        assert(s.drop_last().push(s.last()) =~= s);
    }
}

/// What is left of a list after the entries to `k` were taken out does not
/// lead to `k`.
pub proof fn lemma_entries_avoiding_avoid<T>(s: Seq<(T, i32)>, k: T)
    ensures
        !leads_to(entries_avoiding(s, k), k),
    decreases s.len(),
{
    reveal(Seq::filter);
    if s.len() > 0 {
        lemma_entries_avoiding_avoid(s.drop_last(), k);
        let short = entries_avoiding(s.drop_last(), k);
        let kept = entries_avoiding(s, k);
        assert forall|i: int| 0 <= i < kept.len() implies (#[trigger] kept[i]).0 != k by {
            if i < short.len() {
                assert(kept[i] == short[i]);
            }
        }
    }
}

/// A key that was added is a vertex.
pub proof fn lemma_added_vertex_is_vertex<T>(m: Adjacency<T>, k: T)
    ensures
        with_vertex(m, k).contains_key(k),
{
}

/// Adding a key a second time changes nothing.
pub proof fn lemma_with_vertex_twice<T>(m: Adjacency<T>, k: T)
    ensures
        with_vertex(with_vertex(m, k), k) == with_vertex(m, k),
{
}

/// Adding a vertex adds no edge, and adds one to the number of vertices
/// exactly where the key is new.
pub proof fn lemma_with_vertex_counts<T>(m: Adjacency<T>, k: T)
    requires
        m.dom().finite(),
    ensures
        with_vertex(m, k).dom().finite(),
        total_len(with_vertex(m, k)) == total_len(m),
        with_vertex(m, k).dom().len() == m.dom().len() + if m.contains_key(k) {
            0nat
        } else {
            1nat
        },
{
    lemma_total_len_insert(m, k, Seq::empty());
}

/// A new edge is one edge more, whatever was there, and each end that was
/// missing is one vertex more.
pub proof fn lemma_with_edge_counts<T>(m: Adjacency<T>, from: T, to: T, wt: i32)
    requires
        m.dom().finite(),
    ensures
        with_edge(m, from, to, wt).dom().finite(),
        total_len(with_edge(m, from, to, wt)) == total_len(m) + 1,
        with_edge(m, from, to, wt).dom().len() == m.dom().len() + missing_ends(m, from, to),
{
    let first = with_vertex(m, from);
    let ends = with_vertex(first, to);
    lemma_with_vertex_counts(m, from);
    lemma_with_vertex_counts(first, to);
    lemma_total_len_insert(ends, from, ends[from].push((to, wt)));
    assert(with_edge(m, from, to, wt).dom() =~= ends.dom());
}

/// After an edge was added its two ends are vertices, and adjacent.
pub proof fn lemma_new_edge_is_adjacent<T>(m: Adjacency<T>, from: T, to: T, wt: i32)
    ensures
        with_edge(m, from, to, wt).contains_key(from),
        with_edge(m, from, to, wt).contains_key(to),
        leads_to(with_edge(m, from, to, wt)[from], to),
{
    let ends = with_vertex(with_vertex(m, from), to);
    let list = ends[from].push((to, wt));
    assert(list[list.len() - 1].0 == to);
}

/// An edge that is added after another to the same target does not take its
/// place: the weight that was first stays first.
pub proof fn lemma_first_weight_stays<T>(m: Adjacency<T>, from: T, to: T, wt: i32, w: i32)
    requires
        m.contains_key(from),
        is_first_weight_to(m[from], to, w),
    ensures
        is_first_weight_to(with_edge(m, from, to, wt)[from], to, w),
{
    let list = m[from].push((to, wt));
    let i = choose|i: int|
        0 <= i < m[from].len() && #[trigger] m[from][i] == (to, w) && forall|j: int|
            0 <= j < i ==> (#[trigger] m[from][j]).0 != to;
    assert(list[i] == (to, w));
    assert forall|j: int| 0 <= j < i implies (#[trigger] list[j]).0 != to by {
        assert(list[j] == m[from][j]);
    }
}

/// A key that was removed is no vertex, and no edge of the vertices that are
/// left leads to it.
pub proof fn lemma_removed_vertex_is_gone<T>(m: Adjacency<T>, k: T)
    ensures
        !without_vertex(m, k).contains_key(k),
        forall|x: T| #[trigger]
            without_vertex(m, k).contains_key(x) ==> !leads_to(without_vertex(m, k)[x], k),
{
    assert forall|x: T| #[trigger] without_vertex(m, k).contains_key(x) implies !leads_to(
        without_vertex(m, k)[x],
        k,
    ) by {
        lemma_entries_avoiding_avoid(m[x], k);
    }
}

/// Removing a vertex takes one from the number of vertices.
pub proof fn lemma_without_vertex_count<T>(m: Adjacency<T>, k: T)
    requires
        m.dom().finite(),
        m.contains_key(k),
    ensures
        without_vertex(m, k).dom().finite(),
        without_vertex(m, k).dom().len() == m.dom().len() - 1,
{
    assert(without_vertex(m, k).dom() =~= m.dom().remove(k));
}

/// Removing a vertex removes exactly the edges that it is an end of.
pub proof fn lemma_without_vertex_total<T>(m: Adjacency<T>, k: T)
    requires
        m.dom().finite(),
        m.contains_key(k),
    ensures
        total_len(without_vertex(m, k)) + incident_edges(m, k) == total_len(m),
{
    let rest = m.remove(k);
    let kept = without_vertex(m, k);
    let gone = edges_into(m, k);
    lemma_total_len_split(m, k);
    assert(kept.dom() =~= rest.dom());
    assert(gone.dom() =~= rest.dom());
    assert forall|x: T| #[trigger] rest.contains_key(x) implies rest[x].len() == kept[x].len()
        + gone[x].len() by {
        lemma_entries_partition(m[x], k);
    }
    lemma_total_len_additive(rest, kept, gone);
}

} // verus!
