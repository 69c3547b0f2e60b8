//! A directed, weighted graph kept as adjacency lists: a hash map from each
//! vertex key to the record of its outgoing edges, with running counts of
//! vertices and edges.

use crate::adjacency::{
    entries_avoiding, incident_edges, is_first_weight_to, leads_to,
    lemma_entries_avoiding_unchanged, lemma_entries_partition, lemma_entries_push,
    lemma_without_vertex_total, missing_ends, with_edge, with_vertex, without_vertex, Adjacency,
};
use crate::keys::{clones_exactly, obeys_vertex_key};
use crate::totals::{
    lemma_total_len_bounds_each, lemma_total_len_empty, lemma_total_len_insert,
    lemma_total_len_split, total_len,
};
use std::collections::HashMap;
use std::hash::Hash;
use vstd::laws_eq::obeys_concrete_eq;
use vstd::prelude::*;
use vstd::std_specs::hash::spec_keys_iter;
use vstd::std_specs::iter::IteratorSpec;

verus! {

/// One vertex: its key, and its outgoing edges as `(target, weight)` in the
/// order in which they were added. Parallel edges are kept apart.
#[derive(Debug)]
pub struct Vertex<T> {
    pub key: T,
    pub neighbors: Vec<(T, i32)>,
}

impl<T: Clone> Clone for Vertex<T> {
    /// A copy of the record, entry by entry. Where cloning a key is exact, the
    /// copy holds the same key and the same edges.
    fn clone(&self) -> (copy: Self)
        ensures
            clones_exactly::<T>() ==> copy.key == self.key && copy.neighbors@ == self.neighbors@,
    {
        let mut neighbors: Vec<(T, i32)> = Vec::new();
        let mut i: usize = 0;
        while i < self.neighbors.len()
            invariant
                i <= self.neighbors.len(),
                neighbors@.len() == i,
                clones_exactly::<T>() ==> neighbors@ == self.neighbors@.take(i as int),
            decreases self.neighbors.len() - i,
        {
            let nbr = self.neighbors[i].0.clone();
            neighbors.push((nbr, self.neighbors[i].1));
            proof {
                if clones_exactly::<T>() {
                    assert(neighbors@ =~= self.neighbors@.take(i + 1));
                }
            }
            i += 1;
        }
        proof {
            assert(self.neighbors@.take(i as int) =~= self.neighbors@);
        }
        Vertex { key: self.key.clone(), neighbors }
    }
}

impl<T: Clone + PartialEq> Vertex<T> {
    /// A vertex without edges.
    pub fn new(key: T) -> (v: Self)
        ensures
            v.key == key,
            v.neighbors@ == Seq::<(T, i32)>::empty(),
    {
        Self { key, neighbors: Vec::new() }
    }

    /// Whether an edge leads from this vertex to `key`.
    pub fn adjacent_key(&self, key: &T) -> (found: bool)
        requires
            obeys_concrete_eq::<T>(),
        ensures
            found == leads_to(self.neighbors@, *key),
    {
        let mut i: usize = 0;
        while i < self.neighbors.len()
            invariant
                obeys_concrete_eq::<T>(),
                i <= self.neighbors.len(),
                forall|j: int| 0 <= j < i ==> (#[trigger] self.neighbors@[j]).0 != *key,
            decreases self.neighbors.len() - i,
        {
            proof {
                reveal(obeys_concrete_eq);
            }
            if self.neighbors[i].0 == *key {
                return true;
            }
            i += 1;
        }
        false
    }

    /// Adds an edge to `nbr` after the edges that are there. An edge to the
    /// same target that is there already stays as it is.
    pub fn add_neighbor(&mut self, nbr: T, wt: i32)
        ensures
            final(self).key == old(self).key,
            final(self).neighbors@ == old(self).neighbors@.push((nbr, wt)),
    {
        self.neighbors.push((nbr, wt));
    }

    /// The targets of the edges, in the order of the edges.
    pub fn get_neighbors(&self) -> (nbrs: Vec<&T>)
        ensures
            nbrs@.len() == self.neighbors@.len(),
            forall|i: int| 0 <= i < nbrs@.len() ==> *(#[trigger] nbrs@[i]) == self.neighbors@[i].0,
    {
        let mut nbrs: Vec<&T> = Vec::new();
        let mut i: usize = 0;
        while i < self.neighbors.len()
            invariant
                i <= self.neighbors.len(),
                nbrs@.len() == i,
                forall|j: int| 0 <= j < i ==> *(#[trigger] nbrs@[j]) == self.neighbors@[j].0,
            decreases self.neighbors.len() - i,
        {
            nbrs.push(&self.neighbors[i].0);
            i += 1;
        }
        nbrs
    }

    /// The weight of the first edge to `key`, or `None` where no edge leads
    /// there. A weight of zero is a weight like any other.
    pub fn get_nbr_weight(&self, key: &T) -> (weight: Option<&i32>)
        requires
            obeys_concrete_eq::<T>(),
        ensures
            match weight {
                Some(w) => is_first_weight_to(self.neighbors@, *key, *w),
                None => !leads_to(self.neighbors@, *key),
            },
    {
        let mut i: usize = 0;
        while i < self.neighbors.len()
            invariant
                obeys_concrete_eq::<T>(),
                i <= self.neighbors.len(),
                forall|j: int| 0 <= j < i ==> (#[trigger] self.neighbors@[j]).0 != *key,
            decreases self.neighbors.len() - i,
        {
            proof {
                reveal(obeys_concrete_eq);
            }
            if self.neighbors[i].0 == *key {
                assert(self.neighbors@[i as int] == (*key, self.neighbors@[i as int].1));
                return Some(&self.neighbors[i].1);
            }
            i += 1;
        }
        None
    }
}

/// The entries of `list` that do not lead to `key`, in their order.
fn entries_avoiding_key<T: PartialEq>(list: Vec<(T, i32)>, key: &T) -> (kept: Vec<(T, i32)>)
    requires
        obeys_concrete_eq::<T>(),
    ensures
        kept@ == entries_avoiding(list@, *key),
{
    let mut kept: Vec<(T, i32)> = Vec::new();
    let ghost all = list@;
    for entry in it: list.into_iter()
        invariant
            obeys_concrete_eq::<T>(),
            it.seq() == all,
            kept@ == entries_avoiding(all.take(it.index()), *key),
    {
        proof {
            reveal(obeys_concrete_eq);
            lemma_entries_push(all.take(it.index()), entry, *key);
            assert(all.take(it.index() + 1) =~= all.take(it.index()).push(entry));
        }
        if entry.0 != *key {
            kept.push(entry);
        }
    }
    proof {
        assert(all.take(all.len() as int) =~= all);
    }
    kept
}

/// The graph: the records of its vertices by key, and how many vertices and
/// edges there are.
#[derive(Debug)]
pub struct Graph<T> {
    vertnums: u32,
    edgenums: u32,
    vertics: HashMap<T, Vertex<T>>,
}

impl<T> View for Graph<T> {
    type V = Adjacency<T>;

    /// Each vertex key with the edges that leave it.
    open spec fn view(&self) -> Adjacency<T> {
        self.adjacency()
    }
}

impl<T> Graph<T> {
    /// The edges of every record, by the key under which the record is filed.
    pub closed spec fn adjacency(&self) -> Adjacency<T> {
        Map::new(|k: T| self.vertics@.contains_key(k), |k: T| self.vertics@[k].neighbors@)
    }

    /// The vertex counter.
    pub closed spec fn vertex_count(&self) -> nat {
        self.vertnums as nat
    }

    /// The edge counter.
    pub closed spec fn edge_count(&self) -> nat {
        self.edgenums as nat
    }

    /// Every record carries the key under which it is filed.
    pub closed spec fn keyed(&self) -> bool {
        forall|k: T| #[trigger] self.vertics@.contains_key(k) ==> self.vertics@[k].key == k
    }
}

impl<T: Hash + Eq + PartialEq + Clone> Graph<T> {
    /// What holds of a graph between any two operations: its key type can
    /// key a hash map, the vertex counter is the number of vertices, and the
    /// edge counter is the number of entries in all neighbor lists together.
    pub open spec fn wf(&self) -> bool {
        &&& obeys_vertex_key::<T>()
        &&& self@.dom().finite()
        &&& self.keyed()
        &&& self.vertex_count() == self@.dom().len()
        &&& self.edge_count() == total_len(self@)
    }

    /// A graph without vertices.
    pub fn new() -> (g: Self)
        requires
            obeys_vertex_key::<T>(),
        ensures
            g.wf(),
            g@ == Map::<T, Seq<(T, i32)>>::empty(),
    {
        let g = Self { vertnums: 0, edgenums: 0, vertics: HashMap::<T, Vertex<T>>::new() };
        proof {
            assert(g@ =~= Map::<T, Seq<(T, i32)>>::empty());
            lemma_total_len_empty::<T, (T, i32)>();
        }
        g
    }

    /// Whether the graph has no vertex.
    pub fn is_empty(&self) -> (empty: bool)
        requires
            self.wf(),
        ensures
            empty == (self.vertex_count() == 0),
            empty == (self@ == Map::<T, Seq<(T, i32)>>::empty()),
    {
        proof {
            if self@.dom().len() == 0 {
                assert(self@ =~= Map::<T, Seq<(T, i32)>>::empty());
            }
        }
        self.vertnums == 0
    }

    /// The number of vertices.
    pub fn vertex_num(&self) -> (n: u32)
        requires
            self.wf(),
        ensures
            n == self.vertex_count(),
            n == self@.dom().len(),
    {
        self.vertnums
    }

    /// The number of edges: the lengths of all neighbor lists, added up. A
    /// self-loop counts once, parallel edges count each.
    pub fn edge_num(&self) -> (n: u32)
        requires
            self.wf(),
        ensures
            n == self.edge_count(),
            n == total_len(self@),
    {
        self.edgenums
    }

    /// Whether `key` is a vertex, by one lookup.
    pub fn contains(&self, key: &T) -> (found: bool)
        requires
            self.wf(),
        ensures
            found == self@.contains_key(*key),
    {
        self.vertics.contains_key(key)
    }

    /// Makes `key` a vertex. A new vertex has no edges and `None` is
    /// returned. Where `key` is a vertex already nothing changes, and a copy
    /// of its record is returned.
    pub fn add_vertex(&mut self, key: &T) -> (prior: Option<Vertex<T>>)
        requires
            old(self).wf(),
            !old(self)@.contains_key(*key) ==> old(self).vertex_count() < u32::MAX,
        ensures
            final(self).wf(),
            final(self)@ == with_vertex(old(self)@, *key),
            final(self)@.contains_key(*key),
            final(self).edge_count() == old(self).edge_count(),
            match prior {
                Some(v) => {
                    &&& old(self)@.contains_key(*key)
                    &&& v.key == *key
                    &&& v.neighbors@ == old(self)@[*key]
                    &&& final(self).vertex_count() == old(self).vertex_count()
                },
                None => {
                    &&& !old(self)@.contains_key(*key)
                    &&& final(self).vertex_count() == old(self).vertex_count() + 1
                },
            },
    {
        match self.vertics.get(key) {
            Some(v) => Some(v.clone()),
            None => {
                self.vertnums += 1;
                self.vertics.insert(key.clone(), Vertex::new(key.clone()));
                proof {
                    assert(self@ =~= old(self)@.insert(*key, Seq::empty()));
                    lemma_total_len_insert(old(self)@, *key, Seq::empty());
                }
                None
            },
        }
    }

    /// The record of `key`, or `None` where `key` is no vertex.
    pub fn get_vertex(&self, key: &T) -> (found: Option<&Vertex<T>>)
        requires
            self.wf(),
        ensures
            match found {
                Some(v) => self@.contains_key(*key) && v.key == *key && v.neighbors@ == self@[*key],
                None => !self@.contains_key(*key),
            },
    {
        self.vertics.get(key)
    }

    /// The keys of all vertices, each once, in no particular order. The
    /// vector is the caller's own: later changes of the graph leave it alone.
    pub fn vertex_keys(&self) -> (keys: Vec<T>)
        requires
            self.wf(),
        ensures
            keys@.no_duplicates(),
            keys@.to_set() == self@.dom(),
            keys@.len() == self.vertex_count(),
    {
        let mut keys: Vec<T> = Vec::new();
        let ghost all: Seq<&T> = spec_keys_iter(&self.vertics).remaining();
        for key in it: self.vertics.keys()
            invariant
                obeys_vertex_key::<T>(),
                it.seq() == all,
                keys@.len() == it.index(),
                forall|j: int| 0 <= j < it.index() ==> #[trigger] keys@[j] == *all[j],
        {
            keys.push(key.clone());
        }
        proof {
            assert(keys@ =~= all.unref());
        }
        keys
    }

    /// Adds an edge from `from` to `to`, after the edges that `from` has
    /// already. An end that is no vertex yet becomes one. Nothing is looked
    /// up first: a second edge between the same two vertices is a second
    /// entry, and `from` and `to` may be the same.
    pub fn add_edge(&mut self, from: &T, to: &T, wt: i32)
        requires
            old(self).wf(),
            old(self).edge_count() < u32::MAX,
            old(self).vertex_count() + missing_ends(old(self)@, *from, *to) <= u32::MAX,
        ensures
            final(self).wf(),
            final(self)@ == with_edge(old(self)@, *from, *to, wt),
            final(self).edge_count() == old(self).edge_count() + 1,
            final(self).vertex_count() == old(self).vertex_count() + missing_ends(
                old(self)@,
                *from,
                *to,
            ),
    {
        if !self.contains(from) {
            let _ = self.add_vertex(from);
        }
        if !self.contains(to) {
            let _ = self.add_vertex(to);
        }
        let ghost ends = self@;
        assert(ends.contains_key(*from));
        if let Some(mut v) = self.vertics.remove(from) {
            v.add_neighbor(to.clone(), wt);
            self.edgenums += 1;
            self.vertics.insert(from.clone(), v);
            proof {
                assert(self@ =~= ends.insert(*from, ends[*from].push((*to, wt))));
                lemma_total_len_insert(ends, *from, ends[*from].push((*to, wt)));
            }
        }
    }

    /// Whether an edge leads from `from` to `to`; `None` where `from` is no
    /// vertex. The graph is only read, so asking again gives the same answer.
    pub fn adjacent(&self, from: &T, to: &T) -> (found: Option<bool>)
        requires
            self.wf(),
        ensures
            found == (if self@.contains_key(*from) {
                Some(leads_to(self@[*from], *to))
            } else {
                None
            }),
    {
        match self.vertics.get(from) {
            Some(v) => Some(v.adjacent_key(to)),
            None => None,
        }
    }

    /// The targets of the edges that leave `key`, in the order of the edges;
    /// `None` where `key` is no vertex.
    pub fn get_neighbors(&self, key: &T) -> (nbrs: Option<Vec<&T>>)
        requires
            self.wf(),
        ensures
            match nbrs {
                Some(list) => {
                    &&& self@.contains_key(*key)
                    &&& list@.len() == self@[*key].len()
                    &&& forall|i: int|
                        0 <= i < list@.len() ==> *(#[trigger] list@[i]) == self@[*key][i].0
                },
                None => !self@.contains_key(*key),
            },
    {
        match self.vertics.get(key) {
            Some(v) => Some(v.get_neighbors()),
            None => None,
        }
    }

    /// The weight of the first edge from `from` to `to`; `None` where `from`
    /// is no vertex or no edge leads from it to `to`. A weight of zero is a
    /// weight like any other.
    pub fn get_neighbor_weight(&self, from: &T, to: &T) -> (weight: Option<&i32>)
        requires
            self.wf(),
        ensures
            match weight {
                Some(w) => self@.contains_key(*from) && is_first_weight_to(self@[*from], *to, *w),
                None => !self@.contains_key(*from) || !leads_to(self@[*from], *to),
            },
    {
        match self.vertics.get(from) {
            Some(v) => v.get_nbr_weight(to),
            None => None,
        }
    }

    /// Takes the vertex `key` out of the graph, with the edges that leave it
    /// and the edges that lead to it, and returns its record as it was.
    /// Where `key` is no vertex, nothing changes and `None` is returned.
    pub fn remove_vertex(&mut self, key: &T) -> (removed: Option<Vertex<T>>)
        requires
            old(self).wf(),
        ensures
            final(self).wf(),
            !final(self)@.contains_key(*key),
            match removed {
                Some(v) => {
                    &&& old(self)@.contains_key(*key)
                    &&& v.key == *key
                    &&& v.neighbors@ == old(self)@[*key]
                    &&& final(self)@ == without_vertex(old(self)@, *key)
                    &&& final(self).vertex_count() == old(self).vertex_count() - 1
                    &&& final(self).edge_count() == old(self).edge_count() - incident_edges(
                        old(self)@,
                        *key,
                    )
                },
                None => {
                    &&& !old(self)@.contains_key(*key)
                    &&& final(self)@ == old(self)@
                    &&& final(self).vertex_count() == old(self).vertex_count()
                    &&& final(self).edge_count() == old(self).edge_count()
                },
            },
    {
        let ghost whole = self@;
        match self.vertics.remove(key) {
            None => {
                proof {
                    assert(self@ =~= whole);
                }
                None
            },
            Some(old_vertex) => {
                proof {
                    lemma_total_len_split(whole, *key);
                    lemma_total_len_bounds_each(whole, *key);
                    assert(self@ =~= whole.remove(*key));
                }
                self.vertnums -= 1;
                self.edgenums -= old_vertex.neighbors.len() as u32;
                let ghost rest = self@;
                let keys = self.vertex_keys();
                let ghost all = keys@;
                for v in it: keys.into_iter()
                    invariant
                        self.wf(),
                        it.seq() == all,
                        all.no_duplicates(),
                        self@.dom() == rest.dom(),
                        forall|j: int| 0 <= j < all.len() ==> rest.contains_key(#[trigger] all[j]),
                        forall|j: int|
                            0 <= j < it.index() ==> self@[#[trigger] all[j]] == entries_avoiding(
                                rest[all[j]],
                                *key,
                            ),
                        forall|j: int|
                            it.index() <= j < all.len() ==> self@[#[trigger] all[j]]
                                == rest[all[j]],
                {
                    let ghost at = it.index();
                    self.drop_edges(v, key);
                    proof {
                        assert forall|j: int| 0 <= j < at + 1 implies self@[#[trigger] all[j]]
                            == entries_avoiding(rest[all[j]], *key) by {
                            if j < at {
                                assert(all[j] != all[at]);
                            }
                        }
                        assert forall|j: int| at + 1 <= j < all.len() implies self@[#[trigger] all[
                            j
                        ]] == rest[all[j]] by {
                            assert(all[j] != all[at]);
                        }
                    }
                }
                proof {
                    assert forall|x: T| #[trigger] rest.contains_key(x) implies self@[x]
                        == entries_avoiding(rest[x], *key) by {
                        assert(all.to_set().contains(x));
                        let j = choose|j: int| 0 <= j < all.len() && all[j] == x;
                        assert(self@[all[j]] == entries_avoiding(rest[all[j]], *key));
                    }
                    assert(self@ =~= without_vertex(whole, *key));
                    lemma_without_vertex_total(whole, *key);
                }
                Some(old_vertex)
            },
        }
    }

    /// Takes the edges that lead to `key` out of the list of the vertex
    /// `from`, and as many from the edge counter.
    fn drop_edges(&mut self, from: T, key: &T)
        requires
            old(self).wf(),
            old(self)@.contains_key(from),
        ensures
            final(self).wf(),
            final(self)@ == old(self)@.insert(from, entries_avoiding(old(self)@[from], *key)),
            final(self).vertex_count() == old(self).vertex_count(),
    {
        let ghost whole = self@;
        let touched = match self.vertics.get(&from) {
            Some(v) => v.adjacent_key(key),
            None => false,
        };
        if touched {
            if let Some(v) = self.vertics.remove(&from) {
                let Vertex { key: k, neighbors } = v;
                let before = neighbors.len();
                let kept = entries_avoiding_key(neighbors, key);
                proof {
                    lemma_total_len_insert(whole, from, kept@);
                    lemma_total_len_bounds_each(whole, from);
                    lemma_entries_partition(whole[from], *key);
                }
                self.edgenums -= (before - kept.len()) as u32;
                self.vertics.insert(from, Vertex { key: k, neighbors: kept });
                proof {
                    assert(self@ =~= whole.insert(from, kept@));
                    assert(self@.dom() =~= whole.dom());
                }
            }
        } else {
            proof {
                lemma_entries_avoiding_unchanged(whole[from], *key);
                assert(self@ =~= whole.insert(from, whole[from]));
            }
        }
    }
}

/// Asking twice whether two vertices are adjacent, with no change of the
/// graph in between, gives the same answer twice.
pub proof fn lemma_adjacent_repeats<T: Hash + Eq + PartialEq + Clone>(
    g: &Graph<T>,
    from: &T,
    to: &T,
    first: Option<bool>,
    second: Option<bool>,
)
    requires
        g.wf(),
        call_ensures(Graph::<T>::adjacent, (g, from, to), first),
        call_ensures(Graph::<T>::adjacent, (g, from, to), second),
    ensures
        first == second,
{
}

} // verus!
