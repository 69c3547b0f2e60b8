//! What a type has to guarantee to serve as a vertex key.

use std::hash::Hash;
use vstd::laws_eq::obeys_concrete_eq;
use vstd::prelude::*;
use vstd::std_specs::hash::obeys_key_model;

verus! {

/// Cloning a value of `T` gives back that very value.
pub open spec fn clones_exactly<T: Clone>() -> bool {
    forall|a: T, b: T| #[trigger] call_ensures(T::clone, (&a,), b) ==> a == b
}

/// `T` can key a graph: it hashes the same value the same way every time, its
/// `==` holds of two values exactly when they are the same value, and a clone
/// of a value is that value.
pub open spec fn obeys_vertex_key<T: Hash + Eq + Clone>() -> bool {
    &&& obeys_key_model::<T>()
    &&& obeys_concrete_eq::<T>()
    &&& clones_exactly::<T>()
}

/// The built-in integer types can key a graph.
pub proof fn lemma_integers_obey_vertex_key()
    ensures
        obeys_vertex_key::<u8>(),
        obeys_vertex_key::<u16>(),
        obeys_vertex_key::<u32>(),
        obeys_vertex_key::<u64>(),
        obeys_vertex_key::<u128>(),
        obeys_vertex_key::<usize>(),
        obeys_vertex_key::<i8>(),
        obeys_vertex_key::<i16>(),
        obeys_vertex_key::<i32>(),
        obeys_vertex_key::<i64>(),
        obeys_vertex_key::<i128>(),
        obeys_vertex_key::<isize>(),
{
}

} // verus!
