//! The concurrent map that the registries of the speaker are kept in.

use vstd::prelude::*;

verus! {

/// `dashmap::DashMap`: a hash map. Each registry gives a name to what its map holds and states
/// of each call what it does to that. The calls are made through an exclusive reference, so
/// that nothing else reaches the map between two of them.
#[verifier::external_type_specification]
#[verifier::external_body]
#[verifier::reject_recursive_types(K)]
#[verifier::reject_recursive_types(V)]
#[verifier::reject_recursive_types(S)]
pub struct ExDashMap<K, V, S>(dashmap::DashMap<K, V, S>);

} // verus!
