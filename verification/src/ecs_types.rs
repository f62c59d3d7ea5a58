//! Identifiers shared with the ECS: entities and component type identities.

use std::any::TypeId;
use std::sync::Arc;

use bevy::ecs::entity::Entity;
use bevy::platform::collections::HashMap;
use bevy::platform::collections::HashSet;
use bevy::platform::hash::FixedHasher;
use vstd::prelude::*;

verus! {

/// An ECS entity: carried through the library and compared for identity.
#[verifier::external_type_specification]
#[verifier::external_body]
pub struct ExEntity(Entity);

/// A component type's identity: carried through the library and compared for identity.
#[verifier::external_type_specification]
#[verifier::external_body]
pub struct ExTypeId(TypeId);

/// The ECS's deterministic hash map, used for descriptor tables.
#[verifier::external_type_specification]
#[verifier::external_body]
#[verifier::reject_recursive_types(K)]
#[verifier::reject_recursive_types(V)]
#[verifier::reject_recursive_types(S)]
pub struct ExHashMap<K, V, S>(HashMap<K, V, S>);

/// The ECS's deterministic hash set, used for sets of capability types.
#[verifier::external_type_specification]
#[verifier::external_body]
#[verifier::reject_recursive_types(T)]
#[verifier::reject_recursive_types(S)]
pub struct ExHashSet<T, S>(HashSet<T, S>);

/// The fixed-state hasher that the ECS's hash maps use by default.
#[verifier::external_type_specification]
#[verifier::external_body]
pub struct ExFixedHasher(FixedHasher);

/// Calls `Entity`'s `==`. Bevy compares `Entity::to_bits`, which packs the
/// row and the generation one to one, so the result is `true` exactly when
/// the two values are the same entity.
#[verifier::external_body]
pub fn same_entity(a: Entity, b: Entity) -> (r: bool)
    ensures
        r == (a == b),
{
    a == b
}

/// Calls `TypeId`'s `==`, which std documents as equality of the type
/// identities: `true` exactly when both values identify the same type.
#[verifier::external_body]
pub fn same_type(a: TypeId, b: TypeId) -> (r: bool)
    ensures
        r == (a == b),
{
    a == b
}

/// What `Entity::to_bits` returns for an entity: a pure function of the
/// entity's row and generation.
pub uninterp spec fn entity_bits(e: Entity) -> u64;

/// Calls `Entity::to_bits`; the result is named by [`entity_bits`].
#[verifier::external_body]
pub fn entity_key(e: Entity) -> (bits: u64)
    ensures
        bits == entity_bits(e),
{
    e.to_bits()
}

/// Calls `Arc::clone`, which std documents as making another pointer to the
/// same allocation: the clone holds the same value.
#[verifier::external_body]
pub fn share<T>(payload: &Arc<T>) -> (r: Arc<T>)
    ensures
        r == *payload,
{
    Arc::clone(payload)
}

} // verus!
