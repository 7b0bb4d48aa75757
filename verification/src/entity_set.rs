//! Trusted declarations for the parts of `bevy` that the input bookkeeping uses:
//! entities and the entity hash set.
use bevy::ecs::entity::{Entity, EntityHashSet};
use vstd::prelude::*;

verus! {

/// `bevy::ecs::entity::Entity`, carried through opaquely.
#[verifier::external_type_specification]
#[verifier::external_body]
pub struct ExEntity(Entity);

/// `bevy::ecs::entity::EntityHashSet`, carried through opaquely.
#[verifier::external_type_specification]
#[verifier::external_body]
pub struct ExEntityHashSet(EntityHashSet);

/// The value that `Entity::to_bits` gives for an entity.
pub uninterp spec fn entity_bits(e: Entity) -> u64;

/// The entities an `EntityHashSet` holds, each given by its `Entity::to_bits` value.
/// (`Entity`'s `PartialEq` and `Hash` both go through `to_bits`.)
pub uninterp spec fn entity_set_bits(s: EntityHashSet) -> Set<u64>;

/// Calls `Entity::to_bits`. Claimed: the result is `entity_bits(e)`, a function of the
/// entity alone; what it is (the generation above the index) is left unsaid.
#[verifier::external_body]
pub(crate) fn entity_to_bits(e: &Entity) -> (bits: u64)
    ensures
        bits == entity_bits(*e),
{
    e.to_bits()
}

/// Calls `EntityHashSet::new`. Claimed: the new set is empty.
#[verifier::external_body]
pub(crate) fn entity_set_new() -> (s: EntityHashSet)
    ensures
        entity_set_bits(s) == Set::<u64>::empty(),
{
    EntityHashSet::new()
}

/// Calls `insert` of the hash set inside `EntityHashSet` (`bevy_platform`'s `HashSet`,
/// reached through `DerefMut`). Claimed: the entity's bits are in the set afterwards,
/// nothing else changes, and the result says whether they were absent before.
#[verifier::external_body]
pub(crate) fn entity_set_insert(s: &mut EntityHashSet, e: Entity) -> (inserted: bool)
    ensures
        entity_set_bits(*final(s)) == entity_set_bits(*old(s)).insert(entity_bits(e)),
        inserted == !entity_set_bits(*old(s)).contains(entity_bits(e)),
{
    s.insert(e)
}

/// Calls `remove` of the hash set inside `EntityHashSet` (through `DerefMut`). Claimed:
/// the entity's bits are not in the set afterwards, nothing else changes, and the result
/// says whether they were present before.
#[verifier::external_body]
pub(crate) fn entity_set_remove(s: &mut EntityHashSet, e: &Entity) -> (removed: bool)
    ensures
        entity_set_bits(*final(s)) == entity_set_bits(*old(s)).remove(entity_bits(*e)),
        removed == entity_set_bits(*old(s)).contains(entity_bits(*e)),
{
    s.remove(e)
}

/// Calls `contains` of the hash set inside `EntityHashSet` (through `Deref`). Claimed: the
/// result says whether the entity's bits are in the set.
#[verifier::external_body]
pub(crate) fn entity_set_contains(s: &EntityHashSet, e: &Entity) -> (found: bool)
    ensures
        found == entity_set_bits(*s).contains(entity_bits(*e)),
{
    s.contains(e)
}

} // verus!
