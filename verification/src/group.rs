//! The protocol that the derived code implements.

use vstd::prelude::*;
use specs::{Entity, World};

verus! {

/// `specs::World`: the entities and the storages of their components. This
/// crate hands it on and never looks inside.
#[verifier::external_type_specification]
#[verifier::external_body]
pub struct ExWorld(specs::World);

/// `specs::Entity`: the identity of one entity of a world. This crate hands
/// it on and never looks inside.
#[verifier::external_type_specification]
#[verifier::external_body]
pub struct ExEntity(specs::Entity);

/// Represents a group of component fields that can be added to or
/// extracted from a world.
///
/// What an implementation derived by this crate does in each method is
/// stated over a model of the world in [`crate::world`], under the same
/// names.
pub trait ComponentGroup: Sized {
    /// The error type of [`update`](ComponentGroup::update).
    type UpdateError;

    /// Extracts the first instance of this component group from the world.
    ///
    /// Returns `None` if no entity has every required component. Optional
    /// fields are `None` where the entity lacks the component.
    fn first_from_world(world: &World) -> Option<(Entity, Self)>;

    /// Extracts this group of components for the given entity from the
    /// given world.
    ///
    /// Panics if the entity lacks a required component. An optional field is
    /// `None` where the entity lacks the component.
    fn from_world(world: &World, entity: Entity) -> Self;

    /// Creates a new entity in the world and adds all the components from
    /// this group to that entity.
    ///
    /// Fields with a value of `None` are not added to the created entity.
    fn create(self, world: &mut World) -> Entity;

    /// Updates the components of a given entity with all of the components
    /// from this group.
    ///
    /// Fields with a value of `None` are removed from the given entity.
    /// Components that the entity has besides those of this group are left
    /// untouched.
    fn update(self, world: &mut World, entity: Entity) -> Result<(), Self::UpdateError>;

    /// Removes all the components of this group from the given entity and
    /// returns them.
    ///
    /// Panics if the entity lacks a required component. Components that the
    /// entity has besides those of this group are left untouched.
    fn remove(world: &mut World, entity: Entity) -> Self;
}

} // verus!
