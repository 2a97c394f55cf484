//! A model of the world: which entities live in it, in which order a join
//! enumerates them, and which components each of them has. The operations
//! of a component group are stated here as functions on that model.
//!
//! A component is found by the tokens of its type and by its entity, for the
//! world keeps one storage per type of component. Two fields of one payload
//! type therefore share their storage.

use vstd::prelude::*;
use crate::component_field::ComponentFieldView;
use crate::protocol::{attachments, first_of, count_of, qualifies, record_of, writes, Attach,
    FieldValue, LookupError, RowView, Write};

verus! {

/// The entities of a world and their components.
#[verifier::ext_equal]
#[verifier::reject_recursive_types(E)]
pub struct WorldState<E, V> {
    /// The living entities, in the order in which a join enumerates them.
    pub order: Seq<E>,
    /// The component of each type that each entity has.
    pub components: Map<(Seq<char>, E), V>,
}

/// The insertion that a storage refused, by the field whose value it was.
pub struct UpdateError {
    pub field: usize,
}

impl<E, V> WorldState<E, V> {
    /// Whether the entity is alive. A storage accepts an insertion for a
    /// living entity and refuses it for any other.
    pub open spec fn alive(self, entity: E) -> bool {
        self.order.contains(entity)
    }

    /// Whether the entity has a component of the type.
    pub open spec fn has(self, ty: Seq<char>, entity: E) -> bool {
        self.components.dom().contains((ty, entity))
    }

    /// The component of the type that the entity has, if any.
    pub open spec fn get(self, ty: Seq<char>, entity: E) -> Option<V> {
        if self.has(ty, entity) {
            Some(self.components[(ty, entity)])
        } else {
            None
        }
    }

    /// The world in which the entity has `value` as its component of the
    /// type, in place of what it had.
    pub open spec fn put(self, ty: Seq<char>, entity: E, value: V) -> Self {
        WorldState { order: self.order, components: self.components.insert((ty, entity), value) }
    }

    /// The world in which the entity has no component of the type.
    pub open spec fn remove(self, ty: Seq<char>, entity: E) -> Self {
        WorldState { order: self.order, components: self.components.remove((ty, entity)) }
    }

    /// Whether nothing in the world speaks of the entity: it is not alive
    /// and has no component.
    pub open spec fn fresh(self, entity: E) -> bool {
        &&& !self.alive(entity)
        &&& forall|ty: Seq<char>| !self.has(ty, entity)
    }

    /// The world in which the entity is alive as well, enumerated at `at`.
    pub open spec fn spawn(self, entity: E, at: int) -> Self {
        WorldState { order: self.order.insert(at, entity), components: self.components }
    }

    /// What the storages of the fields hold for the entity, one entry per
    /// field.
    pub open spec fn values(self, schema: Seq<ComponentFieldView>, entity: E) -> Seq<Option<V>> {
        Seq::new(schema.len(), |i: int| self.get(schema[i].ty, entity))
    }

    /// What a join of the entities with the storages of all the fields
    /// yields when no field excludes an entity: one row per living entity.
    pub open spec fn rows(self, schema: Seq<ComponentFieldView>) -> Seq<RowView<E, V>> {
        Seq::new(
            self.order.len(),
            |k: int| RowView { entity: self.order[k], values: self.values(schema, self.order[k]) },
        )
    }

    /// The world after the attachments, made in order to the entity.
    pub open spec fn attach(
        self,
        schema: Seq<ComponentFieldView>,
        entity: E,
        attached: Seq<Attach<V>>,
    ) -> Self
        decreases attached.len(),
    {
        if attached.len() == 0 {
            self
        } else {
            self.attach(schema, entity, attached.drop_last()).put(
                schema[attached.last().field as int].ty,
                entity,
                attached.last().value,
            )
        }
    }

    /// The world after the writes, made in order to the storages of the
    /// entity, and how they ended. The first insertion that a storage
    /// refuses ends them: what was written before it stays written, and
    /// nothing after it is written.
    pub open spec fn write(
        self,
        schema: Seq<ComponentFieldView>,
        entity: E,
        planned: Seq<Write<V>>,
    ) -> (Self, Result<(), UpdateError>)
        decreases planned.len(),
    {
        if planned.len() == 0 {
            (self, Ok(()))
        } else {
            match planned[0] {
                Write::Insert { field, value } => if self.alive(entity) {
                    self.put(schema[field as int].ty, entity, value).write(
                        schema,
                        entity,
                        planned.drop_first(),
                    )
                } else {
                    (self, Err(UpdateError { field }))
                },
                Write::Remove { field } => self.remove(schema[field as int].ty, entity).write(
                    schema,
                    entity,
                    planned.drop_first(),
                ),
            }
        }
    }

    /// The world after the components of the first `count` fields were
    /// removed from the entity one after the other, and what each removal
    /// returned.
    pub open spec fn detach(self, schema: Seq<ComponentFieldView>, entity: E, count: nat) -> (
        Self,
        Seq<Option<V>>,
    )
        decreases count,
    {
        if count == 0 {
            (self, Seq::empty())
        } else {
            let (before, removed) = self.detach(schema, entity, (count - 1) as nat);
            (
                before.remove(schema[count - 1].ty, entity),
                removed.push(before.get(schema[count - 1].ty, entity)),
            )
        }
    }
}

/// The first entity in the world's order that has the component of every
/// required field, with its record.
pub open spec fn first_from_world<E, V>(world: WorldState<E, V>, schema: Seq<ComponentFieldView>) -> Option<
    (E, Seq<FieldValue<V>>),
> {
    first_of(schema, world.rows(schema))
}

/// The record of the one entity that has the component of every required
/// field, or why there is no such one.
pub open spec fn exactly_one<E, V>(world: WorldState<E, V>, schema: Seq<ComponentFieldView>) -> Result<
    Seq<FieldValue<V>>,
    LookupError,
> {
    let found = count_of(schema, world.rows(schema));
    if found == 0 {
        Err(LookupError::NoMatch)
    } else if found == 1 {
        Ok(first_of(schema, world.rows(schema)).unwrap().1)
    } else {
        Err(LookupError::Ambiguous)
    }
}

/// The record of an entity that has the component of every required field.
pub open spec fn from_world<E, V>(
    world: WorldState<E, V>,
    schema: Seq<ComponentFieldView>,
    entity: E,
) -> Seq<FieldValue<V>>
    recommends
        qualifies(schema, world.values(schema, entity)),
{
    record_of(schema, world.values(schema, entity))
}

/// The world in which `entity`, which was not there before, is alive and
/// carries the record.
pub open spec fn create<E, V>(
    world: WorldState<E, V>,
    schema: Seq<ComponentFieldView>,
    record: Seq<FieldValue<V>>,
    entity: E,
    at: int,
) -> WorldState<E, V>
    recommends
        world.fresh(entity),
        0 <= at <= world.order.len(),
{
    world.spawn(entity, at).attach(schema, entity, attachments(record))
}

/// The world after the record was written over the components of the
/// entity, and whether every insertion was accepted.
pub open spec fn update<E, V>(
    world: WorldState<E, V>,
    schema: Seq<ComponentFieldView>,
    record: Seq<FieldValue<V>>,
    entity: E,
) -> (WorldState<E, V>, Result<(), UpdateError>) {
    world.write(schema, entity, writes(record))
}

/// The world after the group was removed from the entity, and the record of
/// what was removed.
pub open spec fn remove<E, V>(
    world: WorldState<E, V>,
    schema: Seq<ComponentFieldView>,
    entity: E,
) -> (WorldState<E, V>, Seq<FieldValue<V>>) {
    let (after, removed) = world.detach(schema, entity, schema.len());
    (after, record_of(schema, removed))
}

} // verus!
