//! What holds of the operations of a component group in every world.

use vstd::prelude::*;
use crate::component_field::ComponentFieldView;
use crate::protocol::{attachments, count_of, first_of, qualifies, record_fits, record_of, writes,
    Attach, FieldValue, LookupError, RowView, Write};
use crate::world::{create, exactly_one, first_from_world, from_world, remove, update, UpdateError,
    WorldState};

verus! {

/// Whether no two fields of the schema have the same payload type, so that
/// every field has a storage of its own, and the fields can be counted by a
/// machine integer.
pub open spec fn separate_storages(schema: Seq<ComponentFieldView>) -> bool {
    &&& schema.len() <= usize::MAX
    &&& forall|i: int, j: int|
        0 <= i < schema.len() && 0 <= j < schema.len() && i != j ==> schema[i].ty != schema[j].ty
}

/// Whether the type is the payload type of one of the first `count` fields.
pub open spec fn among(schema: Seq<ComponentFieldView>, count: int, ty: Seq<char>) -> bool {
    exists|i: int| 0 <= i < count && i < schema.len() && #[trigger] schema[i].ty == ty
}

/// Whether the type is the payload type of a field of the schema.
pub open spec fn in_group(schema: Seq<ComponentFieldView>, ty: Seq<char>) -> bool {
    among(schema, schema.len() as int, ty)
}

proof fn lemma_attach<E, V>(
    world: WorldState<E, V>,
    schema: Seq<ComponentFieldView>,
    entity: E,
    record: Seq<FieldValue<V>>,
)
    requires
        separate_storages(schema),
        record.len() <= schema.len(),
    ensures
        ({
            let after = world.attach(schema, entity, attachments(record));
            &&& after.order == world.order
            &&& forall|i: int|
                0 <= i < record.len() ==> after.get(#[trigger] schema[i].ty, entity) == if record[i].stored() is Some {
                    record[i].stored()
                } else {
                    world.get(schema[i].ty, entity)
                }
            &&& forall|ty: Seq<char>, other: E|
                other != entity || !among(schema, record.len() as int, ty) ==> #[trigger] after.get(
                    ty,
                    other,
                ) == world.get(ty, other)
        }),
    decreases record.len(),
{
    if record.len() > 0 {
        let last = record.len() - 1;
        let shorter = record.drop_last();
        lemma_attach(world, schema, entity, shorter);
        let before = world.attach(schema, entity, attachments(shorter));
        let after = world.attach(schema, entity, attachments(record));
        match record.last().stored() {
            Some(value) => {
                let attached = Attach { field: last as usize, value };
                assert(attachments(record) == attachments(shorter).push(attached));
                assert(attachments(record).drop_last() =~= attachments(shorter));
                assert(after == before.put(schema[last].ty, entity, value));
            },
            None => {
                assert(after == before);
            },
        }
        assert forall|i: int| 0 <= i < record.len() implies after.get(
            #[trigger] schema[i].ty,
            entity,
        ) == if record[i].stored() is Some {
            record[i].stored()
        } else {
            world.get(schema[i].ty, entity)
        } by {
            if i < last {
                assert(shorter[i] == record[i]);
                assert(before.get(schema[i].ty, entity) == if shorter[i].stored() is Some {
                    shorter[i].stored()
                } else {
                    world.get(schema[i].ty, entity)
                });
                assert(schema[i].ty != schema[last].ty);
            } else {
                assert(!among(schema, last, schema[last].ty));
            }
        }
        assert forall|ty: Seq<char>, other: E|
            other != entity || !among(schema, record.len() as int, ty) implies #[trigger] after.get(
            ty,
            other,
        ) == world.get(ty, other) by {
            if other == entity {
                if among(schema, last, ty) {
                    let i = choose|i: int| 0 <= i < last && i < schema.len() && #[trigger] schema[i].ty == ty;
                    assert(0 <= i < record.len() && schema[i].ty == ty);
                    assert(among(schema, record.len() as int, ty));
                }
                assert(schema[last].ty != ty);
            }
            assert(before.get(ty, other) == world.get(ty, other));
            assert(after.get(ty, other) == before.get(ty, other));
        }
    }
}

/// A created entity carries its record and nothing else: it is alive, each
/// field's storage holds for it what the record holds in that field, which
/// is nothing where an optional field holds `None`, and it has no component
/// of any other type. Every other entity has what it had.
pub proof fn lemma_create_attaches_the_record<E, V>(
    world: WorldState<E, V>,
    schema: Seq<ComponentFieldView>,
    record: Seq<FieldValue<V>>,
    entity: E,
    at: int,
)
    requires
        separate_storages(schema),
        record_fits(schema, record),
        world.fresh(entity),
        0 <= at <= world.order.len(),
    ensures
        ({
            let created = create(world, schema, record, entity, at);
            &&& created.alive(entity)
            &&& created.order == world.order.insert(at, entity)
            &&& forall|i: int|
                0 <= i < schema.len() ==> created.get(#[trigger] schema[i].ty, entity)
                    == record[i].stored()
            &&& forall|i: int|
                0 <= i < schema.len() && record[i] == FieldValue::<V>::Optional(None)
                    ==> !created.has(#[trigger] schema[i].ty, entity)
            &&& forall|ty: Seq<char>| !in_group(schema, ty) ==> !#[trigger] created.has(ty, entity)
            &&& forall|ty: Seq<char>, other: E|
                other != entity ==> #[trigger] created.get(ty, other) == world.get(ty, other)
        }),
{
    let spawned = world.spawn(entity, at);
    let created = create(world, schema, record, entity, at);
    lemma_attach(spawned, schema, entity, record);
    assert(spawned.order[at] == entity);
    assert forall|i: int| 0 <= i < schema.len() implies created.get(
        #[trigger] schema[i].ty,
        entity,
    ) == record[i].stored() by {
        assert(!world.has(schema[i].ty, entity));
        assert(spawned.get(schema[i].ty, entity) is None);
    }
    assert forall|ty: Seq<char>| !in_group(schema, ty) implies !#[trigger] created.has(
        ty,
        entity,
    ) by {
        assert(!world.has(ty, entity));
        assert(created.get(ty, entity) == spawned.get(ty, entity));
    }
    assert forall|ty: Seq<char>, other: E| other != entity implies #[trigger] created.get(
        ty,
        other,
    ) == world.get(ty, other) by {
        assert(created.get(ty, other) == spawned.get(ty, other));
    }
}

/// Loading an entity that was just created from a record gives the record
/// back.
pub proof fn lemma_create_then_load<E, V>(
    world: WorldState<E, V>,
    schema: Seq<ComponentFieldView>,
    record: Seq<FieldValue<V>>,
    entity: E,
    at: int,
)
    requires
        separate_storages(schema),
        record_fits(schema, record),
        world.fresh(entity),
        0 <= at <= world.order.len(),
    ensures
        qualifies(schema, create(world, schema, record, entity, at).values(schema, entity)),
        from_world(create(world, schema, record, entity, at), schema, entity) == record,
{
    lemma_create_attaches_the_record(world, schema, record, entity, at);
    let created = create(world, schema, record, entity, at);
    lemma_record_of_stored(schema, record, created.values(schema, entity));
}

/// A record that fits its schema is the record of what it stores.
proof fn lemma_record_of_stored<V>(
    schema: Seq<ComponentFieldView>,
    record: Seq<FieldValue<V>>,
    values: Seq<Option<V>>,
)
    requires
        record_fits(schema, record),
        values.len() == schema.len(),
        forall|i: int| 0 <= i < schema.len() ==> #[trigger] values[i] == record[i].stored(),
    ensures
        qualifies(schema, values),
        record_of(schema, values) == record,
{
    assert forall|i: int| 0 <= i < schema.len() && !schema[i].is_optional implies #[trigger] values[i] is Some by {
        assert(record[i] is Optional <==> schema[i].is_optional);
    }
    assert forall|i: int| 0 <= i < schema.len() implies record_of(schema, values)[i] == record[i] by {
        assert(record[i] is Optional <==> schema[i].is_optional);
        assert(values[i] == record[i].stored());
    }
    assert(record_of(schema, values) =~= record);
}

/// The component that a write is about.
spec fn written<E, V>(schema: Seq<ComponentFieldView>, entity: E, write: Write<V>) -> (
    Seq<char>,
    E,
) {
    match write {
        Write::Insert { field, .. } => (schema[field as int].ty, entity),
        Write::Remove { field } => (schema[field as int].ty, entity),
    }
}

/// Whether one of the writes that are carried out is about the component:
/// all of them for a living entity, and for any other those before the
/// first insertion.
spec fn touched<E, V>(
    schema: Seq<ComponentFieldView>,
    entity: E,
    planned: Seq<Write<V>>,
    alive: bool,
    key: (Seq<char>, E),
) -> bool
    decreases planned.len(),
{
    if planned.len() == 0 {
        false
    } else if planned[0] is Insert && !alive {
        false
    } else {
        written(schema, entity, planned[0]) == key || touched(
            schema,
            entity,
            planned.drop_first(),
            alive,
            key,
        )
    }
}

/// Whether two worlds say the same of one component.
spec fn agree<E, V>(a: WorldState<E, V>, b: WorldState<E, V>, key: (Seq<char>, E)) -> bool {
    &&& a.components.dom().contains(key) == b.components.dom().contains(key)
    &&& a.components.dom().contains(key) ==> a.components[key] == b.components[key]
}

proof fn lemma_write_leaves_the_rest<E, V>(
    world: WorldState<E, V>,
    schema: Seq<ComponentFieldView>,
    entity: E,
    planned: Seq<Write<V>>,
)
    ensures
        world.write(schema, entity, planned).0.order == world.order,
        forall|key: (Seq<char>, E)|
            !touched(schema, entity, planned, world.alive(entity), key) ==> #[trigger] agree(
                world.write(schema, entity, planned).0,
                world,
                key,
            ),
    decreases planned.len(),
{
    if planned.len() > 0 {
        let rest = planned.drop_first();
        match planned[0] {
            Write::Insert { field, value } => {
                if world.alive(entity) {
                    let next = world.put(schema[field as int].ty, entity, value);
                    lemma_write_leaves_the_rest(next, schema, entity, rest);
                    assert forall|key: (Seq<char>, E)|
                        !touched(schema, entity, planned, world.alive(entity), key) implies #[trigger] agree(
                        world.write(schema, entity, planned).0,
                        world,
                        key,
                    ) by {
                        assert(next.alive(entity) == world.alive(entity));
                        assert(!touched(schema, entity, rest, next.alive(entity), key));
                        assert(agree(next.write(schema, entity, rest).0, next, key));
                    }
                }
            },
            Write::Remove { field } => {
                let next = world.remove(schema[field as int].ty, entity);
                lemma_write_leaves_the_rest(next, schema, entity, rest);
                assert forall|key: (Seq<char>, E)|
                    !touched(schema, entity, planned, world.alive(entity), key) implies #[trigger] agree(
                    world.write(schema, entity, planned).0,
                    world,
                    key,
                ) by {
                    assert(next.alive(entity) == world.alive(entity));
                    assert(!touched(schema, entity, rest, next.alive(entity), key));
                    assert(agree(next.write(schema, entity, rest).0, next, key));
                }
            },
        }
    }
}

proof fn lemma_write_decides_the_touched<E, V>(
    a: WorldState<E, V>,
    b: WorldState<E, V>,
    schema: Seq<ComponentFieldView>,
    entity: E,
    planned: Seq<Write<V>>,
)
    requires
        a.order == b.order,
        forall|key: (Seq<char>, E)|
            !touched(schema, entity, planned, a.alive(entity), key) ==> #[trigger] agree(a, b, key),
    ensures
        a.write(schema, entity, planned) == b.write(schema, entity, planned),
    decreases planned.len(),
{
    if planned.len() == 0 || (planned[0] is Insert && !a.alive(entity)) {
        assert forall|key: (Seq<char>, E)| #[trigger]
            a.components.dom().contains(key) == b.components.dom().contains(key) && (
            a.components.dom().contains(key) ==> a.components[key] == b.components[key]) by {
            assert(agree(a, b, key));
        }
        assert(a.components =~= b.components);
        assert(a == b);
    } else {
        let rest = planned.drop_first();
        let (next_a, next_b) = match planned[0] {
            Write::Insert { field, value } => (
                a.put(schema[field as int].ty, entity, value),
                b.put(schema[field as int].ty, entity, value),
            ),
            Write::Remove { field } => (
                a.remove(schema[field as int].ty, entity),
                b.remove(schema[field as int].ty, entity),
            ),
        };
        assert forall|key: (Seq<char>, E)|
            !touched(schema, entity, rest, next_a.alive(entity), key) implies #[trigger] agree(
            next_a,
            next_b,
            key,
        ) by {
            if written(schema, entity, planned[0]) != key {
                assert(agree(a, b, key));
            }
        }
        lemma_write_decides_the_touched(next_a, next_b, schema, entity, rest);
    }
}

/// An update made a second time with the same record changes nothing and
/// ends as the first did: each insertion overwrites with the value that is
/// there already, and each removal finds nothing to remove.
pub proof fn lemma_update_twice<E, V>(
    world: WorldState<E, V>,
    schema: Seq<ComponentFieldView>,
    record: Seq<FieldValue<V>>,
    entity: E,
)
    ensures
        ({
            let once = update(world, schema, record, entity);
            update(once.0, schema, record, entity) == once
        }),
{
    let once = update(world, schema, record, entity);
    lemma_write_leaves_the_rest(world, schema, entity, writes(record));
    assert(once.0.alive(entity) == world.alive(entity));
    lemma_write_decides_the_touched(once.0, world, schema, entity, writes(record));
}

/// Whether the type is the payload type of a field at `from` or after it.
spec fn among_later(schema: Seq<ComponentFieldView>, from: int, ty: Seq<char>) -> bool {
    exists|i: int| from <= i < schema.len() && #[trigger] schema[i].ty == ty
}

proof fn lemma_write_later_fields<E, V>(
    world: WorldState<E, V>,
    schema: Seq<ComponentFieldView>,
    record: Seq<FieldValue<V>>,
    entity: E,
    from: int,
)
    requires
        separate_storages(schema),
        record.len() == schema.len(),
        world.alive(entity),
        0 <= from <= schema.len(),
    ensures
        ({
            let (after, ended) = world.write(schema, entity, writes(record).skip(from));
            &&& ended is Ok
            &&& after.order == world.order
            &&& forall|i: int|
                from <= i < schema.len() ==> after.get(#[trigger] schema[i].ty, entity)
                    == record[i].stored()
            &&& forall|ty: Seq<char>, other: E|
                other != entity || !among_later(schema, from, ty) ==> #[trigger] after.get(ty, other)
                    == world.get(ty, other)
        }),
    decreases schema.len() - from,
{
    let planned = writes(record).skip(from);
    if from < schema.len() {
        let ty = schema[from].ty;
        assert(planned[0] == crate::protocol::write_of(from as usize, record[from]));
        assert(planned.drop_first() =~= writes(record).skip(from + 1));
        let next = match record[from].stored() {
            Some(value) => world.put(ty, entity, value),
            None => world.remove(ty, entity),
        };
        lemma_write_later_fields(next, schema, record, entity, from + 1);
        let (after, ended) = world.write(schema, entity, planned);
        assert((after, ended) == next.write(schema, entity, writes(record).skip(from + 1)));
        assert forall|i: int| from <= i < schema.len() implies after.get(
            #[trigger] schema[i].ty,
            entity,
        ) == record[i].stored() by {
            if i == from {
                if among_later(schema, from + 1, ty) {
                    let j = choose|j: int| from + 1 <= j < schema.len() && #[trigger] schema[j].ty == ty;
                    assert(schema[j].ty != schema[from].ty);
                }
                assert(after.get(ty, entity) == next.get(ty, entity));
            }
        }
        assert forall|kind: Seq<char>, other: E|
            other != entity || !among_later(schema, from, kind) implies #[trigger] after.get(
            kind,
            other,
        ) == world.get(kind, other) by {
            if other == entity {
                if among_later(schema, from + 1, kind) {
                    let j = choose|j: int| from + 1 <= j < schema.len() && #[trigger] schema[j].ty == kind;
                    assert(from <= j < schema.len() && schema[j].ty == kind);
                }
                assert(schema[from].ty != kind);
            }
            assert(after.get(kind, other) == next.get(kind, other));
        }
    }
}

/// An update of a living entity is accepted and writes the record and
/// nothing else: each field's storage then holds for the entity what the
/// record holds in that field, which is nothing where an optional field
/// holds `None`. Every component outside the group, and every other entity,
/// is as it was.
pub proof fn lemma_update_writes_the_record<E, V>(
    world: WorldState<E, V>,
    schema: Seq<ComponentFieldView>,
    record: Seq<FieldValue<V>>,
    entity: E,
)
    requires
        separate_storages(schema),
        record_fits(schema, record),
        world.alive(entity),
    ensures
        ({
            let (after, ended) = update(world, schema, record, entity);
            &&& ended is Ok
            &&& after.order == world.order
            &&& forall|i: int|
                0 <= i < schema.len() ==> after.get(#[trigger] schema[i].ty, entity)
                    == record[i].stored()
            &&& forall|ty: Seq<char>, other: E|
                other != entity || !in_group(schema, ty) ==> #[trigger] after.get(ty, other)
                    == world.get(ty, other)
        }),
{
    lemma_write_later_fields(world, schema, record, entity, 0);
    assert(writes(record).skip(0) =~= writes(record));
    let (after, ended) = update(world, schema, record, entity);
    assert forall|ty: Seq<char>, other: E|
        other != entity || !in_group(schema, ty) implies #[trigger] after.get(ty, other) == world.get(
        ty,
        other,
    ) by {
        if among_later(schema, 0, ty) {
            let j = choose|j: int| 0 <= j < schema.len() && #[trigger] schema[j].ty == ty;
            assert(0 <= j < schema.len() && j < schema.len() && schema[j].ty == ty);
            assert(in_group(schema, ty));
        }
    }
}

/// Loading a living entity that was just updated from a record gives the
/// record back.
pub proof fn lemma_update_then_load<E, V>(
    world: WorldState<E, V>,
    schema: Seq<ComponentFieldView>,
    record: Seq<FieldValue<V>>,
    entity: E,
)
    requires
        separate_storages(schema),
        record_fits(schema, record),
        world.alive(entity),
    ensures
        update(world, schema, record, entity).1 is Ok,
        from_world(update(world, schema, record, entity).0, schema, entity) == record,
{
    lemma_update_writes_the_record(world, schema, record, entity);
    let after = update(world, schema, record, entity).0;
    lemma_record_of_stored(schema, record, after.values(schema, entity));
}

/// The first field at `from` or after it whose value is there, or the
/// number of fields when there is none.
spec fn first_stored<V>(record: Seq<FieldValue<V>>, from: int) -> int
    decreases record.len() - from,
{
    if from >= record.len() || record[from].stored() is Some {
        from
    } else {
        first_stored(record, from + 1)
    }
}

proof fn lemma_write_for_the_dead<E, V>(
    world: WorldState<E, V>,
    schema: Seq<ComponentFieldView>,
    record: Seq<FieldValue<V>>,
    entity: E,
    from: int,
)
    requires
        record.len() <= usize::MAX,
        !world.alive(entity),
        0 <= from <= record.len(),
    ensures
        from <= first_stored(record, from),
        first_stored(record, from) < record.len() ==> record[first_stored(record, from)].stored() is Some,
        forall|i: int| from <= i < first_stored(record, from) ==> record[i].stored() is None,
        world.write(schema, entity, writes(record).skip(from)).1 == if first_stored(record, from)
            < record.len() {
            Err::<(), UpdateError>(UpdateError { field: first_stored(record, from) as usize })
        } else {
            Ok::<(), UpdateError>(())
        },
    decreases record.len() - from,
{
    let planned = writes(record).skip(from);
    if from < record.len() {
        assert(planned[0] == crate::protocol::write_of(from as usize, record[from]));
        assert(planned.drop_first() =~= writes(record).skip(from + 1));
        if record[from].stored() is None {
            let next = world.remove(schema[from].ty, entity);
            lemma_write_for_the_dead(next, schema, record, entity, from + 1);
        }
    }
}

/// An update is refused exactly when the entity is not alive and the
/// record holds a value to insert; the error then names the first field
/// that holds one, and the fields after it are not written.
pub proof fn lemma_update_is_refused_for_the_dead<E, V>(
    world: WorldState<E, V>,
    schema: Seq<ComponentFieldView>,
    record: Seq<FieldValue<V>>,
    entity: E,
)
    requires
        separate_storages(schema),
        record_fits(schema, record),
    ensures
        update(world, schema, record, entity).1 is Err <==> !world.alive(entity) && exists|i: int|
            0 <= i < record.len() && #[trigger] record[i].stored() is Some,
        update(world, schema, record, entity).1 matches Err(refused) ==> {
            &&& refused.field < record.len()
            &&& record[refused.field as int].stored() is Some
            &&& forall|i: int| 0 <= i < refused.field ==> record[i].stored() is None
        },
{
    assert(writes(record).skip(0) =~= writes(record));
    if world.alive(entity) {
        lemma_update_writes_the_record(world, schema, record, entity);
    } else {
        lemma_write_for_the_dead(world, schema, record, entity, 0);
        let first = first_stored(record, 0);
        if first < record.len() {
            assert(record[first].stored() is Some);
        }
    }
}

proof fn lemma_detach<E, V>(
    world: WorldState<E, V>,
    schema: Seq<ComponentFieldView>,
    entity: E,
    count: nat,
)
    requires
        count <= schema.len(),
    ensures
        ({
            let (after, removed) = world.detach(schema, entity, count);
            &&& after.order == world.order
            &&& removed.len() == count
            &&& forall|ty: Seq<char>, other: E| #[trigger]
                after.get(ty, other) == if other == entity && among(schema, count as int, ty) {
                    None
                } else {
                    world.get(ty, other)
                }
            &&& separate_storages(schema) ==> forall|i: int|
                0 <= i < count ==> #[trigger] removed[i] == world.get(schema[i].ty, entity)
        }),
    decreases count,
{
    if count > 0 {
        let last = count - 1;
        lemma_detach(world, schema, entity, last as nat);
        let (before, earlier) = world.detach(schema, entity, last as nat);
        let (after, removed) = world.detach(schema, entity, count);
        assert(after == before.remove(schema[last].ty, entity));
        assert forall|ty: Seq<char>, other: E| #[trigger]
            after.get(ty, other) == if other == entity && among(schema, count as int, ty) {
                None
            } else {
                world.get(ty, other)
            } by {
            assert(before.get(ty, other) == if other == entity && among(schema, last, ty) {
                None
            } else {
                world.get(ty, other)
            });
            if other == entity {
                if among(schema, last, ty) {
                    let i = choose|i: int| 0 <= i < last && i < schema.len() && #[trigger] schema[i].ty == ty;
                    assert(0 <= i < count && schema[i].ty == ty);
                }
                if ty == schema[last].ty {
                    assert(0 <= last < count && schema[last].ty == ty);
                }
                if among(schema, count as int, ty) && ty != schema[last].ty {
                    let i = choose|i: int| 0 <= i < count && i < schema.len() && #[trigger] schema[i].ty == ty;
                    assert(0 <= i < last && schema[i].ty == ty);
                }
            }
        }
        if separate_storages(schema) {
            assert forall|i: int| 0 <= i < count implies #[trigger] removed[i] == world.get(
                schema[i].ty,
                entity,
            ) by {
                if i == last {
                    if among(schema, last, schema[last].ty) {
                        let j = choose|j: int| 0 <= j < last && j < schema.len() && #[trigger] schema[j].ty == schema[last].ty;
                        assert(schema[j].ty != schema[last].ty);
                    }
                    assert(before.get(schema[last].ty, entity) == world.get(schema[last].ty, entity));
                } else {
                    assert(earlier[i] == world.get(schema[i].ty, entity));
                }
            }
        }
    }
}

/// Removing a group takes from the entity the components of the group and
/// nothing else: afterwards the entity has no component of a field's
/// payload type, it has every other component that it had, and every other
/// entity has what it had.
pub proof fn lemma_remove_takes_the_group<E, V>(
    world: WorldState<E, V>,
    schema: Seq<ComponentFieldView>,
    entity: E,
)
    ensures
        ({
            let (after, removed) = remove(world, schema, entity);
            &&& after.order == world.order
            &&& forall|ty: Seq<char>| in_group(schema, ty) ==> !#[trigger] after.has(ty, entity)
            &&& forall|ty: Seq<char>|
                !in_group(schema, ty) ==> #[trigger] after.get(ty, entity) == world.get(ty, entity)
            &&& forall|ty: Seq<char>, other: E|
                other != entity ==> #[trigger] after.get(ty, other) == world.get(ty, other)
        }),
{
    lemma_detach(world, schema, entity, schema.len());
    let (after, removed) = world.detach(schema, entity, schema.len());
    assert forall|ty: Seq<char>| in_group(schema, ty) implies !#[trigger] after.has(ty, entity) by {
        assert(after.get(ty, entity) is None);
    }
}

/// Removing a group returns the record that loading the entity would have
/// returned just before.
pub proof fn lemma_remove_returns_what_was_there<E, V>(
    world: WorldState<E, V>,
    schema: Seq<ComponentFieldView>,
    entity: E,
)
    requires
        separate_storages(schema),
    ensures
        remove(world, schema, entity).1 == from_world(world, schema, entity),
{
    lemma_detach(world, schema, entity, schema.len());
    let (after, removed) = world.detach(schema, entity, schema.len());
    assert(removed =~= world.values(schema, entity));
}

proof fn lemma_first_of<E, V>(schema: Seq<ComponentFieldView>, rows: Seq<RowView<E, V>>)
    ensures
        match first_of(schema, rows) {
            Some((entity, record)) => exists|k: int|
                {
                    &&& 0 <= k < rows.len()
                    &&& qualifies(schema, #[trigger] rows[k].values)
                    &&& entity == rows[k].entity
                    &&& record == record_of(schema, rows[k].values)
                    &&& forall|j: int| 0 <= j < k ==> !qualifies(schema, #[trigger] rows[j].values)
                },
            None => forall|k: int| 0 <= k < rows.len() ==> !qualifies(schema, #[trigger] rows[k].values),
        },
        count_of(schema, rows) == 0 <==> first_of(schema, rows) is None,
        count_of(schema, rows) >= 2 <==> exists|j: int, k: int|
            0 <= j < k < rows.len() && qualifies(schema, #[trigger] rows[j].values) && qualifies(
                schema,
                #[trigger] rows[k].values,
            ),
    decreases rows.len(),
{
    if rows.len() > 0 {
        let rest = rows.drop_first();
        lemma_first_of(schema, rest);
        assert forall|k: int| 0 <= k < rest.len() implies #[trigger] rest[k] == rows[k + 1] by {}
        if qualifies(schema, rows[0].values) {
            assert(0 <= 0 < rows.len() && qualifies(schema, rows[0].values));
            if count_of(schema, rest) >= 1 {
                let (entity, record) = first_of(schema, rest)->0;
                let k = choose|k: int|
                    {
                        &&& 0 <= k < rest.len()
                        &&& qualifies(schema, #[trigger] rest[k].values)
                        &&& entity == rest[k].entity
                        &&& record == record_of(schema, rest[k].values)
                        &&& forall|j: int| 0 <= j < k ==> !qualifies(schema, #[trigger] rest[j].values)
                    };
                assert(qualifies(schema, rows[0].values) && qualifies(schema, rows[k + 1].values));
            }
            if exists|j: int, k: int|
                0 <= j < k < rows.len() && qualifies(schema, #[trigger] rows[j].values) && qualifies(
                    schema,
                    #[trigger] rows[k].values,
                ) {
                let (j, k) = choose|j: int, k: int|
                    0 <= j < k < rows.len() && qualifies(schema, #[trigger] rows[j].values)
                        && qualifies(schema, #[trigger] rows[k].values);
                assert(qualifies(schema, rest[k - 1].values));
            }
        } else {
            match first_of(schema, rest) {
                Some((entity, record)) => {
                    let k = choose|k: int|
                        {
                            &&& 0 <= k < rest.len()
                            &&& qualifies(schema, #[trigger] rest[k].values)
                            &&& entity == rest[k].entity
                            &&& record == record_of(schema, rest[k].values)
                            &&& forall|j: int|
                                0 <= j < k ==> !qualifies(schema, #[trigger] rest[j].values)
                        };
                    assert forall|j: int| 0 <= j < k + 1 implies !qualifies(
                        schema,
                        #[trigger] rows[j].values,
                    ) by {
                        if j > 0 {
                            assert(!qualifies(schema, rest[j - 1].values));
                        }
                    }
                    assert(qualifies(schema, rows[k + 1].values));
                },
                None => {
                    assert forall|k: int| 0 <= k < rows.len() implies !qualifies(
                        schema,
                        #[trigger] rows[k].values,
                    ) by {
                        if k > 0 {
                            assert(!qualifies(schema, rest[k - 1].values));
                        }
                    }
                },
            }
            if exists|j: int, k: int|
                0 <= j < k < rest.len() && qualifies(schema, #[trigger] rest[j].values) && qualifies(
                    schema,
                    #[trigger] rest[k].values,
                ) {
                let (j, k) = choose|j: int, k: int|
                    0 <= j < k < rest.len() && qualifies(schema, #[trigger] rest[j].values)
                        && qualifies(schema, #[trigger] rest[k].values);
                assert(qualifies(schema, rows[j + 1].values) && qualifies(schema, rows[k + 1].values));
            }
            if exists|j: int, k: int|
                0 <= j < k < rows.len() && qualifies(schema, #[trigger] rows[j].values) && qualifies(
                    schema,
                    #[trigger] rows[k].values,
                ) {
                let (j, k) = choose|j: int, k: int|
                    0 <= j < k < rows.len() && qualifies(schema, #[trigger] rows[j].values)
                        && qualifies(schema, #[trigger] rows[k].values);
                assert(qualifies(schema, rest[j - 1].values) && qualifies(schema, rest[k - 1].values));
            }
        }
    }
}

/// Only the required fields decide which entity is found first. The entity
/// that is found is alive and has the component of every required field,
/// no entity that the world enumerates before it has them all, and its
/// record is the one that loading it gives: `None` in each optional field
/// whose component it lacks. Nothing is found only when no living entity
/// has the component of every required field.
pub proof fn lemma_first_from_world_goes_by_required_fields<E, V>(
    world: WorldState<E, V>,
    schema: Seq<ComponentFieldView>,
)
    ensures
        match first_from_world(world, schema) {
            Some((entity, record)) => exists|k: int|
                {
                    &&& 0 <= k < world.order.len()
                    &&& entity == #[trigger] world.order[k]
                    &&& qualifies(schema, world.values(schema, entity))
                    &&& record == from_world(world, schema, entity)
                    &&& forall|i: int|
                        0 <= i < schema.len() && schema[i].is_optional && !world.has(
                            schema[i].ty,
                            entity,
                        ) ==> #[trigger] record[i] == FieldValue::<V>::Optional(None)
                    &&& forall|j: int|
                        0 <= j < k ==> !qualifies(schema, world.values(schema, #[trigger] world.order[j]))
                },
            None => forall|entity: E|
                world.alive(entity) ==> !qualifies(schema, #[trigger] world.values(schema, entity)),
        },
{
    let rows = world.rows(schema);
    lemma_first_of(schema, rows);
    match first_of(schema, rows) {
        Some((entity, record)) => {
            let k = choose|k: int|
                {
                    &&& 0 <= k < rows.len()
                    &&& qualifies(schema, #[trigger] rows[k].values)
                    &&& entity == rows[k].entity
                    &&& record == record_of(schema, rows[k].values)
                    &&& forall|j: int| 0 <= j < k ==> !qualifies(schema, #[trigger] rows[j].values)
                };
            assert(entity == world.order[k]);
            assert forall|j: int| 0 <= j < k implies !qualifies(
                schema,
                world.values(schema, #[trigger] world.order[j]),
            ) by {
                assert(!qualifies(schema, rows[j].values));
            }
        },
        None => {
            assert forall|entity: E| world.alive(entity) implies !qualifies(
                schema,
                #[trigger] world.values(schema, entity),
            ) by {
                let k = choose|k: int| 0 <= k < world.order.len() && world.order[k] == entity;
                assert(!qualifies(schema, rows[k].values));
            }
        },
    }
}

/// There is exactly one group when one position of the world's order, and
/// no other, holds an entity with the component of every required field;
/// its record is then the one that is found first. There is no match when
/// nothing is found first, and the choice is ambiguous when two positions
/// hold such an entity.
pub proof fn lemma_exactly_one_counts_the_matches<E, V>(
    world: WorldState<E, V>,
    schema: Seq<ComponentFieldView>,
)
    ensures
        exactly_one(world, schema) == Err::<Seq<FieldValue<V>>, LookupError>(LookupError::NoMatch)
            <==> first_from_world(world, schema) is None,
        exactly_one(world, schema) == Err::<Seq<FieldValue<V>>, LookupError>(
            LookupError::Ambiguous,
        ) <==> exists|j: int, k: int|
            0 <= j < k < world.order.len() && qualifies(
                schema,
                world.values(schema, #[trigger] world.order[j]),
            ) && qualifies(schema, world.values(schema, #[trigger] world.order[k])),
        exactly_one(world, schema) matches Ok(record) ==> first_from_world(world, schema) matches Some(
            first,
        ) && first.1 == record,
{
    let rows = world.rows(schema);
    lemma_first_of(schema, rows);
    if exists|j: int, k: int|
        0 <= j < k < rows.len() && qualifies(schema, #[trigger] rows[j].values) && qualifies(
            schema,
            #[trigger] rows[k].values,
        ) {
        let (j, k) = choose|j: int, k: int|
            0 <= j < k < rows.len() && qualifies(schema, #[trigger] rows[j].values) && qualifies(
                schema,
                #[trigger] rows[k].values,
            );
        assert(qualifies(schema, world.values(schema, world.order[j])) && qualifies(
            schema,
            world.values(schema, world.order[k]),
        ));
    }
    if exists|j: int, k: int|
        0 <= j < k < world.order.len() && qualifies(
            schema,
            world.values(schema, #[trigger] world.order[j]),
        ) && qualifies(schema, world.values(schema, #[trigger] world.order[k])) {
        let (j, k) = choose|j: int, k: int|
            0 <= j < k < world.order.len() && qualifies(
                schema,
                world.values(schema, #[trigger] world.order[j]),
            ) && qualifies(schema, world.values(schema, #[trigger] world.order[k]));
        assert(qualifies(schema, rows[j].values) && qualifies(schema, rows[k].values));
    }
}

/// A group that is carried from one world to another lives on in each of
/// them by itself. The entity created in the second world loads the record
/// that was loaded from the first. When either of the two entities is then
/// updated with another record, that entity loads the other record, and the
/// entity in the world that was not written still loads the first.
pub proof fn lemma_worlds_are_isolated<E, V>(
    origin: WorldState<E, V>,
    target: WorldState<E, V>,
    schema: Seq<ComponentFieldView>,
    source: E,
    copy: E,
    at: int,
    changed: Seq<FieldValue<V>>,
)
    requires
        separate_storages(schema),
        origin.alive(source),
        qualifies(schema, origin.values(schema, source)),
        target.fresh(copy),
        0 <= at <= target.order.len(),
        record_fits(schema, changed),
    ensures
        ({
            let record = from_world(origin, schema, source);
            let moved = create(target, schema, record, copy, at);
            let (target_changed, _) = update(moved, schema, changed, copy);
            let (origin_changed, _) = update(origin, schema, changed, source);
            &&& from_world(moved, schema, copy) == record
            &&& from_world(target_changed, schema, copy) == changed && from_world(
                origin,
                schema,
                source,
            ) == record
            &&& from_world(origin_changed, schema, source) == changed && from_world(
                moved,
                schema,
                copy,
            ) == record
        }),
{
    let record = from_world(origin, schema, source);
    assert(record_fits(schema, record));
    lemma_create_then_load(target, schema, record, copy, at);
    lemma_create_attaches_the_record(target, schema, record, copy, at);
    let moved = create(target, schema, record, copy, at);
    lemma_update_then_load(moved, schema, changed, copy);
    lemma_update_then_load(origin, schema, changed, source);
}

} // verus!
