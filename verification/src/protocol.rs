//! What the operations of a component group decide.
//!
//! The storages belong to the world, and only code that knows the types of
//! the components can reach them. An operation is therefore split in two.
//! What it decides is an executable function here, from plain values (what
//! the storages returned) to plain values (the record, or what to write to
//! the storages); the caller does the reading and the writing. What the
//! operation does to the world as a whole is stated in [`crate::world`], over
//! the same functions.

use vstd::prelude::*;
use vstd::pervasive::unreached;
use crate::component_field::{component_views, ComponentField, ComponentFieldView};

verus! {

/// The value of one field of a record.
#[derive(Debug, PartialEq, Eq)]
pub enum FieldValue<V> {
    /// The component of a required field.
    Required(V),
    /// The component of an optional field, if there is one.
    Optional(Option<V>),
}

impl<V> FieldValue<V> {
    /// The component that the value stands for, if any.
    pub open spec fn stored(self) -> Option<V> {
        match self {
            FieldValue::Required(value) => Some(value),
            FieldValue::Optional(value) => value,
        }
    }
}

/// Whether a record fits a schema: one value per field, optional exactly
/// where the field is.
pub open spec fn record_fits<V>(schema: Seq<ComponentFieldView>, record: Seq<FieldValue<V>>) -> bool {
    &&& record.len() == schema.len()
    &&& forall|i: int|
        0 <= i < schema.len() ==> (#[trigger] record[i] is Optional <==> schema[i].is_optional)
}

/// Whether what the storages hold for an entity, one entry per field, makes
/// up a whole group: the component of every required field is there.
pub open spec fn qualifies<V>(schema: Seq<ComponentFieldView>, values: Seq<Option<V>>) -> bool {
    &&& values.len() == schema.len()
    &&& forall|i: int| 0 <= i < schema.len() && !schema[i].is_optional ==> #[trigger] values[i] is Some
}

/// The value of a field whose storage holds `value`.
pub open spec fn field_value<V>(field: ComponentFieldView, value: Option<V>) -> FieldValue<V> {
    if field.is_optional {
        FieldValue::Optional(value)
    } else {
        FieldValue::Required(value->0)
    }
}

/// The record that is made of what the storages hold, one entry per field.
pub open spec fn record_of<V>(schema: Seq<ComponentFieldView>, values: Seq<Option<V>>) -> Seq<
    FieldValue<V>,
> {
    Seq::new(schema.len(), |i: int| field_value(schema[i], values[i]))
}

/// Finds the first required field whose component is missing from `values`,
/// which holds one entry per field.
pub fn missing_required<V>(fields: &Vec<ComponentField>, values: &Vec<Option<V>>) -> (missing:
    Option<usize>)
    requires
        values.len() == fields.len(),
    ensures
        missing is None <==> qualifies(component_views(fields@), values@),
        missing matches Some(at) ==> {
            &&& at < fields.len()
            &&& !fields[at as int].is_optional
            &&& values[at as int] is None
            &&& forall|i: int| 0 <= i < at && !fields[i].is_optional ==> values[i] is Some
        },
{
    let mut i: usize = 0;
    while i < fields.len()
        invariant
            i <= fields.len(),
            values.len() == fields.len(),
            forall|j: int| 0 <= j < i && !fields[j].is_optional ==> values[j] is Some,
        decreases fields.len() - i,
    {
        if !fields[i].is_optional && values[i].is_none() {
            assert(!component_views(fields@)[i as int].is_optional);
            return Some(i);
        }
        i += 1;
    }
    assert forall|j: int|
        0 <= j < fields.len() && !component_views(fields@)[j].is_optional implies #[trigger] values@[j] is Some by {
        assert(!fields[j].is_optional);
    }
    None
}

/// Makes the record of an entity from what its storages returned, one entry
/// per field: a required field takes its component, an optional field
/// whatever was there.
pub fn record_from<V>(fields: &Vec<ComponentField>, values: Vec<Option<V>>) -> (record: Vec<
    FieldValue<V>,
>)
    requires
        qualifies(component_views(fields@), values@),
    ensures
        record@ == record_of(component_views(fields@), values@),
{
    let ghost schema = component_views(fields@);
    let ghost all = values@;
    let mut record: Vec<FieldValue<V>> = Vec::new();
    for value in rest: values
        invariant
            rest.seq() == all,
            qualifies(schema, all),
            schema == component_views(fields@),
            record@ == record_of(schema, all).take(rest.index() as int),
    {
        let at = record.len();
        if fields[at].is_optional {
            record.push(FieldValue::Optional(value));
        } else {
            match value {
                Some(component) => record.push(FieldValue::Required(component)),
                None => {
                    assert(!schema[at as int].is_optional);
                    assert(all[at as int] is Some);
                    unreached()
                },
            }
        }
        assert(record@ =~= record_of(schema, all).take(rest.index() + 1));
    }
    assert(record@ =~= record_of(schema, all));
    record
}

/// What the storages hold for one entity: one entry per field, in the order
/// of the fields.
#[derive(Debug)]
pub struct Row<E, V> {
    pub entity: E,
    pub values: Vec<Option<V>>,
}

/// A row as a mathematical value.
pub struct RowView<E, V> {
    pub entity: E,
    pub values: Seq<Option<V>>,
}

impl<E, V> View for Row<E, V> {
    type V = RowView<E, V>;

    open spec fn view(&self) -> RowView<E, V> {
        RowView { entity: self.entity, values: self.values@ }
    }
}

/// The views of a sequence of rows, in order.
pub open spec fn row_views<E, V>(rows: Seq<Row<E, V>>) -> Seq<RowView<E, V>> {
    Seq::new(rows.len(), |i: int| rows[i]@)
}

/// The first row that makes up a whole group, as an entity and its record.
pub open spec fn first_of<E, V>(schema: Seq<ComponentFieldView>, rows: Seq<RowView<E, V>>) -> Option<
    (E, Seq<FieldValue<V>>),
>
    decreases rows.len(),
{
    if rows.len() == 0 {
        None
    } else if qualifies(schema, rows[0].values) {
        Some((rows[0].entity, record_of(schema, rows[0].values)))
    } else {
        first_of(schema, rows.drop_first())
    }
}

/// How many rows make up a whole group.
pub open spec fn count_of<E, V>(schema: Seq<ComponentFieldView>, rows: Seq<RowView<E, V>>) -> nat
    decreases rows.len(),
{
    if rows.len() == 0 {
        0
    } else if qualifies(schema, rows[0].values) {
        1 + count_of(schema, rows.drop_first())
    } else {
        count_of(schema, rows.drop_first())
    }
}

/// Why there is not exactly one group.
#[derive(Debug, Clone, Copy, PartialEq, Eq, Structural)]
pub enum LookupError {
    /// No entity has the component of every required field.
    NoMatch,
    /// Two entities or more have the component of every required field.
    Ambiguous,
}

/// Finds the first entity that has the whole group, among rows that are in
/// the order in which the world enumerates its entities.
///
/// Only the required fields decide: a row without the component of an
/// optional field is found like any other, and its record holds `None`
/// there. A row without the component of a required field is passed over,
/// and so is a row that does not hold one entry per field.
pub fn first_match<E, V>(fields: &Vec<ComponentField>, rows: Vec<Row<E, V>>) -> (found: Option<
    (E, Vec<FieldValue<V>>),
>)
    ensures
        match found {
            Some((entity, record)) => first_of(component_views(fields@), row_views(rows@)) == Some(
                (entity, record@),
            ),
            None => first_of(component_views(fields@), row_views(rows@)) is None,
        },
{
    let ghost schema = component_views(fields@);
    let ghost all = row_views(rows@);
    let ghost given = rows@;
    assert(all.skip(0) =~= all);
    for row in rest: rows
        invariant
            rest.seq() == given,
            all == row_views(given),
            schema == component_views(fields@),
            first_of(schema, all) == first_of(schema, all.skip(rest.index() as int)),
    {
        let ghost at = rest.index() as int;
        assert(all.skip(at)[0] == row@);
        assert(all.skip(at).drop_first() =~= all.skip(at + 1));
        if row.values.len() == fields.len() && missing_required(fields, &row.values).is_none() {
            let Row { entity, values } = row;
            return Some((entity, record_from(fields, values)));
        }
    }
    assert(all.skip(all.len() as int) =~= Seq::empty());
    None
}

/// Finds the one entity that has the whole group and returns its record,
/// or tells whether there is none or more than one.
pub fn exactly_one<E, V>(fields: &Vec<ComponentField>, rows: Vec<Row<E, V>>) -> (found: Result<
    Vec<FieldValue<V>>,
    LookupError,
>)
    ensures
        match found {
            Ok(record) => {
                &&& count_of(component_views(fields@), row_views(rows@)) == 1
                &&& first_of(component_views(fields@), row_views(rows@)) matches Some(first)
                &&& first.1 == record@
            },
            Err(LookupError::NoMatch) => count_of(component_views(fields@), row_views(rows@)) == 0,
            Err(LookupError::Ambiguous) => count_of(component_views(fields@), row_views(rows@)) >= 2,
        },
{
    let ghost schema = component_views(fields@);
    let ghost all = row_views(rows@);
    let ghost given = rows@;
    let mut only: Option<Vec<FieldValue<V>>> = None;
    assert(all.skip(0) =~= all);
    for row in rest: rows
        invariant
            rest.seq() == given,
            all == row_views(given),
            schema == component_views(fields@),
            match only {
                Some(record) => {
                    &&& count_of(schema, all) == 1 + count_of(schema, all.skip(rest.index() as int))
                    &&& first_of(schema, all) matches Some(first)
                    &&& first.1 == record@
                },
                None => {
                    &&& count_of(schema, all) == count_of(schema, all.skip(rest.index() as int))
                    &&& first_of(schema, all) == first_of(schema, all.skip(rest.index() as int))
                },
            },
    {
        let ghost at = rest.index() as int;
        assert(all.skip(at)[0] == row@);
        assert(all.skip(at).drop_first() =~= all.skip(at + 1));
        if row.values.len() == fields.len() && missing_required(fields, &row.values).is_none() {
            if only.is_some() {
                return Err(LookupError::Ambiguous);
            }
            only = Some(record_from(fields, row.values));
        }
    }
    assert(all.skip(all.len() as int) =~= Seq::empty());
    match only {
        Some(record) => Ok(record),
        None => Err(LookupError::NoMatch),
    }
}

/// One component to attach to a new entity: the value of the field at `field`.
#[derive(Debug, PartialEq, Eq)]
pub struct Attach<V> {
    pub field: usize,
    pub value: V,
}

/// One write to the storage of the field at `field`.
#[derive(Debug, PartialEq, Eq)]
pub enum Write<V> {
    /// Insert the value, in place of what was there; the storage may refuse.
    Insert { field: usize, value: V },
    /// Remove what is there, if anything.
    Remove { field: usize },
}

/// The components that a record attaches to a new entity, in the order of
/// the fields: every value that is there, and nothing for an optional field
/// that holds `None`.
pub open spec fn attachments<V>(record: Seq<FieldValue<V>>) -> Seq<Attach<V>>
    decreases record.len(),
{
    if record.len() == 0 {
        Seq::empty()
    } else {
        let before = attachments(record.drop_last());
        match record.last().stored() {
            Some(value) => before.push(Attach { field: (record.len() - 1) as usize, value }),
            None => before,
        }
    }
}

/// The write that brings the storage of the field at `field` in line with
/// the field's value.
pub open spec fn write_of<V>(field: usize, value: FieldValue<V>) -> Write<V> {
    match value.stored() {
        Some(value) => Write::Insert { field, value },
        None => Write::Remove { field },
    }
}

/// The writes by which a record updates an entity, one per field and in the
/// order of the fields.
pub open spec fn writes<V>(record: Seq<FieldValue<V>>) -> Seq<Write<V>> {
    Seq::new(record.len(), |i: int| write_of(i as usize, record[i]))
}

/// Lists what to attach to a new entity so that it carries the record.
pub fn create<V>(record: Vec<FieldValue<V>>) -> (attached: Vec<Attach<V>>)
    ensures
        attached@ == attachments(record@),
{
    let ghost all = record@;
    let count = record.len();
    let mut attached: Vec<Attach<V>> = Vec::new();
    let mut field: usize = 0;
    assert(all.take(0) =~= Seq::empty());
    for value in rest: record
        invariant
            rest.seq() == all,
            all.len() == count,
            field == rest.index(),
            attached@ == attachments(all.take(rest.index() as int)),
    {
        assert(all.take(field + 1).drop_last() =~= all.take(field as int));
        match value {
            FieldValue::Required(value) => attached.push(Attach { field, value }),
            FieldValue::Optional(Some(value)) => attached.push(Attach { field, value }),
            FieldValue::Optional(None) => {},
        }
        field += 1;
    }
    assert(all.take(all.len() as int) =~= all);
    attached
}

/// Lists the writes that bring the storages of an entity in line with the
/// record: an insertion for every value that is there, a removal for an
/// optional field that holds `None`.
pub fn update<V>(record: Vec<FieldValue<V>>) -> (planned: Vec<Write<V>>)
    ensures
        planned@ == writes(record@),
{
    let ghost all = record@;
    let count = record.len();
    let mut planned: Vec<Write<V>> = Vec::new();
    let mut field: usize = 0;
    for value in rest: record
        invariant
            rest.seq() == all,
            all.len() == count,
            field == rest.index(),
            planned@ == writes(all).take(rest.index() as int),
    {
        match value {
            FieldValue::Required(value) => planned.push(Write::Insert { field, value }),
            FieldValue::Optional(Some(value)) => planned.push(Write::Insert { field, value }),
            FieldValue::Optional(None) => planned.push(Write::Remove { field }),
        }
        assert(planned@ =~= writes(all).take(field + 1));
        field += 1;
    }
    assert(planned@ =~= writes(all));
    planned
}

} // verus!
