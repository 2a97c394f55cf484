//! The source of a `ComponentGroup` implementation, written from a record's
//! classified fields.
//!
//! Every method is a fixed frame around lists of per-field pieces, one piece
//! for each field and in the order of the record's fields. The frame and the
//! pieces are stated as sequences of characters, and the functions here return
//! exactly those sequences.

use vstd::prelude::*;
use vstd::string::StringExecFns;
use crate::component_field::{add_to_builder_text, classify_all, cloned_text, component_views,
    joinable_text, missing_on_remove, read_value_text, update_value_text, ComponentField,
    ComponentFieldView};
use crate::syntax::{field_views, Data, DataView, DeriveInput, DeriveInputView, Field, Fields,
    FieldsView, Generics, GenericsView};
use crate::text::{append_separated, append_string_literal, separated, string_literal, views};

verus! {

/// The kinds of code that a method holds once per field.
#[derive(Debug, Clone, Copy, PartialEq, Eq, Structural)]
pub enum Piece {
    /// The field's name, which also names its storage.
    Name,
    /// The field's name as a mutable binding.
    MutName,
    /// The type of the read access to the field's storage.
    ReadStorage,
    /// The type of the write access to the field's storage.
    WriteStorage,
    /// The member of the join that stands for the field.
    Joinable,
    /// The field of the record, set to a clone of what a join yielded.
    CloneInto,
    /// The field of the record, set to what the storage holds for the entity.
    ReadInto,
    /// The field of the record, set to what was removed from the storage.
    RemoveInto,
    /// The statement that attaches the field's value to a new entity.
    AddToBuilder,
    /// The statement that writes the field's value to the storage.
    UpdateValue,
}

/// The expression that removes the field of `entity` from its storage and
/// yields what was there. For a required field it ends in an `expect` whose
/// message names the payload type.
pub open spec fn remove_value_text(field: ComponentFieldView) -> Seq<char> {
    if field.is_optional {
        field.ident + ".remove(entity)"@
    } else {
        field.ident + ".remove(entity).expect("@ + string_literal(missing_on_remove(field.ty))
            + ")"@
    }
}

/// The code of one kind for one field.
pub open spec fn piece_text(field: ComponentFieldView, kind: Piece) -> Seq<char> {
    match kind {
        Piece::Name => field.ident,
        Piece::MutName => "mut "@ + field.ident,
        Piece::ReadStorage => "specs::ReadStorage< "@ + field.ty + " >"@,
        Piece::WriteStorage => "specs::WriteStorage< "@ + field.ty + " >"@,
        Piece::Joinable => joinable_text(field),
        Piece::CloneInto => field.ident + " : "@ + cloned_text(field),
        Piece::ReadInto => field.ident + " : "@ + read_value_text(field),
        Piece::RemoveInto => field.ident + " : "@ + remove_value_text(field),
        Piece::AddToBuilder => add_to_builder_text(field),
        Piece::UpdateValue => update_value_text(field),
    }
}

/// The code of one kind for every field, in the order of the fields.
pub open spec fn piece_texts(fields: Seq<ComponentFieldView>, kind: Piece) -> Seq<Seq<char>> {
    Seq::new(fields.len(), |i: int| piece_text(fields[i], kind))
}

/// The pieces of one kind as a list with commas.
pub open spec fn listed(fields: Seq<ComponentFieldView>, kind: Piece) -> Seq<char> {
    separated(piece_texts(fields, kind), ", "@)
}

/// The pieces of one kind as statements that follow one another.
pub open spec fn in_sequence(fields: Seq<ComponentFieldView>, kind: Piece) -> Seq<char> {
    separated(piece_texts(fields, kind), " "@)
}

fn remove_value(field: &ComponentField) -> (code: String)
    ensures
        code@ == remove_value_text(field@),
{
    let mut code = field.ident.clone();
    if field.is_optional {
        code.append(".remove(entity)");
    } else {
        code.append(".remove(entity).expect(");
        append_string_literal(&mut code, field.remove_failure().as_str());
        code.append(")");
    }
    code
}

fn into_field(field: &ComponentField, value: String) -> (code: String)
    ensures
        code@ == field.ident@ + " : "@ + value@,
{
    let mut code = field.ident.clone();
    code.append(" : ");
    code.append(value.as_str());
    code
}

/// Writes the code of one kind for one field.
pub fn piece(field: &ComponentField, kind: Piece) -> (code: String)
    ensures
        code@ == piece_text(field@, kind),
{
    match kind {
        Piece::Name => field.ident.clone(),
        Piece::MutName => {
            let mut code = String::from_str("mut ");
            code.append(field.ident.as_str());
            code
        },
        Piece::ReadStorage => {
            let mut code = String::from_str("specs::ReadStorage< ");
            code.append(field.ty.as_str());
            code.append(" >");
            code
        },
        Piece::WriteStorage => {
            let mut code = String::from_str("specs::WriteStorage< ");
            code.append(field.ty.as_str());
            code.append(" >");
            code
        },
        Piece::Joinable => field.joinable(),
        Piece::CloneInto => into_field(field, field.cloned()),
        Piece::ReadInto => into_field(field, field.read_value()),
        Piece::RemoveInto => into_field(field, remove_value(field)),
        Piece::AddToBuilder => field.add_to_builder(),
        Piece::UpdateValue => field.update_value(),
    }
}

/// Writes the code of one kind for every field, in the order of the fields.
pub fn pieces(fields: &Vec<ComponentField>, kind: Piece) -> (codes: Vec<String>)
    ensures
        views(codes@) == piece_texts(component_views(fields@), kind),
{
    let mut codes: Vec<String> = Vec::new();
    let mut i: usize = 0;
    while i < fields.len()
        invariant
            i <= fields.len(),
            codes.len() == i,
            forall|j: int| 0 <= j < i ==> codes[j]@ == piece_text(#[trigger] fields[j]@, kind),
        decreases fields.len() - i,
    {
        codes.push(piece(&fields[i], kind));
        i += 1;
    }
    assert(views(codes@) =~= piece_texts(component_views(fields@), kind));
    codes
}

/// The source of `first_from_world`: one read access per field and the
/// entities in one request, a join of the entities with every field, and the
/// record built from clones of the first row.
pub open spec fn first_from_world_text(fields: Seq<ComponentFieldView>) -> Seq<char> {
    "fn first_from_world(world: &specs::World) -> Option<(specs::Entity, Self)> { use specs::{Join, LendJoin, Entities}; let ( __entities, "@
        + listed(fields, Piece::Name) + " ) = world.system_data::<( Entities, "@ + listed(
        fields,
        Piece::ReadStorage,
    ) + " )>(); ( &__entities, "@ + listed(fields, Piece::Joinable)
        + " ).join().next().map(|( __entity, "@ + listed(fields, Piece::Name)
        + " )| (__entity, Self { "@ + listed(fields, Piece::CloneInto) + " })) }"@
}

/// The source of `from_world`: one read access per field in one request, and
/// the record built from what each storage holds for the entity.
pub open spec fn from_world_text(fields: Seq<ComponentFieldView>) -> Seq<char> {
    "fn from_world(world: &specs::World, entity: specs::Entity) -> Self { let ( "@ + listed(
        fields,
        Piece::Name,
    ) + " ) = world.system_data::<( "@ + listed(fields, Piece::ReadStorage) + " )>(); Self { "@
        + listed(fields, Piece::ReadInto) + " } }"@
}

/// The source of `create`: a new entity to which every field attaches its
/// value in turn.
pub open spec fn create_text(fields: Seq<ComponentFieldView>) -> Seq<char> {
    "fn create(self, world: &mut specs::World) -> specs::Entity { use specs::{Builder, WorldExt}; #[allow(unused_mut)] let mut builder = world.create_entity(); "@
        + in_sequence(fields, Piece::AddToBuilder) + " builder.build() }"@
}

/// The source of `update` and of its error type: one write access per field
/// in one request, then every field's write in turn, the first failure
/// ending the method.
pub open spec fn update_text(fields: Seq<ComponentFieldView>) -> Seq<char> {
    "type UpdateError = specs::error::Error; fn update(self, world: &mut specs::World, entity: specs::Entity) -> Result<(), Self::UpdateError> { let ( "@
        + listed(fields, Piece::MutName) + " ) = world.system_data::<( "@ + listed(
        fields,
        Piece::WriteStorage,
    ) + " )>(); "@ + in_sequence(fields, Piece::UpdateValue) + " Ok(()) }"@
}

/// The source of `remove`: one write access per field in one request, and
/// the record built from what each storage gave up for the entity.
pub open spec fn remove_text(fields: Seq<ComponentFieldView>) -> Seq<char> {
    "fn remove(world: &mut specs::World, entity: specs::Entity) -> Self { let ( "@ + listed(
        fields,
        Piece::MutName,
    ) + " ) = world.system_data::<( "@ + listed(fields, Piece::WriteStorage)
        + " )>(); Self { "@ + listed(fields, Piece::RemoveInto) + " } }"@
}

/// The source of the whole implementation for the record `ident`.
pub open spec fn impl_text(
    ident: Seq<char>,
    generics: GenericsView,
    fields: Seq<ComponentFieldView>,
) -> Seq<char> {
    "impl "@ + generics.impl_generics + " component_group::ComponentGroup for "@ + ident + " "@
        + generics.ty_generics + " "@ + generics.where_clause + " { "@ + first_from_world_text(
        fields,
    ) + " "@ + from_world_text(fields) + " "@ + create_text(fields) + " "@ + update_text(fields)
        + " "@ + remove_text(fields) + " }"@
}

/// Writes the method that finds the first entity with the whole group.
pub fn first_from_world_method(fields: &Vec<ComponentField>) -> (code: String)
    ensures
        code@ == first_from_world_text(component_views(fields@)),
{
    let names = pieces(fields, Piece::Name);
    let mut code = String::from_str(
        "fn first_from_world(world: &specs::World) -> Option<(specs::Entity, Self)> { use specs::{Join, LendJoin, Entities}; let ( __entities, ",
    );
    append_separated(&mut code, &names, ", ");
    code.append(" ) = world.system_data::<( Entities, ");
    append_separated(&mut code, &pieces(fields, Piece::ReadStorage), ", ");
    code.append(" )>(); ( &__entities, ");
    append_separated(&mut code, &pieces(fields, Piece::Joinable), ", ");
    code.append(" ).join().next().map(|( __entity, ");
    append_separated(&mut code, &names, ", ");
    code.append(" )| (__entity, Self { ");
    append_separated(&mut code, &pieces(fields, Piece::CloneInto), ", ");
    code.append(" })) }");
    code
}

/// Writes the method that loads the group of a known entity.
pub fn from_world_method(fields: &Vec<ComponentField>) -> (code: String)
    ensures
        code@ == from_world_text(component_views(fields@)),
{
    let mut code = String::from_str(
        "fn from_world(world: &specs::World, entity: specs::Entity) -> Self { let ( ",
    );
    append_separated(&mut code, &pieces(fields, Piece::Name), ", ");
    code.append(" ) = world.system_data::<( ");
    append_separated(&mut code, &pieces(fields, Piece::ReadStorage), ", ");
    code.append(" )>(); Self { ");
    append_separated(&mut code, &pieces(fields, Piece::ReadInto), ", ");
    code.append(" } }");
    code
}

/// Writes the method that creates an entity from the group.
pub fn create_method(fields: &Vec<ComponentField>) -> (code: String)
    ensures
        code@ == create_text(component_views(fields@)),
{
    let mut code = String::from_str(
        "fn create(self, world: &mut specs::World) -> specs::Entity { use specs::{Builder, WorldExt}; #[allow(unused_mut)] let mut builder = world.create_entity(); ",
    );
    append_separated(&mut code, &pieces(fields, Piece::AddToBuilder), " ");
    code.append(" builder.build() }");
    code
}

/// Writes the method that updates an entity from the group, and its error
/// type.
pub fn update_method(fields: &Vec<ComponentField>) -> (code: String)
    ensures
        code@ == update_text(component_views(fields@)),
{
    let mut code = String::from_str(
        "type UpdateError = specs::error::Error; fn update(self, world: &mut specs::World, entity: specs::Entity) -> Result<(), Self::UpdateError> { let ( ",
    );
    append_separated(&mut code, &pieces(fields, Piece::MutName), ", ");
    code.append(" ) = world.system_data::<( ");
    append_separated(&mut code, &pieces(fields, Piece::WriteStorage), ", ");
    code.append(" )>(); ");
    append_separated(&mut code, &pieces(fields, Piece::UpdateValue), " ");
    code.append(" Ok(()) }");
    code
}

/// Writes the method that removes the group from an entity.
pub fn remove_method(fields: &Vec<ComponentField>) -> (code: String)
    ensures
        code@ == remove_text(component_views(fields@)),
{
    let mut code = String::from_str(
        "fn remove(world: &mut specs::World, entity: specs::Entity) -> Self { let ( ",
    );
    append_separated(&mut code, &pieces(fields, Piece::MutName), ", ");
    code.append(" ) = world.system_data::<( ");
    append_separated(&mut code, &pieces(fields, Piece::WriteStorage), ", ");
    code.append(" )>(); Self { ");
    append_separated(&mut code, &pieces(fields, Piece::RemoveInto), ", ");
    code.append(" } }");
    code
}

/// Classifies every field, keeping the order of the fields.
pub fn classify_fields<'a>(fields: &'a Vec<Field>) -> (classified: Vec<ComponentField<'a>>)
    ensures
        component_views(classified@) == classify_all(field_views(fields@)),
{
    let mut classified: Vec<ComponentField<'a>> = Vec::new();
    let mut i: usize = 0;
    while i < fields.len()
        invariant
            i <= fields.len(),
            classified.len() == i,
            forall|j: int|
                0 <= j < i ==> (#[trigger] classified[j])@ == crate::component_field::classify(
                    fields[j]@,
                ),
        decreases fields.len() - i,
    {
        classified.push(ComponentField::from(&fields[i]));
        i += 1;
    }
    assert(component_views(classified@) =~= classify_all(field_views(fields@)));
    classified
}

/// Generates an impl of the `ComponentGroup` trait for the given struct.
pub fn impl_component_group(ident: &String, generics: &Generics, fields: &Vec<Field>) -> (code:
    String)
    ensures
        code@ == impl_text(ident@, generics@, classify_all(field_views(fields@))),
{
    let fields = classify_fields(fields);
    let mut code = String::from_str("impl ");
    code.append(generics.impl_generics.as_str());
    code.append(" component_group::ComponentGroup for ");
    code.append(ident.as_str());
    code.append(" ");
    code.append(generics.ty_generics.as_str());
    code.append(" ");
    code.append(generics.where_clause.as_str());
    code.append(" { ");
    code.append(first_from_world_method(&fields).as_str());
    code.append(" ");
    code.append(from_world_method(&fields).as_str());
    code.append(" ");
    code.append(create_method(&fields).as_str());
    code.append(" ");
    code.append(update_method(&fields).as_str());
    code.append(" ");
    code.append(remove_method(&fields).as_str());
    code.append(" }");
    code
}

/// Why no implementation can be derived for a record definition.
#[derive(Debug, Clone, Copy, PartialEq, Eq, Structural)]
pub enum DeriveError {
    /// The definition is a struct with named fields, but it has none.
    NoFields,
    /// The definition is an enum, a union, or a struct without named fields.
    NotNamedFields,
}

impl DeriveError {
    pub open spec fn message_text(self) -> Seq<char> {
        match self {
            DeriveError::NoFields => "struct must have at least one field to derive ComponentGroup"@,
            DeriveError::NotNamedFields => "Only structs with named fields are supported"@,
        }
    }

    /// The diagnostic that tells the user which condition the definition fails.
    pub fn message(&self) -> (text: String)
        ensures
            text@ == self.message_text(),
    {
        match self {
            DeriveError::NoFields => String::from_str(
                "struct must have at least one field to derive ComponentGroup",
            ),
            DeriveError::NotNamedFields => String::from_str(
                "Only structs with named fields are supported",
            ),
        }
    }
}

/// What deriving makes of a record definition: the source of the
/// implementation for a struct with at least one named field, and for any
/// other definition the condition that it fails.
pub open spec fn derived(input: DeriveInputView) -> Result<Seq<char>, DeriveError> {
    match input.data {
        DataView::Struct(FieldsView::Named(fields)) => if fields.len() == 0 {
            Err(DeriveError::NoFields)
        } else {
            Ok(impl_text(input.ident, input.generics, classify_all(fields)))
        },
        _ => Err(DeriveError::NotNamedFields),
    }
}

/// Derives the `ComponentGroup` implementation of a record definition.
pub fn derive_component_group(input: &DeriveInput) -> (output: Result<String, DeriveError>)
    ensures
        match output {
            Ok(code) => derived(input@) == Ok::<Seq<char>, DeriveError>(code@),
            Err(error) => derived(input@) == Err::<Seq<char>, DeriveError>(error),
        },
{
    match &input.data {
        Data::Struct(Fields::Named(fields)) => {
            if fields.len() == 0 {
                Err(DeriveError::NoFields)
            } else {
                Ok(impl_component_group(&input.ident, &input.generics, fields))
            }
        },
        _ => Err(DeriveError::NotNamedFields),
    }
}

} // verus!
