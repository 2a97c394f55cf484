//! Classification of one record field as a required or an optional component.

use vstd::prelude::*;
use vstd::std_specs::convert::FromSpecImpl;
use vstd::string::StringExecFns;
use crate::text::{append_string_literal, string_literal};
use crate::syntax::{Field, FieldView, GenericArgument, Path, PathArguments, PathArgumentsView,
    PathView, Type, TypeForm, TypeFormView, TypeView};

verus! {

/// Whether `path` is written exactly as the optional wrapper: one segment
/// named `Option`, no leading `::`, and one type between angle brackets that
/// no `::` precedes.
///
/// The test is on the written form alone. `std::option::Option<T>` does not
/// pass it, and a type of the user's own that is named `Option` does.
pub open spec fn is_option_path(path: PathView) -> bool {
    &&& !path.leading_colon
    &&& path.segments.len() == 1
    &&& path.segments[0].ident == "Option"@
    &&& path.segments[0].arguments matches PathArgumentsView::AngleBracketed { turbofish, args }
    &&& !turbofish
    &&& args.len() == 1
    &&& args[0] is Type
}

/// The tokens of the type that the optional wrapper `path` wraps.
pub open spec fn option_inner(path: PathView) -> Seq<char>
    recommends
        is_option_path(path),
{
    path.segments[0].arguments->args[0]->Type_0
}

/// Whether a declared type makes its field optional: it is a path without a
/// qualified self type, and that path is the optional wrapper.
pub open spec fn is_option_type(ty: TypeView) -> bool {
    &&& ty.form matches TypeFormView::Path { qualified_self, path }
    &&& !qualified_self
    &&& is_option_path(path)
}

/// The tokens of the type whose values a field's component storage holds: the
/// wrapped type for an optional field, the declared type for any other.
pub open spec fn payload_tokens(ty: TypeView) -> Seq<char> {
    if is_option_type(ty) {
        option_inner(ty.form->path)
    } else {
        ty.tokens
    }
}

/// Returns the inner type of the `Option` if the given path is written as the
/// optional wrapper, and `None` for every other path.
pub fn inner_option_type(path: &Path) -> (inner: Option<&String>)
    ensures
        inner is Some <==> is_option_path(path@),
        inner matches Some(tokens) ==> tokens@ == option_inner(path@),
        inner matches Some(tokens) ==> path.segments@[0].arguments matches PathArguments::AngleBracketed { args, .. }
            && args@[0] == GenericArgument::Type(*tokens),
{
    if path.leading_colon || path.segments.len() != 1 {
        return None;
    }
    let last = &path.segments[0];
    assert(path@.segments[0] == last@);
    let option_name = String::from_str("Option");
    if last.ident != option_name {
        return None;
    }
    match &last.arguments {
        PathArguments::AngleBracketed { turbofish, args } => {
            if *turbofish || args.len() != 1 {
                return None;
            }
            assert(last@.arguments->args[0] == args@[0]@);
            match &args[0] {
                GenericArgument::Type(tokens) => Some(tokens),
                _ => None,
            }
        },
        _ => None,
    }
}

/// One of the components in a group, potentially optional.
///
/// `ty` holds the tokens of the payload type, the type that is stored as a
/// component. When `is_optional` is set, the component may be missing from an
/// entity, and the record then holds `None` in this field.
#[derive(Debug)]
pub struct ComponentField<'a> {
    pub ident: &'a String,
    pub ty: &'a String,
    pub is_optional: bool,
}

/// A classified field as a mathematical value.
pub struct ComponentFieldView {
    pub ident: Seq<char>,
    pub ty: Seq<char>,
    pub is_optional: bool,
}

impl<'a> View for ComponentField<'a> {
    type V = ComponentFieldView;

    open spec fn view(&self) -> ComponentFieldView {
        ComponentFieldView { ident: self.ident@, ty: self.ty@, is_optional: self.is_optional }
    }
}

/// The views of a sequence of classified fields, in order.
pub open spec fn component_views(fields: Seq<ComponentField>) -> Seq<ComponentFieldView> {
    Seq::new(fields.len(), |i: int| fields[i]@)
}

/// What classification makes of a field: its name kept, its payload type, and
/// whether its declared type is written as the optional wrapper.
pub open spec fn classify(field: FieldView) -> ComponentFieldView {
    ComponentFieldView {
        ident: field.ident,
        ty: payload_tokens(field.ty),
        is_optional: is_option_type(field.ty),
    }
}

/// A record's fields, each classified, in declaration order.
pub open spec fn classify_all(fields: Seq<FieldView>) -> Seq<ComponentFieldView> {
    Seq::new(fields.len(), |i: int| classify(fields[i]))
}

/// The string that holds the payload type of a field declared with type `ty`.
pub open spec fn payload_of<'a>(ty: &'a Type) -> &'a String {
    if is_option_type(ty@) {
        &ty.form->path.segments@[0].arguments->args@[0]->Type_0
    } else {
        &ty.tokens
    }
}

impl<'a> FromSpecImpl<&'a Field> for ComponentField<'a> {
    open spec fn obeys_from_spec() -> bool {
        true
    }

    open spec fn from_spec(field: &'a Field) -> Self {
        ComponentField {
            ident: &field.ident,
            ty: payload_of(&field.ty),
            is_optional: is_option_type(field.ty@),
        }
    }
}

impl<'a> From<&'a Field> for ComponentField<'a> {
    /// Classifies a field. Every field is classified: one whose declared type
    /// is not written as the optional wrapper is required, with its declared
    /// type as payload.
    fn from(field: &'a Field) -> (classified: Self)
        ensures
            classified@ == classify(field@),
    {
        let (ty, is_optional) = match &field.ty.form {
            TypeForm::Path { qualified_self, path } => {
                if *qualified_self {
                    (&field.ty.tokens, false)
                } else {
                    match inner_option_type(path) {
                        Some(inner) => (inner, true),
                        None => (&field.ty.tokens, false),
                    }
                }
            },
            TypeForm::Other => (&field.ty.tokens, false),
        };
        ComponentField { ident: &field.ident, ty, is_optional }
    }
}

/// The expression that takes part in a join: the storage itself for a
/// required field, which keeps only the entities that have the component,
/// and `maybe()` of it for an optional field, which keeps every entity.
pub open spec fn joinable_text(field: ComponentFieldView) -> Seq<char> {
    if field.is_optional {
        field.ident + ".maybe()"@
    } else {
        "&"@ + field.ident
    }
}

/// The expression that clones what a join yielded for the field.
pub open spec fn cloned_text(field: ComponentFieldView) -> Seq<char> {
    if field.is_optional {
        field.ident + ".cloned()"@
    } else {
        "Clone::clone("@ + field.ident + ")"@
    }
}

/// What the generated code says when the component of a required field is
/// missing from an entity that it loads.
pub open spec fn missing_on_load(ty: Seq<char>) -> Seq<char> {
    "bug: expected a "@ + ty + " component to be present"@
}

/// What the generated code says when the component of a required field is
/// missing from an entity whose group it removes.
pub open spec fn missing_on_remove(ty: Seq<char>) -> Seq<char> {
    "expected a "@ + ty + " component to be present"@
}

/// The expression that reads the field of `entity` from its storage. For a
/// required field it ends in an `expect` whose message names the payload
/// type.
pub open spec fn read_value_text(field: ComponentFieldView) -> Seq<char> {
    if field.is_optional {
        field.ident + ".get(entity).cloned()"@
    } else {
        field.ident + ".get(entity).cloned().expect("@ + string_literal(missing_on_load(field.ty))
            + ")"@
    }
}

/// The statement that attaches the field's value to the entity under
/// construction; for an optional field only when the value is there.
pub open spec fn add_to_builder_text(field: ComponentFieldView) -> Seq<char> {
    if field.is_optional {
        "if let Some("@ + field.ident + ") = self."@ + field.ident + " { builder = builder.with("@
            + field.ident + "); }"@
    } else {
        "builder = builder.with(self."@ + field.ident + ");"@
    }
}

/// The statement that brings the storage in line with the field's value:
/// an insertion whose failure ends the update, or, for an optional field
/// that holds `None`, a removal.
pub open spec fn update_value_text(field: ComponentFieldView) -> Seq<char> {
    if field.is_optional {
        "match self."@ + field.ident + " { Some(value) => "@ + field.ident
            + ".insert(entity, value)?, None => "@ + field.ident + ".remove(entity), };"@
    } else {
        field.ident + ".insert(entity, self."@ + field.ident + ")?;"@
    }
}

impl<'a> ComponentField<'a> {
    /// Returns the code to make this into a type that can be used in a join.
    pub fn joinable(&self) -> (code: String)
        ensures
            code@ == joinable_text(self@),
    {
        if self.is_optional {
            let mut code = self.ident.clone();
            code.append(".maybe()");
            code
        } else {
            let mut code = String::from_str("&");
            code.append(self.ident.as_str());
            code
        }
    }

    /// Returns the code to clone a fetched value of this field.
    pub fn cloned(&self) -> (code: String)
        ensures
            code@ == cloned_text(self@),
    {
        if self.is_optional {
            let mut code = self.ident.clone();
            code.append(".cloned()");
            code
        } else {
            let mut code = String::from_str("Clone::clone(");
            code.append(self.ident.as_str());
            code.append(")");
            code
        }
    }

    /// Returns the message for a component of this field that is missing
    /// from an entity that is loaded.
    pub fn load_failure(&self) -> (message: String)
        ensures
            message@ == missing_on_load(self@.ty),
    {
        let mut message = String::from_str("bug: expected a ");
        message.append(self.ty.as_str());
        message.append(" component to be present");
        message
    }

    /// Returns the message for a component of this field that is missing
    /// from an entity whose group is removed.
    pub fn remove_failure(&self) -> (message: String)
        ensures
            message@ == missing_on_remove(self@.ty),
    {
        let mut message = String::from_str("expected a ");
        message.append(self.ty.as_str());
        message.append(" component to be present");
        message
    }

    /// Returns the code to read this field from the storage.
    ///
    /// If the field is not optional, the code also calls `expect`, which
    /// ensures that the component was actually there.
    pub fn read_value(&self) -> (code: String)
        ensures
            code@ == read_value_text(self@),
    {
        let mut code = self.ident.clone();
        if self.is_optional {
            code.append(".get(entity).cloned()");
        } else {
            code.append(".get(entity).cloned().expect(");
            append_string_literal(&mut code, self.load_failure().as_str());
            code.append(")");
        }
        code
    }

    /// Returns the code to add this field to the builder of a new entity.
    pub fn add_to_builder(&self) -> (code: String)
        ensures
            code@ == add_to_builder_text(self@),
    {
        if self.is_optional {
            let mut code = String::from_str("if let Some(");
            code.append(self.ident.as_str());
            code.append(") = self.");
            code.append(self.ident.as_str());
            code.append(" { builder = builder.with(");
            code.append(self.ident.as_str());
            code.append("); }");
            code
        } else {
            let mut code = String::from_str("builder = builder.with(self.");
            code.append(self.ident.as_str());
            code.append(");");
            code
        }
    }

    /// Returns the code to write this field to the storage of an entity.
    pub fn update_value(&self) -> (code: String)
        ensures
            code@ == update_value_text(self@),
    {
        if self.is_optional {
            let mut code = String::from_str("match self.");
            code.append(self.ident.as_str());
            code.append(" { Some(value) => ");
            code.append(self.ident.as_str());
            code.append(".insert(entity, value)?, None => ");
            code.append(self.ident.as_str());
            code.append(".remove(entity), };");
            code
        } else {
            let mut code = self.ident.clone();
            code.append(".insert(entity, self.");
            code.append(self.ident.as_str());
            code.append(")?;");
            code
        }
    }
}

} // verus!
