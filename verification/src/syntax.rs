//! The shape of a declared type, as far as field classification reads it.
//!
//! Only one level is modelled: whether the type is a path, how that path is
//! written, and what stands between the angle brackets of each segment. Every
//! type, outer or inner, also carries its own tokens, which is all that the
//! generated code needs of it.

use vstd::prelude::*;

verus! {

/// One argument between the angle brackets of a path segment.
#[derive(Debug)]
pub enum GenericArgument {
    /// A type argument, held as its tokens.
    Type(String),
    /// A lifetime argument, such as `'a`.
    Lifetime,
    /// A const expression.
    Const,
    /// Anything else: a binding or a bound on an associated item.
    Other,
}

/// The arguments that follow the identifier of a path segment.
#[derive(Debug)]
pub enum PathArguments {
    /// No arguments at all, as in `Position`.
    Bare,
    /// `<A, B>`; `turbofish` tells whether `::` stands before the `<`.
    AngleBracketed { turbofish: bool, args: Vec<GenericArgument> },
    /// `(A, B) -> C`, as in `Fn(A, B) -> C`.
    Parenthesized,
}

/// One segment of a path: an identifier and its arguments.
#[derive(Debug)]
pub struct PathSegment {
    pub ident: String,
    pub arguments: PathArguments,
}

/// A path such as `Option<T>` or `::std::option::Option<T>`.
#[derive(Debug)]
pub struct Path {
    /// Whether the path starts with `::`.
    pub leading_colon: bool,
    pub segments: Vec<PathSegment>,
}

/// The syntactic form of a declared type.
#[derive(Debug)]
pub enum TypeForm {
    /// A type path; `qualified_self` tells whether it is written `<T as Trait>::Name`.
    Path { qualified_self: bool, path: Path },
    /// Any other form: a reference, a tuple, an array, a pointer, a trait object.
    Other,
}

/// A type as the user wrote it.
#[derive(Debug)]
pub struct Type {
    /// The tokens of the whole type.
    pub tokens: String,
    pub form: TypeForm,
}

/// One named field of a record.
#[derive(Debug)]
pub struct Field {
    pub ident: String,
    pub ty: Type,
}

/// The generics of a record, split into the three places where an impl
/// writes them, each held as its tokens (empty where there is nothing).
#[derive(Debug)]
pub struct Generics {
    /// What follows `impl`, such as `<V: Clone>`.
    pub impl_generics: String,
    /// What follows the record's name, such as `<V>`.
    pub ty_generics: String,
    /// The `where` clause, with the word `where`.
    pub where_clause: String,
}

/// The fields of a struct.
#[derive(Debug)]
pub enum Fields {
    /// Named fields between braces, in declaration order.
    Named(Vec<Field>),
    /// Unnamed fields between parentheses.
    Unnamed,
    /// No fields and no braces.
    Unit,
}

/// What kind of item a record definition is.
#[derive(Debug)]
pub enum Data {
    Struct(Fields),
    Enum,
    Union,
}

/// A record definition: its name, its generics and its shape.
#[derive(Debug)]
pub struct DeriveInput {
    pub ident: String,
    pub generics: Generics,
    pub data: Data,
}

/// A generic argument as a mathematical value.
pub enum GenericArgumentView {
    Type(Seq<char>),
    Lifetime,
    Const,
    Other,
}

/// The arguments of a path segment as a mathematical value.
pub enum PathArgumentsView {
    Bare,
    AngleBracketed { turbofish: bool, args: Seq<GenericArgumentView> },
    Parenthesized,
}

/// A path segment as a mathematical value.
pub struct PathSegmentView {
    pub ident: Seq<char>,
    pub arguments: PathArgumentsView,
}

/// A path as a mathematical value.
pub struct PathView {
    pub leading_colon: bool,
    pub segments: Seq<PathSegmentView>,
}

/// The form of a type as a mathematical value.
pub enum TypeFormView {
    Path { qualified_self: bool, path: PathView },
    Other,
}

/// A type as a mathematical value.
pub struct TypeView {
    pub tokens: Seq<char>,
    pub form: TypeFormView,
}

/// A field as a mathematical value.
pub struct FieldView {
    pub ident: Seq<char>,
    pub ty: TypeView,
}

/// Generics as a mathematical value.
pub struct GenericsView {
    pub impl_generics: Seq<char>,
    pub ty_generics: Seq<char>,
    pub where_clause: Seq<char>,
}

/// The fields of a struct as a mathematical value.
pub enum FieldsView {
    Named(Seq<FieldView>),
    Unnamed,
    Unit,
}

/// The kind of a record definition as a mathematical value.
pub enum DataView {
    Struct(FieldsView),
    Enum,
    Union,
}

/// A record definition as a mathematical value.
pub struct DeriveInputView {
    pub ident: Seq<char>,
    pub generics: GenericsView,
    pub data: DataView,
}

/// The views of a sequence of fields, in order.
pub open spec fn field_views(fields: Seq<Field>) -> Seq<FieldView> {
    Seq::new(fields.len(), |i: int| fields[i]@)
}

impl View for GenericArgument {
    type V = GenericArgumentView;

    open spec fn view(&self) -> GenericArgumentView {
        match *self {
            GenericArgument::Type(tokens) => GenericArgumentView::Type(tokens@),
            GenericArgument::Lifetime => GenericArgumentView::Lifetime,
            GenericArgument::Const => GenericArgumentView::Const,
            GenericArgument::Other => GenericArgumentView::Other,
        }
    }
}

impl View for PathArguments {
    type V = PathArgumentsView;

    open spec fn view(&self) -> PathArgumentsView {
        match *self {
            PathArguments::Bare => PathArgumentsView::Bare,
            PathArguments::AngleBracketed { turbofish, args } => PathArgumentsView::AngleBracketed {
                turbofish,
                args: args@.map_values(|a: GenericArgument| a@),
            },
            PathArguments::Parenthesized => PathArgumentsView::Parenthesized,
        }
    }
}

impl View for PathSegment {
    type V = PathSegmentView;

    open spec fn view(&self) -> PathSegmentView {
        PathSegmentView { ident: self.ident@, arguments: self.arguments@ }
    }
}

impl View for Path {
    type V = PathView;

    open spec fn view(&self) -> PathView {
        PathView {
            leading_colon: self.leading_colon,
            segments: self.segments@.map_values(|s: PathSegment| s@),
        }
    }
}

impl View for TypeForm {
    type V = TypeFormView;

    open spec fn view(&self) -> TypeFormView {
        match *self {
            TypeForm::Path { qualified_self, path } => TypeFormView::Path {
                qualified_self,
                path: path@,
            },
            TypeForm::Other => TypeFormView::Other,
        }
    }
}

impl View for Type {
    type V = TypeView;

    open spec fn view(&self) -> TypeView {
        TypeView { tokens: self.tokens@, form: self.form@ }
    }
}

impl View for Field {
    type V = FieldView;

    open spec fn view(&self) -> FieldView {
        FieldView { ident: self.ident@, ty: self.ty@ }
    }
}

impl View for Generics {
    type V = GenericsView;

    open spec fn view(&self) -> GenericsView {
        GenericsView {
            impl_generics: self.impl_generics@,
            ty_generics: self.ty_generics@,
            where_clause: self.where_clause@,
        }
    }
}

impl View for Fields {
    type V = FieldsView;

    open spec fn view(&self) -> FieldsView {
        match *self {
            Fields::Named(fields) => FieldsView::Named(field_views(fields@)),
            Fields::Unnamed => FieldsView::Unnamed,
            Fields::Unit => FieldsView::Unit,
        }
    }
}

impl View for Data {
    type V = DataView;

    open spec fn view(&self) -> DataView {
        match *self {
            Data::Struct(fields) => DataView::Struct(fields@),
            Data::Enum => DataView::Enum,
            Data::Union => DataView::Union,
        }
    }
}

impl View for DeriveInput {
    type V = DeriveInputView;

    open spec fn view(&self) -> DeriveInputView {
        DeriveInputView { ident: self.ident@, generics: self.generics@, data: self.data@ }
    }
}

} // verus!
