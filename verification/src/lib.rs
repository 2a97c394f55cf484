//! Component groups: records whose fields are components of one entity.
//!
//! A record is a flat list of named, typed fields. Each field is either
//! required (its component must be there) or optional (its declared type is
//! written `Option<T>`, and the component of type `T` may be absent). From
//! such a record this crate derives the source of an implementation of the
//! [`ComponentGroup`] protocol: finding the first entity that carries the
//! group, loading the group of a known entity, creating an entity from a
//! group, updating an entity's components and removing them.
//!
//! * [`syntax`] models a record definition as far as the derive inspects it.
//! * [`component_field`] classifies one field and writes its code fragments.
//! * [`synthesis`] writes the methods and the impl, or refuses the record.
//! * [`text`] holds the sequence operations that the source is stated in.
//! * [`group`] declares the protocol itself.
//! * [`protocol`] holds what the operations decide, on plain values.
//! * [`world`] states what the operations do, over a model of a world.
//! * [`laws`] proves what holds of the operations in every world.

pub mod component_field;
pub mod group;
pub mod laws;
pub mod protocol;
pub mod synthesis;
pub mod syntax;
pub mod text;
pub mod world;

pub use crate::group::ComponentGroup;
