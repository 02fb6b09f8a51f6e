//! ISO 4217 currency registry: a document model of the published currency
//! list, a normalizer that turns its rows into canonical entries and country
//! associations, and the lookups built over them.
pub mod document;
pub mod entries;
pub mod identifiers;
pub mod registry;
pub mod text;
