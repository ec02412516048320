//! A photo catalog engine: which files count as photos, what is recorded of
//! each, and the filtered, sorted view of a catalog that a query selects.
pub mod catalog;
pub mod photo;
pub mod query;
pub mod session;
pub mod text;
