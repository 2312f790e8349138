//! Generation of database mutation scripts from tabular data.
//!
//! Given rows of string cells and a mapping from column indices to
//! database fields (each with an optional free-text type tag), the
//! library classifies every tag into a semantic type, encodes each cell
//! as a correctly escaped literal of one of two script dialects
//! (relational SQL or document-store shell commands), and assembles one
//! statement per data row for the six statement kinds
//! (update / insert / delete, in either dialect).

pub mod classify;
pub mod encode;
pub mod laws;
pub mod project;
pub mod script;
pub mod text;
