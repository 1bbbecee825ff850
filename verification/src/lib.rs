//! Deletes what a path of fields points at from an HCL document and leaves
//! the rest of the document as it was.
//!
//! The document is a body of `hcl_edit`. A path is a list of fields, one for
//! each level of the document: the field of a level takes out the attributes
//! and blocks that it removes, and the path goes on inside the blocks of its
//! name that are still there.
//!
//! - [`model`] says in mathematical terms what a deletion leaves behind.
//! - [`body`] ties `hcl_edit`'s tree to that model.
//! - [`field`] holds one step of a path and its tests on a structure.
//! - [`plan`] collects the positions to delete in a body and takes them out.
//! - [`delete`] holds the walker and the entry point, [`delete::delete`].
//! - [`laws`] proves what holds of every deletion.

pub mod body;
pub mod delete;
pub mod error;
pub mod field;
pub mod laws;
pub mod model;
pub mod plan;
