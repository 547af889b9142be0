//! Persistence rules of a task tracker: the document that is stored, the names
//! of the files that hold it and its backups, the rotation that keeps the
//! backup set bounded, and the decisions that make up loading, saving and
//! exporting. The host performs the file operations and reports their results.

pub mod document;
pub mod history;
pub mod naming;
pub mod rotation;
pub mod store;
