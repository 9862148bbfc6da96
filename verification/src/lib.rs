//! Core of a deduplicating backup store: a content-addressed chunk store,
//! the fixed- and variable-size index file formats that map a backup's
//! logical byte stream onto stored chunks, and the mark-and-sweep garbage
//! collection that reclaims unreferenced chunks.

pub mod backup_path;
pub mod backup_time;
pub mod chunk_store;
pub mod datastore;
pub mod digest;
pub mod dynamic_index;
pub mod error;
pub mod fixed_index;
pub mod format;
pub mod index;
mod sys;
