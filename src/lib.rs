//! Reconciles a music collection's canonical index with a local export and with
//! the objects present in remote storage.

pub mod args;
pub mod export;
pub mod index;
pub mod library;
pub mod plan;
pub mod reconcile;
pub mod song;
pub mod sync;
pub mod text;
pub mod validate;
