//! A single-threaded reactive state runtime: an entity store with explicit
//! reference counting and leases, a graph of settable atoms and derived
//! selectors, subscriber tables, and a deferred effect queue that is flushed
//! when the outermost update ends.
//!
//! Beside it stand the plain data types of the surrounding application: file
//! system entries, project settings and configuration metadata.

pub mod configuration;
pub mod context;
pub mod effect;
pub mod entity;
pub mod fs;
pub mod graph;
pub mod manifest;
pub mod settings;
pub mod storage;
pub mod subscriber;
