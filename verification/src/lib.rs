//! Flow documents in a file tree, and a two-tier configuration store.
//!
//! A flow has a hierarchical name, `a/b/c`, and lives in the file `a/b/c.json`
//! below the flows directory; `flow_name` maps between the two. `flow_store`
//! renames, removes and saves flows, keeping the engine's table and the file
//! tree in step; `walk` and `importer` find the flow files at start-up and
//! take documents in.
//!
//! Settings and component configuration are trees of values, `config_tree`,
//! changed by a deep merge in which a null member deletes its key.
//! `settings` holds the core settings record, `global_config` the table of
//! component configuration and the seeding of declared defaults into it.
//! `event_bridge` says which notifications of the engine are forwarded.
//!
//! The library does no input or output. Where an operation needs the file
//! system, or has to wait for the engine, it says what is to be done, and the
//! caller does it and reports back. What the library takes from the engine
//! crate on trust is gathered in `engine`.

pub mod config_tree;
pub mod document;
pub mod engine;
pub mod error;
pub mod event_bridge;
pub mod flow_name;
pub mod flow_store;
pub mod global_config;
pub mod importer;
pub mod settings;
pub mod text;
pub mod walk;
