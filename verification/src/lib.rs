//! A metadata store as a state machine.
//!
//! The store holds a generic key-value namespace and a catalog of databases
//! and tables. Every entry of the namespace carries a sequence number from one
//! counter; a write states a condition on that number and an entry may expire.
//! The catalog carries a meta-version that counts its changes, so that a
//! reader can tell whether anything has changed since it last looked.
//!
//! All changes go through [`state_machine::StateMachine::apply`], one log entry
//! at a time. The time is an input: whoever drives the state machine reads the
//! clock and hands the time in, so that a log replays to the same state
//! anywhere.
//!
//! The modules, from the ground up:
//!
//! - [`key_order`]: the order of keys and the prefix test;
//! - [`key_map`]: a map from string keys, kept in key order;
//! - [`match_seq`], [`kv_value`]: the condition of a write, the stored value
//!   and its expiry;
//! - [`kv`]: the key-value namespace, with [`kv_laws`];
//! - [`schema`], [`plan`], [`catalog`]: the catalog, with [`catalog_laws`];
//! - [`state_machine`]: the two behind one log, with [`machine_laws`];
//! - [`error`]: the errors.
//!
//! Each type that holds data has a view, a plain mathematical value, and the
//! contracts of the functions speak of views. What a change does is written
//! down once, as a function from view to view (`KvState::upsert`,
//! `CatalogState::create_database`, `MachineState::apply`, ...); the executable
//! function is proved to do just that, and the laws are proved of those
//! functions.

pub mod catalog;
pub mod catalog_laws;
pub mod error;
pub mod key_map;
pub mod key_order;
pub mod kv;
pub mod kv_laws;
pub mod kv_value;
pub mod machine_laws;
pub mod match_seq;
pub mod plan;
pub mod schema;
pub mod state_machine;
