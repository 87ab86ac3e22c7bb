//! A session manager for sled stores: a registry of open stores under generated
//! ids, tree access, ordered range and prefix queries with pagination, bulk
//! import and export in JSON, CSV, XML and YAML, and a display hint for values.
//!
//! The registry is a plain value that owns its stores. Every command takes it
//! by reference and runs to its end; a program that shares one registry among
//! threads keeps it behind a lock. Reading and writing files is left to the
//! caller: an export hands the text over, an import takes it.

pub mod commands;
pub mod error;
pub mod formats;
pub mod keys;
pub mod laws;
pub mod query;
pub mod sled_manager;
pub mod store;
pub mod text;
pub mod value_type;
