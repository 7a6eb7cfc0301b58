//! From a schema to the script that creates its tables.

pub mod generator;
pub mod order;
pub mod type_map;

pub use generator::{generate_migration, Migration, MigrationError};
