//! Conventions of the generated SQL.

pub mod naming;
