//! Ready-made schemas for trying the other modules.

pub mod test_helper;
