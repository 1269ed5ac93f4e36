//! Operator material costs: the checks and texts around the cost tables.
pub mod checks;
pub mod value_set;
pub mod stats;
