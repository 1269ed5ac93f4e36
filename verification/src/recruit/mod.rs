pub mod calc;
pub mod edit;
pub mod engine;
pub mod format;
pub mod matcher;
pub mod model;
