//! Item values by server: the item lists and the stage categories.
pub mod server;
pub mod stage_info;
pub mod table;
pub mod texts;
pub mod search_plan;
pub mod stage_tables;
