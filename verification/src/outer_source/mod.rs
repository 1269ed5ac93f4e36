//! Game data from outside sources: lookup tables and the rules that build
//! them from the raw tables.
pub mod names;
pub mod operator_names;
pub mod skill_names;
pub mod zones;
pub mod item_names;
pub mod ark_stages;
pub mod fk_data;
pub mod skill_data;
pub mod description;
pub mod operator_data;
pub mod operator_combat;
