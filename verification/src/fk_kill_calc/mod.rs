//! Frame-kill calculator: operator tags, damage types and catalog values.
pub mod catalog;
pub mod dto;
pub mod tags;
pub mod overrides;
pub mod catalog_build;
