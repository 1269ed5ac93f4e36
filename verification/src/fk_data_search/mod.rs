//! Frame-kill search: resolving an operator and a skill to its sheet row.
pub mod dto;
pub mod search;
pub mod view;
