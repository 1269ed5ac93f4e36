pub mod fk_data_search;
pub mod fk_kill_calc;
pub mod operator_cost_calc;
pub mod operator_names;
pub mod outer_source;
pub mod recruit;
pub mod risei_calculator_engine;
pub mod sorting;
pub mod star_sets;
pub mod text;
