//! The text processor with substitutions: the surgical table, its
//! substitution dictionary and the supplementary actions.

pub mod substitution_map;
pub mod supplementary_action_map;
pub mod surgical_table;
pub mod table_model;
