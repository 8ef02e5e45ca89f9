//! Single-pass profiling of delimited text: classification of raw fields, tallies
//! and string statistics with capped cardinality, routing of lines into groups or
//! columns, and the sorted rows handed to a renderer.

pub mod cells;
pub mod columns;
pub mod groups;
pub mod keys;
pub mod number_stats;
pub mod observation;
pub mod order;
pub mod output_data;
pub mod output_row;
pub mod string_stats;
pub mod text;
