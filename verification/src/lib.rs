//! Comparison of CSV exports of two payroll systems: reading, matching by key,
//! comparing columns within tolerances, and writing summary and detail files.

pub mod types;
pub mod text;
pub mod values;
pub mod csv_output;
pub mod comparison;
pub mod csv_reader;
pub mod commands;
