//! An interpreter for a small spreadsheet-construction language: an ordered
//! list of operations reads regions of a sparse table, transforms them, and
//! writes the results at places addressed relative to earlier outputs.

pub mod tables;
pub mod coordinates;
pub mod selections;
pub mod functions;
pub mod operations;
pub mod config;
