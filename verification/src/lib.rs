//! Verified core of a tabular data workbench: loading tables from CSV,
//! JSON and spreadsheet contents, row and column operations, joins, quality
//! checks and profiles, multi-source alignment and naming, paging and
//! previews, the datasets of a session with their undo histories, and the
//! texts shown about them.

pub mod text;
pub mod model;
pub mod number;
pub mod error;
pub mod rows;
pub mod cells;
pub mod options;
pub mod columns;
pub mod schema;
pub mod join;
pub mod datetime;
pub mod sorting;
pub mod mergesort;
pub mod timecols;
pub mod inference;
pub mod aggregate;
pub mod paging;
pub mod preview;
pub mod ops;
pub mod history;
pub mod inspector;
pub mod quality;
pub mod viz;
pub mod forms;
pub mod fusion;
pub mod loader;
pub mod json;
pub mod profile;
pub mod workspace;
pub mod session;
pub mod units;
pub mod rules;
pub mod align;
pub mod steps;
pub mod expression;
