//! Static analysis of BigQuery SQL that reports columns defined inside a
//! common table expression (CTE) but never consumed by any later query stage.
//!
//! A parsed syntax tree is modelled as an arena of plain nodes; a family of
//! visitors populates a dependency graph of CTE columns, marks the columns
//! that downstream stages consume, and the remaining columns become
//! diagnostics sorted by source position.

pub mod context;
pub mod diagnostic;
pub mod graph;
pub mod models;
pub mod rule;
pub mod text;
pub mod tree;
pub mod utils;
pub mod visitors;
