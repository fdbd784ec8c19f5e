//! Reconciles the logical schema that a reader asks for with the physical schema of a columnar
//! file: which leaf columns to decode, how to reshape the decoded columns into the logical
//! shape, and how to repair the null masks of nested columns afterwards.

pub mod arrow_calls;
pub mod column;
pub mod error;
pub mod null_mask;
pub mod physical;
pub mod plan;
pub mod planner;
pub mod planner_laws;
pub mod read;
pub mod reorder;
pub mod reorder_laws;
pub mod round_trip;
pub mod schema;
pub mod widening;
