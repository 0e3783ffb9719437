//! Core of a lazy columnar query engine: typed column batches, a logical plan
//! algebra, vectorized operators and a plan executor, all with verified contracts.

pub mod types;
pub mod column;
pub mod error;
pub mod batch;
pub mod logical_plan;
pub mod filter;
pub mod project;
pub mod sort;
pub mod join;
pub mod aggregate;
pub mod scan;
pub mod operator;
pub mod executor;
pub mod dataframe;
pub mod laws;
