//! Analysis core of a sampling profiler's post-processing pipeline.
//!
//! The crate decodes a columnar profile (samples -> stacks -> frames ->
//! functions -> strings), aggregates self/total sample weights per function,
//! and answers hotspot, caller/callee-tree, summary and drilldown queries.
//! Percentages are carried as integer hundredths of a percent so that every
//! bound on them is exact.

pub mod aggregate;
pub mod calltree;
pub mod client;
pub mod detail;
pub mod drilldown;
pub mod hotspots;
pub mod model;
pub mod numfmt;
pub mod percent;
pub mod query;
pub mod regions;
pub mod server_logic;
pub mod session;
pub mod sort;
pub mod strutil;
pub mod template;
pub mod urlenc;
pub mod summary;

use vstd::prelude::*;

verus! {

} // verus!
