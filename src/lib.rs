//! Verified core of a log-history engine: line scanning, record
//! normalisation, token accounting, edit replay and aggregation over
//! line-delimited JSON session logs.

pub mod scan;
pub mod text;
pub mod project;
pub mod json;
pub mod models;
pub mod normalize;
pub mod usage;
pub mod sorting;
pub mod timeline;
pub mod order;
pub mod edits;
pub mod recent;
pub mod keyed;
pub mod stats;
pub mod sessions;
pub mod search;
pub mod presets;
pub mod paging;
