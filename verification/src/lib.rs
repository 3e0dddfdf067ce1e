//! Time tracking built from independent start and stop events: the data
//! model and its documents, the compilation of the data into a cache, the
//! actions that write the data, and the listings of the cache.

pub mod types;
pub mod eri;
pub mod documents;
pub mod time;
pub mod text;
pub mod numbers;
pub mod paths;
pub mod ids;
pub mod fingerprints;
pub mod compile;
pub mod rows;
pub mod actions;
pub mod resolve;
pub mod display;
pub mod table;
pub mod listing;
pub mod align;
