//! Slope statistics for the ways of a road or path network.
//!
//! A way is an ordered list of nodes. Given the elevation of every node and
//! the length of every segment between consecutive nodes, the library sums,
//! per way, the horizontal distance, the distance spent climbing and
//! descending, and the total climb and descent. Ways are chosen by a filter
//! over their tags.
//!
//! A run goes in four steps. [`filter`] reads the filter and tests the tags of
//! a way against it. [`pipeline::referenced_nodes`] lists the nodes of the
//! selected ways, each once. The caller reads one elevation per listed node,
//! with [`raster`] deciding which cell is read and what a failed read means,
//! and [`elevation::ElevationIndex`] keeps the result. [`pipeline::run`] then
//! folds every selected way into its [`aggregate::WayStatistics`].
//!
//! All quantities are whole numbers of a fixed-point unit that the caller
//! picks once (millimetres, say): elevations are `i64`, segment lengths are
//! `u64`, and the sums are `u128`, which is wide enough that no sum over a
//! way can overflow.

pub mod aggregate;
pub mod elevation;
pub mod filter;
pub mod pipeline;
pub mod raster;
pub mod scan;
pub mod tags;
pub mod way;
