//! Build-order reporting for the packages of a workspace.
//!
//! The crate takes a finished dependency graph (packages, and directed
//! "depends on" links that are either normal or development-only), resolves
//! the part of it that is reachable from a set of roots, and puts the packages
//! of that part into an order in which every package comes after everything it
//! needs to be built.
//!
//! - [`graph`]: packages, links and the graph that holds them.
//! - [`metadata`]: taking a graph over from guppy.
//! - [`resolve`]: the subgraph that can be reached from a set of roots.
//! - [`order`]: the build order of a subgraph, forwards or backwards.
//! - [`scope`]: workspace membership, and the listings of an order.
//! - [`command`]: a query as a whole, from the caller's choices to the report.
//! - [`render`]: a report as lines of text.
//! - [`error`]: the ways in which a query can fail.
pub mod command;
pub mod error;
mod flags;
pub mod graph;
pub mod metadata;
pub mod order;
pub mod render;
pub mod resolve;
pub mod scope;
