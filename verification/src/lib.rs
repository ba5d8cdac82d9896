//! Nearest-neighbour fraud scoring over a binary store of labelled reference vectors.
//!
//! The library validates the store's binary layout, gives access to each row's raw
//! vector bytes and label, and counts the fraud labels among the rows nearest to a
//! query, given the ordering key of each row's distance to it.

pub mod error;
pub mod text;
pub mod binary;
pub mod nearest;
pub mod label;
pub mod store;
pub mod handlers;
pub mod features;
