//! Decoding of tiled vector-map geometry, the resident-tile protocol that
//! follows the viewport across zoom levels, and frame statistics.
//!
//! Every executable function carries a contract over a mathematical model of
//! its data; coordinates are integers in tile-local space.

pub mod cache;
pub mod collider;
pub mod encoding;
pub mod geometry;
pub mod paint;
pub mod stats;
pub mod tile;
pub mod winding;
