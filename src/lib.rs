//! ZIP code geocoding over a prebuilt set of ZIP-area polygons.
//!
//! Coordinates are integers in microdegrees: `x` is the longitude and `y` the
//! latitude, each multiplied by one million. A database answers two queries:
//! the representative point of a ZIP code, and the ZIP code whose area holds a
//! point (falling back to the nearest representative point).
pub mod codec;
pub mod db;
pub mod error;
pub mod geometry;
pub mod index;
pub mod zip;

pub use db::ZipCodeDb;
pub use error::ZipCodeError;
pub use geometry::{process_shape, Coord, Polygon, Rect, ZipShape};
