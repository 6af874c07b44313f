//! A drawing canvas for pen plotters.
//!
//! Shapes are built from points on an integer grid of micrometres, collected
//! into layers with their own pen and fill, fitted to the page and written out
//! as an SVG document. Every function in this crate is verified against the
//! contract it carries; what is taken on trust from the random generator is
//! gathered in [`sketch::rng`].

pub mod geo;
pub mod sketch;

pub use geo::geometry::{Geometry, Shapes};
pub use geo::path::Path;
pub use geo::point::{v, V};
pub use geo::polygon::Polygon;
pub use geo::bounds::Bounds;
pub use geo::rect::{bbox_union, Bbox, Rect};
pub use geo::xform::{Scaling, Xform};
pub use sketch::layer::{Layer, LayerView};
pub use sketch::model::Canvas;
pub use sketch::naming::next_free_name;
pub use sketch::page::Page;
pub use sketch::rng::{MyRng, RngError};
pub use sketch::{Plugin, Sketch};
