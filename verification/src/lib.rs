//! A verified tile-based Mandelbrot rendering core.
//!
//! Coordinates in the complex plane are held as fixed-point numbers so that
//! every transform between screen space, tile space and complex space is an
//! exact integer computation with a provable contract.

mod color;
mod complex;
mod fixed;
mod renderer;
mod space;
mod tile;
mod viewport;
mod cache;

pub use color::{RGB, build_palette, mandel_color, tween_one};
pub use cache::{CacheEntry, TileStorage};
pub use tile::{GeneratorConfig, Tile, TileKey};
pub use complex::{Complex, mandel_iter};
pub use fixed::Fix;
pub use renderer::{RenderConfig, RenderError, ViewportConfig, viewport_to_tilewidth};
pub use viewport::TileBuffer;
pub use space::{ComplexSpace, Point, SampleSpace, TileSpace};
