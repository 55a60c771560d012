//! Raster map tiles on demand.
//!
//! A tile is a square cut from a large geo-referenced raster: the request
//! names it by zoom level, column and row; its box is resolved to a window of
//! the raster's pixels; the bands of that window are fetched, composited
//! over a background through their validity masks, and encoded as an image.
//!
//! This library holds the decisions of that pipeline. Reading the raster,
//! the arithmetic on geographic coordinates and serving requests are left to
//! the program around it.
//!
//! - [`request`] and [`route`] decode a request: method, path and options.
//! - [`window`] resolves a box of the raster's pixel grid to the window that
//!   is read and to its place in the output.
//! - [`composite`] says which samples to fetch, takes them, and blends them
//!   into the output; [`pixels`] holds the operations on the output buffer;
//!   [`tile`] states the finished tile as a function of all that was
//!   fetched.
//! - [`encode`] encodes a finished tile as JPEG.
//! - [`status`] decides the head of the response.
//! - [`background`], [`literal`] and [`text`] read the values of options.
//! - [`error`] holds the errors.

pub mod background;
pub mod composite;
pub mod encode;
pub mod error;
pub mod literal;
pub mod pixels;
pub mod request;
pub mod route;
pub mod status;
pub mod text;
pub mod tile;
pub mod window;
