//! Palette-constrained colour quantization: every pixel of an image is
//! replaced by the perceptually nearest colour of a fixed palette.
//!
//! The way from a palette document to a converted image:
//!
//! - [`json`] holds a palette document as plain values, and [`color`] reads
//!   a colour from a value in any of its three forms.
//! - [`cli`] reads what a run is asked to do: the selection of styles, the
//!   palette, the number of images and outputs.
//! - [`config`] resolves a document and a selection of styles into
//!   palettes, and names the files that converted images are written to.
//! - [`normalize`] removes the duplicate colours of each palette and lines
//!   the colours of all palettes up in one array of L*a*b* colours.
//! - [`delta`] converts between sRGB and L*a*b*, measures the distance of
//!   two colours and finds the palette colour nearest to a pixel;
//!   [`distance`] holds the order of distances and the search itself.
//! - [`convert_image_format`] replaces the colour of every pixel of a
//!   buffer and leaves its alpha channel alone.
//! - [`pipeline`] gives the order of a run: the palette first, then the
//!   images one at a time, and an end at the first failure.
//!
//! [`preview`] and [`tui`] serve the terminal: colour swatches, and the
//! helpers of the interactive picker. [`text`] holds what the other modules
//! need for comparing and building strings.

pub mod cli;
pub mod color;
pub mod config;
pub mod convert_image_format;
pub mod delta;
pub mod distance;
pub mod json;
pub mod normalize;
pub mod pipeline;
pub mod preview;
pub mod text;
pub mod tui;
