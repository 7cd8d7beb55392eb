//! Renders a time series of latency histograms as a waterfall image: one row
//! per time slice, one column per latency bucket, colour for density, with
//! gridlines and text for elapsed time and latency thresholds.
//!
//! The rendering is exact and proved: the colour ramp, the pixel buffer, the
//! placement of the annotations and the composition of the image. Three
//! things come from outside. The histograms live in a `heatmap::Heatmap`,
//! which is read into a `Snapshot`. The PNG file is made by `lodepng`. And the
//! two steps that need floating point, turning a hue into an RGB pixel and
//! text into a bitmap, are the caller's: `render` takes their results.

pub mod annotate;
pub mod color;
pub mod image;
pub mod labels;
pub mod png;
pub mod render;
pub mod snapshot;
pub mod store;
pub mod waterfall;

pub use crate::annotate::Mark;
pub use crate::color::{hsl_from_value, ColorRgb, Fraction, Hsl};
pub use crate::image::ImageBuffer;
pub use crate::labels::{label, time_text, Label, LABEL_COUNT};
pub use crate::render::{render, RenderError};
pub use crate::snapshot::{Bucket, Snapshot};
pub use crate::waterfall::{Config, Waterfall};
