//! A domain-colouring plotter for complex functions: a pixel canvas, the
//! mapping between pixel offsets and canvas cells, the render pass that fills
//! every cell, the axis overlay, and the keyboard commands of the interactive
//! viewer. Colours themselves are computed by the caller and handed in.

pub mod command;
pub mod grapher;
pub mod image_buffer;

pub use command::Command;
pub use grapher::{Grapher, GrapherError, Rgb8, AXIS_TICK_SPACING, MAX_SIDE};
