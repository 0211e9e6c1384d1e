//! Post-processing for object detection on video frames: letterbox
//! preprocessing, prediction parsing, non-maximum suppression, tracker
//! bridging, coordinate remapping and per-stage timing statistics.
//!
//! All geometry is integer fixed-point, and every function is exact in it.
//! The functions on boxes do not care what the unit is, whole pixels or a
//! fraction of one; `inference` names the units of the stock pipeline.

pub mod bbox;
mod clock;
pub mod discovery;
pub mod frame_times;
pub mod img_dimensions;
pub mod inference;
pub mod preprocess;
pub mod remap;
pub mod tracker;
pub mod yolo_parser;
