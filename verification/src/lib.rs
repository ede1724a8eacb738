//! Verified core of a hand-gesture recognition pipeline.
//!
//! The library covers the numeric heart of the pipeline: letterbox
//! preprocessing, anchor-based palm decoding with non-max suppression,
//! the rotated crop transform and its inverse projection, handpose output
//! decoding, geometric finger-state classification, a sliding-window motion
//! tracker, and the bounded latest-frame-wins queue discipline.
//!
//! All geometry is carried in fixed-point arithmetic (see [`fixed`]), so
//! every decision the pipeline makes is expressed over plain integers and
//! proved against its contract. Camera capture, model download, neural
//! inference and rendering are external collaborators; only the image
//! resampling call of the letterbox stage enters through a trusted wrapper.

pub mod crop;
pub mod download;
pub mod fixed;
pub mod gesture;
pub mod handpose;
pub mod pipeline;
pub mod skeleton;
pub mod palm;
pub mod letterbox;
pub mod text;
pub mod types;

pub use fixed::UNIT;
