//! Compiling images into timelapse videos: how bright an image is and whether it is acceptable,
//! which images become frames and in what order, and how ffmpeg is called and watched.
//!
//! The library decides and computes. Reading directories, running processes and arithmetic on
//! floating-point numbers are left to its callers, who hand it plain values.

pub mod binary32;
pub mod brightness;
pub mod command;
pub mod concat;
pub mod context;
pub mod error;
pub mod imaging;
pub mod job;
pub mod overlay;
pub mod run;
pub mod selection;
pub mod text;
pub mod version;
