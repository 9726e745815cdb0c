//! Turning animated WebP images into video, the parts that decide: reading the
//! frame inventory that `webpmux -info` prints, compositing the frames on a
//! canvas under WebP's blend and dispose rules, and building the concat list
//! and the ffmpeg arguments of a conversion job.

pub mod text;
pub mod parse;
pub mod compose;
pub mod encode;
pub mod settings;
pub mod naming;
