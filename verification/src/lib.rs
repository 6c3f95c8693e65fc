//! Note/onset detection pipeline for monophonic audio.
//!
//! The pipeline turns a decoded sample stream into an ordered list of timed
//! note events (pitch, velocity, timestamp).  All analysis runs over
//! fixed-point integer samples so that every stage carries an exact contract:
//! amplitudes are held in units of one millionth of full scale, velocities in
//! thousandths, pitches in thousandths of a semitone-equivalent unit, and
//! timestamps as sample indices.  Callers that work in floating point convert
//! at the boundary.

pub mod config;
pub mod decode;
pub mod events;
pub mod preprocess;
pub mod scan;
pub mod gate;
pub mod merge;
pub mod pipeline;
