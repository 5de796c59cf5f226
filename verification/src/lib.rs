//! A time-indexed coordinate-frame transform buffer.
//!
//! The buffer ingests timestamped rigid-body transforms between named
//! reference frames and answers queries of the form "what is the transform
//! from frame A to frame B at time t", interpolating between samples,
//! composing chains of parent-to-child transforms, and rejecting queries
//! that would require extrapolation beyond the stored history.
//!
//! Rotations and translations are carried as opaque IEEE-754 bit patterns;
//! all temporal and graph logic is verified here, while the numeric
//! quaternion and vector arithmetic is left to an unverified driver that
//! folds the fully-determined plans this library produces.

pub mod error;
pub mod transform_storage;
pub mod cache;
pub mod static_cache;
pub mod frame_names;
pub mod transform_plan;
pub mod buffer_core;
