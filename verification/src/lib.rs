//! Gesture capture core of a mouse-actions daemon: input state tracking,
//! bounded point history, trace geometry and event classification.

pub mod binding;
pub mod config;
pub mod event;
pub mod geometry;
pub mod grab;
pub mod point;
