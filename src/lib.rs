//! Positional diffing of virtual trees into path-addressed patches, and a
//! reconciler that mounts a first tree and then drives patch application one
//! renderer step at a time.

pub mod tree;
pub mod patch;
pub mod diff;
pub mod render;
pub mod reconciler;
pub mod buffer;
pub mod component;
