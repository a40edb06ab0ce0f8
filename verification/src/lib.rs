//! A rotating cube drawn on a character grid.
//!
//! The solid is a cloud of tagged sample points held in fixed-point
//! coordinates. Every frame the cloud is turned about the three axes,
//! projected orthographically onto a grid of character cells, and resolved
//! per cell by a depth test, so that the nearest face shows.
pub mod angle;
pub mod error;
pub mod fixed;
pub mod point;
pub mod rotation;
pub mod cube;
pub mod screen;
pub mod input;
pub mod render;
pub mod frame;
