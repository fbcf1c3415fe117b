//! A small offline ray tracer.
//!
//! All geometry and shading arithmetic is carried out in signed 16.16 fixed
//! point (see [`fixed`]), so that every step of the pipeline — camera rays,
//! ray/primitive intersection, lighting, texture sampling and bounded
//! recursive reflection — has an exact mathematical specification.
pub mod fixed;
pub mod vector;
pub mod color;
pub mod light;
pub mod material;
pub mod object;
pub mod render;
