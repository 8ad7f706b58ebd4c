//! A small software 3D pipeline over fixed-point numbers: matrices, vectors,
//! homogeneous transforms, triangles with backface culling, and a pinhole
//! camera that turns a scene into a list of screen-space line segments.
pub mod camera;
pub mod error;
pub mod fixed;
pub mod geometry;
pub mod matrix;
pub mod transform;
pub mod vec3;
