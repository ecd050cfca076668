//! A terminal ray tracer: each frame is a pure function from elapsed time
//! and cell coordinates to a grid of 8-bit RGB cell colors. A scene of
//! animated spheres floats over a checkerboard ground plane under a banded
//! sky gradient. All geometry is carried out in fixed-point arithmetic
//! (thousandths of a world unit), and every step of the pipeline is
//! mirrored by a mathematical specification it is proved equal to.

pub mod fixed;
pub mod render;
pub mod scene;
pub mod trig;
