//! Exact geometry for a ray tracer: integer vectors, the viewing frame of a
//! camera, the plain scene values, and escape times on the complex plane.

use vstd::prelude::*;

pub mod vector;
pub mod scene;
pub mod camera;
pub mod complex;
pub mod canvas;
pub mod direction;
