//! Software rasterisation and simulation helpers for a small 3-D viewer:
//! an RGBA pixel canvas with shape drawing, nearest-hit selection for ray
//! casting, and the decision rules of spring constraints.

pub mod draw_helpers;
pub mod physics;
pub mod rendering;
