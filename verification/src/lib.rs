//! A scene-graph engine for a small real-time renderer.
//!
//! The library owns the hierarchy of drawable nodes, the propagation of
//! parent transforms to children, and the traversal that turns the
//! hierarchy into an ordered list of draw commands. All geometry runs on
//! saturating fixed-point arithmetic so that every matrix the engine
//! produces is an exact, machine-checkable function of the node fields.
//! Window handling, GPU submission and floating-point camera math live
//! outside the library.

pub mod fixed;
pub mod trig;
pub mod mat4;
pub mod scene_graph;
pub mod laws;
