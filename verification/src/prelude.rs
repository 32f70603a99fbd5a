//! The names that a program drawing with this library needs.

pub use crate::char_buffer::{CharBuffer, OutOfBounds};
pub use crate::line::Line;
pub use crate::rendering::{Camera, Mesh, MissingVertex, Renderer};
pub use crate::trig::SineTable;
pub use crate::vector::{Vector2, Vector3};
