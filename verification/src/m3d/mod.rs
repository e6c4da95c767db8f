//! The polygon model format: single mesh blocks and multi-part models.

pub mod geometry;
pub mod laws;
pub mod mesh;
pub mod model;
pub mod sort;
pub mod weld;

pub use self::geometry::{Geometry, Vertex};
pub use self::mesh::{Bounds, Mesh, Physics};
pub use self::model::{Debrie, FullModel, Model, Slot, Wheel};
