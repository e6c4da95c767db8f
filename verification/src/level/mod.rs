//! Terrain levels: the grid of heights and terrain kinds, and how it is
//! loaded.

pub mod config;
pub mod grid;
pub mod loader;
pub mod palette;

pub use self::config::{LevelConfig, TerrainConfig, NUM_TERRAINS};
pub use self::grid::{Altitude, Delta, Level, Point, TerrainType, Texel, HEIGHT_SCALE};
pub use self::loader::load;
pub use self::palette::read_palette;
