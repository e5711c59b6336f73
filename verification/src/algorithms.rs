//! The rasterization and raster-manipulation algorithms of the engine.

pub mod floodfill;
pub mod line;
pub mod pixel_perfect;
pub mod sorter;
pub mod symmetry;
