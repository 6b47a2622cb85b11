//! A photomosaic engine: it rebuilds a target picture as a grid of small tile
//! pictures, each chosen because its average colour is the closest to the
//! colour sampled from the target at that place.

pub mod color;
pub mod raster;
pub mod frame;
pub mod chunk;
pub mod codec;
pub mod average;
pub mod database;
pub mod matcher;
pub mod chance;
pub mod mosaic;
