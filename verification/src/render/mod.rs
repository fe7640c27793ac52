pub mod frame;
pub mod raster;
