pub mod cache;
pub mod commands;
pub mod constants;
pub mod encoding;
pub mod error;
pub mod image_utils;
pub mod raster;
pub mod text;
pub mod thumbnail;
pub mod types;
