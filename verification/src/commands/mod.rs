pub mod export;
pub mod folder;
pub mod project;
pub mod recent;
pub mod tiff;
