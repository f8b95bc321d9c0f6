pub mod generate;
pub mod image;
pub mod key;
pub mod psd;

pub use generate::ThumbnailResult;
pub use image::generate_image_thumbnail;
pub use psd::generate_psd_thumbnail;
