pub mod disk;
pub mod memory;
pub mod model;

pub use disk::ThumbnailCache;
pub use memory::ThumbnailMemoryCache;
