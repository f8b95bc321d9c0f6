use vstd::prelude::*;

verus! {

/// Width, in pixels, of the box that a thumbnail is fitted into.
pub const THUMBNAIL_SIZE: u32 = 480;

/// Quality setting that is folded into the cache key of a thumbnail.
pub const THUMBNAIL_QUALITY: u8 = 98;

/// Largest width or height, in pixels, that an image may have.
pub const MAX_IMAGE_DIMENSION: u32 = 65535;

/// Largest number of pixels that an image may have.
pub const MAX_PIXEL_COUNT: u64 = 100_000_000;

/// Number of thumbnails that the memory cache keeps.
pub const MEMORY_CACHE_MAX_SIZE: usize = 20;

} // verus!
