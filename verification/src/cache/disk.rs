use vstd::prelude::*;
use vstd::string::StringExecFns;

verus! {

/// The disk cache of thumbnails: a directory that holds one file for each
/// cache key. The directory listing is the index, and no other is kept.
#[derive(Debug, Clone)]
pub struct ThumbnailCache {
    pub cache_dir: String,
}

/// The name that the application's directories go by.
pub open spec fn app_dir_name() -> Seq<char> {
    "daidori-manager"@
}

/// The name of the directory of thumbnails below the application's cache
/// directory.
pub open spec fn thumbnails_dir_name() -> Seq<char> {
    "thumbnails"@
}

/// The name of the file that a thumbnail is cached in: the key, a dot, and
/// `png`.
pub open spec fn cache_file_name(key: Seq<char>) -> Seq<char> {
    key + ".png"@
}

impl ThumbnailCache {
    /// The disk cache that keeps its files in `cache_dir`.
    pub fn new(cache_dir: String) -> (cache: Self)
        ensures
            cache.cache_dir == cache_dir,
    {
        ThumbnailCache { cache_dir }
    }

    /// The name that the application's directories go by.
    pub fn app_dir() -> (name: &'static str)
        ensures
            name@ == app_dir_name(),
    {
        "daidori-manager"
    }

    /// The name of the directory of thumbnails below the application's
    /// cache directory.
    pub fn thumbnails_dir() -> (name: &'static str)
        ensures
            name@ == thumbnails_dir_name(),
    {
        "thumbnails"
    }

    /// The name of the file that the thumbnail with the given key is cached
    /// in.
    pub fn file_name(key: &str) -> (name: String)
        ensures
            name@ == cache_file_name(key@),
    {
        String::from_str(key).concat(".png")
    }
}

} // verus!
