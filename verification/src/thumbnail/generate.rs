use crate::cache::disk::{cache_file_name, ThumbnailCache};
use crate::cache::memory::ThumbnailMemoryCache;
use crate::cache::model::{
    inserted, keys_distinct, lookup, lookup_finds_inserted, touched, Entry,
};
use crate::constants::{THUMBNAIL_QUALITY, THUMBNAIL_SIZE};
use crate::encoding::{data_url, max_encodable_len, to_data_url};
use crate::error::{outcome_view, Failure, ThumbnailError};
use crate::image_utils::{
    source_kind_for_lowercase, source_kind_of, validate_dimensions, validation_outcome, SourceKind,
};
use crate::text::{lowercased, to_lowercase};
use crate::thumbnail::image::{generate_image_thumbnail, image_thumbnail, rendering_of_image};
use crate::thumbnail::key::{cache_key, derive_cache_key};
use crate::thumbnail::psd::{
    composite_thumbnail, decode_path, generate_composite_thumbnail, generate_psd_thumbnail,
    DecodePath, LayeredStep,
};
use vstd::prelude::*;
use vstd::string::StringExecFns;

verus! {

/// Where a thumbnail came from.
#[derive(Debug, Clone, Copy, PartialEq, Eq, Structural)]
pub enum CacheStatus {
    /// From the memory cache.
    CachedMemory,
    /// From the disk cache.
    CachedDisk,
    /// It was made for this request.
    Generated,
}

impl CacheStatus {
    /// The status as the user interface is told it: `cached` or `generated`.
    pub open spec fn text_spec(self) -> Seq<char> {
        match self {
            CacheStatus::Generated => "generated"@,
            _ => "cached"@,
        }
    }

    /// The status as the user interface is told it.
    pub fn text(&self) -> (text: &'static str)
        ensures
            text@ == self.text_spec(),
    {
        match self {
            CacheStatus::Generated => "generated",
            _ => "cached",
        }
    }

    /// The status with the cache tier named: `cached-memory`, `cached-disk`
    /// or `generated`.
    pub open spec fn label_spec(self) -> Seq<char> {
        match self {
            CacheStatus::CachedMemory => "cached-memory"@,
            CacheStatus::CachedDisk => "cached-disk"@,
            CacheStatus::Generated => "generated"@,
        }
    }

    /// The status with the cache tier named.
    pub fn label(&self) -> (label: &'static str)
        ensures
            label@ == self.label_spec(),
    {
        match self {
            CacheStatus::CachedMemory => "cached-memory",
            CacheStatus::CachedDisk => "cached-disk",
            CacheStatus::Generated => "generated",
        }
    }
}

/// A request for the thumbnail of a file.
#[derive(Debug, Clone)]
pub struct ThumbnailRequest {
    pub source_path: String,
    /// When the file was last modified, in milliseconds since the Unix
    /// epoch.
    pub modified_time: u64,
    /// The extension of the file, in lower case and without the dot.
    pub extension: String,
}

/// A request as a mathematical value.
pub struct RequestView {
    pub source_path: Seq<char>,
    pub modified_time: u64,
    pub extension: Seq<char>,
}

impl View for ThumbnailRequest {
    type V = RequestView;

    open spec fn view(&self) -> RequestView {
        RequestView {
            source_path: self.source_path@,
            modified_time: self.modified_time,
            extension: self.extension@,
        }
    }
}

impl ThumbnailRequest {
    /// The request for the thumbnail of the file at `source_path` whose
    /// extension is `extension`, in any case.
    pub fn new(source_path: String, modified_time: u64, extension: &str) -> (request: Self)
        ensures
            request@ == (RequestView {
                source_path: source_path@,
                modified_time,
                extension: lowercased(extension@),
            }),
    {
        ThumbnailRequest { source_path, modified_time, extension: to_lowercase(extension) }
    }
}

/// A thumbnail as it is handed to the caller.
#[derive(Debug, Clone)]
pub struct Thumbnail {
    pub cache_key: String,
    /// The data URL of the PNG file.
    pub data_url: String,
    pub status: CacheStatus,
}

/// A thumbnail as a mathematical value.
pub struct ThumbnailView {
    pub cache_key: Seq<char>,
    pub data_url: Seq<char>,
    pub status: CacheStatus,
}

impl View for Thumbnail {
    type V = ThumbnailView;

    open spec fn view(&self) -> ThumbnailView {
        ThumbnailView {
            cache_key: self.cache_key@,
            data_url: self.data_url@,
            status: self.status,
        }
    }
}

/// A thumbnail as the user interface is told of it.
#[derive(Debug, Clone)]
pub struct ThumbnailResult {
    pub cache_key: String,
    /// Where the thumbnail is cached on disk.
    pub cache_path: String,
    /// `cached` or `generated`.
    pub status: String,
}

impl Thumbnail {
    /// What the user interface is told of this thumbnail, which is cached on
    /// disk at `cache_path`.
    pub fn into_result(self, cache_path: String) -> (result: ThumbnailResult)
        ensures
            result.cache_key@ == self.cache_key@,
            result.cache_path@ == cache_path@,
            result.status@ == self.status.text_spec(),
    {
        let status = String::from_str(self.status.text());
        ThumbnailResult { cache_key: self.cache_key, cache_path, status }
    }
}

/// How reading a file ended.
#[derive(Debug)]
pub enum ReadOutcome {
    /// The file holds these bytes.
    Found(Vec<u8>),
    /// There is no such file.
    NotFound,
    /// The file could not be read; the text says why.
    Failed(String),
}

/// How reading a file ended, as a mathematical value.
pub enum ReadView {
    Found(Seq<u8>),
    NotFound,
    Failed(Seq<char>),
}

impl View for ReadOutcome {
    type V = ReadView;

    open spec fn view(&self) -> ReadView {
        match self {
            ReadOutcome::Found(bytes) => ReadView::Found(bytes@),
            ReadOutcome::NotFound => ReadView::NotFound,
            ReadOutcome::Failed(cause) => ReadView::Failed(cause@),
        }
    }
}

/// What the caller reports back after it has done what it was asked to.
#[derive(Debug)]
pub enum Event {
    /// The memory cache was asked for the key and holds this value, or none.
    MemoryLooked(Option<String>),
    /// The file of the disk cache was read.
    DiskCacheRead(ReadOutcome),
    /// The source file was read.
    SourceRead(ReadOutcome),
    /// The layered image was parsed and has this width and height, or the
    /// parser failed with this text.
    LayersParsed(Result<(u32, u32), String>),
    /// The layers were flattened into these RGBA samples, or flattening
    /// failed with this text.
    LayersFlattened(Result<Vec<u8>, String>),
    /// The file of the disk cache was written, or writing failed with this
    /// text.
    DiskCacheWritten(Result<(), String>),
    /// The memory cache has taken the value.
    MemoryStored,
}

/// An event as a mathematical value.
pub enum EventView {
    MemoryLooked(Option<Seq<char>>),
    DiskCacheRead(ReadView),
    SourceRead(ReadView),
    LayersParsed(Result<(u32, u32), Seq<char>>),
    LayersFlattened(Result<Seq<u8>, Seq<char>>),
    DiskCacheWritten(Result<(), Seq<char>>),
    MemoryStored,
}

impl View for Event {
    type V = EventView;

    open spec fn view(&self) -> EventView {
        match self {
            Event::MemoryLooked(Some(value)) => EventView::MemoryLooked(Some(value@)),
            Event::MemoryLooked(None) => EventView::MemoryLooked(None),
            Event::DiskCacheRead(outcome) => EventView::DiskCacheRead(outcome@),
            Event::SourceRead(outcome) => EventView::SourceRead(outcome@),
            Event::LayersParsed(Ok(size)) => EventView::LayersParsed(Ok(*size)),
            Event::LayersParsed(Err(cause)) => EventView::LayersParsed(Err(cause@)),
            Event::LayersFlattened(Ok(rgba)) => EventView::LayersFlattened(Ok(rgba@)),
            Event::LayersFlattened(Err(cause)) => EventView::LayersFlattened(Err(cause@)),
            Event::DiskCacheWritten(Ok(())) => EventView::DiskCacheWritten(Ok(())),
            Event::DiskCacheWritten(Err(cause)) => EventView::DiskCacheWritten(Err(cause@)),
            Event::MemoryStored => EventView::MemoryStored,
        }
    }
}

/// What the caller is asked to do next.
#[derive(Debug)]
pub enum Action {
    /// Ask the memory cache for the value under `key`.
    LookupMemory { key: String },
    /// Read the file `file_name` of the disk cache.
    ReadDiskCache { file_name: String },
    /// Read the source file at `path`.
    ReadSource { path: String },
    /// Parse the source file, whose bytes are `data`, as a layered image
    /// and report its size.
    ParseLayers { data: Vec<u8> },
    /// Flatten the layers of the parsed image into RGBA samples.
    FlattenLayers,
    /// Write `png` to the file `file_name` of the disk cache.
    WriteDiskCache { file_name: String, png: Vec<u8> },
    /// Put `value` into the memory cache under `key`.
    StoreMemory { key: String, value: String },
    /// Hand the thumbnail to whoever asked for it.
    Return(Thumbnail),
    /// Report the error to whoever asked for the thumbnail.
    Fail(ThumbnailError),
}

/// An action as a mathematical value.
pub enum ActionView {
    LookupMemory { key: Seq<char> },
    ReadDiskCache { file_name: Seq<char> },
    ReadSource { path: Seq<char> },
    ParseLayers { data: Seq<u8> },
    FlattenLayers,
    WriteDiskCache { file_name: Seq<char>, png: Seq<u8> },
    StoreMemory { key: Seq<char>, value: Seq<char> },
    Return(ThumbnailView),
    Fail(Failure),
}

impl View for Action {
    type V = ActionView;

    open spec fn view(&self) -> ActionView {
        match self {
            Action::LookupMemory { key } => ActionView::LookupMemory { key: key@ },
            Action::ReadDiskCache { file_name } => ActionView::ReadDiskCache {
                file_name: file_name@,
            },
            Action::ReadSource { path } => ActionView::ReadSource { path: path@ },
            Action::ParseLayers { data } => ActionView::ParseLayers { data: data@ },
            Action::FlattenLayers => ActionView::FlattenLayers,
            Action::WriteDiskCache { file_name, png } => ActionView::WriteDiskCache {
                file_name: file_name@,
                png: png@,
            },
            Action::StoreMemory { key, value } => ActionView::StoreMemory {
                key: key@,
                value: value@,
            },
            Action::Return(thumbnail) => ActionView::Return(thumbnail@),
            Action::Fail(error) => ActionView::Fail(error@),
        }
    }
}

/// How far the generation of a thumbnail has come.
#[derive(Debug)]
pub enum State {
    /// The key is derived; the memory cache is being asked.
    KeyDerived { key: String, source_path: String, extension: String },
    /// The memory cache holds nothing; the disk cache is being read.
    MemoryChecked { key: String, source_path: String, extension: String },
    /// Neither cache holds the thumbnail; the source file is being read.
    DiskChecked { key: String, kind: SourceKind },
    /// The layers of the source are taken: they are being parsed, as long as
    /// `size` is none, and flattened after that.
    DecodePathSelected { key: String, size: Option<(u32, u32)> },
    /// The thumbnail is rendered; the disk cache is being written.
    Rendered { key: String, data_url: String },
    /// The thumbnail is on disk; the memory cache is taking it.
    Persisted { key: String, data_url: String, status: CacheStatus },
    /// The thumbnail was handed over.
    Returned,
    /// An error was reported.
    Failed,
}

/// A state as a mathematical value.
pub enum StateView {
    KeyDerived { key: Seq<char>, source_path: Seq<char>, extension: Seq<char> },
    MemoryChecked { key: Seq<char>, source_path: Seq<char>, extension: Seq<char> },
    DiskChecked { key: Seq<char>, kind: SourceKind },
    DecodePathSelected { key: Seq<char>, size: Option<(u32, u32)> },
    Rendered { key: Seq<char>, data_url: Seq<char> },
    Persisted { key: Seq<char>, data_url: Seq<char>, status: CacheStatus },
    Returned,
    Failed,
}

impl View for State {
    type V = StateView;

    open spec fn view(&self) -> StateView {
        match self {
            State::KeyDerived { key, source_path, extension } => StateView::KeyDerived {
                key: key@,
                source_path: source_path@,
                extension: extension@,
            },
            State::MemoryChecked { key, source_path, extension } => StateView::MemoryChecked {
                key: key@,
                source_path: source_path@,
                extension: extension@,
            },
            State::DiskChecked { key, kind } => StateView::DiskChecked { key: key@, kind: *kind },
            State::DecodePathSelected { key, size } => StateView::DecodePathSelected {
                key: key@,
                size: *size,
            },
            State::Rendered { key, data_url } => StateView::Rendered {
                key: key@,
                data_url: data_url@,
            },
            State::Persisted { key, data_url, status } => StateView::Persisted {
                key: key@,
                data_url: data_url@,
                status: *status,
            },
            State::Returned => StateView::Returned,
            State::Failed => StateView::Failed,
        }
    }
}

/// The cache key of a request: render size and quality are those of every
/// thumbnail.
pub open spec fn request_key(request: RequestView) -> Seq<char> {
    cache_key(request.source_path, request.modified_time, THUMBNAIL_SIZE, THUMBNAIL_QUALITY)
}

/// How the generation of a thumbnail starts: the key is derived, and the
/// memory cache is asked for it.
pub open spec fn start(request: RequestView) -> (StateView, ActionView) {
    (
        StateView::KeyDerived {
            key: request_key(request),
            source_path: request.source_path,
            extension: request.extension,
        },
        ActionView::LookupMemory { key: request_key(request) },
    )
}

/// The generation ends with an error.
pub open spec fn failed(failure: Failure) -> (StateView, ActionView) {
    (StateView::Failed, ActionView::Fail(failure))
}

/// What is said of a thumbnail that is too long to be carried as a data
/// URL.
pub open spec fn too_large_text() -> Seq<char> {
    "サムネイルが大きすぎます"@
}

/// What follows when the bytes of a thumbnail have been found on disk: the
/// memory cache takes the data URL of the thumbnail.
pub open spec fn after_disk_hit(key: Seq<char>, png: Seq<u8>) -> (StateView, ActionView) {
    if png.len() <= max_encodable_len() {
        (
            StateView::Persisted {
                key,
                data_url: data_url(png),
                status: CacheStatus::CachedDisk,
            },
            ActionView::StoreMemory { key, value: data_url(png) },
        )
    } else {
        failed(Failure::Encode(too_large_text()))
    }
}

/// What follows when neither cache holds the thumbnail: the source file is
/// read, unless its extension names no format that is read.
pub open spec fn after_disk_miss(key: Seq<char>, source_path: Seq<char>, extension: Seq<char>) -> (
    StateView,
    ActionView,
) {
    match source_kind_of(extension) {
        Some(kind) => (
            StateView::DiskChecked { key, kind },
            ActionView::ReadSource { path: source_path },
        ),
        None => failed(Failure::UnsupportedFormat(extension)),
    }
}

/// What follows the making of a thumbnail: the thumbnail is written to the
/// disk cache, or the error is reported.
pub open spec fn after_rendering(key: Seq<char>, rendering: Result<Seq<u8>, Failure>) -> (
    StateView,
    ActionView,
) {
    match rendering {
        Ok(png) => if png.len() <= max_encodable_len() {
            (
                StateView::Rendered { key, data_url: data_url(png) },
                ActionView::WriteDiskCache { file_name: cache_file_name(key), png },
            )
        } else {
            failed(Failure::Encode(too_large_text()))
        },
        Err(failure) => failed(failure),
    }
}

/// What follows when the source file has been read: an image file is
/// decoded and rendered; a layered image is rendered from its embedded
/// preview where that is good enough, and its layers are asked for where it
/// is not.
pub open spec fn after_source_read(key: Seq<char>, kind: SourceKind, data: Seq<u8>) -> (
    StateView,
    ActionView,
) {
    match kind {
        SourceKind::Standard(image_kind) => after_rendering(key, image_thumbnail(data, image_kind)),
        SourceKind::Layered => match decode_path(data) {
            DecodePath::Embedded(image) => after_rendering(key, rendering_of_image(image)),
            DecodePath::Composite => (
                StateView::DecodePathSelected { key, size: None },
                ActionView::ParseLayers { data },
            ),
        },
    }
}

/// The state that follows `state` when `event` is reported, and what the
/// caller is asked to do then.
///
/// A hit in the memory cache is returned as it is. A hit in the disk cache
/// is put into the memory cache and returned. Where both miss, the source is
/// read, decoded, validated and rendered, the thumbnail is written to the
/// disk cache, then put into the memory cache, and returned. Every failure
/// on the way ends the generation, before any cache is written; an error of
/// the disk cache other than a missing file counts as a miss. An event that
/// the state was not waiting for ends the generation too.
pub open spec fn transition(state: StateView, event: EventView) -> (StateView, ActionView) {
    match (state, event) {
        (StateView::KeyDerived { key, .. }, EventView::MemoryLooked(Some(value))) => (
            StateView::Returned,
            ActionView::Return(
                ThumbnailView { cache_key: key, data_url: value, status: CacheStatus::CachedMemory },
            ),
        ),
        (
            StateView::KeyDerived { key, source_path, extension },
            EventView::MemoryLooked(None),
        ) => (
            StateView::MemoryChecked { key, source_path, extension },
            ActionView::ReadDiskCache { file_name: cache_file_name(key) },
        ),
        (
            StateView::MemoryChecked { key, .. },
            EventView::DiskCacheRead(ReadView::Found(png)),
        ) => after_disk_hit(key, png),
        (
            StateView::MemoryChecked { key, source_path, extension },
            EventView::DiskCacheRead(_),
        ) => after_disk_miss(key, source_path, extension),
        (
            StateView::DiskChecked { key, kind },
            EventView::SourceRead(ReadView::Found(data)),
        ) => after_source_read(key, kind, data),
        (StateView::DiskChecked { .. }, EventView::SourceRead(ReadView::NotFound)) => failed(
            Failure::FileNotFound,
        ),
        (
            StateView::DiskChecked { .. },
            EventView::SourceRead(ReadView::Failed(cause)),
        ) => failed(Failure::Io(cause)),
        (
            StateView::DecodePathSelected { key, size: None },
            EventView::LayersParsed(Ok((width, height))),
        ) => match validation_outcome(width, height) {
            Ok(()) => (
                StateView::DecodePathSelected { key, size: Some((width, height)) },
                ActionView::FlattenLayers,
            ),
            Err(reason) => failed(Failure::Validation(reason)),
        },
        (
            StateView::DecodePathSelected { size: None, .. },
            EventView::LayersParsed(Err(cause)),
        ) => failed(Failure::PsdDecode(cause)),
        (
            StateView::DecodePathSelected { key, size: Some((width, height)) },
            EventView::LayersFlattened(Ok(rgba)),
        ) => after_rendering(key, composite_thumbnail(width, height, rgba)),
        (
            StateView::DecodePathSelected { size: Some(_), .. },
            EventView::LayersFlattened(Err(cause)),
        ) => failed(Failure::PsdDecode(cause)),
        (StateView::Rendered { key, data_url }, EventView::DiskCacheWritten(Ok(()))) => (
            StateView::Persisted { key, data_url, status: CacheStatus::Generated },
            ActionView::StoreMemory { key, value: data_url },
        ),
        (StateView::Rendered { .. }, EventView::DiskCacheWritten(Err(cause))) => failed(
            Failure::Io(cause),
        ),
        (StateView::Persisted { key, data_url, status }, EventView::MemoryStored) => (
            StateView::Returned,
            ActionView::Return(ThumbnailView { cache_key: key, data_url, status }),
        ),
        _ => failed(Failure::UnexpectedEvent),
    }
}

/// Starts the generation of the thumbnail that `request` asks for.
pub fn begin(request: &ThumbnailRequest) -> (step: (State, Action))
    ensures
        (step.0@, step.1@) == start(request@),
{
    let key = derive_cache_key(
        request.source_path.as_str(),
        request.modified_time,
        THUMBNAIL_SIZE,
        THUMBNAIL_QUALITY,
    );
    (
        State::KeyDerived {
            key: key.clone(),
            source_path: request.source_path.clone(),
            extension: request.extension.clone(),
        },
        Action::LookupMemory { key },
    )
}

fn fail(error: ThumbnailError) -> (step: (State, Action))
    ensures
        (step.0@, step.1@) == failed(error@),
{
    (State::Failed, Action::Fail(error))
}

fn continue_after_disk_hit(key: String, png: Vec<u8>) -> (step: (State, Action))
    ensures
        (step.0@, step.1@) == after_disk_hit(key@, png@),
{
    match to_data_url(png.as_slice()) {
        Some(data_url) => (
            State::Persisted {
                key: key.clone(),
                data_url: data_url.clone(),
                status: CacheStatus::CachedDisk,
            },
            Action::StoreMemory { key, value: data_url },
        ),
        None => fail(ThumbnailError::Encode(String::from_str("サムネイルが大きすぎます"))),
    }
}

fn continue_after_disk_miss(key: String, source_path: String, extension: String) -> (step: (
    State,
    Action,
))
    ensures
        (step.0@, step.1@) == after_disk_miss(key@, source_path@, extension@),
{
    match source_kind_for_lowercase(extension.as_str()) {
        Some(kind) => (State::DiskChecked { key, kind }, Action::ReadSource { path: source_path }),
        None => fail(ThumbnailError::UnsupportedFormat(extension)),
    }
}

fn continue_after_rendering(key: String, thumbnail: Result<Vec<u8>, ThumbnailError>) -> (step: (
    State,
    Action,
))
    ensures
        (step.0@, step.1@) == after_rendering(key@, outcome_view(thumbnail)),
{
    match thumbnail {
        Ok(png) => match to_data_url(png.as_slice()) {
            Some(data_url) => {
                let file_name = ThumbnailCache::file_name(key.as_str());
                (State::Rendered { key, data_url }, Action::WriteDiskCache { file_name, png })
            },
            None => fail(ThumbnailError::Encode(String::from_str("サムネイルが大きすぎます"))),
        },
        Err(error) => fail(error),
    }
}

fn continue_after_source_read(key: String, kind: SourceKind, data: Vec<u8>) -> (step: (
    State,
    Action,
))
    ensures
        (step.0@, step.1@) == after_source_read(key@, kind, data@),
{
    match kind {
        SourceKind::Standard(image_kind) => continue_after_rendering(
            key,
            generate_image_thumbnail(data.as_slice(), image_kind),
        ),
        SourceKind::Layered => match generate_psd_thumbnail(data.as_slice()) {
            LayeredStep::Done(thumbnail) => continue_after_rendering(key, thumbnail),
            LayeredStep::Flatten => (
                State::DecodePathSelected { key, size: None },
                Action::ParseLayers { data },
            ),
        },
    }
}

/// Takes the generation of a thumbnail one step further: from the state it
/// is in and what the caller reports, to the next state and what the caller
/// is asked to do next.
pub fn advance(state: State, event: Event) -> (step: (State, Action))
    ensures
        (step.0@, step.1@) == transition(state@, event@),
{
    match state {
        State::KeyDerived { key, source_path, extension } => match event {
            Event::MemoryLooked(Some(value)) => (
                State::Returned,
                Action::Return(
                    Thumbnail { cache_key: key, data_url: value, status: CacheStatus::CachedMemory },
                ),
            ),
            Event::MemoryLooked(None) => {
                let file_name = ThumbnailCache::file_name(key.as_str());
                (
                    State::MemoryChecked { key, source_path, extension },
                    Action::ReadDiskCache { file_name },
                )
            },
            _ => fail(ThumbnailError::UnexpectedEvent),
        },
        State::MemoryChecked { key, source_path, extension } => match event {
            Event::DiskCacheRead(ReadOutcome::Found(png)) => continue_after_disk_hit(key, png),
            Event::DiskCacheRead(_) => continue_after_disk_miss(key, source_path, extension),
            _ => fail(ThumbnailError::UnexpectedEvent),
        },
        State::DiskChecked { key, kind } => match event {
            Event::SourceRead(ReadOutcome::Found(data)) => continue_after_source_read(
                key,
                kind,
                data,
            ),
            Event::SourceRead(ReadOutcome::NotFound) => fail(ThumbnailError::FileNotFound),
            Event::SourceRead(ReadOutcome::Failed(cause)) => fail(ThumbnailError::Io(cause)),
            _ => fail(ThumbnailError::UnexpectedEvent),
        },
        State::DecodePathSelected { key, size: None } => match event {
            Event::LayersParsed(Ok((width, height))) => match validate_dimensions(width, height) {
                Ok(()) => (
                    State::DecodePathSelected { key, size: Some((width, height)) },
                    Action::FlattenLayers,
                ),
                Err(reason) => fail(ThumbnailError::Validation(reason)),
            },
            Event::LayersParsed(Err(cause)) => fail(ThumbnailError::PsdDecode(cause)),
            _ => fail(ThumbnailError::UnexpectedEvent),
        },
        State::DecodePathSelected { key, size: Some((width, height)) } => match event {
            Event::LayersFlattened(Ok(rgba)) => continue_after_rendering(
                key,
                generate_composite_thumbnail(width, height, rgba),
            ),
            Event::LayersFlattened(Err(cause)) => fail(ThumbnailError::PsdDecode(cause)),
            _ => fail(ThumbnailError::UnexpectedEvent),
        },
        State::Rendered { key, data_url } => match event {
            Event::DiskCacheWritten(Ok(())) => (
                State::Persisted {
                    key: key.clone(),
                    data_url: data_url.clone(),
                    status: CacheStatus::Generated,
                },
                Action::StoreMemory { key, value: data_url },
            ),
            Event::DiskCacheWritten(Err(cause)) => fail(ThumbnailError::Io(cause)),
            _ => fail(ThumbnailError::UnexpectedEvent),
        },
        State::Persisted { key, data_url, status } => match event {
            Event::MemoryStored => (
                State::Returned,
                Action::Return(Thumbnail { cache_key: key, data_url, status }),
            ),
            _ => fail(ThumbnailError::UnexpectedEvent),
        },
        State::Returned => fail(ThumbnailError::UnexpectedEvent),
        State::Failed => fail(ThumbnailError::UnexpectedEvent),
    }
}

/// What the memory cache does when the caller is asked to look a key up or
/// to store a value: the order of its entries afterwards, and what is
/// reported back. Every other action leaves the cache alone and reports
/// nothing.
pub open spec fn memory_step(order: Seq<Entry>, capacity: nat, action: ActionView) -> (
    Seq<Entry>,
    Option<EventView>,
) {
    match action {
        ActionView::LookupMemory { key } => (
            touched(order, key),
            Some(EventView::MemoryLooked(lookup(order, key))),
        ),
        ActionView::StoreMemory { key, value } => (
            inserted(order, capacity, key, value),
            Some(EventView::MemoryStored),
        ),
        _ => (order, None),
    }
}

/// The event as a mathematical value, if there is one.
pub open spec fn event_view(event: Option<Event>) -> Option<EventView> {
    match event {
        Some(event) => Some(event@),
        None => None,
    }
}

/// Does what an action asks of the memory cache, and says what to report
/// back; none for an action that asks nothing of the memory cache.
///
/// The caller holds the lock of the cache for this call only.
pub fn serve_memory(cache: &mut ThumbnailMemoryCache, action: &Action) -> (event: Option<Event>)
    requires
        old(cache).wf(),
    ensures
        final(cache).wf(),
        final(cache).capacity() == old(cache).capacity(),
        (final(cache)@, event_view(event)) == memory_step(
            old(cache)@,
            old(cache).capacity(),
            action@,
        ),
{
    match action {
        Action::LookupMemory { key } => {
            let value = cache.get(key.as_str());
            Some(Event::MemoryLooked(value))
        },
        Action::StoreMemory { key, value } => {
            cache.insert(key.clone(), value.clone());
            Some(Event::MemoryStored)
        },
        _ => None,
    }
}

/// A thumbnail that was generated is served from the memory cache when the
/// same request comes again, and it is the same thumbnail, provided that the
/// memory cache holds anything at all.
///
/// The first request renders `png`, writes it to the disk cache, stores its
/// data URL in the memory cache and returns it as generated. The second
/// request finds that data URL in the memory cache and returns it as cached.
pub proof fn repeated_request_is_served_from_memory(
    request: RequestView,
    png: Seq<u8>,
    order: Seq<Entry>,
    capacity: nat,
)
    requires
        keys_distinct(order),
        capacity >= 1,
        png.len() <= max_encodable_len(),
    ensures
        ({
            let key = request_key(request);
            let rendered = after_rendering(key, Ok(png));
            let persisted = transition(rendered.0, EventView::DiskCacheWritten(Ok(())));
            let stored = memory_step(order, capacity, persisted.1);
            let first = transition(persisted.0, stored.1->0);
            let again = start(request);
            let looked = memory_step(stored.0, capacity, again.1);
            let second = transition(again.0, looked.1->0);
            &&& first == (
                StateView::Returned,
                ActionView::Return(
                    ThumbnailView {
                        cache_key: key,
                        data_url: data_url(png),
                        status: CacheStatus::Generated,
                    },
                ),
            )
            &&& second == (
                StateView::Returned,
                ActionView::Return(
                    ThumbnailView {
                        cache_key: key,
                        data_url: data_url(png),
                        status: CacheStatus::CachedMemory,
                    },
                ),
            )
        }),
{
    let key = request_key(request);
    lookup_finds_inserted(order, capacity, key, data_url(png));
}

/// A thumbnail that was generated is served from the disk cache when the
/// same request comes again and the memory cache no longer holds it, and it
/// is the same thumbnail.
///
/// The second request asks for the very file that the first one wrote. If
/// the disk hands back the bytes that were written, their data URL is put
/// into the memory cache and returned as cached.
pub proof fn repeated_request_is_served_from_disk(
    request: RequestView,
    png: Seq<u8>,
    order: Seq<Entry>,
    capacity: nat,
)
    requires
        lookup(order, request_key(request)) is None,
        png.len() <= max_encodable_len(),
    ensures
        ({
            let key = request_key(request);
            let rendered = after_rendering(key, Ok(png));
            let again = start(request);
            let looked = memory_step(order, capacity, again.1);
            let checked = transition(again.0, looked.1->0);
            let hit = transition(checked.0, EventView::DiskCacheRead(ReadView::Found(png)));
            let stored = memory_step(looked.0, capacity, hit.1);
            let second = transition(hit.0, stored.1->0);
            &&& rendered.1 == (ActionView::WriteDiskCache { file_name: cache_file_name(key), png })
            &&& checked.1 == (ActionView::ReadDiskCache { file_name: cache_file_name(key) })
            &&& second == (
                StateView::Returned,
                ActionView::Return(
                    ThumbnailView {
                        cache_key: key,
                        data_url: data_url(png),
                        status: CacheStatus::CachedDisk,
                    },
                ),
            )
        }),
{
}

/// Whether a step writes to a cache.
pub open spec fn writes_cache(action: ActionView) -> bool {
    action is WriteDiskCache || action is StoreMemory
}

/// What the caller is asked to do in the course of a generation that is in
/// `state`, has just asked for `first`, and is then told of `events` one
/// after the other: `first`, and what each event leads to.
pub open spec fn actions_of(state: StateView, first: ActionView, events: Seq<EventView>) -> Seq<
    ActionView,
>
    decreases events.len(),
{
    if events.len() == 0 {
        seq![first]
    } else {
        seq![first] + actions_of(
            transition(state, events[0]).0,
            transition(state, events[0]).1,
            events.drop_first(),
        )
    }
}

/// Whether an error comes from looking at the source: it is missing or of
/// an unsupported format, it does not decode, its dimensions are not
/// accepted, or its thumbnail cannot be encoded.
pub open spec fn is_source_failure(failure: Failure) -> bool {
    failure is FileNotFound || failure is UnsupportedFormat || failure is ImageDecode
        || failure is PsdDecode || failure is PixelData || failure is Validation
        || failure is Encode
}

/// Whether a generation in this state has written to no cache yet.
spec fn before_writes(state: StateView) -> bool {
    state is KeyDerived || state is MemoryChecked || state is DiskChecked
        || state is DecodePathSelected
}

proof fn lemma_no_source_failure_after_writes(
    state: StateView,
    first: ActionView,
    events: Seq<EventView>,
    i: int,
)
    requires
        !before_writes(state),
        1 <= i < actions_of(state, first, events).len(),
    ensures
        actions_of(state, first, events)[i] matches ActionView::Fail(failure) ==> !is_source_failure(
            failure,
        ),
    decreases events.len(),
{
    let next = transition(state, events[0]);
    let rest = actions_of(next.0, next.1, events.drop_first());
    assert(actions_of(state, first, events)[i] == rest[i - 1]);
    if i > 1 {
        lemma_no_source_failure_after_writes(next.0, next.1, events.drop_first(), i - 1);
    }
}

proof fn lemma_actions_count(state: StateView, first: ActionView, events: Seq<EventView>)
    ensures
        actions_of(state, first, events).len() == events.len() + 1,
    decreases events.len(),
{
    if events.len() > 0 {
        let next = transition(state, events[0]);
        lemma_actions_count(next.0, next.1, events.drop_first());
    }
}

proof fn lemma_source_failure_comes_first(
    state: StateView,
    first: ActionView,
    events: Seq<EventView>,
    i: int,
    j: int,
)
    requires
        before_writes(state),
        !writes_cache(first),
        0 <= j < i < actions_of(state, first, events).len(),
        actions_of(state, first, events)[i] matches ActionView::Fail(failure) && is_source_failure(
            failure,
        ),
    ensures
        !writes_cache(actions_of(state, first, events)[j]),
    decreases events.len(),
{
    lemma_actions_count(state, first, events);
    let next = transition(state, events[0]);
    let rest = actions_of(next.0, next.1, events.drop_first());
    assert(actions_of(state, first, events)[i] == rest[i - 1]);
    if j > 0 {
        assert(actions_of(state, first, events)[j] == rest[j - 1]);
        if before_writes(next.0) {
            lemma_source_failure_comes_first(next.0, next.1, events.drop_first(), i - 1, j - 1);
        } else {
            lemma_no_source_failure_after_writes(next.0, next.1, events.drop_first(), i - 1);
        }
    }
}

/// A generation that fails over its source has written to no cache: where
/// the source is missing, of an unsupported format, undecodable, of
/// dimensions that are not accepted, or its thumbnail cannot be encoded,
/// nothing that the caller was asked to do before was a write to the disk
/// cache or to the memory cache.
pub proof fn source_failure_leaves_caches_alone(
    request: RequestView,
    events: Seq<EventView>,
    i: int,
    j: int,
)
    requires
        0 <= j < i < actions_of(start(request).0, start(request).1, events).len(),
        actions_of(start(request).0, start(request).1, events)[i] matches ActionView::Fail(failure)
            && is_source_failure(failure),
    ensures
        !writes_cache(actions_of(start(request).0, start(request).1, events)[j]),
{
    lemma_source_failure_comes_first(start(request).0, start(request).1, events, i, j);
}

/// A failure ends the generation: the step that reports an error leaves it
/// failed, and every later event is answered with an error again.
pub proof fn failure_ends_generation(state: StateView, event: EventView, later: EventView)
    requires
        transition(state, event).1 is Fail,
    ensures
        transition(state, event).0 is Failed,
        transition(transition(state, event).0, later) == failed(Failure::UnexpectedEvent),
{
}

/// The disk cache is written only with a thumbnail that was just rendered,
/// and the memory cache only with one that is on disk: read from the disk
/// cache, or written to it before.
pub proof fn caches_are_written_in_order(state: StateView, event: EventView)
    ensures
        transition(state, event).1 is WriteDiskCache ==> transition(state, event).0 is Rendered && (
        state is DiskChecked || state is DecodePathSelected),
        transition(state, event).1 is StoreMemory ==> transition(state, event).0 is Persisted && (
        (state is Rendered && event matches EventView::DiskCacheWritten(Ok(_))) || (state
            is MemoryChecked && event matches EventView::DiskCacheRead(ReadView::Found(_)))),
{
}

} // verus!
