use crate::constants::THUMBNAIL_SIZE;
use crate::error::{outcome_view, Failure, ThumbnailError};
use crate::image_utils::{validate_dimensions, validation_outcome};
use crate::raster::{decode_image, decoded_image, sample_count, ImageKind, Raster, RasterView};
use crate::thumbnail::image::{render_validated, rendering_of_image};
use vstd::prelude::*;
use vstd::slice::{slice_subrange, slice_to_vec};

verus! {

/// Length of the fixed part of the file that follows the signature: version,
/// reserved bytes, channel count, height, width, depth and colour mode.
pub const HEADER_REST_LEN: usize = 22;

/// Length of the header that opens the payload of a thumbnail resource:
/// format, width, height, row bytes, total size, compressed size, bits per
/// pixel and plane count.
pub const THUMBNAIL_HEADER_LEN: u32 = 28;

/// Identifier of the thumbnail resource that current files carry.
pub const THUMBNAIL_RESOURCE_ID: u16 = 1036;

/// Identifier of the thumbnail resource that old files carry.
pub const LEGACY_THUMBNAIL_RESOURCE_ID: u16 = 1033;

/// Format code of a thumbnail that is stored as a JPEG stream.
pub const THUMBNAIL_FORMAT_JPEG: u32 = 1;

/// The four bytes `8BPS` that open a layered image file.
pub open spec fn file_signature() -> Seq<u8> {
    seq![0x38u8, 0x42u8, 0x50u8, 0x53u8]
}

/// The four bytes `8BIM` that open every image resource.
pub open spec fn resource_signature() -> Seq<u8> {
    seq![0x38u8, 0x42u8, 0x49u8, 0x4du8]
}

/// Whether the `count` bytes that start at `at` all lie inside `data`.
pub open spec fn has_bytes(data: Seq<u8>, at: int, count: int) -> bool {
    0 <= at && 0 <= count && at + count <= data.len()
}

/// The unsigned 16-bit number that `data` holds at `at`, most significant
/// byte first.
pub open spec fn be_u16(data: Seq<u8>, at: int) -> int
    recommends
        has_bytes(data, at, 2),
{
    data[at] * 0x100 + data[at + 1]
}

/// The unsigned 32-bit number that `data` holds at `at`, most significant
/// byte first.
pub open spec fn be_u32(data: Seq<u8>, at: int) -> int
    recommends
        has_bytes(data, at, 4),
{
    data[at] * 0x100_0000 + data[at + 1] * 0x1_0000 + data[at + 2] * 0x100 + data[at + 3]
}

/// Whether `data` holds the four bytes of `signature` at `at`.
pub open spec fn signature_at(data: Seq<u8>, at: int, signature: Seq<u8>) -> bool {
    has_bytes(data, at, 4) && data.subrange(at, at + 4) == signature
}

/// `size` rounded up to the next even number: resources are aligned to two
/// bytes.
pub open spec fn padded_size(size: int) -> int {
    size + size % 2
}

/// Bytes that the name of a resource takes, its length byte not counted. The
/// name is padded so that, together with the length byte, it takes an even
/// number of bytes.
pub open spec fn name_field_len(name_len: int) -> int {
    if name_len % 2 == 0 {
        name_len + 1
    } else {
        name_len
    }
}

/// Whether a resource identifier names a thumbnail resource.
pub open spec fn is_thumbnail_id(id: int) -> bool {
    id == THUMBNAIL_RESOURCE_ID || id == LEGACY_THUMBNAIL_RESOURCE_ID
}

/// The fields that open one image resource.
pub struct ResourceHeader {
    /// The identifier of the resource.
    pub id: int,
    /// The declared length of the payload.
    pub size: int,
    /// Where the payload starts.
    pub body: int,
}

/// The header of the resource that starts at `pos`, if `data` holds a
/// complete one there: signature, identifier, padded name and payload length.
pub open spec fn resource_header_at(data: Seq<u8>, pos: int) -> Option<ResourceHeader> {
    if !signature_at(data, pos, resource_signature()) {
        None
    } else if !has_bytes(data, pos + 6, 1) {
        None
    } else {
        let size_at = pos + 7 + name_field_len(data[pos + 6] as int);
        if !has_bytes(data, size_at, 4) {
            None
        } else {
            Some(
                ResourceHeader {
                    id: be_u16(data, pos + 4),
                    size: be_u32(data, size_at),
                    body: size_at + 4,
                },
            )
        }
    }
}

/// Where the bytes of a preview stand in the file: from `start` up to, and
/// not including, `end`.
pub struct PreviewSpan {
    pub start: int,
    pub end: int,
}

/// What the scan does with one resource.
pub enum ResourceOutcome {
    /// The scan ends: it has found a preview, or it gives up.
    Stop(Option<PreviewSpan>),
    /// The scan goes on with the resource that starts here.
    Next(int),
}

/// What the scan does with the resource that has the header `header`.
///
/// A thumbnail resource in JPEG format ends the scan: the preview is what
/// follows its 28-byte header, if the payload is longer than that header and
/// lies wholly inside `data`; otherwise the scan gives up. A thumbnail
/// resource in another format is passed over from the end of its 28-byte
/// header, any other resource from the start of its payload, by the padded
/// payload length.
pub open spec fn resource_outcome(data: Seq<u8>, header: ResourceHeader) -> ResourceOutcome {
    if is_thumbnail_id(header.id) {
        if !has_bytes(data, header.body, THUMBNAIL_HEADER_LEN as int) {
            ResourceOutcome::Stop(None)
        } else if be_u32(data, header.body) == THUMBNAIL_FORMAT_JPEG {
            if header.size <= THUMBNAIL_HEADER_LEN {
                ResourceOutcome::Stop(None)
            } else if !has_bytes(
                data,
                header.body + THUMBNAIL_HEADER_LEN,
                header.size - THUMBNAIL_HEADER_LEN,
            ) {
                ResourceOutcome::Stop(None)
            } else {
                ResourceOutcome::Stop(
                    Some(
                        PreviewSpan {
                            start: header.body + THUMBNAIL_HEADER_LEN,
                            end: header.body + header.size,
                        },
                    ),
                )
            }
        } else {
            ResourceOutcome::Next(header.body + THUMBNAIL_HEADER_LEN + padded_size(header.size))
        }
    } else {
        ResourceOutcome::Next(header.body + padded_size(header.size))
    }
}

/// Where a scan of the resources from `pos` up to `end` finds a preview.
///
/// The scan gives up at `end`, at the first position that does not hold a
/// complete resource header, where a thumbnail resource turns out unusable,
/// and where a resource would not move it forward.
pub open spec fn scan_resources(data: Seq<u8>, pos: int, end: int) -> Option<PreviewSpan>
    decreases
        (if pos < end {
            end - pos
        } else {
            0
        }),
{
    if pos >= end {
        None
    } else {
        match resource_header_at(data, pos) {
            None => None,
            Some(header) => match resource_outcome(data, header) {
                ResourceOutcome::Stop(found) => found,
                ResourceOutcome::Next(next) => if next > pos {
                    scan_resources(data, next, end)
                } else {
                    None
                },
            },
        }
    }
}

/// Where the length field of the image resources section stands, if `data`
/// holds the signature, the fixed header and a complete colour mode section.
pub open spec fn resources_length_at(data: Seq<u8>) -> Option<int> {
    if !signature_at(data, 0, file_signature()) {
        None
    } else if !has_bytes(data, 4 + HEADER_REST_LEN, 4) {
        None
    } else {
        let at = 4 + HEADER_REST_LEN + 4 + be_u32(data, 4 + HEADER_REST_LEN as int);
        if has_bytes(data, at, 4) {
            Some(at)
        } else {
            None
        }
    }
}

/// Where the layered image file `data` holds a usable JPEG preview.
pub open spec fn preview_span(data: Seq<u8>) -> Option<PreviewSpan> {
    match resources_length_at(data) {
        None => None,
        Some(at) => scan_resources(data, at + 4, at + 4 + be_u32(data, at)),
    }
}

/// The JPEG preview embedded in the layered image file `data`, if the file
/// carries a usable one.
pub open spec fn embedded_preview(data: Seq<u8>) -> Option<Seq<u8>> {
    match preview_span(data) {
        None => None,
        Some(span) => Some(data.subrange(span.start, span.end)),
    }
}

/// A scan that starts where fewer than four bytes are left finds nothing.
pub proof fn scan_at_end_finds_nothing(data: Seq<u8>, pos: int, end: int)
    requires
        pos + 4 > data.len(),
    ensures
        scan_resources(data, pos, end) is None,
{
}

/// Whether `count` bytes are left in `data` from `at` on.
fn bytes_available(data: &[u8], at: usize, count: usize) -> (ok: bool)
    ensures
        ok == has_bytes(data@, at as int, count as int),
{
    at <= data.len() && count <= data.len() - at
}

/// Whether `data` holds the bytes `b0 b1 b2 b3` at `at`.
fn four_bytes_at(data: &[u8], at: usize, b0: u8, b1: u8, b2: u8, b3: u8) -> (found: bool)
    ensures
        found == signature_at(data@, at as int, seq![b0, b1, b2, b3]),
{
    if !bytes_available(data, at, 4) {
        return false;
    }
    let found = data[at] == b0 && data[at + 1] == b1 && data[at + 2] == b2 && data[at + 3] == b3;
    proof {
        let window = data@.subrange(at as int, at + 4);
        let wanted = seq![b0, b1, b2, b3];
        if found {
            assert(window =~= wanted);
        } else {
            assert(window[0] == data@[at as int]);
            assert(window[1] == data@[at + 1]);
            assert(window[2] == data@[at + 2]);
            assert(window[3] == data@[at + 3]);
            assert(wanted[0] == b0 && wanted[1] == b1 && wanted[2] == b2 && wanted[3] == b3);
        }
    }
    found
}

/// Reads the big-endian 16-bit number at `at`, if two bytes are left there.
fn read_u16(data: &[u8], at: usize) -> (value: Option<u16>)
    ensures
        value is Some <==> has_bytes(data@, at as int, 2),
        value matches Some(v) ==> v == be_u16(data@, at as int),
{
    if !bytes_available(data, at, 2) {
        return None;
    }
    Some((data[at] as u16) * 0x100 + (data[at + 1] as u16))
}

/// Reads the big-endian 32-bit number at `at`, if four bytes are left there.
fn read_u32(data: &[u8], at: usize) -> (value: Option<u32>)
    ensures
        value is Some <==> has_bytes(data@, at as int, 4),
        value matches Some(v) ==> v == be_u32(data@, at as int),
{
    if !bytes_available(data, at, 4) {
        return None;
    }
    Some(
        (data[at] as u32) * 0x100_0000 + (data[at + 1] as u32) * 0x1_0000 + (data[at + 2] as u32)
            * 0x100 + (data[at + 3] as u32),
    )
}

/// The position `by` bytes after `pos`, unless it lies past the end of
/// `data`.
fn forward(data: &[u8], pos: usize, by: u64) -> (next: Option<usize>)
    requires
        pos <= data.len(),
    ensures
        next is Some <==> pos + by <= data.len(),
        next matches Some(n) ==> n == pos + by,
{
    let room: usize = data.len() - pos;
    if by <= room as u64 {
        Some(pos + by as usize)
    } else {
        None
    }
}

/// Looks for the JPEG preview that a layered image file carries among its
/// image resources.
///
/// The file is never read past its end: a file that is cut short anywhere
/// the scan has to read yields nothing, as does one without the signature.
/// Every resource moves the scan forward, so the scan ends.
pub fn extract_psd_embedded_thumbnail(data: &[u8]) -> (preview: Option<Vec<u8>>)
    ensures
        match preview {
            Some(bytes) => embedded_preview(data@) == Some(bytes@),
            None => embedded_preview(data@) is None,
        },
{
    if !four_bytes_at(data, 0, 0x38, 0x42, 0x50, 0x53) {
        return None;
    }
    let color_mode_len: u32 = match read_u32(data, 4 + HEADER_REST_LEN) {
        Some(len) => len,
        None => return None,
    };
    let length_at: usize = match forward(data, 4 + HEADER_REST_LEN + 4, color_mode_len as u64) {
        Some(at) => at,
        None => return None,
    };
    let resources_len: u32 = match read_u32(data, length_at) {
        Some(len) => len,
        None => return None,
    };
    let start: usize = length_at + 4;
    let ghost end: int = start + resources_len;
    let mut pos: usize = start;
    while ((pos - start) as u64) < resources_len as u64
        invariant
            start <= pos <= data.len(),
            end == start + resources_len,
            preview_span(data@) == scan_resources(data@, pos as int, end),
        decreases data.len() - pos,
    {
        let record_start: usize = pos;
        if !four_bytes_at(data, pos, 0x38, 0x42, 0x49, 0x4d) {
            return None;
        }
        let id: u16 = match read_u16(data, pos + 4) {
            Some(id) => id,
            None => return None,
        };
        if !bytes_available(data, pos + 6, 1) {
            return None;
        }
        let name_len: u8 = data[pos + 6];
        let name_field: u64 = if name_len % 2 == 0 {
            name_len as u64 + 1
        } else {
            name_len as u64
        };
        let size_at: usize = match forward(data, pos + 7, name_field) {
            Some(at) => at,
            None => return None,
        };
        let size: u32 = match read_u32(data, size_at) {
            Some(size) => size,
            None => return None,
        };
        let body: usize = size_at + 4;
        let ghost header = ResourceHeader { id: id as int, size: size as int, body: body as int };
        assert(resource_header_at(data@, pos as int) == Some(header));
        let mut skip_from: usize = body;
        if id == THUMBNAIL_RESOURCE_ID || id == LEGACY_THUMBNAIL_RESOURCE_ID {
            if !bytes_available(data, body, THUMBNAIL_HEADER_LEN as usize) {
                return None;
            }
            let format: u32 = match read_u32(data, body) {
                Some(format) => format,
                None => return None,
            };
            if format == THUMBNAIL_FORMAT_JPEG {
                if size < THUMBNAIL_HEADER_LEN {
                    return None;
                }
                let jpeg_len: usize = (size - THUMBNAIL_HEADER_LEN) as usize;
                if jpeg_len == 0 {
                    return None;
                }
                let jpeg_at: usize = body + THUMBNAIL_HEADER_LEN as usize;
                if !bytes_available(data, jpeg_at, jpeg_len) {
                    return None;
                }
                return Some(slice_to_vec(slice_subrange(data, jpeg_at, jpeg_at + jpeg_len)));
            }
            skip_from = body + THUMBNAIL_HEADER_LEN as usize;
        }
        let padded: u64 = size as u64 + (size % 2) as u64;
        assert(resource_outcome(data@, header) == ResourceOutcome::Next(skip_from + padded));
        match forward(data, skip_from, padded) {
            Some(next) => {
                // Every resource must move the scan forward.
                if next <= record_start {
                    return None;
                }
                pos = next;
            },
            None => {
                proof {
                    scan_at_end_finds_nothing(data@, skip_from + padded, end);
                }
                return None;
            },
        }
    }
    None
}

/// A file that does not open with the signature carries no preview.
pub proof fn no_signature_no_preview(data: Seq<u8>)
    requires
        !signature_at(data, 0, file_signature()),
    ensures
        embedded_preview(data) is None,
{
}

/// A scan that is cut off in the middle of a resource header finds nothing.
pub proof fn incomplete_header_ends_scan(data: Seq<u8>, pos: int, end: int)
    requires
        resource_header_at(data, pos) is None,
    ensures
        scan_resources(data, pos, end) is None,
{
}

/// Bytes that stand between the start of a thumbnail resource and its
/// preview at the least: signature, identifier, an empty padded name, the
/// payload length and the thumbnail header.
pub open spec fn min_preview_offset() -> int {
    4 + 2 + 2 + 4 + THUMBNAIL_HEADER_LEN
}

proof fn scan_span_lies_within(data: Seq<u8>, pos: int, end: int)
    requires
        0 <= pos,
    ensures
        scan_resources(data, pos, end) matches Some(span) ==> pos + min_preview_offset()
            <= span.start < span.end <= data.len(),
    decreases
        (if pos < end {
            end - pos
        } else {
            0
        }),
{
    if pos < end {
        if let Some(header) = resource_header_at(data, pos) {
            if let ResourceOutcome::Next(next) = resource_outcome(data, header) {
                if next > pos {
                    scan_span_lies_within(data, next, end);
                }
            }
        }
    }
}

/// A preview is never read from past the end of the file: it is a piece of
/// the file that is at least one byte long and stands after the signature,
/// the fixed header, the two section lengths and the opening fields of its
/// resource.
pub proof fn preview_lies_within_file(data: Seq<u8>)
    ensures
        preview_span(data) matches Some(span) ==> 34 + min_preview_offset() <= span.start
            < span.end <= data.len(),
        embedded_preview(data) matches Some(found) ==> 0 < found.len() <= data.len(),
{
    if let Some(at) = resources_length_at(data) {
        scan_span_lies_within(data, at + 4, at + 4 + be_u32(data, at));
    }
}

proof fn truncated_scan_finds_nothing_new(data: Seq<u8>, keep: int, pos: int, end: int)
    requires
        0 <= keep <= data.len(),
        0 <= pos,
    ensures
        scan_resources(data.take(keep), pos, end) is None || scan_resources(
            data.take(keep),
            pos,
            end,
        ) == scan_resources(data, pos, end),
    decreases
        (if pos < end {
            end - pos
        } else {
            0
        }),
{
    let cut = data.take(keep);
    if pos < end {
        if let Some(header) = resource_header_at(cut, pos) {
            assert(cut.subrange(pos, pos + 4) =~= data.subrange(pos, pos + 4));
            assert(resource_header_at(data, pos) == Some(header));
            if let ResourceOutcome::Next(next) = resource_outcome(cut, header) {
                assert(resource_outcome(data, header) == ResourceOutcome::Next(next));
                if next > pos {
                    truncated_scan_finds_nothing_new(data, keep, next, end);
                }
            }
        }
    }
}

proof fn truncated_scan_keeps_whole_preview(data: Seq<u8>, keep: int, pos: int, end: int)
    requires
        0 <= keep <= data.len(),
        0 <= pos,
        scan_resources(data, pos, end) is Some,
        scan_resources(data, pos, end)->0.end <= keep,
    ensures
        scan_resources(data.take(keep), pos, end) == scan_resources(data, pos, end),
    decreases
        (if pos < end {
            end - pos
        } else {
            0
        }),
{
    let cut = data.take(keep);
    let header = resource_header_at(data, pos)->0;
    match resource_outcome(data, header) {
        ResourceOutcome::Stop(found) => {},
        ResourceOutcome::Next(next) => {
            scan_span_lies_within(data, next, end);
            truncated_scan_keeps_whole_preview(data, keep, next, end);
        },
    }
    assert(cut.subrange(pos, pos + 4) =~= data.subrange(pos, pos + 4));
    assert(resource_header_at(cut, pos) == Some(header));
    assert(resource_outcome(cut, header) == resource_outcome(data, header));
}

/// Cutting a file short never turns up another preview: the first `keep`
/// bytes of a file carry the preview of the whole file or none at all.
pub proof fn truncation_never_changes_preview(data: Seq<u8>, keep: int)
    requires
        0 <= keep <= data.len(),
    ensures
        preview_span(data.take(keep)) is None || preview_span(data.take(keep)) == preview_span(
            data,
        ),
        embedded_preview(data.take(keep)) is None || embedded_preview(data.take(keep))
            == embedded_preview(data),
{
    let cut = data.take(keep);
    if let Some(at) = resources_length_at(cut) {
        assert(cut.subrange(0, 4) =~= data.subrange(0, 4));
        assert(resources_length_at(data) == Some(at));
        truncated_scan_finds_nothing_new(data, keep, at + 4, at + 4 + be_u32(data, at));
        if let Some(span) = preview_span(cut) {
            preview_lies_within_file(cut);
            assert(cut.subrange(span.start, span.end) =~= data.subrange(span.start, span.end));
        }
    }
}

/// A file that is cut short inside its preview, or anywhere before it,
/// carries no preview; one that is cut short after its preview still carries
/// it.
pub proof fn truncation_decides_by_preview_end(data: Seq<u8>, keep: int)
    requires
        0 <= keep <= data.len(),
        preview_span(data) is Some,
    ensures
        keep < preview_span(data)->0.end ==> embedded_preview(data.take(keep)) is None,
        keep >= preview_span(data)->0.end ==> embedded_preview(data.take(keep))
            == embedded_preview(data),
{
    let cut = data.take(keep);
    let span = preview_span(data)->0;
    truncation_never_changes_preview(data, keep);
    preview_lies_within_file(cut);
    preview_lies_within_file(data);
    if keep >= span.end {
        let at = resources_length_at(data)->0;
        scan_span_lies_within(data, at + 4, at + 4 + be_u32(data, at));
        assert(cut.subrange(0, 4) =~= data.subrange(0, 4));
        assert(resources_length_at(cut) == Some(at));
        truncated_scan_keeps_whole_preview(data, keep, at + 4, at + 4 + be_u32(data, at));
        assert(cut.subrange(span.start, span.end) =~= data.subrange(span.start, span.end));
    }
}

/// Whether an embedded preview of the given size is good enough for a
/// thumbnail: its larger side is at least [`THUMBNAIL_SIZE`] pixels long. A
/// smaller preview would have to be scaled up, and the flattened layers give
/// a better picture.
pub open spec fn preview_large_enough(width: u32, height: u32) -> bool {
    width >= THUMBNAIL_SIZE || height >= THUMBNAIL_SIZE
}

/// Whether an embedded preview of the given size is good enough for a
/// thumbnail.
pub fn is_preview_large_enough(width: u32, height: u32) -> (enough: bool)
    ensures
        enough == preview_large_enough(width, height),
{
    width >= THUMBNAIL_SIZE || height >= THUMBNAIL_SIZE
}

/// Where the image of a layered file is taken from.
pub enum DecodePath {
    /// From the embedded preview, which decodes to this image.
    Embedded(RasterView),
    /// From the layers, flattened into one image.
    Composite,
}

/// Where the image of the layered file `data` is taken from: from its
/// embedded preview if it carries one that decodes as JPEG and is large
/// enough, and from its layers otherwise.
pub open spec fn decode_path(data: Seq<u8>) -> DecodePath {
    match embedded_preview(data) {
        None => DecodePath::Composite,
        Some(jpeg) => match decoded_image(jpeg, ImageKind::Jpeg) {
            Err(_) => DecodePath::Composite,
            Ok(image) => if preview_large_enough(image.width, image.height) {
                DecodePath::Embedded(image)
            } else {
                DecodePath::Composite
            },
        },
    }
}

/// What is done with a layered image file.
#[derive(Debug)]
pub enum LayeredStep {
    /// The embedded preview was taken, and rendering it ended like this.
    Done(Result<Vec<u8>, ThumbnailError>),
    /// The layers have to be flattened first.
    Flatten,
}

/// Makes the thumbnail of a layered image file from its embedded preview
/// where that is good enough, and asks for the flattened layers where it is
/// not.
pub fn generate_psd_thumbnail(data: &[u8]) -> (step: LayeredStep)
    ensures
        match decode_path(data@) {
            DecodePath::Embedded(image) => step matches LayeredStep::Done(thumbnail)
                && outcome_view(thumbnail) == rendering_of_image(image),
            DecodePath::Composite => step is Flatten,
        },
{
    if let Some(jpeg) = extract_psd_embedded_thumbnail(data) {
        if let Ok(image) = decode_image(jpeg.as_slice(), ImageKind::Jpeg) {
            if is_preview_large_enough(image.width(), image.height()) {
                return LayeredStep::Done(render_validated(image));
            }
        }
    }
    LayeredStep::Flatten
}

/// How making a thumbnail from flattened layers ends: the dimensions are
/// validated, the samples must be there for every pixel, and the image is
/// rendered.
pub open spec fn composite_thumbnail(width: u32, height: u32, rgba: Seq<u8>) -> Result<
    Seq<u8>,
    Failure,
> {
    match validation_outcome(width, height) {
        Err(reason) => Err(Failure::Validation(reason)),
        Ok(()) => if sample_count(width as nat, height as nat) > rgba.len() {
            Err(Failure::PixelData)
        } else {
            rendering_of_image(
                RasterView {
                    width,
                    height,
                    pixels: rgba.take(sample_count(width as nat, height as nat) as int),
                },
            )
        },
    }
}

/// Makes the thumbnail of a layered image from its flattened layers: `rgba`
/// holds red, green, blue and alpha of each pixel of an image of `width` by
/// `height` pixels.
pub fn generate_composite_thumbnail(width: u32, height: u32, rgba: Vec<u8>) -> (thumbnail: Result<
    Vec<u8>,
    ThumbnailError,
>)
    ensures
        outcome_view(thumbnail) == composite_thumbnail(width, height, rgba@),
{
    if let Err(reason) = validate_dimensions(width, height) {
        return Err(ThumbnailError::Validation(reason));
    }
    match Raster::from_rgba(width, height, rgba) {
        Some(image) => render_validated(image),
        None => Err(ThumbnailError::PixelData),
    }
}

/// The preview is taken exactly where the file carries one that decodes and
/// whose larger side reaches the thumbnail size; the layers are flattened in
/// every other case.
pub proof fn preview_taken_at_threshold(data: Seq<u8>)
    ensures
        decode_path(data) is Embedded <==> (embedded_preview(data) matches Some(jpeg)
            && decoded_image(jpeg, ImageKind::Jpeg) matches Ok(image) && (image.width
            >= THUMBNAIL_SIZE || image.height >= THUMBNAIL_SIZE)),
        decode_path(data) is Composite <==> !(embedded_preview(data) matches Some(jpeg)
            && decoded_image(jpeg, ImageKind::Jpeg) matches Ok(image) && (image.width
            >= THUMBNAIL_SIZE || image.height >= THUMBNAIL_SIZE)),
{
}

} // verus!
