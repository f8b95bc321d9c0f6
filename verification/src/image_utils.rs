use crate::constants::{MAX_IMAGE_DIMENSION, MAX_PIXEL_COUNT, THUMBNAIL_SIZE};
use crate::error::{outcome_view, Failure, ThumbnailError};
use crate::raster::{
    encode_png, png_encoding, resampled, resize_raster, ImageKind, Raster, RasterView,
};
use crate::text::{decimal, lowercased, push_decimal, str_eq, to_lowercase};
use vstd::prelude::*;
use vstd::string::StringExecFns;

verus! {

/// Why a pair of image dimensions was turned down.
#[derive(Debug, Clone, Copy, PartialEq, Eq, Structural)]
pub enum ValidationError {
    /// The width or the height is zero.
    ZeroDimension,
    /// The width or the height is above [`MAX_IMAGE_DIMENSION`].
    DimensionTooLarge { width: u32, height: u32 },
    /// Both sides are within bounds but the image has more than
    /// [`MAX_PIXEL_COUNT`] pixels.
    TooManyPixels { pixel_count: u64 },
}

/// What [`validate_dimensions`] answers for each pair of dimensions.
pub open spec fn validation_outcome(width: u32, height: u32) -> Result<(), ValidationError> {
    if width == 0 || height == 0 {
        Err(ValidationError::ZeroDimension)
    } else if width > MAX_IMAGE_DIMENSION || height > MAX_IMAGE_DIMENSION {
        Err(ValidationError::DimensionTooLarge { width, height })
    } else if width * height > MAX_PIXEL_COUNT {
        Err(ValidationError::TooManyPixels { pixel_count: (width * height) as u64 })
    } else {
        Ok(())
    }
}

/// The dimensions that pass validation: both sides at least one pixel and at
/// most [`MAX_IMAGE_DIMENSION`], and at most [`MAX_PIXEL_COUNT`] pixels in all.
pub open spec fn dimensions_acceptable(width: u32, height: u32) -> bool {
    &&& 0 < width <= MAX_IMAGE_DIMENSION
    &&& 0 < height <= MAX_IMAGE_DIMENSION
    &&& width * height <= MAX_PIXEL_COUNT
}

/// Checks image dimensions before any pixel buffer is allocated for them.
pub fn validate_dimensions(width: u32, height: u32) -> (outcome: Result<(), ValidationError>)
    ensures
        outcome == validation_outcome(width, height),
        outcome is Ok <==> dimensions_acceptable(width, height),
{
    if width == 0 || height == 0 {
        return Err(ValidationError::ZeroDimension);
    }
    if width > MAX_IMAGE_DIMENSION || height > MAX_IMAGE_DIMENSION {
        return Err(ValidationError::DimensionTooLarge { width, height });
    }
    assert(width * height <= 65535 * 65535) by (nonlinear_arith)
        requires
            0 < width <= 65535,
            0 < height <= 65535,
    ;
    let pixel_count: u64 = (width as u64) * (height as u64);
    if pixel_count > MAX_PIXEL_COUNT {
        return Err(ValidationError::TooManyPixels { pixel_count });
    }
    Ok(())
}

impl ValidationError {
    /// The text shown to the user for this error.
    pub open spec fn message_spec(self) -> Seq<char> {
        match self {
            ValidationError::ZeroDimension => "無効な画像サイズ: 幅または高さが0"@,
            ValidationError::DimensionTooLarge { width, height } => {
                "画像サイズが大きすぎます: "@ + decimal(width as nat) + "x"@ + decimal(height as nat)
                    + " (最大: "@ + decimal(MAX_IMAGE_DIMENSION as nat) + ")"@
            },
            ValidationError::TooManyPixels { pixel_count } => {
                "ピクセル数が多すぎます: "@ + decimal(pixel_count as nat) + " (最大: "@ + decimal(
                    MAX_PIXEL_COUNT as nat,
                ) + ")"@
            },
        }
    }

    /// Renders the error as the text shown to the user.
    pub fn message(&self) -> (text: String)
        ensures
            text@ == self.message_spec(),
    {
        match self {
            ValidationError::ZeroDimension => String::from_str("無効な画像サイズ: 幅または高さが0"),
            ValidationError::DimensionTooLarge { width, height } => {
                let mut text = String::from_str("画像サイズが大きすぎます: ");
                push_decimal(&mut text, *width as u64);
                text.append("x");
                push_decimal(&mut text, *height as u64);
                text.append(" (最大: ");
                push_decimal(&mut text, MAX_IMAGE_DIMENSION as u64);
                text.append(")");
                text
            },
            ValidationError::TooManyPixels { pixel_count } => {
                let mut text = String::from_str("ピクセル数が多すぎます: ");
                push_decimal(&mut text, *pixel_count);
                text.append(" (最大: ");
                push_decimal(&mut text, MAX_PIXEL_COUNT);
                text.append(")");
                text
            },
        }
    }
}

/// Height, in pixels, of the box that a thumbnail is fitted into: 1.4 times
/// its width, the shape of a page.
pub open spec fn thumbnail_box_height() -> u32 {
    (THUMBNAIL_SIZE * 14 / 10) as u32
}

/// The image that is encoded as the thumbnail of `image`: `image` scaled,
/// with its aspect ratio kept, to fit the thumbnail box.
pub open spec fn thumbnail_image(image: RasterView) -> RasterView {
    resampled(image, THUMBNAIL_SIZE, thumbnail_box_height())
}

/// The thumbnail of `image`: the PNG file of [`thumbnail_image`], or the
/// error that the encoder reports.
pub open spec fn thumbnail_of(image: RasterView) -> Result<Seq<u8>, Failure> {
    match png_encoding(thumbnail_image(image)) {
        Ok(png) => Ok(png),
        Err(cause) => Err(Failure::Encode(cause)),
    }
}

/// Renders the thumbnail of a decoded image: scales the image to fit a box
/// of [`THUMBNAIL_SIZE`] by 1.4 times that many pixels and encodes it as PNG.
///
/// The image that is encoded is at least one pixel wide and high and no
/// larger than the box. The dimensions have been validated before an image
/// gets here.
pub fn create_thumbnail(image: Raster) -> (rendered: Result<Vec<u8>, ThumbnailError>)
    requires
        image.wf(),
        image@.width > 0,
        image@.height > 0,
    ensures
        outcome_view(rendered) == thumbnail_of(image@),
        1 <= thumbnail_image(image@).width <= THUMBNAIL_SIZE,
        1 <= thumbnail_image(image@).height <= thumbnail_box_height(),
{
    let thumbnail = resize_raster(image, THUMBNAIL_SIZE, THUMBNAIL_SIZE * 14 / 10);
    match encode_png(thumbnail) {
        Ok(png) => Ok(png),
        Err(cause) => Err(ThumbnailError::Encode(cause)),
    }
}

/// The file type that goes with a file extension given in lower case: `jpg`
/// for `jpg` and `jpeg`, `png`, `psd`, and `tif` for `tif` and `tiff`; none
/// for every other extension.
pub open spec fn file_type_of(lower: Seq<char>) -> Option<Seq<char>> {
    if lower == "jpg"@ || lower == "jpeg"@ {
        Some("jpg"@)
    } else if lower == "png"@ {
        Some("png"@)
    } else if lower == "psd"@ {
        Some("psd"@)
    } else if lower == "tif"@ || lower == "tiff"@ {
        Some("tif"@)
    } else {
        None
    }
}

/// The file type that goes with a file extension given in lower case.
pub fn file_type_for_lowercase(lower: &str) -> (file_type: Option<&'static str>)
    ensures
        match file_type {
            Some(name) => file_type_of(lower@) == Some(name@),
            None => file_type_of(lower@) is None,
        },
{
    if str_eq(lower, "jpg") || str_eq(lower, "jpeg") {
        Some("jpg")
    } else if str_eq(lower, "png") {
        Some("png")
    } else if str_eq(lower, "psd") {
        Some("psd")
    } else if str_eq(lower, "tif") || str_eq(lower, "tiff") {
        Some("tif")
    } else {
        None
    }
}

/// The file type that goes with a file extension, whatever its case.
pub fn get_file_type(ext: &str) -> (file_type: Option<&'static str>)
    ensures
        match file_type {
            Some(name) => file_type_of(lowercased(ext@)) == Some(name@),
            None => file_type_of(lowercased(ext@)) is None,
        },
{
    let lower = to_lowercase(ext);
    file_type_for_lowercase(lower.as_str())
}

/// Whether files with the extension `lower`, given in lower case, are listed
/// and read: `jpg`, `jpeg`, `png`, `psd`, `tif` and `tiff` are.
pub fn is_supported_extension(lower: &str) -> (supported: bool)
    ensures
        supported == file_type_of(lower@) is Some,
{
    file_type_for_lowercase(lower).is_some()
}

/// How a source file is turned into an image.
#[derive(Debug, Clone, Copy, PartialEq, Eq, Structural)]
pub enum SourceKind {
    /// A layered image file, which may carry a preview.
    Layered,
    /// An image file of the given encoding, which is decoded directly.
    Standard(ImageKind),
}

/// How a file with the extension `lower`, given in lower case, is turned
/// into an image; none if the library does not read such files.
pub open spec fn source_kind_of(lower: Seq<char>) -> Option<SourceKind> {
    if lower == "psd"@ {
        Some(SourceKind::Layered)
    } else if lower == "jpg"@ || lower == "jpeg"@ {
        Some(SourceKind::Standard(ImageKind::Jpeg))
    } else if lower == "png"@ {
        Some(SourceKind::Standard(ImageKind::Png))
    } else if lower == "tif"@ || lower == "tiff"@ {
        Some(SourceKind::Standard(ImageKind::Tiff))
    } else {
        None
    }
}

/// How a file with the extension `lower`, given in lower case, is turned
/// into an image.
pub fn source_kind_for_lowercase(lower: &str) -> (kind: Option<SourceKind>)
    ensures
        kind == source_kind_of(lower@),
{
    if str_eq(lower, "psd") {
        Some(SourceKind::Layered)
    } else if str_eq(lower, "jpg") || str_eq(lower, "jpeg") {
        Some(SourceKind::Standard(ImageKind::Jpeg))
    } else if str_eq(lower, "png") {
        Some(SourceKind::Standard(ImageKind::Png))
    } else if str_eq(lower, "tif") || str_eq(lower, "tiff") {
        Some(SourceKind::Standard(ImageKind::Tiff))
    } else {
        None
    }
}

/// The extensions that are read are exactly those that have a file type.
pub proof fn read_exactly_the_typed_extensions(lower: Seq<char>)
    ensures
        source_kind_of(lower) is Some <==> file_type_of(lower) is Some,
{
}

} // verus!
