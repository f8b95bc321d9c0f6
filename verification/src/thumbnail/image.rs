use crate::error::{outcome_view, Failure, ThumbnailError};
use crate::image_utils::{create_thumbnail, thumbnail_of, validate_dimensions, validation_outcome};
use crate::raster::{decode_image, decoded_image, ImageKind, Raster, RasterView};
use vstd::prelude::*;

verus! {

/// How rendering a decoded image ends: its dimensions are validated, then it
/// is scaled and encoded.
pub open spec fn rendering_of_image(image: RasterView) -> Result<Seq<u8>, Failure> {
    match validation_outcome(image.width, image.height) {
        Err(reason) => Err(Failure::Validation(reason)),
        Ok(()) => thumbnail_of(image),
    }
}

/// How making the thumbnail of an image file ends: the file is decoded, the
/// dimensions of the image are validated, and the image is rendered. A file
/// that does not decode ends it with the decoder's text.
pub open spec fn image_thumbnail(data: Seq<u8>, kind: ImageKind) -> Result<Seq<u8>, Failure> {
    match decoded_image(data, kind) {
        Err(cause) => Err(Failure::ImageDecode(cause)),
        Ok(image) => rendering_of_image(image),
    }
}

/// Validates the dimensions of a decoded image and renders its thumbnail.
pub fn render_validated(image: Raster) -> (thumbnail: Result<Vec<u8>, ThumbnailError>)
    requires
        image.wf(),
    ensures
        outcome_view(thumbnail) == rendering_of_image(image@),
{
    if let Err(reason) = validate_dimensions(image.width(), image.height()) {
        return Err(ThumbnailError::Validation(reason));
    }
    create_thumbnail(image)
}

/// Makes the thumbnail of an image file from the bytes of the file.
pub fn generate_image_thumbnail(data: &[u8], kind: ImageKind) -> (thumbnail: Result<
    Vec<u8>,
    ThumbnailError,
>)
    ensures
        outcome_view(thumbnail) == image_thumbnail(data@, kind),
{
    let image = match decode_image(data, kind) {
        Ok(image) => image,
        Err(cause) => return Err(ThumbnailError::ImageDecode(cause)),
    };
    render_validated(image)
}

} // verus!
