use vstd::prelude::*;

verus! {

/// A decoded image as a mathematical value: its size and its samples.
pub struct RasterView {
    pub width: u32,
    pub height: u32,
    /// Red, green, blue and alpha of each pixel, row by row from the top.
    pub pixels: Seq<u8>,
}

/// A decoded image: eight-bit red, green, blue and alpha samples, row by row
/// from the top.
pub struct Raster {
    width: u32,
    height: u32,
    pixels: Vec<u8>,
}

impl View for Raster {
    type V = RasterView;

    closed spec fn view(&self) -> RasterView {
        RasterView { width: self.width, height: self.height, pixels: self.pixels@ }
    }
}

/// The encodings of images that the library decodes and writes.
#[derive(Debug, Clone, Copy, PartialEq, Eq, Structural)]
pub enum ImageKind {
    Jpeg,
    Png,
    Tiff,
}

/// Number of samples that an image of the given size holds: four for each
/// pixel.
pub open spec fn sample_count(width: nat, height: nat) -> nat {
    4 * width * height
}

impl RasterView {
    /// Whether the image holds exactly the samples of its pixels.
    pub open spec fn wf(self) -> bool {
        self.pixels.len() == sample_count(self.width as nat, self.height as nat)
    }
}

impl Raster {
    /// The invariant of a raster: it holds exactly the samples of its
    /// pixels.
    pub open spec fn wf(&self) -> bool {
        self@.wf()
    }

    /// The raster of the given size whose samples are the first
    /// `4 * width * height` bytes of `pixels`; none if `pixels` holds fewer.
    pub fn from_rgba(width: u32, height: u32, pixels: Vec<u8>) -> (raster: Option<Raster>)
        ensures
            raster is Some <==> sample_count(width as nat, height as nat) <= pixels@.len(),
            raster matches Some(r) ==> r.wf() && r@ == (RasterView {
                width,
                height,
                pixels: pixels@.take(sample_count(width as nat, height as nat) as int),
            }),
    {
        assert(width * height <= 0xffff_ffff * 0xffff_ffff) by (nonlinear_arith)
            requires
                0 <= width <= 0xffff_ffff,
                0 <= height <= 0xffff_ffff,
        ;
        let pixel_count: u64 = (width as u64) * (height as u64);
        assert(4 * width * height == 4 * (width * height)) by (nonlinear_arith);
        if pixel_count > (pixels.len() / 4) as u64 {
            return None;
        }
        let mut pixels = pixels;
        pixels.truncate(4 * (pixel_count as usize));
        Some(Raster { width, height, pixels })
    }

    /// The raster of the given size whose pixels are all white and opaque.
    pub fn white(width: u32, height: u32) -> (raster: Raster)
        requires
            sample_count(width as nat, height as nat) <= usize::MAX,
        ensures
            raster.wf(),
            raster@ == white_raster(width, height),
    {
        assert(width * height <= 0xffff_ffff * 0xffff_ffff) by (nonlinear_arith)
            requires
                0 <= width <= 0xffff_ffff,
                0 <= height <= 0xffff_ffff,
        ;
        assert(4 * width * height == 4 * (width * height)) by (nonlinear_arith);
        let pixel_count: u64 = (width as u64) * (height as u64);
        let pixels = vec![255u8; 4 * (pixel_count as usize)];
        assert(pixels@ =~= white_raster(width, height).pixels);
        Raster { width, height, pixels }
    }

    /// The width in pixels.
    pub fn width(&self) -> (width: u32)
        ensures
            width == self@.width,
    {
        self.width
    }

    /// The height in pixels.
    pub fn height(&self) -> (height: u32)
        ensures
            height == self@.height,
    {
        self.height
    }

    /// The samples: red, green, blue and alpha of each pixel.
    pub fn pixels(&self) -> (pixels: &Vec<u8>)
        ensures
            pixels@ == self@.pixels,
    {
        &self.pixels
    }
}

/// The image of the given size whose pixels are all white and opaque.
pub open spec fn white_raster(width: u32, height: u32) -> RasterView {
    RasterView {
        width,
        height,
        pixels: Seq::new(sample_count(width as nat, height as nat), |i: int| 255u8),
    }
}

/// What `image::load_from_memory_with_format` makes of `data` read as
/// `kind`: the decoded image, turned into eight-bit RGBA, or the text of the
/// error that it reports.
pub uninterp spec fn decoded_image(data: Seq<u8>, kind: ImageKind) -> Result<RasterView, Seq<char>>;

/// The image that `image::DynamicImage::resize` with the triangle filter
/// makes of `source` for a box of `nwidth` by `nheight` pixels.
pub uninterp spec fn resampled(source: RasterView, nwidth: u32, nheight: u32) -> RasterView;

/// How the samples of an image are laid out.
#[derive(Debug, Clone, Copy, PartialEq, Eq, Structural)]
pub enum PixelLayout {
    /// Red, green and blue of each pixel.
    Rgb,
    /// Red, green, blue and alpha of each pixel.
    Rgba,
}

impl PixelLayout {
    /// The number of samples of each pixel.
    pub open spec fn channels(self) -> nat {
        match self {
            PixelLayout::Rgb => 3,
            PixelLayout::Rgba => 4,
        }
    }
}

/// What `image::DynamicImage::write_to` makes, in the encoding `kind`, of
/// the image of `width` by `height` pixels that holds `samples` in the given
/// layout: the file, or the text of the error that it reports.
pub uninterp spec fn image_file(
    samples: Seq<u8>,
    width: u32,
    height: u32,
    layout: PixelLayout,
    kind: ImageKind,
) -> Result<Seq<u8>, Seq<char>>;

/// What `image::codecs::jpeg::JpegEncoder` makes, at the given quality, of
/// the image of `width` by `height` pixels that holds the red, green and
/// blue samples `samples`: the JPEG file, or the text of the error that it
/// reports.
pub uninterp spec fn jpeg_file(samples: Seq<u8>, width: u32, height: u32, quality: u8) -> Result<
    Seq<u8>,
    Seq<char>,
>;

/// A file, or the text of the error that stood in its way, as mathematical
/// values.
pub open spec fn file_view(file: Result<Vec<u8>, String>) -> Result<Seq<u8>, Seq<char>> {
    match file {
        Ok(bytes) => Ok(bytes@),
        Err(cause) => Err(cause@),
    }
}

/// The red, green and blue samples of `pixels`, which holds red, green,
/// blue and alpha of each pixel.
pub open spec fn without_alpha(pixels: Seq<u8>) -> Seq<u8> {
    Seq::new((pixels.len() / 4 * 3) as nat, |i: int| pixels[i / 3 * 4 + i % 3])
}

/// The PNG file of `raster`, alpha channel included, or the text of the
/// encoder's error.
pub open spec fn png_encoding(raster: RasterView) -> Result<Seq<u8>, Seq<char>> {
    image_file(raster.pixels, raster.width, raster.height, PixelLayout::Rgba, ImageKind::Png)
}

/// The file of the colours of `raster`, without its alpha channel, in the
/// encoding `kind`, or the text of the encoder's error.
pub open spec fn opaque_encoding(raster: RasterView, kind: ImageKind) -> Result<
    Seq<u8>,
    Seq<char>,
> {
    image_file(without_alpha(raster.pixels), raster.width, raster.height, PixelLayout::Rgb, kind)
}

/// The JPEG file of the colours of `raster` at the given quality, or the
/// text of the encoder's error.
pub open spec fn jpeg_encoding(raster: RasterView, quality: u8) -> Result<Seq<u8>, Seq<char>> {
    jpeg_file(without_alpha(raster.pixels), raster.width, raster.height, quality)
}

/// Largest side of a box that [`resize_raster`] takes.
pub const MAX_BOX_SIDE: u32 = 16384;

/// `image::load_from_memory_with_format`, followed by
/// `DynamicImage::into_rgba8`: decodes `data` as an image of the given kind.
/// The decoder reports what it cannot read as an error, whose text comes
/// back; the samples that come back are exactly those of the decoded size.
#[verifier::external_body]
pub(crate) fn decode_image(data: &[u8], kind: ImageKind) -> (decoded: Result<Raster, String>)
    ensures
        match decoded {
            Ok(raster) => raster.wf() && decoded_image(data@, kind) == Ok::<
                RasterView,
                Seq<char>,
            >(raster@),
            Err(cause) => decoded_image(data@, kind) == Err::<RasterView, Seq<char>>(cause@),
        },
{
    let format = match kind {
        ImageKind::Jpeg => image::ImageFormat::Jpeg,
        ImageKind::Png => image::ImageFormat::Png,
        ImageKind::Tiff => image::ImageFormat::Tiff,
    };
    match image::load_from_memory_with_format(data, format) {
        Ok(decoded) => {
            let rgba = decoded.into_rgba8();
            Ok(Raster { width: rgba.width(), height: rgba.height(), pixels: rgba.into_raw() })
        },
        Err(cause) => Err(cause.to_string()),
    }
}

/// `image::DynamicImage::resize` with `FilterType::Triangle`: scales
/// `source`, keeping its aspect ratio, to the largest size that fits a box
/// of `nwidth` by `nheight` pixels. The result is at least one pixel wide
/// and high and no larger than the box, and the samples that come back are
/// exactly those of the new size.
#[verifier::external_body]
pub(crate) fn resize_raster(source: Raster, nwidth: u32, nheight: u32) -> (resized: Raster)
    requires
        source.wf(),
        source@.width > 0,
        source@.height > 0,
        0 < nwidth <= MAX_BOX_SIDE,
        0 < nheight <= MAX_BOX_SIDE,
    ensures
        resized.wf(),
        resized@ == resampled(source@, nwidth, nheight),
        1 <= resized@.width <= nwidth,
        1 <= resized@.height <= nheight,
{
    let buffer = image::RgbaImage::from_raw(source.width, source.height, source.pixels).unwrap();
    let resized = image::DynamicImage::ImageRgba8(buffer).resize(
        nwidth,
        nheight,
        image::imageops::FilterType::Triangle,
    ).into_rgba8();
    Raster { width: resized.width(), height: resized.height(), pixels: resized.into_raw() }
}

/// `image::DynamicImage::write_to`: encodes the image of `width` by `height`
/// pixels that holds `samples` in the given layout as a file of the given
/// kind in memory. What the encoder cannot write it reports as an error,
/// whose text comes back.
#[verifier::external_body]
pub(crate) fn write_image(
    samples: Vec<u8>,
    width: u32,
    height: u32,
    layout: PixelLayout,
    kind: ImageKind,
) -> (file: Result<Vec<u8>, String>)
    requires
        samples@.len() == layout.channels() * width * height,
    ensures
        file_view(file) == image_file(samples@, width, height, layout, kind),
{
    let format = match kind {
        ImageKind::Jpeg => image::ImageFormat::Jpeg,
        ImageKind::Png => image::ImageFormat::Png,
        ImageKind::Tiff => image::ImageFormat::Tiff,
    };
    let picture = match layout {
        PixelLayout::Rgb => image::RgbImage::from_raw(width, height, samples).unwrap().into(),
        PixelLayout::Rgba => image::RgbaImage::from_raw(width, height, samples).unwrap().into(),
    };
    let mut out = std::io::Cursor::new(Vec::new());
    match image::DynamicImage::write_to(&picture, &mut out, format) {
        Ok(()) => Ok(out.into_inner()),
        Err(cause) => Err(cause.to_string()),
    }
}

/// `image::codecs::jpeg::JpegEncoder::new_with_quality` and
/// `image::DynamicImage::write_with_encoder`: encodes the image of `width`
/// by `height` pixels that holds the red, green and blue samples `samples`
/// as a JPEG file in memory. The encoder takes a quality from 1 to 100 and
/// brings any other into that range. What it cannot write it reports as an
/// error, whose text comes back.
#[verifier::external_body]
pub(crate) fn write_jpeg(samples: Vec<u8>, width: u32, height: u32, quality: u8) -> (file: Result<
    Vec<u8>,
    String,
>)
    requires
        samples@.len() == 3 * width * height,
    ensures
        file_view(file) == jpeg_file(samples@, width, height, quality),
{
    let picture = image::RgbImage::from_raw(width, height, samples).unwrap();
    let mut out = Vec::new();
    let encoder = image::codecs::jpeg::JpegEncoder::new_with_quality(&mut out, quality);
    match image::DynamicImage::ImageRgb8(picture).write_with_encoder(encoder) {
        Ok(()) => Ok(out),
        Err(cause) => Err(cause.to_string()),
    }
}

impl Raster {
    /// The red, green and blue samples of the raster.
    pub fn opaque_samples(&self) -> (samples: Vec<u8>)
        requires
            self.wf(),
        ensures
            samples@ == without_alpha(self@.pixels),
            samples@.len() == 3 * self@.width * self@.height,
    {
        let total = self.pixels.len();
        let count = total / 4;
        let mut samples: Vec<u8> = Vec::new();
        let mut pixel: usize = 0;
        while pixel < count
            invariant
                total == self.pixels@.len(),
                count == total / 4,
                pixel <= count,
                samples@.len() == 3 * pixel,
                forall|i: int|
                    0 <= i < 3 * pixel ==> #[trigger] samples@[i] == self.pixels@[i / 3 * 4 + i % 3],
            decreases count - pixel,
        {
            assert(4 * pixel + 3 < total);
            samples.push(self.pixels[4 * pixel]);
            samples.push(self.pixels[4 * pixel + 1]);
            samples.push(self.pixels[4 * pixel + 2]);
            pixel += 1;
        }
        proof {
            assert(4 * self@.width * self@.height == 4 * (self@.width * self@.height))
                by (nonlinear_arith);
            assert(3 * self@.width * self@.height == 3 * (self@.width * self@.height))
                by (nonlinear_arith);
            assert(samples@ =~= without_alpha(self@.pixels));
        }
        samples
    }
}

/// Encodes a raster, alpha channel included, as a PNG file.
pub fn encode_png(raster: Raster) -> (encoded: Result<Vec<u8>, String>)
    requires
        raster.wf(),
    ensures
        file_view(encoded) == png_encoding(raster@),
{
    let width = raster.width;
    let height = raster.height;
    write_image(raster.pixels, width, height, PixelLayout::Rgba, ImageKind::Png)
}

/// Encodes the colours of a raster, without its alpha channel, as a file of
/// the given kind.
pub fn encode_opaque(raster: Raster, kind: ImageKind) -> (encoded: Result<Vec<u8>, String>)
    requires
        raster.wf(),
    ensures
        file_view(encoded) == opaque_encoding(raster@, kind),
{
    write_image(raster.opaque_samples(), raster.width, raster.height, PixelLayout::Rgb, kind)
}

/// Encodes the colours of a raster as a JPEG file of the given quality.
pub fn encode_jpeg(raster: Raster, quality: u8) -> (encoded: Result<Vec<u8>, String>)
    requires
        raster.wf(),
    ensures
        file_view(encoded) == jpeg_encoding(raster@, quality),
{
    write_jpeg(raster.opaque_samples(), raster.width, raster.height, quality)
}

} // verus!
