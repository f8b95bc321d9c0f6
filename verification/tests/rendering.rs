use daidori_manager::error::ThumbnailError;
use daidori_manager::image_utils::{
    create_thumbnail, file_type_for_lowercase, get_file_type, is_supported_extension,
    source_kind_for_lowercase, SourceKind, ValidationError,
};
use daidori_manager::raster::{encode_jpeg, encode_opaque, encode_png, ImageKind, Raster};
use daidori_manager::thumbnail::generate_image_thumbnail;
use daidori_manager::thumbnail::psd::generate_composite_thumbnail;

fn gradient(width: u32, height: u32) -> Vec<u8> {
    let mut pixels = Vec::new();
    for y in 0..height {
        for x in 0..width {
            pixels.extend_from_slice(&[(x % 256) as u8, (y % 256) as u8, 128, 255]);
        }
    }
    pixels
}

fn encoded(width: u32, height: u32, format: image::ImageFormat) -> Vec<u8> {
    let buffer = image::RgbaImage::from_raw(width, height, gradient(width, height)).unwrap();
    let image = image::DynamicImage::ImageRgba8(buffer);
    let mut out = std::io::Cursor::new(Vec::new());
    image.write_to(&mut out, format).unwrap();
    out.into_inner()
}

fn size_of_png(png: &[u8]) -> (u32, u32) {
    assert_eq!(&png[..8], b"\x89PNG\r\n\x1a\n");
    let image = image::load_from_memory_with_format(png, image::ImageFormat::Png).unwrap();
    (image.width(), image.height())
}

#[test]
fn raster_takes_exactly_its_samples() {
    let raster = Raster::from_rgba(2, 3, vec![7u8; 24]).unwrap();
    assert_eq!((raster.width(), raster.height()), (2, 3));
    assert_eq!(raster.pixels().len(), 24);
    let longer = Raster::from_rgba(2, 3, vec![7u8; 30]).unwrap();
    assert_eq!(longer.pixels().len(), 24);
    assert!(Raster::from_rgba(2, 3, vec![7u8; 23]).is_none());
    assert!(Raster::from_rgba(u32::MAX, u32::MAX, vec![7u8; 64]).is_none());
    let empty = Raster::from_rgba(0, 5, vec![1, 2, 3]).unwrap();
    assert_eq!(empty.pixels().len(), 0);
}

#[test]
fn opaque_samples_leave_the_alpha_out() {
    let raster = Raster::from_rgba(2, 1, vec![1, 2, 3, 4, 5, 6, 7, 8]).unwrap();
    assert_eq!(raster.opaque_samples(), vec![1, 2, 3, 5, 6, 7]);
    let empty = Raster::from_rgba(0, 0, Vec::new()).unwrap();
    assert!(empty.opaque_samples().is_empty());
    let white = Raster::white(3, 2);
    assert_eq!((white.width(), white.height()), (3, 2));
    assert_eq!(white.pixels(), &vec![255u8; 24]);
    assert_eq!(white.opaque_samples(), vec![255u8; 18]);
}

#[test]
fn encoders_write_what_decodes_to_the_same_picture() {
    let pixels = gradient(5, 4);
    let png = encode_png(Raster::from_rgba(5, 4, pixels.clone()).unwrap()).unwrap();
    let back = image::load_from_memory_with_format(&png, image::ImageFormat::Png).unwrap();
    assert_eq!(back.color(), image::ColorType::Rgba8);
    assert_eq!(back.into_rgba8().into_raw(), pixels);
    let opaque: Vec<u8> = pixels.chunks(4).flat_map(|p| [p[0], p[1], p[2]]).collect();
    for (kind, format) in [
        (ImageKind::Png, image::ImageFormat::Png),
        (ImageKind::Tiff, image::ImageFormat::Tiff),
    ] {
        let file = encode_opaque(Raster::from_rgba(5, 4, pixels.clone()).unwrap(), kind).unwrap();
        let back = image::load_from_memory_with_format(&file, format).unwrap();
        assert_eq!(back.color(), image::ColorType::Rgb8);
        assert_eq!(back.into_rgb8().into_raw(), opaque);
    }
    let jpeg = encode_jpeg(Raster::from_rgba(5, 4, pixels).unwrap(), 90).unwrap();
    let back = image::load_from_memory_with_format(&jpeg, image::ImageFormat::Jpeg).unwrap();
    assert_eq!((back.width(), back.height()), (5, 4));
    assert_eq!(back.color(), image::ColorType::Rgb8);
}

#[test]
fn wide_image_is_fitted_by_width() {
    let raster = Raster::from_rgba(1000, 500, gradient(1000, 500)).unwrap();
    let png = create_thumbnail(raster).unwrap();
    assert_eq!(size_of_png(&png), (480, 240));
}

#[test]
fn tall_image_is_fitted_by_height() {
    let raster = Raster::from_rgba(100, 1000, gradient(100, 1000)).unwrap();
    let png = create_thumbnail(raster).unwrap();
    assert_eq!(size_of_png(&png), (67, 672));
}

#[test]
fn page_shaped_image_fills_the_box() {
    let raster = Raster::from_rgba(960, 1344, gradient(960, 1344)).unwrap();
    let png = create_thumbnail(raster).unwrap();
    assert_eq!(size_of_png(&png), (480, 672));
}

#[test]
fn small_image_is_scaled_up() {
    let raster = Raster::from_rgba(10, 10, gradient(10, 10)).unwrap();
    let png = create_thumbnail(raster).unwrap();
    assert_eq!(size_of_png(&png), (480, 480));
}

#[test]
fn rendering_is_repeatable() {
    let first = create_thumbnail(Raster::from_rgba(64, 32, gradient(64, 32)).unwrap()).unwrap();
    let second = create_thumbnail(Raster::from_rgba(64, 32, gradient(64, 32)).unwrap()).unwrap();
    assert_eq!(first, second);
}

#[test]
fn png_file_is_rendered() {
    let source = encoded(300, 100, image::ImageFormat::Png);
    let png = generate_image_thumbnail(&source, ImageKind::Png).unwrap();
    assert_eq!(size_of_png(&png), (480, 160));
}

#[test]
fn jpeg_file_is_rendered() {
    let source = encoded(300, 100, image::ImageFormat::Jpeg);
    let png = generate_image_thumbnail(&source, ImageKind::Jpeg).unwrap();
    assert_eq!(size_of_png(&png), (480, 160));
}

#[test]
fn tiff_file_is_rendered() {
    let source = encoded(300, 100, image::ImageFormat::Tiff);
    let png = generate_image_thumbnail(&source, ImageKind::Tiff).unwrap();
    assert_eq!(size_of_png(&png), (480, 160));
}

#[test]
fn file_of_another_kind_is_not_decoded() {
    let source = encoded(30, 10, image::ImageFormat::Png);
    assert!(matches!(
        generate_image_thumbnail(&source, ImageKind::Jpeg),
        Err(ThumbnailError::ImageDecode(_))
    ));
    assert!(matches!(
        generate_image_thumbnail(b"not an image", ImageKind::Png),
        Err(ThumbnailError::ImageDecode(_))
    ));
    assert!(matches!(
        generate_image_thumbnail(&[], ImageKind::Tiff),
        Err(ThumbnailError::ImageDecode(_))
    ));
}

#[test]
fn decoder_text_is_handed_on() {
    let said = image::load_from_memory_with_format(b"not an image", image::ImageFormat::Png)
        .unwrap_err()
        .to_string();
    assert!(!said.is_empty());
    match generate_image_thumbnail(b"not an image", ImageKind::Png) {
        Err(error) => {
            assert!(matches!(&error, ThumbnailError::ImageDecode(cause) if *cause == said));
            assert_eq!(error.message(), format!("画像読み込みエラー: {}", said));
        }
        Ok(_) => panic!("expected a decode error"),
    }
}

#[test]
fn encoder_text_is_handed_on() {
    let raster = Raster::from_rgba(70000, 1, vec![0u8; 280_000]).unwrap();
    let buffer = image::RgbImage::from_raw(70000, 1, vec![0u8; 210_000]).unwrap();
    let mut out = Vec::new();
    let encoder = image::codecs::jpeg::JpegEncoder::new_with_quality(&mut out, 90);
    let said = image::DynamicImage::ImageRgb8(buffer)
        .write_with_encoder(encoder)
        .unwrap_err()
        .to_string();
    assert_eq!(encode_jpeg(raster, 90), Err(said));
}

#[test]
fn oversized_image_file_is_rejected() {
    let source = encoded(70000, 1, image::ImageFormat::Png);
    match generate_image_thumbnail(&source, ImageKind::Png) {
        Err(ThumbnailError::Validation(reason)) => {
            assert_eq!(reason, ValidationError::DimensionTooLarge { width: 70000, height: 1 })
        }
        other => panic!("expected a validation error, got {:?}", other),
    }
}

#[test]
fn flattened_layers_are_rendered() {
    let png = generate_composite_thumbnail(200, 100, gradient(200, 100)).unwrap();
    assert_eq!(size_of_png(&png), (480, 240));
}

#[test]
fn flattened_layers_must_hold_every_pixel() {
    let mut rgba = gradient(20, 10);
    rgba.pop();
    assert!(matches!(
        generate_composite_thumbnail(20, 10, rgba),
        Err(ThumbnailError::PixelData)
    ));
}

#[test]
fn flattened_layers_are_validated_first() {
    match generate_composite_thumbnail(0, 10, Vec::new()) {
        Err(ThumbnailError::Validation(reason)) => assert_eq!(reason, ValidationError::ZeroDimension),
        other => panic!("expected a validation error, got {:?}", other),
    }
    match generate_composite_thumbnail(20000, 20000, Vec::new()) {
        Err(ThumbnailError::Validation(reason)) => {
            assert_eq!(reason, ValidationError::TooManyPixels { pixel_count: 400_000_000 })
        }
        other => panic!("expected a validation error, got {:?}", other),
    }
}

#[test]
fn file_types_go_by_extension() {
    assert_eq!(get_file_type("jpg"), Some("jpg"));
    assert_eq!(get_file_type("jpeg"), Some("jpg"));
    assert_eq!(get_file_type("png"), Some("png"));
    assert_eq!(get_file_type("psd"), Some("psd"));
    assert_eq!(get_file_type("tif"), Some("tif"));
    assert_eq!(get_file_type("tiff"), Some("tif"));
    assert_eq!(get_file_type("gif"), None);
    assert_eq!(get_file_type(""), None);
}

#[test]
fn file_types_ignore_case() {
    assert_eq!(get_file_type("JPG"), Some("jpg"));
    assert_eq!(get_file_type("Jpeg"), Some("jpg"));
    assert_eq!(get_file_type("PNG"), Some("png"));
    assert_eq!(get_file_type("PsD"), Some("psd"));
    assert_eq!(get_file_type("TIFF"), Some("tif"));
    assert_eq!(file_type_for_lowercase("JPG"), None);
}

#[test]
fn supported_extensions_are_the_typed_ones() {
    for ext in ["jpg", "jpeg", "png", "psd", "tif", "tiff"] {
        assert!(is_supported_extension(ext));
    }
    for ext in ["", "gif", "bmp", "jpg ", ".jpg", "JPG"] {
        assert!(!is_supported_extension(ext));
    }
}

#[test]
fn source_kinds_go_by_extension() {
    assert_eq!(source_kind_for_lowercase("psd"), Some(SourceKind::Layered));
    assert_eq!(source_kind_for_lowercase("jpg"), Some(SourceKind::Standard(ImageKind::Jpeg)));
    assert_eq!(source_kind_for_lowercase("jpeg"), Some(SourceKind::Standard(ImageKind::Jpeg)));
    assert_eq!(source_kind_for_lowercase("png"), Some(SourceKind::Standard(ImageKind::Png)));
    assert_eq!(source_kind_for_lowercase("tif"), Some(SourceKind::Standard(ImageKind::Tiff)));
    assert_eq!(source_kind_for_lowercase("tiff"), Some(SourceKind::Standard(ImageKind::Tiff)));
    assert_eq!(source_kind_for_lowercase("gif"), None);
    assert_eq!(source_kind_for_lowercase(""), None);
}

#[test]
fn error_messages_are_worded_for_the_user() {
    assert_eq!(ThumbnailError::FileNotFound.message(), "ファイルが存在しません");
    assert_eq!(
        ThumbnailError::UnsupportedFormat("gif".to_string()).message(),
        "サポートされていないファイル形式: gif"
    );
    assert_eq!(
        ThumbnailError::ImageDecode("bad".to_string()).message(),
        "画像読み込みエラー: bad"
    );
    assert_eq!(ThumbnailError::PsdDecode("bad".to_string()).message(), "PSD読み込みエラー: bad");
    assert_eq!(ThumbnailError::PixelData.message(), "画像データの変換に失敗");
    assert_eq!(
        ThumbnailError::Validation(ValidationError::ZeroDimension).message(),
        "無効な画像サイズ: 幅または高さが0"
    );
    assert_eq!(
        ThumbnailError::Encode("bad".to_string()).message(),
        "サムネイル書き出しエラー: bad"
    );
    assert_eq!(ThumbnailError::Io("denied".to_string()).message(), "denied");
}
