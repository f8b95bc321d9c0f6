use daidori_manager::commands::export::{
    blank_format_for, convert_to_jpeg, count_exported, create_blank_image, file_name_for,
    get_image_dimensions, page_has_file_type, plan_export, subfolders_to_create, BlankFormat,
    ExportOptions, ExportStep, SourceProbe, DEFAULT_JPEG_QUALITY, DEFAULT_PAGE_HEIGHT,
    DEFAULT_PAGE_WIDTH,
};
use daidori_manager::error::ThumbnailError;
use daidori_manager::image_utils::ValidationError;
use daidori_manager::raster::ImageKind;
use daidori_manager::types::ExportPage;

fn page(page_type: &str, name: &str, source: Option<&str>) -> ExportPage {
    ExportPage {
        source_path: source.map(|s| s.to_string()),
        output_name: name.to_string(),
        page_type: page_type.to_string(),
        subfolder: None,
    }
}

fn in_folder(mut page: ExportPage, folder: &str) -> ExportPage {
    page.subfolder = Some(folder.to_string());
    page
}

fn source(extension: &str, dimensions: Option<(u32, u32)>) -> SourceProbe {
    SourceProbe::new(true, Some(extension), dimensions)
}

fn absent() -> SourceProbe {
    SourceProbe::new(false, None, None)
}

fn copy_all() -> ExportOptions {
    ExportOptions::new(None, None, None)
}

fn convert_all(quality: u8) -> ExportOptions {
    ExportOptions::new(None, Some(true), Some(quality))
}

fn describe(step: &ExportStep) -> String {
    match step {
        ExportStep::Skip => "skip".to_string(),
        ExportStep::Copy { file_name } => format!("copy {}", file_name),
        ExportStep::Move { file_name } => format!("move {}", file_name),
        ExportStep::Convert { file_name, quality, remove_source } => {
            format!("convert {} q{} remove={}", file_name, quality, remove_source)
        }
        ExportStep::Blank { file_name, width, height, format } => {
            format!("blank {} {}x{} {:?}", file_name, width, height, format)
        }
    }
}

fn plan(pages: &[ExportPage], probes: Vec<SourceProbe>, options: ExportOptions) -> Vec<String> {
    plan_export(&pages.to_vec(), &probes, &options).iter().map(describe).collect()
}

fn png_file(width: u32, height: u32) -> Vec<u8> {
    let buffer = image::RgbaImage::from_pixel(width, height, image::Rgba([10, 20, 30, 255]));
    let mut out = std::io::Cursor::new(Vec::new());
    image::DynamicImage::ImageRgba8(buffer).write_to(&mut out, image::ImageFormat::Png).unwrap();
    out.into_inner()
}

#[test]
fn options_default_to_copying() {
    assert_eq!(DEFAULT_JPEG_QUALITY, 95);
    let options = ExportOptions::new(None, None, None);
    assert!(!options.move_files);
    assert!(!options.convert_to_jpg);
    assert_eq!(options.jpg_quality, 95);
    let asked = ExportOptions::new(Some(true), Some(false), Some(80));
    assert!(asked.move_files);
    assert!(!asked.convert_to_jpg);
    assert_eq!(asked.jpg_quality, 80);
}

#[test]
fn probe_keeps_extension_in_lower_case() {
    let probe = SourceProbe::new(true, Some("PNG"), Some((1, 2)));
    assert!(probe.exists);
    assert_eq!(probe.extension, Some("png".to_string()));
    assert_eq!(probe.dimensions, Some((1, 2)));
    assert_eq!(SourceProbe::new(false, None, None).extension, None);
}

#[test]
fn file_pages_are_copied_under_their_extension() {
    let pages = [
        page("file", "001", Some("a.png")),
        page("cover", "000", Some("c.TIF")),
        page("colophon", "999", Some("z.jpeg")),
        page("intermission", "050", Some("i.psd")),
    ];
    let probes = vec![source("png", None), source("TIF", None), source("jpeg", None), source("psd", None)];
    assert_eq!(
        plan(&pages, probes, copy_all()),
        ["copy 001.png", "copy 000.tif", "copy 999.jpeg", "copy 050.psd"]
    );
}

#[test]
fn file_pages_are_moved_when_asked() {
    let pages = [page("file", "001", Some("a.png"))];
    let options = ExportOptions::new(Some(true), None, None);
    assert_eq!(plan(&pages, vec![source("png", None)], options), ["move 001.png"]);
}

#[test]
fn file_without_extension_is_copied_as_png() {
    let pages = [page("file", "001", Some("a"))];
    let probes = vec![SourceProbe::new(true, None, None)];
    assert_eq!(plan(&pages, probes, copy_all()), ["copy 001.png"]);
}

#[test]
fn missing_sources_are_skipped() {
    let pages = [
        page("file", "001", Some("gone.png")),
        page("file", "002", None),
        page("cover", "003", None),
    ];
    let probes = vec![absent(), source("png", None), absent()];
    assert_eq!(plan(&pages, probes, copy_all()), ["skip", "skip", "skip"]);
    assert_eq!(plan(&pages, Vec::new(), copy_all()), ["skip", "skip", "skip"]);
}

#[test]
fn pages_of_unknown_type_are_skipped() {
    let pages = [page("note", "001", Some("a.png")), page("", "002", Some("b.png"))];
    let probes = vec![source("png", None), source("png", None)];
    assert_eq!(plan(&pages, probes, copy_all()), ["skip", "skip"]);
}

#[test]
fn conversion_writes_jpeg_and_skips_layered_files() {
    let pages = [
        page("file", "001", Some("a.png")),
        page("file", "002", Some("b.psd")),
        page("intermission", "003", Some("c.tif")),
    ];
    let probes = vec![source("png", None), source("PSD", None), source("tif", None)];
    assert_eq!(
        plan(&pages, probes, convert_all(80)),
        ["convert 001.jpg q80 remove=false", "skip", "convert 003.jpg q80 remove=false"]
    );
    let pages = [page("file", "001", Some("a.png"))];
    let moving = ExportOptions::new(Some(true), Some(true), None);
    assert_eq!(
        plan(&pages, vec![source("png", None)], moving),
        ["convert 001.jpg q95 remove=true"]
    );
}

#[test]
fn blank_page_without_neighbours_has_the_default_shape() {
    assert_eq!((DEFAULT_PAGE_WIDTH, DEFAULT_PAGE_HEIGHT), (1654, 2339));
    let pages = [page("blank", "001", None)];
    assert_eq!(plan(&pages, vec![absent()], copy_all()), ["blank 001.png 1654x2339 Png"]);
    assert_eq!(plan(&pages, Vec::new(), copy_all()), ["blank 001.png 1654x2339 Png"]);
}

#[test]
fn blank_page_takes_after_the_page_before_it() {
    let pages = [
        page("file", "001", Some("a.tif")),
        page("file", "002", Some("b.jpg")),
        page("blank", "003", None),
        page("file", "004", Some("c.png")),
    ];
    let probes = vec![
        source("tif", Some((100, 200))),
        source("jpg", Some((300, 400))),
        absent(),
        source("png", Some((500, 600))),
    ];
    assert_eq!(
        plan(&pages, probes, copy_all()),
        ["copy 001.tif", "copy 002.jpg", "blank 003.jpg 300x400 Jpeg { quality: 95 }", "copy 004.png"]
    );
}

#[test]
fn blank_page_at_the_front_takes_after_the_page_behind_it() {
    let pages = [
        page("blank", "001", None),
        page("file", "002", None),
        page("file", "003", Some("b.tiff")),
        page("file", "004", Some("c.png")),
    ];
    let probes = vec![absent(), absent(), source("tiff", Some((300, 400))), source("png", Some((5, 6)))];
    assert_eq!(
        plan(&pages, probes, copy_all())[0],
        "blank 001.tiff 300x400 Tiff"
    );
}

#[test]
fn blank_page_of_reference_size_looks_behind_too() {
    // The page before has the size of the first page, so the page behind
    // has the last word on size and extension.
    let pages = [
        page("file", "001", Some("a.png")),
        page("blank", "002", None),
        page("file", "003", Some("c.jpg")),
    ];
    let probes = vec![source("png", Some((100, 200))), absent(), source("jpg", Some((300, 400)))];
    assert_eq!(
        plan(&pages, probes, copy_all())[1],
        "blank 002.jpg 300x400 Jpeg { quality: 95 }"
    );
}

#[test]
fn blank_page_ignores_what_layered_files_and_failed_measurements_say() {
    let pages = [
        page("file", "001", Some("a.tif")),
        page("file", "002", Some("b.psd")),
        page("blank", "003", None),
    ];
    let probes = vec![source("tif", Some((100, 200))), source("psd", Some((300, 400))), absent()];
    assert_eq!(plan(&pages, probes, copy_all())[2], "blank 003.tif 300x400 Tiff");
    let unmeasured = vec![source("tif", Some((100, 200))), source("jpg", None), absent()];
    assert_eq!(
        plan(&pages, unmeasured, copy_all())[2],
        "blank 003.jpg 100x200 Jpeg { quality: 95 }"
    );
}

#[test]
fn blank_page_is_jpeg_under_conversion() {
    let pages = [page("file", "001", Some("a.tif")), page("blank", "002", None)];
    let probes = vec![source("tif", Some((100, 200))), absent()];
    assert_eq!(
        plan(&pages, probes, convert_all(70))[1],
        "blank 002.jpg 100x200 Jpeg { quality: 70 }"
    );
}

#[test]
fn blank_page_with_foreign_extension_has_no_format() {
    let pages = [page("file", "001", Some("a.bmp")), page("blank", "002", None)];
    let probes = vec![source("bmp", Some((100, 200))), absent()];
    assert_eq!(plan(&pages, probes, copy_all())[1], "blank 002.bmp 100x200 Unsupported");
}

#[test]
fn exported_pages_are_counted() {
    let pages = vec![
        page("file", "001", Some("a.png")),
        page("file", "002", Some("gone.png")),
        page("blank", "003", None),
        page("note", "004", None),
        page("file", "005", Some("b.psd")),
    ];
    let probes = vec![source("png", None), absent(), absent(), absent(), source("psd", None)];
    let copied = plan_export(&pages, &probes, &copy_all());
    assert_eq!(count_exported(&copied), 3);
    let converted = plan_export(&pages, &probes, &convert_all(90));
    assert_eq!(count_exported(&converted), 2);
    assert_eq!(count_exported(&Vec::new()), 0);
}

#[test]
fn subfolders_are_listed_once_in_order() {
    let pages = vec![
        in_folder(page("file", "001", None), "ch2"),
        page("file", "002", None),
        in_folder(page("file", "003", None), "ch1"),
        in_folder(page("file", "004", None), "ch2"),
        in_folder(page("file", "005", None), "ch1"),
        in_folder(page("file", "006", None), "ch3"),
    ];
    assert_eq!(subfolders_to_create(&pages), ["ch2", "ch1", "ch3"]);
    assert!(subfolders_to_create(&vec![page("file", "001", None)]).is_empty());
    assert!(subfolders_to_create(&Vec::new()).is_empty());
}

#[test]
fn output_files_are_named_by_page_and_extension() {
    assert_eq!(file_name_for("001", "png"), "001.png");
    assert_eq!(file_name_for("", ""), ".");
    assert!(page_has_file_type("file"));
    assert!(page_has_file_type("cover"));
    assert!(page_has_file_type("colophon"));
    assert!(page_has_file_type("intermission"));
    assert!(!page_has_file_type("blank"));
    assert!(!page_has_file_type("File"));
}

#[test]
fn blank_formats_go_by_extension() {
    assert_eq!(blank_format_for("jpg"), BlankFormat::Jpeg { quality: 95 });
    assert_eq!(blank_format_for("jpeg"), BlankFormat::Jpeg { quality: 95 });
    assert_eq!(blank_format_for("png"), BlankFormat::Png);
    assert_eq!(blank_format_for("tif"), BlankFormat::Tiff);
    assert_eq!(blank_format_for("tiff"), BlankFormat::Tiff);
    assert_eq!(blank_format_for("bmp"), BlankFormat::Unsupported);
    assert_eq!(blank_format_for(""), BlankFormat::Unsupported);
}

#[test]
fn blank_pages_are_white() {
    for (format, kind) in [
        (BlankFormat::Png, image::ImageFormat::Png),
        (BlankFormat::Tiff, image::ImageFormat::Tiff),
        (BlankFormat::Jpeg { quality: 95 }, image::ImageFormat::Jpeg),
    ] {
        let file = create_blank_image(20, 30, format).unwrap();
        let image = image::load_from_memory_with_format(&file, kind).unwrap();
        assert_eq!((image.width(), image.height()), (20, 30));
        assert_eq!(image.color(), image::ColorType::Rgb8);
        assert!(image.to_rgb8().pixels().all(|p| p.0 == [255, 255, 255]));
    }
}

#[test]
fn blank_pages_need_an_acceptable_size_and_a_format() {
    match create_blank_image(0, 30, BlankFormat::Png) {
        Err(ThumbnailError::Validation(reason)) => assert_eq!(reason, ValidationError::ZeroDimension),
        other => panic!("expected a validation error, got {:?}", other),
    }
    match create_blank_image(70000, 30, BlankFormat::Unsupported) {
        Err(ThumbnailError::Validation(reason)) => {
            assert_eq!(reason, ValidationError::DimensionTooLarge { width: 70000, height: 30 })
        }
        other => panic!("expected a validation error, got {:?}", other),
    }
    assert!(matches!(
        create_blank_image(20, 30, BlankFormat::Unsupported),
        Err(ThumbnailError::UnsupportedFormat(_))
    ));
}

#[test]
fn images_are_measured() {
    assert_eq!(get_image_dimensions(&png_file(30, 20), ImageKind::Png).unwrap(), (30, 20));
    assert!(matches!(
        get_image_dimensions(b"garbage", ImageKind::Png),
        Err(ThumbnailError::ImageDecode(_))
    ));
    match get_image_dimensions(&png_file(70000, 1), ImageKind::Png) {
        Err(ThumbnailError::Validation(reason)) => {
            assert_eq!(reason, ValidationError::DimensionTooLarge { width: 70000, height: 1 })
        }
        other => panic!("expected a validation error, got {:?}", other),
    }
}

#[test]
fn images_are_converted_to_jpeg() {
    let jpeg = convert_to_jpeg(&png_file(30, 20), ImageKind::Png, 90).unwrap();
    assert_eq!(&jpeg[..2], [0xff, 0xd8]);
    let image = image::load_from_memory_with_format(&jpeg, image::ImageFormat::Jpeg).unwrap();
    assert_eq!((image.width(), image.height()), (30, 20));
    let smaller = convert_to_jpeg(&png_file(30, 20), ImageKind::Png, 10).unwrap();
    let larger = convert_to_jpeg(&gradient_png(64, 64), ImageKind::Png, 100).unwrap();
    let lesser = convert_to_jpeg(&gradient_png(64, 64), ImageKind::Png, 10).unwrap();
    assert!(lesser.len() < larger.len());
    assert!(!smaller.is_empty());
    assert!(matches!(
        convert_to_jpeg(b"garbage", ImageKind::Png, 90),
        Err(ThumbnailError::ImageDecode(_))
    ));
}

fn gradient_png(width: u32, height: u32) -> Vec<u8> {
    let mut buffer = image::RgbaImage::new(width, height);
    for (x, y, pixel) in buffer.enumerate_pixels_mut() {
        *pixel = image::Rgba([(x * 4) as u8, (y * 4) as u8, ((x * y) % 256) as u8, 255]);
    }
    let mut out = std::io::Cursor::new(Vec::new());
    image::DynamicImage::ImageRgba8(buffer).write_to(&mut out, image::ImageFormat::Png).unwrap();
    out.into_inner()
}
