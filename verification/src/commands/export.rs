use crate::error::{outcome_view, Failure, ThumbnailError};
use crate::image_utils::{validate_dimensions, validation_outcome};
use crate::raster::{
    decode_image, decoded_image, encode_jpeg, encode_opaque, jpeg_encoding, opaque_encoding,
    white_raster, ImageKind, Raster,
};
use crate::text::{lowercased, str_eq, to_lowercase};
use crate::types::ExportPage;
use vstd::prelude::*;
use vstd::string::StringExecFns;

verus! {

/// Width, in pixels, of a blank page where no other page gives a size: a
/// page of 148 mm at 350 dots per inch.
pub const DEFAULT_PAGE_WIDTH: u32 = 1654;

/// Height, in pixels, of a blank page where no other page gives a size.
pub const DEFAULT_PAGE_HEIGHT: u32 = 2339;

/// Quality of JPEG files where none is asked for.
pub const DEFAULT_JPEG_QUALITY: u8 = 95;

/// How pages are exported.
#[derive(Debug, Clone, Copy, PartialEq, Eq, Structural)]
pub struct ExportOptions {
    /// Whether source files are moved rather than copied.
    pub move_files: bool,
    /// Whether every page is written as a JPEG file.
    pub convert_to_jpg: bool,
    /// The quality of the JPEG files that are written.
    pub jpg_quality: u8,
}

impl ExportOptions {
    /// The options as asked for: what is not asked for is off, and the
    /// quality is [`DEFAULT_JPEG_QUALITY`].
    pub fn new(move_files: Option<bool>, convert_to_jpg: Option<bool>, jpg_quality: Option<u8>) -> (options:
        Self)
        ensures
            options.move_files == (move_files == Some(true)),
            options.convert_to_jpg == (convert_to_jpg == Some(true)),
            options.jpg_quality == match jpg_quality {
                Some(quality) => quality,
                None => DEFAULT_JPEG_QUALITY,
            },
    {
        ExportOptions {
            move_files: match move_files {
                Some(on) => on,
                None => false,
            },
            convert_to_jpg: match convert_to_jpg {
                Some(on) => on,
                None => false,
            },
            jpg_quality: match jpg_quality {
                Some(quality) => quality,
                None => DEFAULT_JPEG_QUALITY,
            },
        }
    }
}

/// What was found out about the source file of a page.
#[derive(Debug)]
pub struct SourceProbe {
    /// Whether the source file exists.
    pub exists: bool,
    /// The extension of the source file in lower case, if it has one.
    pub extension: Option<String>,
    /// Width and height of the source image, if they were measured and are
    /// acceptable.
    pub dimensions: Option<(u32, u32)>,
}

/// What was found out about a source file, as a mathematical value.
pub struct ProbeView {
    pub exists: bool,
    pub extension: Option<Seq<char>>,
    pub dimensions: Option<(u32, u32)>,
}

impl View for SourceProbe {
    type V = ProbeView;

    open spec fn view(&self) -> ProbeView {
        ProbeView {
            exists: self.exists,
            extension: match self.extension {
                Some(extension) => Some(extension@),
                None => None,
            },
            dimensions: self.dimensions,
        }
    }
}

impl SourceProbe {
    /// What was found out about a source file whose extension, in any case,
    /// is `extension`.
    pub fn new(exists: bool, extension: Option<&str>, dimensions: Option<(u32, u32)>) -> (probe: Self)
        ensures
            probe@ == (ProbeView {
                exists,
                extension: match extension {
                    Some(extension) => Some(lowercased(extension@)),
                    None => None,
                },
                dimensions,
            }),
    {
        SourceProbe {
            exists,
            extension: match extension {
                Some(extension) => Some(to_lowercase(extension)),
                None => None,
            },
            dimensions,
        }
    }
}

/// A page of an export as a mathematical value.
pub struct PageView {
    pub has_source: bool,
    pub output_name: Seq<char>,
    pub page_type: Seq<char>,
    pub subfolder: Option<Seq<char>>,
}

/// The page as a mathematical value.
pub open spec fn page_view(page: ExportPage) -> PageView {
    PageView {
        has_source: page.source_path is Some,
        output_name: page.output_name@,
        page_type: page.page_type@,
        subfolder: match page.subfolder {
            Some(subfolder) => Some(subfolder@),
            None => None,
        },
    }
}

/// The pages as mathematical values.
pub open spec fn page_views(pages: Seq<ExportPage>) -> Seq<PageView> {
    Seq::new(pages.len(), |i: int| page_view(pages[i]))
}

/// What was found out about the sources, as mathematical values.
pub open spec fn probe_views(probes: Seq<SourceProbe>) -> Seq<ProbeView> {
    Seq::new(probes.len(), |i: int| probes[i]@)
}

/// Whether page `i` has a source file that exists. A page that nothing was
/// found out about counts as having none.
pub open spec fn source_exists(pages: Seq<PageView>, probes: Seq<ProbeView>, i: int) -> bool {
    0 <= i < pages.len() && i < probes.len() && pages[i].has_source && probes[i].exists
}

/// The extension that a blank page may take over from the source at `i`: the
/// extension of the source, unless it has none or it is that of a layered
/// image.
pub open spec fn borrowed_extension(probes: Seq<ProbeView>, i: int, otherwise: Seq<char>) -> Seq<
    char,
> {
    match probes[i].extension {
        Some(extension) if extension != "psd"@ => extension,
        _ => otherwise,
    }
}

/// The size that a blank page may take over from the source at `i`.
pub open spec fn borrowed_size(probes: Seq<ProbeView>, i: int, otherwise: (u32, u32)) -> (u32, u32) {
    match probes[i].dimensions {
        Some(size) => size,
        None => otherwise,
    }
}

/// Whether `j` is the first page from `from` on, going up, that has a
/// source file that exists.
pub open spec fn is_next_source(pages: Seq<PageView>, probes: Seq<ProbeView>, from: int, j: int) -> bool {
    &&& from <= j
    &&& source_exists(pages, probes, j)
    &&& forall|k: int| from <= k < j ==> !source_exists(pages, probes, k)
}

/// Whether no page from `from` on has a source file that exists.
pub open spec fn no_source_from(pages: Seq<PageView>, probes: Seq<ProbeView>, from: int) -> bool {
    forall|k: int| from <= k < pages.len() ==> !source_exists(pages, probes, k)
}

/// Whether `j` is the last page before `before`, going down, that has a
/// source file that exists.
pub open spec fn is_previous_source(
    pages: Seq<PageView>,
    probes: Seq<ProbeView>,
    before: int,
    j: int,
) -> bool {
    &&& j < before
    &&& source_exists(pages, probes, j)
    &&& forall|k: int| j < k < before ==> !source_exists(pages, probes, k)
}

/// Whether no page before `before` has a source file that exists.
pub open spec fn no_source_before(pages: Seq<PageView>, probes: Seq<ProbeView>, before: int) -> bool {
    forall|k: int| 0 <= k < before ==> !source_exists(pages, probes, k)
}

/// The first page from `from` on that has a source file that exists.
pub open spec fn next_source(pages: Seq<PageView>, probes: Seq<ProbeView>, from: int) -> Option<int> {
    if exists|j: int| is_next_source(pages, probes, from, j) {
        Some(choose|j: int| is_next_source(pages, probes, from, j))
    } else {
        None
    }
}

/// The last page before `before` that has a source file that exists.
pub open spec fn previous_source(pages: Seq<PageView>, probes: Seq<ProbeView>, before: int) -> Option<
    int,
> {
    if exists|j: int| is_previous_source(pages, probes, before, j) {
        Some(choose|j: int| is_previous_source(pages, probes, before, j))
    } else {
        None
    }
}

/// Size and extension of a blank page.
pub struct BlankShape {
    pub size: (u32, u32),
    pub extension: Seq<char>,
}

/// Size and extension that blank pages have where no neighbour says
/// otherwise: those of the first page with a source, as far as it gives
/// them, and the default size and `png` beyond that.
pub open spec fn reference_shape(pages: Seq<PageView>, probes: Seq<ProbeView>) -> BlankShape {
    let default = BlankShape {
        size: (DEFAULT_PAGE_WIDTH, DEFAULT_PAGE_HEIGHT),
        extension: "png"@,
    };
    match next_source(pages, probes, 0) {
        Some(first) => BlankShape {
            size: borrowed_size(probes, first, default.size),
            extension: borrowed_extension(probes, first, default.extension),
        },
        None => default,
    }
}

/// The shape after a look at the page `neighbour`, if there is one.
pub open spec fn shaped_after(probes: Seq<ProbeView>, shape: BlankShape, neighbour: Option<int>) -> BlankShape {
    match neighbour {
        Some(j) => BlankShape {
            size: borrowed_size(probes, j, shape.size),
            extension: borrowed_extension(probes, j, shape.extension),
        },
        None => shape,
    }
}

/// Size and extension of the blank page `i`.
///
/// The page takes after the nearest page before it that has a source. If
/// that leaves it with the reference size, it takes after the nearest page
/// behind it that has a source.
pub open spec fn blank_shape(pages: Seq<PageView>, probes: Seq<ProbeView>, i: int) -> BlankShape {
    let reference = reference_shape(pages, probes);
    let backward = shaped_after(probes, reference, previous_source(pages, probes, i));
    if backward.size == reference.size {
        shaped_after(probes, backward, next_source(pages, probes, i + 1))
    } else {
        backward
    }
}

/// How a blank page is written.
#[derive(Debug, Clone, Copy, PartialEq, Eq, Structural)]
pub enum BlankFormat {
    /// As a JPEG file of the given quality.
    Jpeg { quality: u8 },
    /// As a PNG file.
    Png,
    /// As a TIFF file.
    Tiff,
    /// Not at all: the extension names no format that is written.
    Unsupported,
}

/// How a blank page with the extension `extension`, given in lower case, is
/// written: `jpg` and `jpeg` as JPEG of quality 95, `png` as PNG, `tif` and
/// `tiff` as TIFF.
pub open spec fn blank_format_of(extension: Seq<char>) -> BlankFormat {
    if extension == "jpg"@ || extension == "jpeg"@ {
        BlankFormat::Jpeg { quality: DEFAULT_JPEG_QUALITY }
    } else if extension == "png"@ {
        BlankFormat::Png
    } else if extension == "tif"@ || extension == "tiff"@ {
        BlankFormat::Tiff
    } else {
        BlankFormat::Unsupported
    }
}

/// How a blank page with the given extension is written.
pub fn blank_format_for(extension: &str) -> (format: BlankFormat)
    ensures
        format == blank_format_of(extension@),
{
    if str_eq(extension, "jpg") || str_eq(extension, "jpeg") {
        BlankFormat::Jpeg { quality: DEFAULT_JPEG_QUALITY }
    } else if str_eq(extension, "png") {
        BlankFormat::Png
    } else if str_eq(extension, "tif") || str_eq(extension, "tiff") {
        BlankFormat::Tiff
    } else {
        BlankFormat::Unsupported
    }
}

/// What is done for one page of an export.
#[derive(Debug)]
pub enum ExportStep {
    /// Nothing.
    Skip,
    /// The source file is copied to `file_name`.
    Copy { file_name: String },
    /// The source file is moved to `file_name`.
    Move { file_name: String },
    /// The source image is written to `file_name` as a JPEG file of the
    /// given quality; after that the source file is removed if
    /// `remove_source` says so.
    Convert { file_name: String, quality: u8, remove_source: bool },
    /// A blank page of the given size is written to `file_name`.
    Blank { file_name: String, width: u32, height: u32, format: BlankFormat },
}

/// A step as a mathematical value.
pub enum StepView {
    Skip,
    Copy { file_name: Seq<char> },
    Move { file_name: Seq<char> },
    Convert { file_name: Seq<char>, quality: u8, remove_source: bool },
    Blank { file_name: Seq<char>, width: u32, height: u32, format: BlankFormat },
}

impl View for ExportStep {
    type V = StepView;

    open spec fn view(&self) -> StepView {
        match self {
            ExportStep::Skip => StepView::Skip,
            ExportStep::Copy { file_name } => StepView::Copy { file_name: file_name@ },
            ExportStep::Move { file_name } => StepView::Move { file_name: file_name@ },
            ExportStep::Convert { file_name, quality, remove_source } => StepView::Convert {
                file_name: file_name@,
                quality: *quality,
                remove_source: *remove_source,
            },
            ExportStep::Blank { file_name, width, height, format } => StepView::Blank {
                file_name: file_name@,
                width: *width,
                height: *height,
                format: *format,
            },
        }
    }
}

/// The name of an output file: the name of the page, a dot, and the
/// extension.
pub open spec fn output_file_name(name: Seq<char>, extension: Seq<char>) -> Seq<char> {
    name + "."@ + extension
}

/// Whether pages of this type are exported from their source file.
pub open spec fn is_file_page(page_type: Seq<char>) -> bool {
    page_type == "file"@ || page_type == "cover"@ || page_type == "colophon"@ || page_type
        == "intermission"@
}

/// What is done for a page that is exported from its source file.
///
/// Without a source file that exists, nothing. With conversion to JPEG, the
/// image is converted, unless it is a layered image, which is skipped.
/// Without, the file is copied or moved under its own extension, or as
/// `png` if it has none.
pub open spec fn file_step(page: PageView, probe: ProbeView, exists: bool, options: ExportOptions) -> StepView {
    let extension = match probe.extension {
        Some(extension) => extension,
        None => "png"@,
    };
    if !exists {
        StepView::Skip
    } else if options.convert_to_jpg {
        if extension == "psd"@ {
            StepView::Skip
        } else {
            StepView::Convert {
                file_name: output_file_name(page.output_name, "jpg"@),
                quality: options.jpg_quality,
                remove_source: options.move_files,
            }
        }
    } else if options.move_files {
        StepView::Move { file_name: output_file_name(page.output_name, extension) }
    } else {
        StepView::Copy { file_name: output_file_name(page.output_name, extension) }
    }
}

/// What is done for a blank page of the given shape: with conversion to
/// JPEG it is written as JPEG of the quality asked for, and otherwise in the
/// format of its extension.
pub open spec fn blank_step(page: PageView, shape: BlankShape, options: ExportOptions) -> StepView {
    if options.convert_to_jpg {
        StepView::Blank {
            file_name: output_file_name(page.output_name, "jpg"@),
            width: shape.size.0,
            height: shape.size.1,
            format: BlankFormat::Jpeg { quality: options.jpg_quality },
        }
    } else {
        StepView::Blank {
            file_name: output_file_name(page.output_name, shape.extension),
            width: shape.size.0,
            height: shape.size.1,
            format: blank_format_of(shape.extension),
        }
    }
}

/// What is done for page `i` of an export.
pub open spec fn export_step(
    pages: Seq<PageView>,
    probes: Seq<ProbeView>,
    options: ExportOptions,
    i: int,
) -> StepView {
    if is_file_page(pages[i].page_type) {
        if i < probes.len() {
            file_step(pages[i], probes[i], source_exists(pages, probes, i), options)
        } else {
            StepView::Skip
        }
    } else if pages[i].page_type == "blank"@ {
        blank_step(pages[i], blank_shape(pages, probes, i), options)
    } else {
        StepView::Skip
    }
}

/// The number of steps among the first `upto` of `steps` that write a file.
pub open spec fn exported_count(steps: Seq<StepView>, upto: int) -> nat
    decreases upto,
{
    if upto <= 0 {
        0
    } else if steps[upto - 1] is Skip {
        exported_count(steps, upto - 1)
    } else {
        exported_count(steps, upto - 1) + 1
    }
}

fn has_source(pages: &Vec<ExportPage>, probes: &Vec<SourceProbe>, i: usize) -> (exists: bool)
    ensures
        exists == source_exists(page_views(pages@), probe_views(probes@), i as int),
{
    i < pages.len() && i < probes.len() && pages[i].source_path.is_some() && probes[i].exists
}

fn find_next_source(pages: &Vec<ExportPage>, probes: &Vec<SourceProbe>, from: usize) -> (found: Option<
    usize,
>)
    ensures
        match found {
            Some(j) => next_source(page_views(pages@), probe_views(probes@), from as int) == Some(
                j as int,
            ) && j < pages@.len() && j < probes@.len(),
            None => next_source(page_views(pages@), probe_views(probes@), from as int) is None,
        },
{
    let ghost views = page_views(pages@);
    let ghost found_out = probe_views(probes@);
    let mut j: usize = from;
    while j < pages.len()
        invariant
            from <= j,
            views == page_views(pages@),
            found_out == probe_views(probes@),
            forall|k: int| from <= k < j ==> !source_exists(views, found_out, k),
        decreases pages@.len() - j,
    {
        if has_source(pages, probes, j) {
            proof {
                assert(is_next_source(views, found_out, from as int, j as int));
                let chosen = choose|c: int| is_next_source(views, found_out, from as int, c);
                assert(chosen == j) by {
                    if chosen < j {
                        assert(!source_exists(views, found_out, chosen));
                    } else if chosen > j {
                        assert(!source_exists(views, found_out, j as int));
                    }
                }
            }
            return Some(j);
        }
        j += 1;
    }
    proof {
        assert forall|c: int| !is_next_source(views, found_out, from as int, c) by {
            if is_next_source(views, found_out, from as int, c) {
                assert(c < views.len());
                assert(!source_exists(views, found_out, c));
            }
        }
    }
    None
}

fn find_previous_source(pages: &Vec<ExportPage>, probes: &Vec<SourceProbe>, before: usize) -> (found:
    Option<usize>)
    ensures
        match found {
            Some(j) => previous_source(page_views(pages@), probe_views(probes@), before as int)
                == Some(j as int) && j < pages@.len() && j < probes@.len(),
            None => previous_source(page_views(pages@), probe_views(probes@), before as int) is None,
        },
{
    let ghost views = page_views(pages@);
    let ghost found_out = probe_views(probes@);
    let mut j: usize = before;
    while j > 0
        invariant
            j <= before,
            views == page_views(pages@),
            found_out == probe_views(probes@),
            forall|k: int| j <= k < before ==> !source_exists(views, found_out, k),
        decreases j,
    {
        j -= 1;
        if has_source(pages, probes, j) {
            proof {
                assert(is_previous_source(views, found_out, before as int, j as int));
                let chosen = choose|c: int| is_previous_source(views, found_out, before as int, c);
                assert(chosen == j) by {
                    if chosen < j {
                        assert(!source_exists(views, found_out, j as int));
                    } else if chosen > j {
                        assert(!source_exists(views, found_out, chosen));
                    }
                }
            }
            return Some(j);
        }
    }
    proof {
        assert forall|c: int| !is_previous_source(views, found_out, before as int, c) by {
            if is_previous_source(views, found_out, before as int, c) {
                assert(0 <= c);
                assert(!source_exists(views, found_out, c));
            }
        }
    }
    None
}

/// Size and extension of a blank page while they are worked out.
struct Shape {
    size: (u32, u32),
    extension: String,
}

impl View for Shape {
    type V = BlankShape;

    closed spec fn view(&self) -> BlankShape {
        BlankShape { size: self.size, extension: self.extension@ }
    }
}

fn shape_after(probes: &Vec<SourceProbe>, shape: Shape, neighbour: Option<usize>) -> (shaped: Shape)
    requires
        neighbour matches Some(j) ==> j < probes@.len(),
    ensures
        shaped@ == shaped_after(
            probe_views(probes@),
            shape@,
            match neighbour {
                Some(j) => Some(j as int),
                None => None,
            },
        ),
{
    match neighbour {
        Some(j) => {
            let size = match probes[j].dimensions {
                Some(size) => size,
                None => shape.size,
            };
            let extension = match &probes[j].extension {
                Some(extension) => if str_eq(extension.as_str(), "psd") {
                    shape.extension
                } else {
                    extension.clone()
                },
                None => shape.extension,
            };
            Shape { size, extension }
        },
        None => shape,
    }
}

fn reference_shape_of(pages: &Vec<ExportPage>, probes: &Vec<SourceProbe>) -> (shape: Shape)
    ensures
        shape@ == reference_shape(page_views(pages@), probe_views(probes@)),
{
    let default = Shape {
        size: (DEFAULT_PAGE_WIDTH, DEFAULT_PAGE_HEIGHT),
        extension: String::from_str("png"),
    };
    let first = find_next_source(pages, probes, 0);
    shape_after(probes, default, first)
}

fn blank_shape_of(pages: &Vec<ExportPage>, probes: &Vec<SourceProbe>, i: usize) -> (shape: Shape)
    requires
        i < pages@.len(),
    ensures
        shape@ == blank_shape(page_views(pages@), probe_views(probes@), i as int),
{
    let total = pages.len();
    let reference = reference_shape_of(pages, probes);
    let reference_size = reference.size;
    let backward = shape_after(probes, reference, find_previous_source(pages, probes, i));
    if backward.size.0 == reference_size.0 && backward.size.1 == reference_size.1 {
        let forward = find_next_source(pages, probes, i + 1);
        shape_after(probes, backward, forward)
    } else {
        backward
    }
}

/// The name of an output file.
pub fn file_name_for(name: &str, extension: &str) -> (file_name: String)
    ensures
        file_name@ == output_file_name(name@, extension@),
{
    String::from_str(name).concat(".").concat(extension)
}

fn plan_file_page(page: &ExportPage, probe: &SourceProbe, exists: bool, options: &ExportOptions) -> (step:
    ExportStep)
    ensures
        step@ == file_step(page_view(*page), probe@, exists, *options),
{
    if !exists {
        return ExportStep::Skip;
    }
    let extension: &str = match &probe.extension {
        Some(extension) => extension.as_str(),
        None => "png",
    };
    if options.convert_to_jpg {
        if str_eq(extension, "psd") {
            ExportStep::Skip
        } else {
            ExportStep::Convert {
                file_name: file_name_for(page.output_name.as_str(), "jpg"),
                quality: options.jpg_quality,
                remove_source: options.move_files,
            }
        }
    } else if options.move_files {
        ExportStep::Move { file_name: file_name_for(page.output_name.as_str(), extension) }
    } else {
        ExportStep::Copy { file_name: file_name_for(page.output_name.as_str(), extension) }
    }
}

fn plan_blank_page(page: &ExportPage, shape: Shape, options: &ExportOptions) -> (step: ExportStep)
    ensures
        step@ == blank_step(page_view(*page), shape@, *options),
{
    if options.convert_to_jpg {
        ExportStep::Blank {
            file_name: file_name_for(page.output_name.as_str(), "jpg"),
            width: shape.size.0,
            height: shape.size.1,
            format: BlankFormat::Jpeg { quality: options.jpg_quality },
        }
    } else {
        ExportStep::Blank {
            file_name: file_name_for(page.output_name.as_str(), shape.extension.as_str()),
            width: shape.size.0,
            height: shape.size.1,
            format: blank_format_for(shape.extension.as_str()),
        }
    }
}

/// Whether pages of this type are exported from their source file.
pub fn page_has_file_type(page_type: &str) -> (file_page: bool)
    ensures
        file_page == is_file_page(page_type@),
{
    str_eq(page_type, "file") || str_eq(page_type, "cover") || str_eq(page_type, "colophon")
        || str_eq(page_type, "intermission")
}

/// Plans an export: says for each page, in order, what is done for it.
///
/// `probes` says of each page, in order, what was found out about its
/// source file.
pub fn plan_export(pages: &Vec<ExportPage>, probes: &Vec<SourceProbe>, options: &ExportOptions) -> (steps:
    Vec<ExportStep>)
    ensures
        steps@.len() == pages@.len(),
        forall|i: int|
            0 <= i < pages@.len() ==> (#[trigger] steps@[i])@ == export_step(
                page_views(pages@),
                probe_views(probes@),
                *options,
                i,
            ),
{
    let mut steps: Vec<ExportStep> = Vec::new();
    let mut i: usize = 0;
    while i < pages.len()
        invariant
            i <= pages@.len(),
            steps@.len() == i,
            forall|k: int|
                0 <= k < i ==> (#[trigger] steps@[k])@ == export_step(
                    page_views(pages@),
                    probe_views(probes@),
                    *options,
                    k,
                ),
        decreases pages@.len() - i,
    {
        let page = &pages[i];
        let step = if page_has_file_type(page.page_type.as_str()) {
            if i < probes.len() {
                plan_file_page(page, &probes[i], has_source(pages, probes, i), options)
            } else {
                ExportStep::Skip
            }
        } else if str_eq(page.page_type.as_str(), "blank") {
            plan_blank_page(page, blank_shape_of(pages, probes, i), options)
        } else {
            ExportStep::Skip
        };
        steps.push(step);
        i += 1;
    }
    steps
}

/// Whether the plan of an export asks for the size of the source of page
/// `j`: the source exists, and it is the first that does, or the nearest
/// before or behind a blank page.
pub open spec fn is_measured(pages: Seq<PageView>, probes: Seq<ProbeView>, j: int) -> bool {
    source_exists(pages, probes, j) && (next_source(pages, probes, 0) == Some(j) || exists|i: int|
        gives_shape_to(pages, probes, j, i))
}

/// Whether page `i` is a blank page that may take after the source of page
/// `j`.
pub open spec fn gives_shape_to(pages: Seq<PageView>, probes: Seq<ProbeView>, j: int, i: int) -> bool {
    &&& 0 <= i < pages.len()
    &&& pages[i].page_type == "blank"@
    &&& (previous_source(pages, probes, i) == Some(j) || next_source(pages, probes, i + 1) == Some(
        j,
    ))
}

/// Says of each page whether the plan of the export asks for the size of
/// its source, so that no other source has to be decoded.
pub fn sources_to_measure(pages: &Vec<ExportPage>, probes: &Vec<SourceProbe>) -> (marks: Vec<bool>)
    ensures
        marks@.len() == pages@.len(),
        forall|j: int|
            0 <= j < pages@.len() ==> #[trigger] marks@[j] == is_measured(
                page_views(pages@),
                probe_views(probes@),
                j,
            ),
{
    let ghost views = page_views(pages@);
    let ghost found_out = probe_views(probes@);
    let mut marks: Vec<bool> = Vec::new();
    let first = find_next_source(pages, probes, 0);
    let mut j: usize = 0;
    while j < pages.len()
        invariant
            j <= pages@.len(),
            marks@.len() == j,
            first matches Some(f) ==> f < pages@.len(),
            forall|k: int| 0 <= k < j ==> #[trigger] marks@[k] == (first == Some(k as usize)),
        decreases pages@.len() - j,
    {
        marks.push(
            match first {
                Some(f) => f == j,
                None => false,
            },
        );
        j += 1;
    }
    let mut i: usize = 0;
    while i < pages.len()
        invariant
            i <= pages@.len(),
            marks@.len() == pages@.len(),
            views == page_views(pages@),
            found_out == probe_views(probes@),
            match first {
                Some(f) => next_source(views, found_out, 0) == Some(f as int),
                None => next_source(views, found_out, 0) is None,
            },
            forall|k: int|
                0 <= k < pages@.len() ==> #[trigger] marks@[k] == (next_source(views, found_out, 0)
                    == Some(k) || exists|b: int| 0 <= b < i && gives_shape_to(views, found_out, k, b)),
        decreases pages@.len() - i,
    {
        let ghost before = marks@;
        let mut previous: Option<usize> = None;
        let mut next: Option<usize> = None;
        if str_eq(pages[i].page_type.as_str(), "blank") {
            previous = find_previous_source(pages, probes, i);
            next = find_next_source(pages, probes, i + 1);
            if let Some(p) = previous {
                marks[p] = true;
            }
            if let Some(n) = next {
                marks[n] = true;
            }
        }
        proof {
            assert forall|k: int| 0 <= k < pages@.len() implies #[trigger] marks@[k] == (next_source(
                views,
                found_out,
                0,
            ) == Some(k) || exists|b: int| 0 <= b < i + 1 && gives_shape_to(views, found_out, k, b)) by {
                let earlier = exists|b: int| 0 <= b < i && gives_shape_to(views, found_out, k, b);
                let now = gives_shape_to(views, found_out, k, i as int);
                assert(before[k] == (next_source(views, found_out, 0) == Some(k) || earlier));
                assert(now == (views[i as int].page_type == "blank"@ && (previous == Some(k as usize)
                    || next == Some(k as usize))));
                assert(marks@[k] == (before[k] || now));
                if earlier {
                    let b = choose|b: int| 0 <= b < i && gives_shape_to(views, found_out, k, b);
                    assert(0 <= b < i + 1 && gives_shape_to(views, found_out, k, b));
                }
                if exists|b: int| 0 <= b < i + 1 && gives_shape_to(views, found_out, k, b) {
                    let b = choose|b: int| 0 <= b < i + 1 && gives_shape_to(views, found_out, k, b);
                    if b < i {
                        assert(earlier);
                    } else {
                        assert(now);
                    }
                }
            }
        }
        i += 1;
    }
    proof {
        assert forall|k: int| 0 <= k < pages@.len() implies #[trigger] marks@[k] == is_measured(
            views,
            found_out,
            k,
        ) by {
            lemma_sources_exist(views, found_out, 0);
            if exists|b: int| gives_shape_to(views, found_out, k, b) {
                let b = choose|b: int| gives_shape_to(views, found_out, k, b);
                assert(0 <= b < i && gives_shape_to(views, found_out, k, b));
                lemma_sources_exist(views, found_out, b + 1);
                lemma_previous_sources_exist(views, found_out, b);
            }
            if exists|b: int| 0 <= b < i && gives_shape_to(views, found_out, k, b) {
                let b = choose|b: int| 0 <= b < i && gives_shape_to(views, found_out, k, b);
                assert(gives_shape_to(views, found_out, k, b));
                lemma_sources_exist(views, found_out, b + 1);
                lemma_previous_sources_exist(views, found_out, b);
            }
        }
    }
    marks
}

/// The next source from a page on, if there is one, is a source that
/// exists, and the first from there on.
proof fn lemma_sources_exist(pages: Seq<PageView>, probes: Seq<ProbeView>, from: int)
    ensures
        next_source(pages, probes, from) matches Some(j) ==> is_next_source(pages, probes, from, j),
        next_source(pages, probes, from) is None ==> forall|j: int|
            from <= j ==> !source_exists(pages, probes, j),
{
    if next_source(pages, probes, from) is None {
        assert forall|j: int| from <= j implies !source_exists(pages, probes, j) by {
            if source_exists(pages, probes, j) {
                lemma_first_source_from(pages, probes, from, j);
            }
        }
    }
}

proof fn lemma_first_source_from(pages: Seq<PageView>, probes: Seq<ProbeView>, from: int, j: int)
    requires
        from <= j,
        source_exists(pages, probes, j),
    ensures
        exists|f: int| is_next_source(pages, probes, from, f),
    decreases j - from,
{
    if exists|k: int| from <= k < j && source_exists(pages, probes, k) {
        let k = choose|k: int| from <= k < j && source_exists(pages, probes, k);
        lemma_first_source_from(pages, probes, from, k);
    } else {
        assert(is_next_source(pages, probes, from, j));
    }
}

/// The previous source before a page, if there is one, is a source that
/// exists, and the last before the page.
proof fn lemma_previous_sources_exist(pages: Seq<PageView>, probes: Seq<ProbeView>, before: int)
    ensures
        previous_source(pages, probes, before) matches Some(j) ==> is_previous_source(
            pages,
            probes,
            before,
            j,
        ),
        previous_source(pages, probes, before) is None ==> forall|j: int|
            j < before ==> !source_exists(pages, probes, j),
{
    if previous_source(pages, probes, before) is None {
        assert forall|j: int| j < before implies !source_exists(pages, probes, j) by {
            if source_exists(pages, probes, j) {
                lemma_last_source_before(pages, probes, before, j);
            }
        }
    }
}

proof fn lemma_last_source_before(pages: Seq<PageView>, probes: Seq<ProbeView>, before: int, j: int)
    requires
        j < before,
        source_exists(pages, probes, j),
    ensures
        exists|f: int| is_previous_source(pages, probes, before, f),
    decreases before - j,
{
    if exists|k: int| j < k < before && source_exists(pages, probes, k) {
        let k = choose|k: int| j < k < before && source_exists(pages, probes, k);
        lemma_last_source_before(pages, probes, before, k);
    } else {
        assert(is_previous_source(pages, probes, before, j));
    }
}

/// Whether two findings say the same of every source but for the sizes
/// that the plan does not ask for.
pub open spec fn agree_where_measured(pages: Seq<PageView>, a: Seq<ProbeView>, b: Seq<ProbeView>) -> bool {
    &&& a.len() == b.len()
    &&& forall|j: int|
        0 <= j < a.len() ==> (#[trigger] a[j]).exists == b[j].exists && a[j].extension
            == b[j].extension
    &&& forall|j: int|
        0 <= j < a.len() && is_measured(pages, a, j) ==> (#[trigger] a[j]).dimensions
            == b[j].dimensions
}

proof fn lemma_same_sources(pages: Seq<PageView>, a: Seq<ProbeView>, b: Seq<ProbeView>, at: int)
    requires
        a.len() == b.len(),
        forall|j: int| 0 <= j < a.len() ==> (#[trigger] a[j]).exists == b[j].exists,
    ensures
        next_source(pages, a, at) == next_source(pages, b, at),
        previous_source(pages, a, at) == previous_source(pages, b, at),
{
    assert forall|j: int| source_exists(pages, a, j) == source_exists(pages, b, j) by {
        if 0 <= j < a.len() {
            assert(a[j].exists == b[j].exists);
        }
    }
    lemma_sources_exist(pages, a, at);
    lemma_sources_exist(pages, b, at);
    lemma_previous_sources_exist(pages, a, at);
    lemma_previous_sources_exist(pages, b, at);
    if let Some(x) = next_source(pages, a, at) {
        assert(source_exists(pages, b, x));
        let y = next_source(pages, b, at)->0;
        if x < y {
            assert(!source_exists(pages, b, x));
        } else if y < x {
            assert(source_exists(pages, a, y));
        }
    } else if let Some(y) = next_source(pages, b, at) {
        assert(source_exists(pages, a, y));
    }
    if let Some(x) = previous_source(pages, a, at) {
        assert(source_exists(pages, b, x));
        let y = previous_source(pages, b, at)->0;
        if x < y {
            assert(source_exists(pages, a, y));
        } else if y < x {
            assert(!source_exists(pages, b, x));
        }
    } else if let Some(y) = previous_source(pages, b, at) {
        assert(source_exists(pages, a, y));
    }
}

/// The plan of an export reads no size but those that
/// [`sources_to_measure`] asks for: findings that differ only in other
/// sizes lead to the same plan.
pub proof fn plan_reads_measured_sizes_only(
    pages: Seq<PageView>,
    a: Seq<ProbeView>,
    b: Seq<ProbeView>,
    options: ExportOptions,
    i: int,
)
    requires
        agree_where_measured(pages, a, b),
        0 <= i < pages.len(),
    ensures
        export_step(pages, a, options, i) == export_step(pages, b, options, i),
{
    lemma_same_sources(pages, a, b, 0);
    lemma_same_sources(pages, a, b, i);
    lemma_same_sources(pages, a, b, i + 1);
    lemma_sources_exist(pages, a, 0);
    lemma_sources_exist(pages, a, i + 1);
    lemma_previous_sources_exist(pages, a, i);
    if pages[i].page_type == "blank"@ {
        if let Some(first) = next_source(pages, a, 0) {
            assert(is_measured(pages, a, first));
            assert(a[first].exists == b[first].exists);
        }
        if let Some(previous) = previous_source(pages, a, i) {
            assert(gives_shape_to(pages, a, previous, i));
            assert(is_measured(pages, a, previous));
            assert(a[previous].exists == b[previous].exists);
        }
        if let Some(next) = next_source(pages, a, i + 1) {
            assert(gives_shape_to(pages, a, next, i));
            assert(is_measured(pages, a, next));
            assert(a[next].exists == b[next].exists);
        }
    } else if i < a.len() {
        assert(a[i].exists == b[i].exists);
    }
}

/// The steps as mathematical values.
pub open spec fn step_views(steps: Seq<ExportStep>) -> Seq<StepView> {
    Seq::new(steps.len(), |i: int| steps[i]@)
}

/// The number of pages that an export writes.
pub fn count_exported(steps: &Vec<ExportStep>) -> (count: usize)
    ensures
        count == exported_count(step_views(steps@), steps@.len() as int),
{
    let mut count: usize = 0;
    let mut i: usize = 0;
    while i < steps.len()
        invariant
            i <= steps@.len(),
            count <= i,
            count == exported_count(step_views(steps@), i as int),
        decreases steps@.len() - i,
    {
        match &steps[i] {
            ExportStep::Skip => {},
            _ => {
                count += 1;
            },
        }
        i += 1;
    }
    count
}

/// Whether `folders` holds `name`.
pub open spec fn holds_folder(folders: Seq<String>, name: Seq<char>) -> bool {
    exists|k: int| 0 <= k < folders.len() && (#[trigger] folders[k])@ == name
}

/// Whether one of the first `upto` pages is in the folder `name`.
pub open spec fn names_folder(pages: Seq<ExportPage>, upto: int, name: Seq<char>) -> bool {
    exists|p: int|
        0 <= p < upto && p < pages.len() && (#[trigger] pages[p]).subfolder is Some
            && pages[p].subfolder->0@ == name
}

/// Whether page `p` is in the folder `name`.
pub open spec fn in_folder(pages: Seq<ExportPage>, p: int, name: Seq<char>) -> bool {
    0 <= p < pages.len() && pages[p].subfolder is Some && pages[p].subfolder->0@ == name
}

/// Whether some page is in the folder `first` before any page is in the
/// folder `second`.
pub open spec fn named_before(pages: Seq<ExportPage>, first: Seq<char>, second: Seq<char>) -> bool {
    exists|p: int|
        #[trigger] in_folder(pages, p, first) && forall|q: int|
            0 <= q <= p ==> !in_folder(pages, q, second)
}

/// The folders that an export needs below its output folder: the folder of
/// every page that has one, each once, in the order in which the pages name
/// them first.
pub fn subfolders_to_create(pages: &Vec<ExportPage>) -> (folders: Vec<String>)
    ensures
        forall|p: int|
            0 <= p < pages@.len() && pages@[p].subfolder is Some ==> holds_folder(
                folders@,
                (#[trigger] pages@[p]).subfolder->0@,
            ),
        forall|k: int|
            0 <= k < folders@.len() ==> names_folder(
                pages@,
                pages@.len() as int,
                (#[trigger] folders@[k])@,
            ),
        forall|k: int, l: int|
            0 <= k < l < folders@.len() ==> (#[trigger] folders@[k])@ != (#[trigger] folders@[l])@
                && named_before(pages@, folders@[k]@, folders@[l]@),
{
    let mut folders: Vec<String> = Vec::new();
    let mut i: usize = 0;
    while i < pages.len()
        invariant
            i <= pages@.len(),
            forall|p: int|
                0 <= p < i && pages@[p].subfolder is Some ==> holds_folder(
                    folders@,
                    (#[trigger] pages@[p]).subfolder->0@,
                ),
            forall|k: int|
                0 <= k < folders@.len() ==> names_folder(pages@, i as int, (#[trigger] folders@[k])@),
            forall|k: int, l: int|
                0 <= k < l < folders@.len() ==> (#[trigger] folders@[k])@ != (
                #[trigger] folders@[l])@ && named_before(pages@, folders@[k]@, folders@[l]@),
        decreases pages@.len() - i,
    {
        let ghost before = folders@;
        if let Some(subfolder) = &pages[i].subfolder {
            let mut known = false;
            let mut k: usize = 0;
            while k < folders.len()
                invariant
                    k <= folders@.len(),
                    known <==> exists|m: int| 0 <= m < k && (#[trigger] folders@[m])@ == subfolder@,
                decreases folders@.len() - k,
            {
                if str_eq(folders[k].as_str(), subfolder.as_str()) {
                    known = true;
                }
                k += 1;
            }
            if !known {
                folders.push(subfolder.clone());
            }
            proof {
                assert(pages@[i as int].subfolder->0@ == subfolder@);
                if known {
                    let m = choose|m: int| 0 <= m < before.len() && (#[trigger] before[m])@ == subfolder@;
                    assert(folders@[m]@ == subfolder@);
                } else {
                    assert(folders@[before.len() as int]@ == subfolder@);
                    // No earlier page is in the new folder.
                    assert forall|q: int| 0 <= q < i implies !in_folder(pages@, q, subfolder@) by {
                        if in_folder(pages@, q, subfolder@) {
                            assert(holds_folder(before, pages@[q].subfolder->0@));
                        }
                    }
                }
                assert(holds_folder(folders@, subfolder@));
            }
        }
        proof {
            assert forall|p: int|
                0 <= p < i + 1 && pages@[p].subfolder is Some implies holds_folder(
                folders@,
                (#[trigger] pages@[p]).subfolder->0@,
            ) by {
                if p < i {
                    let m = choose|m: int|
                        0 <= m < before.len() && (#[trigger] before[m])@ == pages@[p].subfolder->0@;
                    assert(folders@[m] == before[m]);
                }
            }
            assert forall|k: int| 0 <= k < folders@.len() implies names_folder(
                pages@,
                i + 1,
                (#[trigger] folders@[k])@,
            ) by {
                if k < before.len() {
                    assert(folders@[k] == before[k]);
                    assert(names_folder(pages@, i as int, before[k]@));
                    let p = choose|p: int|
                        0 <= p < i && p < pages@.len() && (#[trigger] pages@[p]).subfolder is Some
                            && pages@[p].subfolder->0@ == before[k]@;
                    assert(pages@[p].subfolder->0@ == folders@[k]@);
                } else {
                    assert(pages@[i as int].subfolder->0@ == folders@[k]@);
                }
            }
            assert forall|k: int, l: int| 0 <= k < l < folders@.len() implies (
            #[trigger] folders@[k])@ != (#[trigger] folders@[l])@ && named_before(
                pages@,
                folders@[k]@,
                folders@[l]@,
            ) by {
                assert(folders@[k] == before[k]);
                if l < before.len() {
                    assert(folders@[l] == before[l]);
                } else {
                    assert(names_folder(pages@, i as int, before[k]@));
                    let p = choose|p: int|
                        0 <= p < i && p < pages@.len() && (#[trigger] pages@[p]).subfolder is Some
                            && pages@[p].subfolder->0@ == before[k]@;
                    assert(in_folder(pages@, p, folders@[k]@));
                }
            }
        }
        i += 1;
    }
    folders
}

/// How measuring an image file ends: with the size of the image, if the
/// file decodes and the size is accepted, and with the decoder's text or the
/// reason why the size is not accepted otherwise.
pub open spec fn measured(data: Seq<u8>, kind: ImageKind) -> Result<(u32, u32), Failure> {
    match decoded_image(data, kind) {
        Err(cause) => Err(Failure::ImageDecode(cause)),
        Ok(image) => match validation_outcome(image.width, image.height) {
            Ok(()) => Ok((image.width, image.height)),
            Err(reason) => Err(Failure::Validation(reason)),
        },
    }
}

/// The measuring of an image as a mathematical value.
pub open spec fn size_view(size: Result<(u32, u32), ThumbnailError>) -> Result<(u32, u32), Failure> {
    match size {
        Ok(size) => Ok(size),
        Err(error) => Err(error@),
    }
}

/// Measures an image file: decodes it and validates its size.
pub fn get_image_dimensions(data: &[u8], kind: ImageKind) -> (size: Result<(u32, u32), ThumbnailError>)
    ensures
        size_view(size) == measured(data@, kind),
{
    let image = match decode_image(data, kind) {
        Ok(image) => image,
        Err(cause) => return Err(ThumbnailError::ImageDecode(cause)),
    };
    match validate_dimensions(image.width(), image.height()) {
        Ok(()) => Ok((image.width(), image.height())),
        Err(reason) => Err(ThumbnailError::Validation(reason)),
    }
}

/// A file, or the encoder's error that stood in its way.
pub open spec fn encoded_or_failed(file: Result<Seq<u8>, Seq<char>>) -> Result<Seq<u8>, Failure> {
    match file {
        Ok(bytes) => Ok(bytes),
        Err(cause) => Err(Failure::Encode(cause)),
    }
}

/// How making the file of a blank page ends: the size has to be acceptable
/// and the format one that is written; the page is white.
pub open spec fn blank_page(width: u32, height: u32, format: BlankFormat) -> Result<
    Seq<u8>,
    Failure,
> {
    match validation_outcome(width, height) {
        Err(reason) => Err(Failure::Validation(reason)),
        Ok(()) => match format {
            BlankFormat::Jpeg { quality } => encoded_or_failed(
                jpeg_encoding(white_raster(width, height), quality),
            ),
            BlankFormat::Png => encoded_or_failed(
                opaque_encoding(white_raster(width, height), ImageKind::Png),
            ),
            BlankFormat::Tiff => encoded_or_failed(
                opaque_encoding(white_raster(width, height), ImageKind::Tiff),
            ),
            BlankFormat::Unsupported => Err(Failure::UnsupportedFormat(Seq::empty())),
        },
    }
}

/// Makes the file of a blank page: a white image of the given size, which
/// has to be acceptable, in the given format.
pub fn create_blank_image(width: u32, height: u32, format: BlankFormat) -> (file: Result<
    Vec<u8>,
    ThumbnailError,
>)
    ensures
        outcome_view(file) == blank_page(width, height, format),
{
    if let Err(reason) = validate_dimensions(width, height) {
        return Err(ThumbnailError::Validation(reason));
    }
    assert(4 * width * height <= 400_000_000) by (nonlinear_arith)
        requires
            width * height <= 100_000_000,
    ;
    let encoded = match format {
        BlankFormat::Jpeg { quality } => encode_jpeg(Raster::white(width, height), quality),
        BlankFormat::Png => encode_opaque(Raster::white(width, height), ImageKind::Png),
        BlankFormat::Tiff => encode_opaque(Raster::white(width, height), ImageKind::Tiff),
        BlankFormat::Unsupported => {
            return Err(ThumbnailError::UnsupportedFormat(String::new()));
        },
    };
    match encoded {
        Ok(bytes) => Ok(bytes),
        Err(cause) => Err(ThumbnailError::Encode(cause)),
    }
}

/// How converting the image file `data` into a JPEG file ends: with the
/// file, with the decoder's text, or with the encoder's.
pub open spec fn converted_to_jpeg(data: Seq<u8>, kind: ImageKind, quality: u8) -> Result<
    Seq<u8>,
    Failure,
> {
    match decoded_image(data, kind) {
        Err(cause) => Err(Failure::ImageDecode(cause)),
        Ok(image) => encoded_or_failed(jpeg_encoding(image, quality)),
    }
}

/// Converts an image file into a JPEG file of the given quality.
pub fn convert_to_jpeg(data: &[u8], kind: ImageKind, quality: u8) -> (file: Result<
    Vec<u8>,
    ThumbnailError,
>)
    ensures
        outcome_view(file) == converted_to_jpeg(data@, kind, quality),
{
    let image = match decode_image(data, kind) {
        Ok(image) => image,
        Err(cause) => return Err(ThumbnailError::ImageDecode(cause)),
    };
    match encode_jpeg(image, quality) {
        Ok(bytes) => Ok(bytes),
        Err(cause) => Err(ThumbnailError::Encode(cause)),
    }
}

} // verus!
