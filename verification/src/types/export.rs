use vstd::prelude::*;

verus! {

/// One page of an export.
#[derive(Debug, Clone)]
pub struct ExportPage {
    pub source_path: Option<String>,
    pub output_name: String,
    /// One of `file`, `cover`, `blank`, `intermission` and `colophon`.
    pub page_type: String,
    /// The folder of the page's chapter below the output folder.
    pub subfolder: Option<String>,
}

} // verus!
