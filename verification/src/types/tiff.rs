use vstd::prelude::*;

verus! {

/// What to convert one file into.
#[derive(Debug)]
pub struct TiffFileConfig {
    pub path: String,
    pub output_path: String,
    pub output_name: String,
    /// `rgb` or `grayscale`.
    pub color_mode: Option<String>,
}

/// The settings that hold for every file of a conversion.
#[derive(Debug)]
pub struct TiffGlobalSettings {
    pub flatten_image: bool,
    /// `rgb` or `grayscale`.
    pub color_mode: Option<String>,
    pub target_width: Option<u32>,
    pub target_height: Option<u32>,
    pub target_dpi: Option<u32>,
}

/// The value of a flag that is on unless it is switched off.
pub fn default_true() -> (on: bool)
    ensures
        on,
{
    true
}

impl Default for TiffGlobalSettings {
    /// Layers are flattened, and nothing else is changed.
    fn default() -> (settings: Self)
        ensures
            settings.flatten_image,
            settings.color_mode is None,
            settings.target_width is None,
            settings.target_height is None,
            settings.target_dpi is None,
    {
        TiffGlobalSettings {
            flatten_image: default_true(),
            color_mode: None,
            target_width: None,
            target_height: None,
            target_dpi: None,
        }
    }
}

/// A whole conversion: the settings and the files.
#[derive(Debug)]
pub struct TiffConvertConfig {
    pub global_settings: TiffGlobalSettings,
    pub files: Vec<TiffFileConfig>,
}

/// How the conversion of one file ended.
#[derive(Debug)]
pub struct TiffConvertResult {
    pub file_name: String,
    pub success: bool,
    pub output_path: Option<String>,
    pub color_mode: Option<String>,
    pub error: Option<String>,
}

/// How a whole conversion ended.
#[derive(Debug)]
pub struct TiffConvertResponse {
    pub results: Vec<TiffConvertResult>,
    pub output_dir: String,
}

/// The results as the conversion script reports them.
#[derive(Debug)]
pub struct TiffResultsWrapper {
    pub results: Vec<TiffConvertResult>,
}

} // verus!
