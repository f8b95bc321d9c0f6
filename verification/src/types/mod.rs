pub mod export;
pub mod file;
pub mod project;
pub mod tiff;

pub use export::ExportPage;
pub use file::FileInfo;
pub use project::{
    FileValidationResult, ProjectFile, RecentFile, SavedChapter, SavedFileReference, SavedPage,
    SavedUiState,
};
pub use tiff::{
    TiffConvertConfig, TiffConvertResponse, TiffConvertResult, TiffFileConfig, TiffGlobalSettings,
    TiffResultsWrapper,
};
