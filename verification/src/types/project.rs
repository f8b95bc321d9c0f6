use vstd::prelude::*;

verus! {

/// A file as a saved project refers to it.
#[derive(Debug, Clone)]
pub struct SavedFileReference {
    pub absolute_path: String,
    pub relative_path: String,
    pub file_name: String,
    pub file_type: String,
    pub file_size: u64,
    /// Milliseconds since the Unix epoch.
    pub modified_time: u64,
}

/// A page of a saved project.
#[derive(Debug, Clone)]
pub struct SavedPage {
    pub id: String,
    pub page_type: String,
    pub file: Option<SavedFileReference>,
    pub label: Option<String>,
}

/// A chapter of a saved project.
#[derive(Debug, Clone)]
pub struct SavedChapter {
    pub id: String,
    pub name: String,
    pub chapter_type: String,
    pub pages: Vec<SavedPage>,
    pub folder_path: Option<String>,
}

/// The state of the user interface that a project saves.
#[derive(Debug, Clone)]
pub struct SavedUiState {
    pub selected_chapter_id: Option<String>,
    pub selected_page_id: Option<String>,
    pub view_mode: String,
    pub thumbnail_size: String,
    pub collapsed_chapter_ids: Vec<String>,
}

/// A saved project.
#[derive(Debug, Clone)]
pub struct ProjectFile {
    pub version: String,
    pub name: String,
    pub created_at: String,
    pub modified_at: String,
    pub base_path: String,
    pub chapters: Vec<SavedChapter>,
    pub ui_state: Option<SavedUiState>,
}

/// What became of the file that a page refers to.
#[derive(Debug, Clone)]
pub struct FileValidationResult {
    pub page_id: String,
    /// One of `found`, `missing`, `moved` and `modified`.
    pub status: String,
    pub original_path: String,
    pub resolved_path: Option<String>,
    pub suggested_path: Option<String>,
}

/// A project that was opened lately.
#[derive(Debug, Clone)]
pub struct RecentFile {
    pub path: String,
    pub name: String,
    pub opened_at: String,
}

} // verus!
