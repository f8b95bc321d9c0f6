use crate::types::{FileValidationResult, ProjectFile, SavedFileReference};
use vstd::prelude::*;
use vstd::string::StringExecFns;

verus! {

/// What was found out about the file that a page refers to.
#[derive(Debug)]
pub struct FileProbe {
    /// Whether there is a file at the absolute path of the reference.
    pub absolute_exists: bool,
    /// When the file at the absolute path was last modified, in
    /// milliseconds since the Unix epoch; none if that could not be found
    /// out.
    pub modified_time: Option<u64>,
    /// Whether there is a file at the relative path of the reference, taken
    /// from the base path.
    pub relative_exists: bool,
    /// The relative path of the reference, taken from the base path.
    pub relative_path: String,
}

/// What became of a file.
#[derive(Debug, Clone, Copy, PartialEq, Eq, Structural)]
pub enum FileStatus {
    /// The file is where it was and as it was.
    Found,
    /// The file is nowhere to be found.
    Missing,
    /// The file is no longer at its absolute path but at its relative path.
    Moved,
    /// The file is where it was but was modified since.
    Modified,
}

impl FileStatus {
    /// The status as the user interface is told it.
    pub open spec fn text_spec(self) -> Seq<char> {
        match self {
            FileStatus::Found => "found"@,
            FileStatus::Missing => "missing"@,
            FileStatus::Moved => "moved"@,
            FileStatus::Modified => "modified"@,
        }
    }

    /// The status as the user interface is told it.
    pub fn text(&self) -> (text: &'static str)
        ensures
            text@ == self.text_spec(),
    {
        match self {
            FileStatus::Found => "found",
            FileStatus::Missing => "missing",
            FileStatus::Moved => "moved",
            FileStatus::Modified => "modified",
        }
    }
}

/// What became of a file that was last modified at `saved_modified_time`
/// when the project was saved.
///
/// A file at the absolute path counts: it is modified if its modification
/// time is known and differs from the saved one, and found otherwise. With
/// no file there, a file at the relative path makes it moved.
pub open spec fn file_status(
    saved_modified_time: u64,
    absolute_exists: bool,
    modified_time: Option<u64>,
    relative_exists: bool,
) -> FileStatus {
    if absolute_exists {
        match modified_time {
            Some(time) if time != saved_modified_time => FileStatus::Modified,
            _ => FileStatus::Found,
        }
    } else if relative_exists {
        FileStatus::Moved
    } else {
        FileStatus::Missing
    }
}

/// What became of a file.
pub fn classify_file(
    saved_modified_time: u64,
    absolute_exists: bool,
    modified_time: Option<u64>,
    relative_exists: bool,
) -> (status: FileStatus)
    ensures
        status == file_status(saved_modified_time, absolute_exists, modified_time, relative_exists),
{
    if absolute_exists {
        if let Some(time) = modified_time {
            if time != saved_modified_time {
                return FileStatus::Modified;
            }
        }
        FileStatus::Found
    } else if relative_exists {
        FileStatus::Moved
    } else {
        FileStatus::Missing
    }
}

/// The text of an optional path.
pub open spec fn path_text(path: Option<String>) -> Option<Seq<char>> {
    match path {
        Some(path) => Some(path@),
        None => None,
    }
}

/// Says what became of the file that the page `page_id` refers to.
///
/// A file that is found or modified resolves to its absolute path; a moved
/// file resolves to its relative path, which is also suggested; a missing
/// file resolves to nothing.
pub fn validate_file_reference(page_id: &str, file_ref: &SavedFileReference, probe: FileProbe) -> (result:
    FileValidationResult)
    ensures
        result.page_id@ == page_id@,
        result.original_path@ == file_ref.absolute_path@,
        result.status@ == file_status(
            file_ref.modified_time,
            probe.absolute_exists,
            probe.modified_time,
            probe.relative_exists,
        ).text_spec(),
        match file_status(
            file_ref.modified_time,
            probe.absolute_exists,
            probe.modified_time,
            probe.relative_exists,
        ) {
            FileStatus::Found | FileStatus::Modified => path_text(result.resolved_path) == Some(
                file_ref.absolute_path@,
            ) && result.suggested_path is None,
            FileStatus::Moved => path_text(result.resolved_path) == Some(probe.relative_path@)
                && path_text(result.suggested_path) == Some(probe.relative_path@),
            FileStatus::Missing => result.resolved_path is None && result.suggested_path is None,
        },
{
    let status = classify_file(
        file_ref.modified_time,
        probe.absolute_exists,
        probe.modified_time,
        probe.relative_exists,
    );
    let (resolved_path, suggested_path) = match status {
        FileStatus::Found | FileStatus::Modified => (Some(file_ref.absolute_path.clone()), None),
        FileStatus::Moved => (Some(probe.relative_path.clone()), Some(probe.relative_path)),
        FileStatus::Missing => (None, None),
    };
    FileValidationResult {
        page_id: String::from_str(page_id),
        status: String::from_str(status.text()),
        original_path: file_ref.absolute_path.clone(),
        resolved_path,
        suggested_path,
    }
}

/// Whether `place` names a page of `project` that refers to a file: the
/// number of its chapter and its number within the chapter.
pub open spec fn refers_to_file(project: ProjectFile, place: (usize, usize)) -> bool {
    &&& place.0 < project.chapters@.len()
    &&& place.1 < project.chapters@[place.0 as int].pages@.len()
    &&& project.chapters@[place.0 as int].pages@[place.1 as int].file is Some
}

/// Whether the page at `first` comes before the page at `second`.
pub open spec fn comes_before(first: (usize, usize), second: (usize, usize)) -> bool {
    first.0 < second.0 || (first.0 == second.0 && first.1 < second.1)
}

/// The pages of a project that refer to a file, each by the number of its
/// chapter and its number within the chapter, in the order of the project.
pub fn pages_with_files(project: &ProjectFile) -> (places: Vec<(usize, usize)>)
    ensures
        forall|i: int| 0 <= i < places@.len() ==> refers_to_file(*project, #[trigger] places@[i]),
        forall|place: (usize, usize)|
            refers_to_file(*project, place) ==> #[trigger] places@.contains(place),
        forall|i: int, j: int|
            0 <= i < j < places@.len() ==> comes_before(#[trigger] places@[i], #[trigger] places@[j]),
{
    let mut places: Vec<(usize, usize)> = Vec::new();
    let mut chapter: usize = 0;
    while chapter < project.chapters.len()
        invariant
            chapter <= project.chapters@.len(),
            forall|i: int|
                0 <= i < places@.len() ==> refers_to_file(*project, #[trigger] places@[i])
                    && places@[i].0 < chapter,
            forall|place: (usize, usize)|
                refers_to_file(*project, place) && place.0 < chapter ==> #[trigger] places@.contains(
                    place,
                ),
            forall|i: int, j: int|
                0 <= i < j < places@.len() ==> comes_before(
                    #[trigger] places@[i],
                    #[trigger] places@[j],
                ),
        decreases project.chapters@.len() - chapter,
    {
        let pages = &project.chapters[chapter].pages;
        let mut page: usize = 0;
        while page < pages.len()
            invariant
                chapter < project.chapters@.len(),
                pages == &project.chapters@[chapter as int].pages,
                page <= pages@.len(),
                forall|i: int|
                    0 <= i < places@.len() ==> refers_to_file(*project, #[trigger] places@[i]) && (
                    places@[i].0 < chapter || (places@[i].0 == chapter && places@[i].1 < page)),
                forall|place: (usize, usize)|
                    refers_to_file(*project, place) && (place.0 < chapter || (place.0 == chapter
                        && place.1 < page)) ==> #[trigger] places@.contains(place),
                forall|i: int, j: int|
                    0 <= i < j < places@.len() ==> comes_before(
                        #[trigger] places@[i],
                        #[trigger] places@[j],
                    ),
            decreases pages@.len() - page,
        {
            let ghost before = places@;
            if pages[page].file.is_some() {
                places.push((chapter, page));
                proof {
                    assert(places@[before.len() as int] == (chapter, page));
                    assert forall|place: (usize, usize)|
                        refers_to_file(*project, place) && (place.0 < chapter || (place.0 == chapter
                            && place.1 < page + 1)) implies #[trigger] places@.contains(place) by {
                        if place == (chapter, page) {
                            assert(places@[before.len() as int] == place);
                        } else {
                            assert(before.contains(place));
                            let at = choose|at: int| 0 <= at < before.len() && before[at] == place;
                            assert(places@[at] == place);
                        }
                    }
                }
            }
            page += 1;
        }
        chapter += 1;
    }
    places
}

} // verus!
