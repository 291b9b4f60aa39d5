//! The service value and the plain data that callers hand to it: the log files
//! of a project, already read into lines.

use vstd::prelude::*;

verus! {

/// The engine that reconstructs and searches conversation logs. It holds the
/// directory under which the projects' logs are kept.
#[derive(Debug)]
pub struct ChatService {
    pub projects_path: String,
}

/// One log file, read into its lines. Where reading failed on the way,
/// `lines` holds what was read before, and `complete` is false: such a file is
/// left out of listings and searches, while the summary entries read from it
/// still count.
#[derive(Debug)]
pub struct SessionFile {
    pub path: String,
    pub lines: Vec<String>,
    pub complete: bool,
}

/// One project directory with its log files.
#[derive(Debug)]
pub struct ProjectDir {
    pub path: String,
    pub files: Vec<SessionFile>,
}

/// Why an operation of the service gave no result.
#[derive(Debug)]
pub enum ServiceError {
    /// The file holds no message of a user or of the assistant.
    NoValidMessages,
    /// No file holds the session with this id.
    SessionNotFound(String),
}

/// The texts of a sequence of strings.
pub open spec fn texts(lines: Seq<String>) -> Seq<Seq<char>> {
    lines.map_values(|l: String| l@)
}

/// What a log file holds.
pub struct FileView {
    pub path: Seq<char>,
    pub lines: Seq<Seq<char>>,
    pub complete: bool,
}

impl View for SessionFile {
    type V = FileView;

    open spec fn view(&self) -> FileView {
        FileView { path: self.path@, lines: texts(self.lines@), complete: self.complete }
    }
}

/// The views of a sequence of files.
pub open spec fn file_views(files: Seq<SessionFile>) -> Seq<FileView> {
    files.map_values(|f: SessionFile| f@)
}

/// What a project directory holds.
pub struct DirView {
    pub path: Seq<char>,
    pub files: Seq<FileView>,
}

impl View for ProjectDir {
    type V = DirView;

    open spec fn view(&self) -> DirView {
        DirView { path: self.path@, files: file_views(self.files@) }
    }
}

/// The views of a sequence of project directories.
pub open spec fn dir_views(dirs: Seq<ProjectDir>) -> Seq<DirView> {
    dirs.map_values(|d: ProjectDir| d@)
}

impl ChatService {
    /// A service over the logs kept under `projects_path`.
    pub fn new(projects_path: String) -> (r: Self)
        ensures
            r.projects_path == projects_path,
    {
        ChatService { projects_path }
    }
}

impl ServiceError {
    /// The error says that no file holds the session with the id `id`.
    pub open spec fn is_not_found(self, id: Seq<char>) -> bool {
        self matches ServiceError::SessionNotFound(missing) && missing@ == id
    }

    /// The message shown for the error.
    pub open spec fn message_text(self) -> Seq<char> {
        match self {
            ServiceError::NoValidMessages => "No valid messages found in file"@,
            ServiceError::SessionNotFound(id) => "Session file not found for ID: "@ + id@,
        }
    }

    /// The message shown for the error.
    pub fn message(&self) -> (r: String)
        ensures
            r@ == self.message_text(),
    {
        match self {
            ServiceError::NoValidMessages => "No valid messages found in file".to_owned(),
            ServiceError::SessionNotFound(id) => {
                let mut text = "Session file not found for ID: ".to_owned();
                text.append(id.as_str());
                text
            },
        }
    }
}

} // verus!
