use crate::error::ExplorerError;
use std::path::PathBuf;
use vstd::prelude::*;

verus! {

#[verifier::external_type_specification]
#[verifier::external_body]
pub struct ExPathBuf(PathBuf);

/// The command line: the directory to open and the hidden-entry flag.
///
/// The flag is parsed and kept, but the browser shows every entry of a
/// directory, hidden ones included, whatever its value: visibility is left
/// to a presentation layer, and none applies it yet.
pub struct Args {
    /// Directory to explore.
    pub directory: PathBuf,
    /// Show hidden files.
    pub all: bool,
}

/// The directory model: the canonical text of the current directory.
#[derive(Debug)]
pub struct Explorer {
    pub current_dir: String,
}

/// Relies on std's `Path::exists`: whether the path names something on disk.
#[verifier::external_body]
fn path_exists(p: &PathBuf) -> bool {
    p.exists()
}

/// Relies on std's `Path::canonicalize`, rendered by `to_string_lossy`: the
/// absolute form of the path with every link resolved, or the error met.
#[verifier::external_body]
fn canonical_text(p: &PathBuf) -> Result<String, std::io::Error> {
    match p.canonicalize() {
        Ok(c) => Ok(c.to_string_lossy().to_string()),
        Err(e) => Err(e),
    }
}

/// Relies on std's `Path::to_string_lossy`: the path's text.
#[verifier::external_body]
fn path_text(p: &PathBuf) -> String {
    p.to_string_lossy().to_string()
}

impl Explorer {
    /// Opens `directory`: fails with `InvalidDirectory` (holding the path's
    /// text) when nothing exists there, with `Io` when it cannot be resolved,
    /// and otherwise holds its canonical form. Which of these comes is the
    /// file system's answer; `opened` states the outcome for each answer.
    pub fn new(directory: PathBuf) -> (r: Result<Explorer, ExplorerError>)
        ensures
            !(r matches Err(ExplorerError::PermissionDenied(_))),
    {
        let shown = path_text(&directory);
        let canonical = if path_exists(&directory) {
            Some(canonical_text(&directory))
        } else {
            None
        };
        Explorer::opened(shown, canonical)
    }

    /// The outcome of opening a directory whose text is `shown`, given the
    /// file system's answer: `None` when nothing exists at the path, else its
    /// canonical text or the error met resolving it.
    pub fn opened(shown: String, canonical: Option<Result<String, std::io::Error>>) -> (r: Result<
        Explorer,
        ExplorerError,
    >)
        ensures
            match canonical {
                None => r matches Err(ExplorerError::InvalidDirectory(s)) && s@ == shown@,
                Some(Ok(t)) => r matches Ok(e) && e.current_dir@ == t@,
                Some(Err(_)) => r matches Err(ExplorerError::Io(_)),
            },
    {
        match canonical {
            None => Err(ExplorerError::InvalidDirectory(shown)),
            Some(Ok(text)) => Ok(Explorer { current_dir: text }),
            Some(Err(e)) => Err(ExplorerError::Io(e)),
        }
    }

    /// The current directory's text.
    pub fn cwd(&self) -> (r: String)
        ensures
            r@ == self.current_dir@,
    {
        self.current_dir.clone()
    }
}

} // verus!
