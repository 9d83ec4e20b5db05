use vstd::prelude::*;
use std::ops::Range;

verus! {

/// Settings of one selection run.
#[derive(Debug, Clone)]
pub struct GrabConfig {
    /// The directory or repository path to work on.
    pub target_path: String,
    /// Put a `--- FILE: <path> ---` line before each file's content.
    pub add_headers: bool,
    /// Gitignore-style patterns of files and directories to leave out.
    pub exclude_patterns: Vec<String>,
    /// In repository mode, also list untracked files that are not ignored.
    pub include_untracked: bool,
    /// Do not leave out the tool's own default output file.
    pub include_default_output: bool,
    /// Treat the target as a plain directory even inside a repository.
    pub no_git: bool,
    /// Put the indented directory tree before the contents.
    pub include_tree: bool,
    /// Extract the text of PDF files.
    pub convert_pdf: bool,
    /// In repository mode, list the whole repository even from a subdirectory.
    pub all_repo: bool,
}

/// Failures of a selection run.
#[derive(Debug, Clone)]
pub enum GrabError {
    /// The target path does not exist or cannot be reached.
    TargetPathNotFound(String),
    /// Reading or resolving a path failed.
    IoError { path: String, message: String },
    /// A version-control query ran and failed.
    GitCommandError { command: String, stderr: String, stdout: String },
    /// A version-control query could not be started.
    GitExecutionError { command: String, message: String },
    /// The exclusion matcher could not be built.
    GlobMatcherBuildError(String),
    /// A file handed to the tree renderer does not lie under the display root.
    PathStripError { prefix: String, path: String },
}

/// Where one file's text sits in the combined output.
#[derive(Debug)]
pub struct GrabbedFile {
    pub display_path: String,
    pub full_range: Range<usize>,
    pub header_range: Option<Range<usize>>,
    pub body_range: Range<usize>,
}

/// The combined output and the place of each file in it.
#[derive(Debug)]
pub struct GrabOutput {
    pub content: String,
    pub files: Vec<GrabbedFile>,
}

} // verus!
