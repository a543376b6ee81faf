//! The named argument records the operations are invoked with. The
//! transport that decodes them from a request lives outside the library;
//! here they are plain data.

use vstd::prelude::*;

use crate::search_replace_edit::EditOperation;

verus! {

/// Arguments of a whole-file read.
pub struct ReadFileParams {
    /// The path to the file to read (absolute or relative to the working
    /// directory).
    pub path: String,
}

/// Arguments of a whole-file write.
pub struct WriteFileParams {
    /// The path to the file to write.
    pub path: String,
    /// The content to write to the file.
    pub content: String,
}

/// Arguments of a shell command execution.
pub struct ExecuteCommandParams {
    /// The command to execute.
    pub command: String,
}

/// Arguments of a content search.
pub struct GrepParams {
    /// Regular expression pattern to search for.
    pub regex: String,
    /// Glob pattern to filter files.
    pub include_pattern: Option<String>,
    /// Offset for pagination; zero when absent.
    pub offset: Option<u32>,
    /// Whether the search is case sensitive; insensitive when absent.
    pub case_sensitive: Option<bool>,
    /// Working directory for the search.
    pub working_directory: Option<String>,
}

/// Arguments of a directory listing.
pub struct ListDirectoryParams {
    /// The path to the directory to list.
    pub path: String,
}

/// Arguments of a directory creation.
pub struct CreateDirectoryParams {
    /// The path where the directory should be created.
    pub path: String,
}

/// Arguments of a copy.
pub struct CopyPathParams {
    /// The source path to copy from.
    pub source_path: String,
    /// The destination path to copy to.
    pub destination_path: String,
}

/// Arguments of a move.
pub struct MovePathParams {
    /// The source path to move from.
    pub source_path: String,
    /// The destination path to move to.
    pub destination_path: String,
}

/// Arguments of a current-time request.
pub struct NowParams {
    /// Timezone for the datetime: `utc` or `local`; local when absent.
    pub timezone: Option<String>,
}

/// Arguments of a search/replace edit.
pub struct SearchReplaceEditParams {
    /// The path to the file to edit.
    pub path: String,
    /// The search and replace operations, in application order.
    pub edits: Vec<EditOperation>,
}

/// Arguments of a patch application.
pub struct ApplyPatchParams {
    /// The path to the file to patch.
    pub path: String,
    /// The unified diff patch content.
    pub patch: String,
}

/// Arguments of a task-completion signal.
pub struct TaskCompleteParams {
    /// The ID of the task to mark as complete.
    pub task_id: String,
    /// The result or output of the task.
    pub result: String,
}

} // verus!
