//! The stateless file and process tools: their request records and the
//! verified parts of their behaviour — confirmation messages, directory
//! listing rendering, and command-output assembly. The platform calls
//! themselves (reads, writes, copies, process spawning) live outside the
//! library and hand their results in as plain values.

use vstd::prelude::*;

use crate::text::dec_str;
use crate::text::join_lines;
use crate::text::join_nl;
use crate::text::u128_to_string;
use crate::text::usize_to_string;

verus! {

/// A whole-file read request.
pub struct ReadFileTool {
    /// Path of the file to read.
    pub path: String,
}

/// A whole-file write request.
pub struct WriteFileTool {
    /// Path of the file to write.
    pub path: String,
    /// The text to write.
    pub content: String,
}

impl WriteFileTool {
    /// The confirmation message reported after a successful write.
    pub fn success_message(path: &str) -> (r: String)
        ensures
            r@ == "Successfully wrote to "@ + path@,
    {
        let mut r = String::new();
        r.append("Successfully wrote to ");
        r.append(path);
        r
    }
}

/// A directory listing request.
pub struct ListDirectoryTool {
    /// Path of the directory to list.
    pub path: String,
}

impl ListDirectoryTool {
    /// The rendered listing: the directory, its entry count, and the entry
    /// names one per line, in the order given.
    pub fn render_listing(path: &str, names: &Vec<String>) -> (r: String)
        ensures
            r@ == "Directory '"@ + path@ + "' contains "@ + dec_str(names@.len() as nat)
                + " entries:\n"@ + join_nl(names.deep_view()),
    {
        let mut r = String::new();
        r.append("Directory '");
        r.append(path);
        r.append("' contains ");
        let count = usize_to_string(names.len());
        r.append(count.as_str());
        r.append(" entries:\n");
        let body = join_lines(names);
        r.append(body.as_str());
        r
    }
}

/// A directory creation request.
pub struct CreateDirectoryTool {
    /// Path of the directory to create; parents are created as needed.
    pub path: String,
}

impl CreateDirectoryTool {
    /// The confirmation message reported after a successful creation.
    pub fn success_message(path: &str) -> (r: String)
        ensures
            r@ == "Successfully created directory at "@ + path@,
    {
        let mut r = String::new();
        r.append("Successfully created directory at ");
        r.append(path);
        r
    }
}

/// A copy request.
pub struct CopyPathTool {
    /// The file or directory to copy.
    pub source_path: String,
    /// Where to copy it to.
    pub destination_path: String,
}

impl CopyPathTool {
    /// The confirmation message reported after a successful copy; the source
    /// being a directory or a file changes the wording.
    pub fn success_message(destination: &str, is_directory: bool) -> (r: String)
        ensures
            r@ == (if is_directory {
                "Successfully copied directory to "@ + destination@
            } else {
                "Successfully copied file to "@ + destination@
            }),
    {
        let mut r = String::new();
        if is_directory {
            r.append("Successfully copied directory to ");
        } else {
            r.append("Successfully copied file to ");
        }
        r.append(destination);
        r
    }
}

/// A move/rename request.
pub struct MovePathTool {
    /// The file or directory to move.
    pub source_path: String,
    /// Where to move it to.
    pub destination_path: String,
}

impl MovePathTool {
    /// The confirmation message reported after a successful move.
    pub fn success_message(destination: &str) -> (r: String)
        ensures
            r@ == "Successfully moved to "@ + destination@,
    {
        let mut r = String::new();
        r.append("Successfully moved to ");
        r.append(destination);
        r
    }
}

/// A shell command execution request.
pub struct ExecuteCommandTool {
    /// The command line to run.
    pub command: String,
}

/// The combined output of a finished command: standard output first, then,
/// when both streams produced text, a separator, then standard error.
pub open spec fn combined_output_spec(stdout: Seq<char>, stderr: Seq<char>) -> Seq<char> {
    stdout + (if stderr.len() > 0 && stdout.len() > 0 {
        "\n--- STDERR ---\n"@
    } else {
        Seq::empty()
    }) + stderr
}

/// The decimal rendering of a possibly negative number.
pub open spec fn int_str(n: int) -> Seq<char> {
    if n < 0 {
        seq!['-'] + dec_str((-n) as nat)
    } else {
        dec_str(n as nat)
    }
}

impl ExecuteCommandTool {
    /// Assembles what a finished command printed on its two streams.
    pub fn combine_output(stdout: &str, stderr: &str) -> (r: String)
        ensures
            r@ == combined_output_spec(stdout@, stderr@),
    {
        let mut r = String::new();
        r.append(stdout);
        if !stderr.is_empty() {
            if !stdout.is_empty() {
                r.append("\n--- STDERR ---\n");
            }
            r.append(stderr);
        }
        assert(r@ =~= combined_output_spec(stdout@, stderr@));
        r
    }

    /// The detail reported when a command exits unsuccessfully, naming its
    /// exit code and combined output.
    pub fn failure_detail(exit_code: i32, output: &str) -> (r: String)
        ensures
            r@ == "Command failed with exit code "@ + int_str(exit_code as int) + ": "@ + output@,
    {
        let mut r = String::new();
        r.append("Command failed with exit code ");
        let wide = exit_code as i64;
        if wide < 0 {
            r.append("-");
            let mag = u128_to_string((-wide) as u128);
            r.append(mag.as_str());
            proof {
                reveal_strlit("-");
                assert("-"@ =~= seq!['-']);
                assert(r@ =~= "Command failed with exit code "@ + int_str(exit_code as int));
            }
        } else {
            let mag = u128_to_string(wide as u128);
            r.append(mag.as_str());
            assert(r@ =~= "Command failed with exit code "@ + int_str(exit_code as int));
        }
        r.append(": ");
        r.append(output);
        r
    }
}

} // verus!
