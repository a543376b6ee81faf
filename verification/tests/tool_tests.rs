use common_tools::error::ToolError;
use common_tools::io_tools::CopyPathTool;
use common_tools::io_tools::CreateDirectoryTool;
use common_tools::io_tools::ExecuteCommandTool;
use common_tools::io_tools::ListDirectoryTool;
use common_tools::io_tools::MovePathTool;
use common_tools::io_tools::WriteFileTool;
use common_tools::now::default_timezone;
use common_tools::now::NowTool;
use common_tools::task_complete::TaskCompleteTool;

#[test]
fn test_now_tool() {
    let tool = NowTool { timezone: "utc".to_string() };
    let message = tool.now_message();
    assert!(message.starts_with("Current time (utc): "));
    assert!(message.ends_with("+00:00"));
}

#[test]
fn test_now_tool_local() {
    let tool = NowTool { timezone: "local".to_string() };
    let message = tool.now_message();
    assert!(message.starts_with("Current time (local): "));
}

#[test]
fn test_now_tool_unknown_timezone_falls_back_to_local() {
    let tool = NowTool { timezone: "mars".to_string() };
    let message = tool.now_message();
    assert!(message.starts_with("Current time (local): "));
}

#[test]
fn test_default_timezone() {
    assert_eq!(default_timezone(), "local");
}

#[test]
fn test_task_complete_tool() {
    let tool = TaskCompleteTool { summary: "Test task completed successfully".to_string() };
    let message = tool.completion_message();
    assert_eq!(message, "Task marked as complete: Test task completed successfully");
}

#[test]
fn test_confirmation_messages() {
    assert_eq!(WriteFileTool::success_message("/tmp/out.txt"), "Successfully wrote to /tmp/out.txt");
    assert_eq!(
        CreateDirectoryTool::success_message("/tmp/dir"),
        "Successfully created directory at /tmp/dir"
    );
    assert_eq!(CopyPathTool::success_message("/tmp/d", true), "Successfully copied directory to /tmp/d");
    assert_eq!(CopyPathTool::success_message("/tmp/f", false), "Successfully copied file to /tmp/f");
    assert_eq!(MovePathTool::success_message("/tmp/m"), "Successfully moved to /tmp/m");
}

#[test]
fn test_directory_listing_rendering() {
    let names = vec!["file1.txt".to_string(), "file2.txt".to_string(), "subdir".to_string()];
    let listing = ListDirectoryTool::render_listing("/tmp/dir", &names);
    assert_eq!(listing, "Directory '/tmp/dir' contains 3 entries:\nfile1.txt\nfile2.txt\nsubdir");
    let empty: Vec<String> = Vec::new();
    assert_eq!(
        ListDirectoryTool::render_listing("/e", &empty),
        "Directory '/e' contains 0 entries:\n"
    );
}

#[test]
fn test_command_output_assembly() {
    assert_eq!(ExecuteCommandTool::combine_output("out", ""), "out");
    assert_eq!(ExecuteCommandTool::combine_output("", "err"), "err");
    assert_eq!(
        ExecuteCommandTool::combine_output("out", "err"),
        "out\n--- STDERR ---\nerr"
    );
    assert_eq!(ExecuteCommandTool::combine_output("", ""), "");
}

#[test]
fn test_command_failure_detail() {
    assert_eq!(
        ExecuteCommandTool::failure_detail(2, "boom"),
        "Command failed with exit code 2: boom"
    );
    assert_eq!(
        ExecuteCommandTool::failure_detail(-1, "gone"),
        "Command failed with exit code -1: gone"
    );
}

#[test]
fn test_tool_error_messages() {
    assert_eq!(
        ToolError::InvalidArgument("bad".to_string()).message(),
        "Invalid argument: bad"
    );
    assert_eq!(
        ToolError::FileNotFound("/nonexistent/file.txt".to_string()).message(),
        "File not found: /nonexistent/file.txt"
    );
    assert_eq!(
        ToolError::PermissionDenied("/root/secret".to_string()).message(),
        "Permission denied: /root/secret"
    );
    assert_eq!(ToolError::Io("broken pipe".to_string()).message(), "IO error: broken pipe");
    assert_eq!(
        ToolError::CommandFailed("spawn failed".to_string()).message(),
        "Command execution failed: spawn failed"
    );
    assert_eq!(ToolError::Other("misc".to_string()).message(), "Tool error: misc");
}
