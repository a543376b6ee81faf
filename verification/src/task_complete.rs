//! The task-completion acknowledgement: a pure message around the caller's
//! summary.

use vstd::prelude::*;

verus! {

/// A completion signal with a short summary of what was accomplished.
pub struct TaskCompleteTool {
    /// Brief summary of what was accomplished.
    pub summary: String,
}

impl TaskCompleteTool {
    /// The acknowledgement message for this completion.
    pub fn completion_message(&self) -> (r: String)
        ensures
            r@ == "Task marked as complete: "@ + self.summary@,
    {
        let mut r = String::new();
        r.append("Task marked as complete: ");
        r.append(self.summary.as_str());
        r
    }
}

} // verus!
