//! Texts and orderings of the sidebar.
use vstd::prelude::*;
use crate::text::{chars_of, dec, push_dec, push_str, str_eq, string_of};

verus! {

/// The place of a section among the sidebar's sections: agents, commands,
/// terminals, SSH, then anything else.
pub open spec fn section_order_spec(title: Seq<char>) -> u8 {
    if title == "AGENTS"@ {
        0
    } else if title == "COMMANDS"@ {
        1
    } else if title == "TERMINALS"@ {
        2
    } else if title == "SSH"@ {
        3
    } else {
        4
    }
}

/// The place of the section titled `category_title`.
pub fn section_order(category_title: &str) -> (r: u8)
    ensures
        r == section_order_spec(category_title@),
{
    if str_eq(category_title, "AGENTS") {
        0
    } else if str_eq(category_title, "COMMANDS") {
        1
    } else if str_eq(category_title, "TERMINALS") {
        2
    } else if str_eq(category_title, "SSH") {
        3
    } else {
        4
    }
}

/// The count of a section header: `"{running}/{total}"`.
pub fn count_label(running: usize, total: usize) -> (r: String)
    ensures
        r@ == dec(running as nat) + "/"@ + dec(total as nat),
{
    let mut out: Vec<char> = Vec::new();
    push_dec(&mut out, running as u64);
    push_str(&mut out, "/");
    push_dec(&mut out, total as u64);
    string_of(out.as_slice())
}

/// The port badge of a process row: `":{port}"`.
pub fn port_label(port: u16) -> (r: String)
    ensures
        r@ == ":"@ + dec(port as nat),
{
    let mut out = chars_of(":");
    push_dec(&mut out, port as u64);
    string_of(out.as_slice())
}

/// The state of a process as the sidebar shows it.
#[derive(PartialEq, Eq, Structural, Clone, Copy, Debug)]
pub enum ProcessStatus {
    Running,
    Stopped,
    Crashed,
    Restarting,
}

/// How a process row looks for a status.
#[derive(Clone, Copy, Debug)]
pub struct RowState {
    /// Stop/restart buttons show instead of the play button.
    pub running: bool,
    /// The CSS class of the status dot.
    pub dot_class: &'static str,
    /// The resource figures, port and URL of the row are cleared.
    pub clears_details: bool,
}

/// The look of a process row: a restarting process counts as running; a
/// stopped or crashed one loses its resources, port and URL.
pub open spec fn row_state_spec(status: ProcessStatus) -> (bool, Seq<char>, bool) {
    match status {
        ProcessStatus::Running => (true, "status-running"@, false),
        ProcessStatus::Restarting => (true, "status-running"@, false),
        ProcessStatus::Stopped => (false, "status-stopped"@, true),
        ProcessStatus::Crashed => (false, "status-crashed"@, true),
    }
}

/// The look of a process row for `status`.
pub fn row_state(status: ProcessStatus) -> (r: RowState)
    ensures
        (r.running, r.dot_class@, r.clears_details) == row_state_spec(status),
{
    match status {
        ProcessStatus::Running | ProcessStatus::Restarting => RowState {
            running: true,
            dot_class: "status-running",
            clears_details: false,
        },
        ProcessStatus::Stopped => RowState {
            running: false,
            dot_class: "status-stopped",
            clears_details: true,
        },
        ProcessStatus::Crashed => RowState {
            running: false,
            dot_class: "status-crashed",
            clears_details: true,
        },
    }
}

/// The state of a file in the git changes list.
#[derive(PartialEq, Eq, Structural, Clone, Copy, Debug)]
pub enum FileStatus {
    Modified,
    Added,
    Deleted,
    Renamed,
    Untracked,
}

/// Which stylesheet class paints a file's status badge.
pub fn status_css_class(status: FileStatus) -> (r: &'static str)
    ensures
        r@ == match status {
            FileStatus::Modified => "git-status-modified"@,
            FileStatus::Renamed => "git-status-modified"@,
            FileStatus::Added => "git-status-added"@,
            FileStatus::Deleted => "git-status-deleted"@,
            FileStatus::Untracked => "git-status-untracked"@,
        },
{
    match status {
        FileStatus::Modified | FileStatus::Renamed => "git-status-modified",
        FileStatus::Added => "git-status-added",
        FileStatus::Deleted => "git-status-deleted",
        FileStatus::Untracked => "git-status-untracked",
    }
}

} // verus!
