//! What the shell does after a line has been handled.

use crate::text::{path_push, path_push_spec, trim, trimmed};
use vstd::prelude::*;

verus! {

/// Whether the shell goes on reading lines or stops.
#[derive(Debug, Clone, Copy, PartialEq, Eq, Structural)]
pub enum ShellControl {
    Continue,
    Exit,
}


/// What reading a line from the terminal gave.
pub enum ReadOutcome {
    /// A line.
    Line(String),
    /// The user interrupted the prompt or closed the input.
    Ended,
    /// Reading failed otherwise.
    Failed,
}

/// What the shell does next.
pub enum ReadStep {
    /// Record this line in the history and process it.
    Process(String),
    /// Say so, save the history and stop.
    Quit,
    /// Report the failure and read again.
    Retry,
}

/// What the shell does with what reading a line gave: a line is trimmed and
/// processed; an interrupt or the end of input stops the shell; any other
/// failure is reported and the shell reads again.
pub fn after_read(outcome: ReadOutcome) -> (r: ReadStep)
    ensures
        match outcome {
            ReadOutcome::Line(l) => r matches ReadStep::Process(t) && t@ == trimmed(l@),
            ReadOutcome::Ended => r is Quit,
            ReadOutcome::Failed => r is Retry,
        },
{
    match outcome {
        ReadOutcome::Line(l) => ReadStep::Process(trim(l.as_str())),
        ReadOutcome::Ended => ReadStep::Quit,
        ReadOutcome::Failed => ReadStep::Retry,
    }
}

/// What the shell does once a line has been processed: it goes on or stops
/// as processing said; a processing error is reported and the shell goes on.
/// The result is the control and the message to report, if any.
pub fn after_process(result: Result<ShellControl, String>) -> (r: (ShellControl, Option<String>))
    ensures
        match result {
            Ok(c) => r.0 == c && r.1 is None,
            Err(m) => r.0 == ShellControl::Continue && r.1 == Some(m),
        },
{
    match result {
        Ok(c) => (c, None),
        Err(m) => (ShellControl::Continue, Some(m)),
    }
}

/// Where the shell keeps its history: the file `.ocfshell_history` in the
/// home directory, or in `/tmp` when there is no home directory.
pub fn history_path(home: Option<String>) -> (r: String)
    ensures
        r@ == path_push_spec(
            match home {
                Some(h) => h@,
                None => "/tmp"@,
            },
            ".ocfshell_history"@,
        ),
{
    let base = match home {
        Some(h) => h,
        None => "/tmp".to_owned(),
    };
    path_push(base.as_str(), ".ocfshell_history")
}

/// What loading the history file gave.
pub enum HistoryLoad {
    /// The history was loaded.
    Loaded,
    /// The file could not be read (an I/O error, as when it does not exist).
    Unreadable,
    /// Loading failed otherwise, with this message.
    Failed(String),
}

/// What the shell does after loading its history.
pub enum HistoryStep {
    /// Nothing more.
    Ready,
    /// Create the history file.
    CreateFile,
    /// Report this message and go on.
    Report(String),
}

/// What the shell does after loading its history: nothing once loaded; it
/// creates the file when the file could not be read; it reports any other
/// failure as `ocfshell: Error loading history: <message>` and goes on.
pub fn after_history_load(outcome: HistoryLoad) -> (r: HistoryStep)
    ensures
        match outcome {
            HistoryLoad::Loaded => r is Ready,
            HistoryLoad::Unreadable => r is CreateFile,
            HistoryLoad::Failed(e) => r matches HistoryStep::Report(m) && m@
                == "ocfshell: Error loading history: "@ + e@,
        },
{
    match outcome {
        HistoryLoad::Loaded => HistoryStep::Ready,
        HistoryLoad::Unreadable => HistoryStep::CreateFile,
        HistoryLoad::Failed(e) => {
            let mut m = "ocfshell: Error loading history: ".to_owned();
            m.append(e.as_str());
            HistoryStep::Report(m)
        },
    }
}

} // verus!
