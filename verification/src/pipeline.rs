//! The stages of a download and the decisions between them.
use crate::error::DownloadError;
use crate::info::DownloadProgress;
use crate::text::{ends_with, finishes_with, to_chars};
use vstd::prelude::*;

verus! {

/// A stage of a download, as progress events name it.
#[derive(Clone, Copy, Debug, PartialEq, Eq)]
pub enum Stage {
    Info,
    Downloading,
    Merging,
    Remuxing,
    Complete,
}

/// What is downloaded: a video on demand, by segments, or a clip, as one
/// file.
#[derive(Clone, Copy, Debug, PartialEq, Eq)]
pub enum DownloadKind {
    Vod,
    Clip,
}

/// How a step of a download ended.
#[derive(Clone, Copy, Debug, PartialEq, Eq)]
pub enum Outcome {
    Succeeded,
    Failed(DownloadError),
}

/// What a download does after a step.
#[derive(Clone, Copy, Debug, PartialEq, Eq)]
pub enum Step {
    /// Go on with the given stage.
    Continue(Stage),
    /// The download is done; the working directory is removed if `cleanup`.
    Finish { cleanup: bool },
    /// The download ends with the error; what was fetched stays in place.
    Abort(DownloadError),
}

/// The name of a stage in progress events.
pub open spec fn stage_text(stage: Stage) -> Seq<char> {
    match stage {
        Stage::Info => "info"@,
        Stage::Downloading => "downloading"@,
        Stage::Merging => "merging"@,
        Stage::Remuxing => "remuxing"@,
        Stage::Complete => "complete"@,
    }
}

/// The stages of a download, in their order.
pub open spec fn stage_order(kind: DownloadKind) -> Seq<Stage> {
    match kind {
        DownloadKind::Vod => seq![
            Stage::Info,
            Stage::Downloading,
            Stage::Merging,
            Stage::Remuxing,
            Stage::Complete,
        ],
        DownloadKind::Clip => seq![Stage::Info, Stage::Downloading, Stage::Complete],
    }
}

/// The stage that follows `stage`; none follows the last. A clip goes from
/// downloading straight to complete.
pub open spec fn following(kind: DownloadKind, stage: Stage) -> Option<Stage> {
    match stage {
        Stage::Info => Some(Stage::Downloading),
        Stage::Downloading => match kind {
            DownloadKind::Vod => Some(Stage::Merging),
            DownloadKind::Clip => Some(Stage::Complete),
        },
        Stage::Merging => Some(Stage::Remuxing),
        Stage::Remuxing => Some(Stage::Complete),
        Stage::Complete => None,
    }
}

/// What follows a step in `stage` that ended with `outcome`: a failure ends
/// the download with its error; a success leads to the next stage, and
/// into the last stage with the download finished. Only a finished
/// download by segments removes its working directory.
pub open spec fn step_after(kind: DownloadKind, stage: Stage, outcome: Outcome) -> Step {
    match outcome {
        Outcome::Failed(e) => Step::Abort(e),
        Outcome::Succeeded => match following(kind, stage) {
            Some(Stage::Complete) => Step::Finish { cleanup: kind == DownloadKind::Vod },
            Some(next) => Step::Continue(next),
            None => Step::Finish { cleanup: false },
        },
    }
}

/// The name of `stage` in progress events: `stage_text`.
pub fn stage_name(stage: Stage) -> (name: String)
    ensures
        name@ == stage_text(stage),
{
    match stage {
        Stage::Info => "info".to_owned(),
        Stage::Downloading => "downloading".to_owned(),
        Stage::Merging => "merging".to_owned(),
        Stage::Remuxing => "remuxing".to_owned(),
        Stage::Complete => "complete".to_owned(),
    }
}

/// The stage that follows `stage`: `following`.
pub fn next_stage(kind: DownloadKind, stage: Stage) -> (next: Option<Stage>)
    ensures
        next == following(kind, stage),
{
    match stage {
        Stage::Info => Some(Stage::Downloading),
        Stage::Downloading => match kind {
            DownloadKind::Vod => Some(Stage::Merging),
            DownloadKind::Clip => Some(Stage::Complete),
        },
        Stage::Merging => Some(Stage::Remuxing),
        Stage::Remuxing => Some(Stage::Complete),
        Stage::Complete => None,
    }
}

/// Decides how a download goes on after a step: `step_after`.
pub fn advance(kind: DownloadKind, stage: Stage, outcome: Outcome) -> (step: Step)
    ensures
        step == step_after(kind, stage, outcome),
{
    match outcome {
        Outcome::Failed(e) => Step::Abort(e),
        Outcome::Succeeded => match next_stage(kind, stage) {
            Some(Stage::Complete) => Step::Finish {
                cleanup: match kind {
                    DownloadKind::Vod => true,
                    DownloadKind::Clip => false,
                },
            },
            Some(next) => Step::Continue(next),
            None => Step::Finish { cleanup: false },
        },
    }
}

/// Successful steps lead through the stages in their order: each stage but
/// the last is followed by the next one, and the last by none.
pub proof fn lemma_stages_in_order(kind: DownloadKind, i: int)
    requires
        0 <= i < stage_order(kind).len(),
    ensures
        following(kind, stage_order(kind)[i]) == if i + 1 < stage_order(kind).len() {
            Some(stage_order(kind)[i + 1])
        } else {
            None
        },
        stage_order(kind)[0] == Stage::Info,
        stage_order(kind).last() == Stage::Complete,
{
}

/// The progress event of a stage.
pub fn stage_event(
    stage: Stage,
    current: u32,
    total: u32,
    message: &str,
) -> (event: DownloadProgress)
    ensures
        event.stage@ == stage_text(stage),
        event.current == current,
        event.total == total,
        event.message@ == message@,
{
    DownloadProgress { stage: stage_name(stage), current, total, message: message.to_owned() }
}

/// Whether there is anything to download: a plan without segments is a
/// `Parse` error.
pub fn require_segments(plan: &Vec<String>) -> (r: Result<(), DownloadError>)
    ensures
        plan@.len() > 0 ==> r is Ok,
        plan@.len() == 0 ==> r == Err::<(), DownloadError>(DownloadError::Parse),
{
    if plan.len() == 0 {
        Err(DownloadError::Parse)
    } else {
        Ok(())
    }
}

/// The outcome of a remux run: a tool that could not be started, or that
/// ended with an error status, is a `Subprocess` failure.
pub fn remux_outcome(started: bool, exit_success: bool) -> (outcome: Outcome)
    ensures
        outcome == if started && exit_success {
            Outcome::Succeeded
        } else {
            Outcome::Failed(DownloadError::Subprocess)
        },
{
    if started && exit_success {
        Outcome::Succeeded
    } else {
        Outcome::Failed(DownloadError::Subprocess)
    }
}

/// Where the remux tool was found.
#[derive(Clone, Copy, Debug, PartialEq, Eq)]
pub enum ToolLocation {
    /// On the search path of the system.
    SearchPath,
    /// In the data directory of the application.
    DataDirectory,
}

/// Where to take the remux tool from: the search path comes first, then the
/// data directory; `None` where it is in neither.
pub fn locate_tool(on_search_path: bool, in_data_directory: bool) -> (r: Option<ToolLocation>)
    ensures
        r == if on_search_path {
            Some(ToolLocation::SearchPath)
        } else if in_data_directory {
            Some(ToolLocation::DataDirectory)
        } else {
            None
        },
{
    if on_search_path {
        Some(ToolLocation::SearchPath)
    } else if in_data_directory {
        Some(ToolLocation::DataDirectory)
    } else {
        None
    }
}

/// Whether an archive entry called `name` is the remux tool: its name
/// ends with `bin/ffmpeg.exe`.
pub fn is_tool_entry(name: &str) -> (r: bool)
    ensures
        r == ends_with(name@, "bin/ffmpeg.exe"@),
{
    let chars = to_chars(name);
    let tail = to_chars("bin/ffmpeg.exe");
    finishes_with(&chars, &tail)
}

} // verus!
