//! What is known of a video or clip before it is downloaded, and the
//! progress events of a download.
use vstd::prelude::*;

verus! {

/// One progress event: a stage, how far it has come, and a message.
#[derive(Clone, Debug)]
pub struct DownloadProgress {
    pub stage: String,
    pub current: u32,
    pub total: u32,
    pub message: String,
}

/// A video on demand: its labels and where its manifest is found. A video
/// served by playback descriptor has `is_dash` set and carries the content
/// identifier and access key of that descriptor.
#[derive(Debug)]
pub struct VideoInfo {
    pub title: String,
    pub channel: String,
    pub master_url: String,
    pub duration: u64,
    pub thumbnail: String,
    pub is_dash: bool,
    pub dash_video_id: Option<String>,
    pub dash_in_key: Option<String>,
}

/// A clip: its labels and the URL of its media file.
#[derive(Debug)]
pub struct ClipInfo {
    pub title: String,
    pub channel: String,
    pub mp4_url: String,
    pub thumbnail: String,
}

} // verus!
