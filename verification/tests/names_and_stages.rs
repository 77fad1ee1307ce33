use vod_segments::error::DownloadError;
use vod_segments::info::{ClipInfo, VideoInfo};
use vod_segments::numbers::format_padded;
use vod_segments::output::{
    build_clip_filename, build_output_filename, combined_file_name, remux_args, sanitize_filename,
    segment_file_name, temp_dir_name,
};
use vod_segments::pipeline::{
    advance, is_tool_entry, locate_tool, next_stage, remux_outcome, require_segments, stage_event, stage_name,
    DownloadKind, Outcome, Stage, Step, ToolLocation,
};

fn video(channel: &str, title: &str) -> VideoInfo {
    VideoInfo {
        title: title.to_string(),
        channel: channel.to_string(),
        master_url: String::new(),
        duration: 0,
        thumbnail: String::new(),
        is_dash: false,
        dash_video_id: None,
        dash_in_key: None,
    }
}

#[test]
fn sanitize_removes_the_nine_forbidden_characters() {
    assert_eq!(sanitize_filename("a\\b/c*d?e:f\"g<h>i|j"), "abcdefghij");
    assert_eq!(sanitize_filename("plain name.mp4"), "plain name.mp4");
    assert_eq!(sanitize_filename("?:?"), "");
    assert_eq!(sanitize_filename(""), "");
    assert_eq!(sanitize_filename("[x] (y) {z} ^$.+-"), "[x] (y) {z} ^$.+-");
    assert_eq!(sanitize_filename("\u{d55c}:\u{ae00}"), "\u{d55c}\u{ae00}");
}

#[test]
fn output_name_with_both_tags() {
    assert_eq!(
        build_output_filename(&video("chan/nel", "ti:tle?"), "1:02:03", "1:10:00"),
        "channel_title_10203_11000.mp4"
    );
}

#[test]
fn output_name_with_open_end() {
    assert_eq!(build_output_filename(&video("c", "t"), "0:30", ""), "c_t_030_END.mp4");
    assert_eq!(build_output_filename(&video("c", "t"), "", ""), "c_t__END.mp4");
}

#[test]
fn clip_name_joins_channel_and_title() {
    let clip = ClipInfo {
        title: "a|b".to_string(),
        channel: "<c>".to_string(),
        mp4_url: String::new(),
        thumbnail: String::new(),
    };
    assert_eq!(build_clip_filename(&clip), "c_ab.mp4");
}

#[test]
fn working_file_names() {
    assert_eq!(temp_dir_name("ABC123"), "temp_ABC123");
    assert_eq!(segment_file_name(0), "seg_00000.m4s");
    assert_eq!(segment_file_name(42), "seg_00042.m4s");
    assert_eq!(segment_file_name(99999), "seg_99999.m4s");
    assert_eq!(segment_file_name(123456), "seg_123456.m4s");
    assert_eq!(combined_file_name(), "combined.raw");
}

#[test]
fn padded_numbers() {
    let s: String = format_padded(7, 6).iter().collect();
    assert_eq!(s, "000007");
    let s: String = format_padded(0, 0).iter().collect();
    assert_eq!(s, "0");
    let s: String = format_padded(u64::MAX, 3).iter().collect();
    assert_eq!(s, "18446744073709551615");
}

#[test]
fn remux_arguments_in_order() {
    assert_eq!(
        remux_args("in dir/combined.raw", "out.mp4"),
        vec![
            "-y", "-i", "in dir/combined.raw", "-c", "copy", "-map", "0", "-movflags", "faststart",
            "-bsf:a", "aac_adtstoasc", "out.mp4",
        ]
    );
}

#[test]
fn stages_of_a_vod_download() {
    let mut names = vec![stage_name(Stage::Info)];
    let mut stage = Stage::Info;
    while let Some(next) = next_stage(DownloadKind::Vod, stage) {
        names.push(stage_name(next));
        stage = next;
    }
    assert_eq!(names, vec!["info", "downloading", "merging", "remuxing", "complete"]);
}

#[test]
fn stages_of_a_clip_download() {
    let mut names = vec![stage_name(Stage::Info)];
    let mut stage = Stage::Info;
    while let Some(next) = next_stage(DownloadKind::Clip, stage) {
        names.push(stage_name(next));
        stage = next;
    }
    assert_eq!(names, vec!["info", "downloading", "complete"]);
}

#[test]
fn failure_aborts_and_success_advances() {
    assert_eq!(
        advance(DownloadKind::Vod, Stage::Downloading, Outcome::Failed(DownloadError::Fetch)),
        Step::Abort(DownloadError::Fetch)
    );
    assert_eq!(
        advance(DownloadKind::Vod, Stage::Merging, Outcome::Failed(DownloadError::Filesystem)),
        Step::Abort(DownloadError::Filesystem)
    );
    assert_eq!(
        advance(DownloadKind::Vod, Stage::Info, Outcome::Succeeded),
        Step::Continue(Stage::Downloading)
    );
    assert_eq!(
        advance(DownloadKind::Vod, Stage::Downloading, Outcome::Succeeded),
        Step::Continue(Stage::Merging)
    );
    assert_eq!(
        advance(DownloadKind::Vod, Stage::Merging, Outcome::Succeeded),
        Step::Continue(Stage::Remuxing)
    );
    assert_eq!(
        advance(DownloadKind::Vod, Stage::Remuxing, Outcome::Succeeded),
        Step::Finish { cleanup: true }
    );
    assert_eq!(
        advance(DownloadKind::Vod, Stage::Remuxing, Outcome::Failed(DownloadError::Subprocess)),
        Step::Abort(DownloadError::Subprocess)
    );
    assert_eq!(
        advance(DownloadKind::Clip, Stage::Downloading, Outcome::Succeeded),
        Step::Finish { cleanup: false }
    );
    assert_eq!(
        advance(DownloadKind::Clip, Stage::Complete, Outcome::Succeeded),
        Step::Finish { cleanup: false }
    );
}

#[test]
fn remux_fails_unless_started_and_successful() {
    assert_eq!(remux_outcome(true, true), Outcome::Succeeded);
    assert_eq!(remux_outcome(true, false), Outcome::Failed(DownloadError::Subprocess));
    assert_eq!(remux_outcome(false, false), Outcome::Failed(DownloadError::Subprocess));
    assert_eq!(remux_outcome(false, true), Outcome::Failed(DownloadError::Subprocess));
}

#[test]
fn empty_plan_is_refused() {
    assert_eq!(require_segments(&vec![]), Err(DownloadError::Parse));
    assert_eq!(require_segments(&vec!["u".to_string()]), Ok(()));
}

#[test]
fn stage_event_carries_its_fields() {
    let e = stage_event(Stage::Merging, 0, 1, "merging segments");
    assert_eq!(e.stage, "merging");
    assert_eq!((e.current, e.total), (0, 1));
    assert_eq!(e.message, "merging segments");
}

#[test]
fn tool_on_the_search_path_comes_first() {
    assert_eq!(locate_tool(true, true), Some(ToolLocation::SearchPath));
    assert_eq!(locate_tool(true, false), Some(ToolLocation::SearchPath));
    assert_eq!(locate_tool(false, true), Some(ToolLocation::DataDirectory));
    assert_eq!(locate_tool(false, false), None);
}

#[test]
fn tool_entry_is_recognised_by_its_ending() {
    assert!(is_tool_entry("ffmpeg-master-latest-win64-gpl/bin/ffmpeg.exe"));
    assert!(is_tool_entry("bin/ffmpeg.exe"));
    assert!(!is_tool_entry("in/ffmpeg.exe"));
    assert!(!is_tool_entry("bin/ffmpeg.exe.txt"));
    assert!(!is_tool_entry("bin/ffprobe.exe"));
    assert!(!is_tool_entry(""));
}
