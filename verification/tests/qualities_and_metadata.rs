use vod_segments::dash::{
    AdaptationSet, Period, PlaybackDescriptor, Representation, SegmentTemplate,
};
use vod_segments::error::DownloadError;
use vod_segments::metadata::{
    clip_api_url, clip_info, clip_playback_key, cookie_header, cookie_value, find_session,
    first_media, manifest_handle, playback_url, read_playback_media, video_api_url, video_info,
    video_info_from, video_labels, ClipContent, ManifestHandle, PlaybackDocument, PlaybackMedia,
    VideoContent,
};
use vod_segments::quality::{dash_qualities, hls_qualities, parse_unsigned, quality_label};

fn rep(id: Option<&str>, width: Option<u64>, height: Option<u64>, bandwidth: Option<u64>) -> Representation {
    Representation {
        id: id.map(|s| s.to_string()),
        width,
        height,
        bandwidth,
        base_url: Some("https://cdn/clip.mp4".to_string()),
        segment_template: Some(SegmentTemplate { media: None, timescale: None, timeline: None }),
    }
}

fn descriptor(mime: &str, reps: Vec<Representation>) -> PlaybackDescriptor {
    PlaybackDescriptor {
        periods: Some(vec![Period {
            adaptation_sets: Some(vec![AdaptationSet {
                mime_type: Some(mime.to_string()),
                representations: Some(reps),
            }]),
        }]),
    }
}

fn summary(q: &vod_segments::quality::QualityDescriptor) -> (String, u32, u32, u64) {
    (q.id.clone(), q.width, q.height, q.bandwidth)
}

#[test]
fn playlist_qualities_by_descending_bandwidth() {
    let master = "#EXTM3U\n\
#EXT-X-STREAM-INF:BANDWIDTH=800000,RESOLUTION=640x360\n\
360p/list.m3u8\n\
#EXT-X-STREAM-INF:PROGRAM-ID=1,BANDWIDTH=5000000,RESOLUTION=1920x1080,CODECS=\"avc1\"\n\
 1080p/list.m3u8 \n\
#EXT-X-STREAM-INF:RESOLUTION=1280x720,BANDWIDTH=2500000\n\
720p/list.m3u8\n\
#EXT-X-STREAM-INF:BANDWIDTH=2500000\n\
audio/list.m3u8\n";
    let found: Vec<_> = hls_qualities(master).iter().map(summary).collect();
    assert_eq!(
        found,
        vec![
            ("1080p/list.m3u8".to_string(), 1920, 1080, 5_000_000),
            ("720p/list.m3u8".to_string(), 1280, 720, 2_500_000),
            ("audio/list.m3u8".to_string(), 0, 0, 2_500_000),
            ("360p/list.m3u8".to_string(), 640, 360, 800_000),
        ]
    );
}

#[test]
fn playlist_quality_needs_an_identifier_line() {
    let master = "#EXT-X-STREAM-INF:BANDWIDTH=1\n#comment\n#EXT-X-STREAM-INF:BANDWIDTH=2\n\n#EXT-X-STREAM-INF:BANDWIDTH=3\nok.m3u8\n#EXT-X-STREAM-INF:BANDWIDTH=4";
    let found: Vec<_> = hls_qualities(master).iter().map(summary).collect();
    assert_eq!(found, vec![("ok.m3u8".to_string(), 0, 0, 3)]);
    assert_eq!(hls_qualities("").len(), 0);
}

#[test]
fn unreadable_stream_numbers_are_zero() {
    let master = "#EXT-X-STREAM-INF:BANDWIDTH=fast,RESOLUTION=1920x1080x3\na\n#EXT-X-STREAM-INF:BANDWIDTH=99999999999999999999,RESOLUTION=ax720\nb\n";
    let found: Vec<_> = hls_qualities(master).iter().map(summary).collect();
    assert_eq!(found, vec![("a".to_string(), 0, 0, 0), ("b".to_string(), 0, 720, 0)]);
}

#[test]
fn attribute_names_are_matched_whole() {
    let master = "#EXT-X-STREAM-INF:AVERAGE-BANDWIDTH=111,BANDWIDTH=222,X-RESOLUTION=1x1,RESOLUTION=640x360\na\n\
#EXT-X-STREAM-INF:AVERAGE-BANDWIDTH=333\nb\n\
#EXT-X-STREAM-INF:BANDWIDTH=444,AVERAGE-BANDWIDTH=555\nc\n";
    let found: Vec<_> = hls_qualities(master).iter().map(summary).collect();
    assert_eq!(
        found,
        vec![
            ("c".to_string(), 0, 0, 444),
            ("a".to_string(), 640, 360, 222),
            ("b".to_string(), 0, 0, 0),
        ]
    );
}

#[test]
fn unsigned_numbers() {
    let read = |s: &str, cap: u64| parse_unsigned(&s.chars().collect(), cap);
    assert_eq!(read("18446744073709551615", u64::MAX), u64::MAX);
    assert_eq!(read("18446744073709551616", u64::MAX), 0);
    assert_eq!(read("+12", u64::MAX), 12);
    assert_eq!(read("+", u64::MAX), 0);
    assert_eq!(read("", u64::MAX), 0);
    assert_eq!(read("-1", u64::MAX), 0);
    assert_eq!(read("4294967295", 0xFFFF_FFFF), 4294967295);
    assert_eq!(read("4294967296", 0xFFFF_FFFF), 0);
    assert_eq!(read("007", 0xFFFF_FFFF), 7);
}

#[test]
fn descriptor_qualities_by_descending_bandwidth() {
    let desc = descriptor(
        "video/mp2t",
        vec![
            rep(Some("low"), Some(640), Some(360), Some(800_000)),
            rep(None, None, None, None),
            rep(Some("high"), Some(1920), Some(1080), Some(8_000_000)),
            rep(Some("low2"), Some(4_294_967_296 + 5), Some(360), Some(800_000)),
        ],
    );
    let found: Vec<_> = dash_qualities(&desc).iter().map(summary).collect();
    assert_eq!(
        found,
        vec![
            ("high".to_string(), 1920, 1080, 8_000_000),
            ("low".to_string(), 640, 360, 800_000),
            ("low2".to_string(), 5, 360, 800_000),
            ("".to_string(), 0, 0, 0),
        ]
    );
    assert_eq!(dash_qualities(&descriptor("video/mp4", vec![rep(Some("x"), None, None, None)])).len(), 0);
    assert_eq!(dash_qualities(&PlaybackDescriptor { periods: None }).len(), 0);
}

#[test]
fn labels() {
    let rate = format!("{:.1}", 5_000_000 as f64 / 1_000_000.0);
    assert_eq!(quality_label(1080, &rate), "1080p (5.0Mbps)");
    assert_eq!(quality_label(0, "2.5"), "2.5Mbps");
}

#[test]
fn request_addresses() {
    assert_eq!(video_api_url("123"), "https://api.chzzk.naver.com/service/v3/videos/123");
    assert_eq!(clip_api_url("abc"), "https://api.chzzk.naver.com/service/v1/play-info/clip/abc");
    assert_eq!(
        playback_url("VID", "KEY"),
        "https://apis.naver.com/neonplayer/vodplay/v2/playback/VID?key=KEY"
    );
    assert_eq!(cookie_header("a", "s"), "NID_AUT=a; NID_SES=s");
}

fn content() -> VideoContent {
    VideoContent {
        video_title: Some("T".to_string()),
        channel_name: None,
        duration: Some(90),
        thumbnail_image_url: None,
        live_rewind_playback_json: None,
        video_id: Some("VID".to_string()),
        in_key: Some("KEY".to_string()),
    }
}

#[test]
fn video_served_by_descriptor() {
    let info = video_info(&content()).unwrap();
    assert_eq!(info.title, "T");
    assert_eq!(info.channel, "channel");
    assert_eq!(info.duration, 90);
    assert_eq!(info.thumbnail, "");
    assert!(info.is_dash);
    assert_eq!(info.master_url, "DASH");
    assert_eq!(info.dash_video_id.as_deref(), Some("VID"));
    assert_eq!(info.dash_in_key.as_deref(), Some("KEY"));
    match manifest_handle(&info) {
        Ok(ManifestHandle::Dash { content_id, access_key }) => {
            assert_eq!((content_id.as_str(), access_key.as_str()), ("VID", "KEY"));
        }
        _ => panic!("expected a playback descriptor"),
    }
}

#[test]
fn video_served_by_playlist() {
    let mut c = content();
    c.video_title = None;
    c.duration = None;
    c.live_rewind_playback_json =
        Some("{\"media\":[{\"path\":\"https://h/master.m3u8\"},{\"path\":\"x\"}]}".to_string());
    let info = video_info(&c).unwrap();
    assert_eq!(info.title, "video");
    assert_eq!(info.duration, 0);
    assert!(!info.is_dash);
    assert_eq!(info.master_url, "https://h/master.m3u8");
    assert_eq!(info.dash_video_id, None);
    match manifest_handle(&info) {
        Ok(ManifestHandle::Hls { master_url }) => assert_eq!(master_url, "https://h/master.m3u8"),
        _ => panic!("expected a playlist"),
    }
}

#[test]
fn video_with_missing_parts_is_a_parse_error() {
    let mut c = content();
    c.in_key = None;
    assert!(matches!(video_info(&c), Err(DownloadError::Parse)));
    let mut c = content();
    c.live_rewind_playback_json = Some("{".to_string());
    assert!(matches!(read_playback_media(&c), Some(PlaybackMedia::Unreadable)));
    assert!(matches!(video_info(&c), Err(DownloadError::Parse)));
    assert!(matches!(video_info_from(&c, Some(PlaybackMedia::Unreadable)), Err(DownloadError::Parse)));
    assert!(matches!(video_info_from(&c, Some(PlaybackMedia::Listed(None))), Err(DownloadError::Parse)));
    assert!(matches!(video_info_from(&c, None), Err(DownloadError::Parse)));
    let listed = Some(PlaybackMedia::Listed(Some("p".to_string())));
    assert_eq!(video_info_from(&c, listed).unwrap().master_url, "p");
    c.live_rewind_playback_json = Some("{\"media\":[]}".to_string());
    assert!(matches!(read_playback_media(&c), Some(PlaybackMedia::Listed(None))));
    assert!(matches!(video_info(&c), Err(DownloadError::Parse)));
    c.live_rewind_playback_json = Some("{\"media\":[{\"path\":7}]}".to_string());
    assert!(matches!(video_info(&c), Err(DownloadError::Parse)));
    assert!(matches!(read_playback_media(&content()), None));
    let mut info = video_info(&content()).unwrap();
    info.dash_in_key = None;
    assert!(matches!(manifest_handle(&info), Err(DownloadError::Parse)));
}

#[test]
fn clip_from_its_descriptor() {
    let c = ClipContent {
        content_title: None,
        channel_name: Some("Ch".to_string()),
        video_id: Some("V".to_string()),
        in_key: Some("K".to_string()),
    };
    assert_eq!(clip_playback_key(&c), Ok(("V".to_string(), "K".to_string())));
    let desc = descriptor("video/mp4", vec![rep(Some("x"), None, None, None)]);
    let info = clip_info(&c, &desc, Some("https://t/img.jpg?type=s80&x=?type=1")).unwrap();
    assert_eq!(info.title, "clip");
    assert_eq!(info.channel, "Ch");
    assert_eq!(info.mp4_url, "https://cdn/clip.mp4");
    assert_eq!(info.thumbnail, "https://t/img.jpg");
    let info = clip_info(&c, &desc, Some("https://t/img.jpg")).unwrap();
    assert_eq!(info.thumbnail, "https://t/img.jpg");
    let info = clip_info(&c, &desc, None).unwrap();
    assert_eq!(info.thumbnail, "");
}

#[test]
fn clip_with_missing_parts_is_a_parse_error() {
    let c = ClipContent { content_title: None, channel_name: None, video_id: None, in_key: Some("K".to_string()) };
    assert_eq!(clip_playback_key(&c), Err(DownloadError::Parse));
    let wrong = descriptor("video/mp2t", vec![rep(Some("x"), None, None, None)]);
    assert!(matches!(clip_info(&c, &wrong, None), Err(DownloadError::Parse)));
    let empty = descriptor("video/mp4", vec![]);
    assert!(matches!(clip_info(&c, &empty, None), Err(DownloadError::Parse)));
    let mut r = rep(Some("x"), None, None, None);
    r.base_url = None;
    assert!(matches!(clip_info(&c, &descriptor("video/mp4", vec![r]), None), Err(DownloadError::Parse)));
}

fn cookie(name: &str, value: &str) -> (String, String) {
    (name.to_string(), value.to_string())
}

#[test]
fn session_is_read_from_the_last_cookies() {
    let cookies = vec![
        cookie("NID_AUT", "old"),
        cookie("other", "x"),
        cookie("NID_SES", "secret"),
        cookie("NID_AUT", "new"),
    ];
    assert_eq!(cookie_value(&cookies, "NID_AUT"), "new");
    assert_eq!(cookie_value(&cookies, "missing"), "");
    assert_eq!(find_session(&cookies), Some(("new".to_string(), "secret".to_string())));
}

#[test]
fn session_needs_both_cookies_non_empty() {
    assert_eq!(find_session(&vec![]), None);
    assert_eq!(find_session(&vec![cookie("NID_AUT", "a")]), None);
    assert_eq!(find_session(&vec![cookie("NID_AUT", "a"), cookie("NID_SES", "")]), None);
    assert_eq!(
        find_session(&vec![cookie("NID_AUT", "a"), cookie("NID_SES", "s"), cookie("NID_AUT", "")]),
        None
    );
}

#[test]
fn first_media_is_the_first_entry_of_the_list() {
    let path = |m: PlaybackMedia| match m {
        PlaybackMedia::Unreadable => None,
        PlaybackMedia::Listed(p) => Some(p),
    };
    assert_eq!(path(first_media(&PlaybackDocument::Unreadable)), None);
    assert_eq!(path(first_media(&PlaybackDocument::Read(None))), Some(None));
    assert_eq!(path(first_media(&PlaybackDocument::Read(Some(vec![])))), Some(None));
    let doc = PlaybackDocument::Read(Some(vec![None, Some("b".to_string())]));
    assert_eq!(path(first_media(&doc)), Some(None));
    let doc = PlaybackDocument::Read(Some(vec![Some("a".to_string()), Some("b".to_string())]));
    assert_eq!(path(first_media(&doc)), Some(Some("a".to_string())));
}

#[test]
fn embedded_document_is_read_entry_by_entry() {
    let mut c = content();
    c.live_rewind_playback_json = Some("{\"media\":{\"path\":\"x\"}}".to_string());
    assert!(matches!(read_playback_media(&c), Some(PlaybackMedia::Listed(None))));
    c.live_rewind_playback_json = Some("[1,2]".to_string());
    assert!(matches!(read_playback_media(&c), Some(PlaybackMedia::Listed(None))));
    c.live_rewind_playback_json =
        Some("{\"media\":[{\"other\":1},{\"path\":\"second\"}]}".to_string());
    assert!(matches!(read_playback_media(&c), Some(PlaybackMedia::Listed(None))));
    c.live_rewind_playback_json =
        Some("{\"media\":[{\"path\":\"first\"},{\"path\":\"second\"}]}".to_string());
    match read_playback_media(&c) {
        Some(PlaybackMedia::Listed(Some(p))) => assert_eq!(p, "first"),
        _ => panic!("expected the first path"),
    }
}

#[test]
fn labels_fall_back_where_fields_are_missing() {
    let labels = video_labels(&content());
    assert_eq!(labels.title, "T");
    assert_eq!(labels.channel, "channel");
    assert_eq!(labels.duration, 90);
    assert_eq!(labels.thumbnail, "");
    let mut c = content();
    c.video_title = None;
    c.channel_name = Some("C".to_string());
    c.duration = None;
    c.thumbnail_image_url = Some("t.jpg".to_string());
    let labels = video_labels(&c);
    assert_eq!(labels.title, "video");
    assert_eq!(labels.channel, "C");
    assert_eq!(labels.duration, 0);
    assert_eq!(labels.thumbnail, "t.jpg");
}
