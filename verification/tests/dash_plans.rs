use vod_segments::dash::{
    build_segment_url, choose_representation, countable, parse_dash_segments, plan_timeline,
    AdaptationSet,
    Period, PlaybackDescriptor, Representation, SegmentTemplate, TimelineEntry,
};
use vod_segments::error::DownloadError;

fn entry(d: u64, r: i64) -> TimelineEntry {
    TimelineEntry { duration: Some(d), repeat: Some(r) }
}

fn rep(id: &str, bandwidth: u64, timeline: Vec<TimelineEntry>) -> Representation {
    Representation {
        id: Some(id.to_string()),
        width: Some(1920),
        height: Some(1080),
        bandwidth: Some(bandwidth),
        base_url: Some("https://cdn/v/".to_string()),
        segment_template: Some(SegmentTemplate {
            media: Some("$RepresentationID$/seg-$Number%06d$-$Number$.ts".to_string()),
            timescale: Some(1000),
            timeline: Some(timeline),
        }),
    }
}

fn descriptor(reps: Vec<Representation>) -> PlaybackDescriptor {
    PlaybackDescriptor {
        periods: Some(vec![Period {
            adaptation_sets: Some(vec![
                AdaptationSet { mime_type: Some("video/mp4".to_string()), representations: Some(vec![]) },
                AdaptationSet { mime_type: Some("video/mp2t".to_string()), representations: Some(reps) },
            ]),
        }]),
    }
}

#[test]
fn timeline_entry_with_three_repeats_gives_four_segments() {
    let desc = descriptor(vec![rep("v1", 1, vec![entry(2000, 3)])]);
    let plan = parse_dash_segments(&desc, "", "", None).unwrap();
    assert_eq!(
        plan,
        vec![
            "https://cdn/v/v1/seg-000001-1.ts",
            "https://cdn/v/v1/seg-000002-2.ts",
            "https://cdn/v/v1/seg-000003-3.ts",
            "https://cdn/v/v1/seg-000004-4.ts",
        ]
    );
}

#[test]
fn timeline_negative_repeat_counts_once() {
    let timeline = vec![
        entry(1000, -1),
        TimelineEntry { duration: None, repeat: None },
        TimelineEntry { duration: Some(3000), repeat: None },
        entry(5, 0),
    ];
    // Four segments of 1, 0, 3 and 0.005 seconds: the last begins at 4 s.
    let desc = descriptor(vec![rep("v", 1, timeline)]);
    assert_eq!(parse_dash_segments(&desc, "", "", None).unwrap().len(), 4);
    assert_eq!(
        parse_dash_segments(&desc, "0:04.001", "", None),
        Ok(vec!["https://cdn/v/v/seg-000004-4.ts".to_string()])
    );
    assert_eq!(parse_dash_segments(&descriptor(vec![rep("v", 1, vec![])]), "", "", None), Ok(vec![]));
}

fn chars(s: &str) -> Vec<char> {
    s.chars().collect()
}

#[test]
fn walk_ends_at_the_end_of_the_window() {
    // More segments than could ever be listed; the window ends after three.
    let timeline = vec![entry(2000, i64::MAX - 1)];
    let w = vod_segments::window::Window { start: 0, end: Some(5_000_000) };
    let plan =
        plan_timeline(&chars("b/"), &chars("$Number$"), &chars("v"), &timeline, 1000, &w).unwrap();
    assert_eq!(plan, vec!["b/1", "b/2", "b/3"]);
}

#[test]
fn timeline_beyond_counting_has_no_plan() {
    let timeline = vec![entry(1, i64::MAX), entry(1, i64::MAX), entry(1, i64::MAX)];
    assert!(!countable(&timeline));
    assert!(countable(&vec![entry(1, i64::MAX)]));
    assert!(countable(&vec![]));
    let w = vod_segments::window::Window { start: 0, end: Some(0) };
    assert_eq!(plan_timeline(&chars("b/"), &chars("$Number$"), &chars("v"), &timeline, 1000, &w), None);
    let desc = descriptor(vec![rep("v", 1, timeline)]);
    assert_eq!(parse_dash_segments(&desc, "", "0:01", None), Err(DownloadError::Parse));
}

#[test]
fn dash_window_keeps_segment_numbers() {
    let desc = descriptor(vec![rep("v1", 1, vec![entry(2000, 3)])]);
    let plan = parse_dash_segments(&desc, "0:03", "0:05", None).unwrap();
    assert_eq!(plan, vec!["https://cdn/v/v1/seg-000002-2.ts", "https://cdn/v/v1/seg-000003-3.ts"]);
}

#[test]
fn dash_window_may_select_nothing() {
    let desc = descriptor(vec![rep("v1", 1, vec![entry(2000, 3)])]);
    assert_eq!(parse_dash_segments(&desc, "1:00", "", None), Ok(vec![]));
}

#[test]
fn dash_default_timescale_is_one_thousand() {
    let mut r = rep("v1", 1, vec![entry(2000, 3)]);
    if let Some(t) = r.segment_template.as_mut() {
        t.timescale = None;
    }
    let plan = parse_dash_segments(&descriptor(vec![r]), "0:03", "0:05", None).unwrap();
    assert_eq!(plan.len(), 2);
}

#[test]
fn segment_url_fills_every_placeholder() {
    let base: Vec<char> = "b/".chars().collect();
    let template: Vec<char> = "$Number$_$RepresentationID$_$Number%06d$_$Number$_$Other$".chars().collect();
    let id: Vec<char> = "hd".chars().collect();
    let url: String = build_segment_url(&base, &template, &id, 1234567).iter().collect();
    assert_eq!(url, "b/1234567_hd_1234567_1234567_$Other$");
    let url: String = build_segment_url(&base, &template, &id, 42).iter().collect();
    assert_eq!(url, "b/42_hd_000042_42_$Other$");
}

#[test]
fn highest_bandwidth_is_chosen_first_of_equals() {
    let reps = vec![rep("a", 5, vec![]), rep("b", 9, vec![]), rep("c", 9, vec![]), rep("d", 1, vec![])];
    assert_eq!(choose_representation(&reps, None), Ok(1));
    let desc = descriptor(vec![
        rep("a", 5, vec![entry(1, 0)]),
        rep("b", 9, vec![entry(1, 0)]),
        rep("c", 9, vec![entry(1, 0)]),
    ]);
    assert_eq!(
        parse_dash_segments(&desc, "", "", None),
        Ok(vec!["https://cdn/v/b/seg-000001-1.ts".to_string()])
    );
}

#[test]
fn missing_bandwidth_counts_as_zero() {
    let mut a = rep("a", 0, vec![]);
    a.bandwidth = None;
    let reps = vec![a, rep("b", 0, vec![]), rep("c", 1, vec![])];
    assert_eq!(choose_representation(&reps, None), Ok(2));
    let mut a = rep("a", 0, vec![]);
    a.bandwidth = None;
    assert_eq!(choose_representation(&vec![a, rep("b", 0, vec![])], None), Ok(0));
}

#[test]
fn quality_id_selects_by_identifier() {
    let reps = vec![rep("a", 5, vec![]), rep("b", 9, vec![]), rep("a", 7, vec![])];
    assert_eq!(choose_representation(&reps, Some("a")), Ok(0));
    assert_eq!(choose_representation(&reps, Some("b")), Ok(1));
}

#[test]
fn unknown_quality_id_is_a_selection_error() {
    let reps = vec![rep("a", 5, vec![])];
    assert_eq!(choose_representation(&reps, Some("zz")), Err(DownloadError::Selection));
    assert_eq!(choose_representation(&vec![], Some("zz")), Err(DownloadError::Selection));
    let desc = descriptor(vec![rep("a", 5, vec![entry(1, 0)])]);
    assert_eq!(parse_dash_segments(&desc, "", "", Some("zz")), Err(DownloadError::Selection));
}

#[test]
fn missing_parts_are_parse_errors() {
    assert_eq!(
        parse_dash_segments(&PlaybackDescriptor { periods: None }, "", "", None),
        Err(DownloadError::Parse)
    );
    assert_eq!(
        parse_dash_segments(&PlaybackDescriptor { periods: Some(vec![]) }, "", "", None),
        Err(DownloadError::Parse)
    );
    let no_sets = PlaybackDescriptor { periods: Some(vec![Period { adaptation_sets: None }]) };
    assert_eq!(parse_dash_segments(&no_sets, "", "", None), Err(DownloadError::Parse));
    let only_mp4 = PlaybackDescriptor {
        periods: Some(vec![Period {
            adaptation_sets: Some(vec![AdaptationSet {
                mime_type: Some("video/mp4".to_string()),
                representations: Some(vec![rep("a", 1, vec![entry(1, 0)])]),
            }]),
        }]),
    };
    assert_eq!(parse_dash_segments(&only_mp4, "", "", None), Err(DownloadError::Parse));
    assert_eq!(parse_dash_segments(&descriptor(vec![]), "", "", None), Err(DownloadError::Parse));
    assert_eq!(choose_representation(&vec![], None), Err(DownloadError::Parse));

    let mut r = rep("a", 1, vec![entry(1, 0)]);
    r.id = None;
    assert_eq!(parse_dash_segments(&descriptor(vec![r]), "", "", None), Err(DownloadError::Parse));
    let mut r = rep("a", 1, vec![entry(1, 0)]);
    r.base_url = None;
    assert_eq!(parse_dash_segments(&descriptor(vec![r]), "", "", None), Err(DownloadError::Parse));
    let mut r = rep("a", 1, vec![entry(1, 0)]);
    r.segment_template = None;
    assert_eq!(parse_dash_segments(&descriptor(vec![r]), "", "", None), Err(DownloadError::Parse));
    let mut r = rep("a", 1, vec![entry(1, 0)]);
    if let Some(t) = r.segment_template.as_mut() {
        t.media = None;
    }
    assert_eq!(parse_dash_segments(&descriptor(vec![r]), "", "", None), Err(DownloadError::Parse));
    let mut r = rep("a", 1, vec![entry(1, 0)]);
    if let Some(t) = r.segment_template.as_mut() {
        t.timeline = None;
    }
    assert_eq!(parse_dash_segments(&descriptor(vec![r]), "", "", None), Err(DownloadError::Parse));
}

#[test]
fn zero_timescale_does_not_divide() {
    let mut r = rep("v", 1, vec![entry(2000, 2)]);
    if let Some(t) = r.segment_template.as_mut() {
        t.timescale = Some(0);
    }
    let desc = descriptor(vec![r]);
    assert_eq!(parse_dash_segments(&desc, "0:05", "", None).unwrap().len(), 3);
    assert_eq!(
        parse_dash_segments(&desc, "0:05", "0:10", None),
        Ok(vec!["https://cdn/v/v/seg-000001-1.ts".to_string()])
    );
}

#[test]
fn segments_of_zero_duration_are_planned_where_they_stand() {
    let timeline = vec![entry(0, 1), entry(1000, 0)];
    let desc = descriptor(vec![rep("v", 1, timeline)]);
    assert_eq!(parse_dash_segments(&desc, "", "0", None).unwrap().len(), 3);
    assert_eq!(
        parse_dash_segments(&desc, "0:01", "", None),
        Ok(vec!["https://cdn/v/v/seg-000003-3.ts".to_string()])
    );
}
