use vod_segments::error::DownloadError;
use vod_segments::hls::{find_init_uri, line_duration, parse_segments, variant_url};
use vod_segments::text::{replace_all, split_lines, trim_chars};
use vod_segments::window::{make_window, select_window, Window};

fn chars(s: &str) -> Vec<char> {
    s.chars().collect()
}

fn text(v: &Vec<char>) -> String {
    v.iter().collect()
}

const FOUR_BY_FOUR: &str = "#EXTM3U\n#EXT-X-TARGETDURATION:4\n#EXTINF:4.000,\nseg0.ts\n#EXTINF:4.000,\nseg1.ts\n#EXTINF:4.000,\nseg2.ts\n#EXTINF:4.000,\nseg3.ts\n#EXT-X-ENDLIST\n";

#[test]
fn window_two_to_ten_selects_first_three() {
    let plan = parse_segments("https://h/v/list.m3u8?tok=1", FOUR_BY_FOUR, "0:02", "0:10").unwrap();
    assert_eq!(plan, vec!["https://h/v/seg0.ts", "https://h/v/seg1.ts", "https://h/v/seg2.ts"]);
}

#[test]
fn window_indices_two_to_ten() {
    let durations: Vec<u64> = vec![4_000_000, 4_000_000, 4_000_000, 4_000_000];
    let w = Window { start: 2_000_000, end: Some(10_000_000) };
    assert_eq!(select_window(&durations, 1_000_000, &w), vec![0, 1, 2]);
}

#[test]
fn window_boundaries_are_inclusive() {
    let durations: Vec<u64> = vec![4_000_000, 4_000_000, 4_000_000, 4_000_000];
    // A segment that ends exactly at the start, and one that begins exactly
    // at the end, both belong to the window.
    let w = Window { start: 4_000_000, end: Some(8_000_000) };
    assert_eq!(select_window(&durations, 1_000_000, &w), vec![0, 1, 2]);
    let w = Window { start: 4_000_001, end: Some(7_999_999) };
    assert_eq!(select_window(&durations, 1_000_000, &w), vec![1]);
}

#[test]
fn window_with_open_end_runs_to_the_last_segment() {
    let plan = parse_segments("https://h/v/list.m3u8", FOUR_BY_FOUR, "0:09", "").unwrap();
    assert_eq!(plan, vec!["https://h/v/seg2.ts", "https://h/v/seg3.ts"]);
    let all = parse_segments("https://h/v/list.m3u8", FOUR_BY_FOUR, "", "").unwrap();
    assert_eq!(all.len(), 4);
}

#[test]
fn window_in_ticks_of_another_timescale() {
    let durations: Vec<u64> = vec![2000, 2000, 2000, 2000];
    let w = Window { start: 3_000_000, end: Some(5_000_000) };
    assert_eq!(select_window(&durations, 1000, &w), vec![1, 2]);
    let open = Window { start: 0, end: None };
    assert_eq!(select_window(&durations, 1000, &open), vec![0, 1, 2, 3]);
}

#[test]
fn window_with_huge_values_does_not_overflow() {
    let durations: Vec<u64> = vec![u64::MAX, u64::MAX, u64::MAX];
    // One second each: the spans are 0 to 1, 1 to 2 and 2 to 3 seconds.
    let w = Window { start: 1_500_000, end: Some(2_000_000) };
    assert_eq!(select_window(&durations, u64::MAX, &w), vec![1, 2]);
    let w = Window { start: u64::MAX, end: Some(u64::MAX) };
    assert_eq!(select_window(&durations, u64::MAX, &w), Vec::<usize>::new());
    assert_eq!(select_window(&durations, 1, &w), vec![0]);
}

#[test]
fn make_window_reads_both_tags() {
    let w = make_window("1:00", "");
    assert_eq!(w.start, 60_000_000);
    assert_eq!(w.end, None);
    let w = make_window("", "0:10");
    assert_eq!(w.start, 0);
    assert_eq!(w.end, Some(10_000_000));
}

#[test]
fn init_segment_comes_first() {
    let playlist = "#EXTM3U\n#EXT-X-MAP:URI=\"init.mp4\"\n#EXTINF:2.5,\na.m4s\n#EXTINF:2.5,\nb.m4s\n";
    let plan = parse_segments("https://h/v/q/list.m3u8", playlist, "0:03", "").unwrap();
    assert_eq!(plan, vec!["https://h/v/q/init.mp4", "https://h/v/q/b.m4s"]);
}

#[test]
fn init_uri_needs_a_closed_non_empty_quote() {
    assert_eq!(find_init_uri(&chars("#EXT-X-MAP:URI=\"\"\n")), None);
    assert_eq!(find_init_uri(&chars("#EXT-X-MAP:URI=\"open")), None);
    assert_eq!(
        find_init_uri(&chars("x#EXT-X-MAP:URI=\"\"#EXT-X-MAP:URI=\"i.mp4\",B")).map(|v| text(&v)),
        Some("i.mp4".to_string())
    );
}

#[test]
fn playlist_without_segments_is_a_parse_error() {
    assert_eq!(parse_segments("https://h/v/l.m3u8", "#EXTM3U\n", "", ""), Err(DownloadError::Parse));
    assert_eq!(parse_segments("https://h/v/l.m3u8", "", "", ""), Err(DownloadError::Parse));
    assert_eq!(
        parse_segments("https://h/v/l.m3u8", "#EXTM3U\n#EXT-X-ENDLIST\n", "0:02", "0:10"),
        Err(DownloadError::Parse)
    );
    // Duration lines alone do not make a segment.
    assert_eq!(
        parse_segments("https://h/v/l.m3u8", "#EXTINF:4,\n#EXTINF:4,\n#EXT-X-ENDLIST", "", ""),
        Err(DownloadError::Parse)
    );
}

#[test]
fn initialization_segment_alone_is_a_parse_error() {
    let playlist = "#EXTM3U\n#EXT-X-MAP:URI=\"init.mp4\"\n#EXT-X-ENDLIST\n";
    assert_eq!(parse_segments("https://h/v/l.m3u8", playlist, "", ""), Err(DownloadError::Parse));
    assert_eq!(parse_segments("https://h/v/l.m3u8", playlist, "0:02", "0:10"), Err(DownloadError::Parse));
}

#[test]
fn window_that_meets_no_segment_gives_an_empty_plan() {
    // Every segment lies before the window.
    assert_eq!(parse_segments("https://h/v/l.m3u8", FOUR_BY_FOUR, "1:00", "2:00"), Ok(vec![]));
    assert_eq!(parse_segments("https://h/v/l.m3u8", FOUR_BY_FOUR, "0:17", ""), Ok(vec![]));
    // The initialization segment is planned all the same.
    let playlist = "#EXT-X-MAP:URI=\"init.mp4\"\n#EXTINF:4,\na.m4s\n";
    assert_eq!(
        parse_segments("https://h/v/l.m3u8", playlist, "1:00", ""),
        Ok(vec!["https://h/v/init.mp4".to_string()])
    );
}

#[test]
fn duration_line_followed_by_a_tag_yields_no_segment_but_advances() {
    let playlist = "#EXTINF:4,\n#EXT-X-DISCONTINUITY\n#EXTINF:4,\n  b.ts  \n#EXTINF:bad,\nc.ts\n#EXTINF:4,\nd.ts";
    let plan = parse_segments("https://h/l.m3u8", playlist, "", "").unwrap();
    assert_eq!(plan, vec!["https://h/b.ts", "https://h/d.ts"]);
    // The first entry still counts four seconds: "b.ts" spans 4 to 8.
    let plan = parse_segments("https://h/l.m3u8", playlist, "0:09", "").unwrap();
    assert_eq!(plan, vec!["https://h/d.ts"]);
}

#[test]
fn absolute_segment_references_pass_through() {
    let playlist = "#EXTINF:4,\nhttps://cdn/x/1.ts\r\n#EXTINF:4,\r\nhttp://cdn/x/2.ts\r\n";
    let plan = parse_segments("https://h/l.m3u8", playlist, "", "").unwrap();
    assert_eq!(plan, vec!["https://cdn/x/1.ts", "http://cdn/x/2.ts"]);
}

#[test]
fn line_duration_reads_the_first_number() {
    assert_eq!(line_duration(&chars("#EXTINF:4.000,")), Some(4_000_000));
    assert_eq!(line_duration(&chars("#EXTINF:10.010000,title 7")), Some(10_010_000));
    assert_eq!(line_duration(&chars("#EXTINF:1.2.3,")), None);
    assert_eq!(line_duration(&chars("#EXTINF:,")), None);
    assert_eq!(line_duration(&chars("#EXT-X-TARGETDURATION:4")), None);
    assert_eq!(line_duration(&chars("seg4.ts")), None);
}

#[test]
fn variant_is_the_last_listed_one() {
    let master = "#EXTM3U\n#EXT-X-STREAM-INF:BANDWIDTH=1\nlow/list.m3u8\n#EXT-X-STREAM-INF:BANDWIDTH=2\nhigh/list.m3u8\n\n#tail\n";
    assert_eq!(
        variant_url("https://h/m/master.m3u8?k=v", master, None),
        Ok("https://h/m/high/list.m3u8".to_string())
    );
}

#[test]
fn variant_by_quality_id() {
    let master = "#EXTM3U\nlow.m3u8\nhigh.m3u8\n";
    assert_eq!(
        variant_url("https://h/m/master.m3u8", master, Some("low.m3u8")),
        Ok("https://h/m/low.m3u8".to_string())
    );
    assert_eq!(
        variant_url("https://h/m/master.m3u8", master, Some("https://o/x.m3u8")),
        Ok("https://o/x.m3u8".to_string())
    );
}

#[test]
fn master_without_variant_is_a_parse_error() {
    assert_eq!(variant_url("https://h/m.m3u8", "#EXTM3U\n\n#X\n", None), Err(DownloadError::Parse));
    assert_eq!(variant_url("https://h/m.m3u8", "", None), Err(DownloadError::Parse));
}

#[test]
fn lines_end_at_line_feeds() {
    let lines: Vec<String> = split_lines(&chars("a\r\nb\n\nc\r")).iter().map(text).collect();
    assert_eq!(lines, vec!["a", "b", "", "c\r"]);
    assert_eq!(split_lines(&chars("")).len(), 0);
    assert_eq!(split_lines(&chars("\n")).len(), 1);
    let lines: Vec<String> = split_lines(&chars("x\r\r\n")).iter().map(text).collect();
    assert_eq!(lines, vec!["x\r"]);
}

#[test]
fn trim_removes_white_space_at_both_ends() {
    assert_eq!(text(&trim_chars(&chars(" \t a b \r\n"))), "a b");
    assert_eq!(text(&trim_chars(&chars("\u{3000}x\u{a0}"))), "x");
    assert_eq!(text(&trim_chars(&chars("   "))), "");
    assert_eq!(text(&trim_chars(&chars("\u{200b}x"))), "\u{200b}x");
}

#[test]
fn replace_all_goes_left_to_right() {
    assert_eq!(text(&replace_all(&chars("aaa"), &chars("aa"), &chars("b"))), "ba");
    assert_eq!(text(&replace_all(&chars("1:02:03"), &chars(":"), &chars(""))), "10203");
    assert_eq!(text(&replace_all(&chars("abc"), &chars(""), &chars("x"))), "abc");
    assert_eq!(text(&replace_all(&chars("abc"), &chars("abcd"), &chars("x"))), "abc");
}

#[test]
fn duration_line_at_the_end_has_no_segment() {
    let playlist = "#EXTINF:4,\na.ts\n#EXTINF:4,";
    assert_eq!(parse_segments("https://h/l.m3u8", playlist, "", ""), Ok(vec!["https://h/a.ts".to_string()]));
    assert_eq!(parse_segments("https://h/l.m3u8", "#EXTINF:4,", "", ""), Err(DownloadError::Parse));
    assert_eq!(find_init_uri(&chars("#EXT-X-MAP:URI=\"")), None);
    assert_eq!(find_init_uri(&chars("#EXT-X-MAP:URI=")), None);
}

#[test]
fn empty_line_under_a_duration_resolves_to_the_directory() {
    let playlist = "#EXTINF:4,\n\n#EXTINF:4,\nb.ts\n";
    assert_eq!(
        parse_segments("https://h/v/l.m3u8", playlist, "", ""),
        Ok(vec!["https://h/v/".to_string(), "https://h/v/b.ts".to_string()])
    );
}

#[test]
fn unreadable_end_tag_is_time_zero() {
    let plan = parse_segments("https://h/v/list.m3u8", FOUR_BY_FOUR, "", "soon").unwrap();
    assert_eq!(plan, vec!["https://h/v/seg0.ts"]);
}
