//! Playlists: choosing a variant and planning the segments of a window.
use crate::error::DownloadError;
use crate::numbers::is_digit;
use crate::text::{
    begins_with, from_chars, has_at, lines_of, occurs_at, opt_text, slice_of, split_lines,
    starts_with, strings, texts, to_chars, trim_chars, trimmed,
};
use crate::timing::{decimal_micros, parse_decimal, MAX_NUMERAL_MICROS};
use crate::url::{resolve_chars, resolved};
use crate::window::{
    lemma_selected_exact, make_window, select_window, selected, window_of, Window,
};
use vstd::prelude::*;

verus! {

/// Whether `line` is a tag or a comment: it begins with `#`.
pub open spec fn is_comment(line: Seq<char>) -> bool {
    line.len() > 0 && line[0] == '#'
}

/// The last line that is neither empty nor a comment.
pub open spec fn last_variant(lines: Seq<Seq<char>>) -> Option<Seq<char>>
    decreases lines.len(),
{
    if lines.len() == 0 {
        None
    } else if lines.last().len() > 0 && !is_comment(lines.last()) {
        Some(lines.last())
    } else {
        last_variant(lines.drop_last())
    }
}

/// The reference to the variant playlist: the requested one, or else the
/// last variant that the master playlist lists.
pub open spec fn variant_path(master_text: Seq<char>, quality: Option<Seq<char>>) -> Option<
    Seq<char>,
> {
    match quality {
        Some(q) => Some(q),
        None => last_variant(lines_of(master_text)),
    }
}

/// The URL of the variant playlist to fetch.
///
/// With a `quality_id` it is that reference, else the last listed variant
/// of the master playlist, resolved against `master_url`. A master playlist
/// that lists no variant is a `Parse` error.
pub fn variant_url(
    master_url: &str,
    master_text: &str,
    quality_id: Option<&str>,
) -> (r: Result<String, DownloadError>)
    ensures
        match variant_path(master_text@, opt_text(quality_id)) {
            Some(p) => r matches Ok(u) && u@ == resolved(master_url@, p),
            None => r == Err::<String, DownloadError>(DownloadError::Parse),
        },
{
    let base = to_chars(master_url);
    match quality_id {
        Some(q) => {
            let path = to_chars(q);
            Ok(from_chars(&resolve_chars(&base, &path)))
        },
        None => {
            let text = to_chars(master_text);
            let lines = split_lines(&text);
            let ghost all = lines_of(master_text@);
            let mut i: usize = lines.len();
            assert(all.take(i as int) =~= all);
            while i > 0
                invariant
                    i <= lines.len(),
                    base@ == master_url@,
                    quality_id is None,
                    all == lines_of(master_text@),
                    texts(lines@) == all,
                    last_variant(all) == last_variant(all.take(i as int)),
                decreases i,
            {
                let line = &lines[i - 1];
                proof {
                    assert(all.take(i as int).last() == line@);
                    assert(all.take(i as int).drop_last() =~= all.take(i - 1));
                }
                if line.len() > 0 && line[0] != '#' {
                    return Ok(from_chars(&resolve_chars(&base, line)));
                }
                i -= 1;
            }
            Err(DownloadError::Parse)
        },
    }
}

/// The text that opens an initialization segment's quoted URI.
pub open spec fn map_prefix() -> Seq<char> {
    "#EXT-X-MAP:URI=\""@
}

/// The position of the first `"` at or after `a`, or the length of `text`.
pub open spec fn quote_end(text: Seq<char>, a: int) -> int
    decreases text.len() - a,
{
    if a < 0 || a >= text.len() {
        text.len() as int
    } else if text[a] == '"' {
        a
    } else {
        quote_end(text, a + 1)
    }
}

/// The quoted URI of an initialization segment declared at position `p`:
/// the prefix stands there, and a closing quote follows at least one
/// character.
pub open spec fn map_uri_at(text: Seq<char>, p: int) -> Option<Seq<char>> {
    let a = p + map_prefix().len();
    let q = quote_end(text, a);
    if occurs_at(text, p, map_prefix()) && a < q < text.len() {
        Some(text.subrange(a, q))
    } else {
        None
    }
}

/// The first declared initialization URI at or after position `p`.
pub open spec fn map_uri_from(text: Seq<char>, p: int) -> Option<Seq<char>>
    decreases text.len() - p,
{
    if p < 0 || p >= text.len() {
        None
    } else {
        match map_uri_at(text, p) {
            Some(u) => Some(u),
            None => map_uri_from(text, p + 1),
        }
    }
}

/// The URI of the playlist's initialization segment, if it declares one.
pub open spec fn init_uri(text: Seq<char>) -> Option<Seq<char>> {
    map_uri_from(text, 0)
}

/// Computes `init_uri`.
pub fn find_init_uri(text: &Vec<char>) -> (r: Option<Vec<char>>)
    ensures
        r.is_some() == init_uri(text@).is_some(),
        r matches Some(u) ==> init_uri(text@) == Some(u@),
{
    let prefix = to_chars("#EXT-X-MAP:URI=\"");
    let mut p: usize = 0;
    while p < text.len()
        invariant
            p <= text.len(),
            prefix@ == map_prefix(),
            init_uri(text@) == map_uri_from(text@, p as int),
        decreases text.len() - p,
    {
        if has_at(text, p, &prefix) {
            let a: usize = p + prefix.len();
            let mut q: usize = a;
            while q < text.len() && text[q] != '"'
                invariant
                    a <= q <= text.len(),
                    quote_end(text@, a as int) == quote_end(text@, q as int),
                decreases text.len() - q,
            {
                q += 1;
            }
            if a < q && q < text.len() {
                return Some(slice_of(text, a, q));
            }
        }
        p += 1;
    }
    None
}

/// Whether `c` can stand in a duration: a digit or the fraction mark.
pub open spec fn is_number_char(c: char) -> bool {
    is_digit(c) || c == '.'
}

/// The first position at or after `from` that holds a number character,
/// or the length of `s`.
pub open spec fn run_start(s: Seq<char>, from: int) -> int
    decreases s.len() - from,
{
    if from < 0 || from >= s.len() {
        s.len() as int
    } else if is_number_char(s[from]) {
        from
    } else {
        run_start(s, from + 1)
    }
}

/// The first position at or after `from` that holds no number character,
/// or the length of `s`.
pub open spec fn run_end(s: Seq<char>, from: int) -> int
    decreases s.len() - from,
{
    if from < 0 || from >= s.len() {
        s.len() as int
    } else if !is_number_char(s[from]) {
        from
    } else {
        run_end(s, from + 1)
    }
}

/// The first unbroken run of number characters in `s`; empty if it has none.
pub open spec fn first_number(s: Seq<char>) -> Seq<char> {
    s.subrange(run_start(s, 0), run_end(s, run_start(s, 0)))
}

/// The duration, in microseconds, that a line declares: the line begins
/// with the duration tag and its first number is a numeral.
pub open spec fn duration_of(line: Seq<char>) -> Option<nat> {
    if starts_with(line, "#EXTINF"@) {
        decimal_micros(first_number(line))
    } else {
        None
    }
}

/// Computes `duration_of`.
pub fn line_duration(line: &Vec<char>) -> (r: Option<u64>)
    ensures
        r.is_some() == duration_of(line@).is_some(),
        r matches Some(v) ==> duration_of(line@) == Some(v as nat) && v <= MAX_NUMERAL_MICROS,
{
    let tag = to_chars("#EXTINF");
    if !begins_with(line, &tag) {
        return None;
    }
    let mut a: usize = 0;
    while a < line.len() && !(('0' <= line[a] && line[a] <= '9') || line[a] == '.')
        invariant
            a <= line.len(),
            run_start(line@, 0) == run_start(line@, a as int),
        decreases line.len() - a,
    {
        a += 1;
    }
    let mut b: usize = a;
    while b < line.len() && (('0' <= line[b] && line[b] <= '9') || line[b] == '.')
        invariant
            a <= b <= line.len(),
            run_end(line@, a as int) == run_end(line@, b as int),
        decreases line.len() - b,
    {
        b += 1;
    }
    let number = slice_of(line, a, b);
    parse_decimal(&number)
}

/// The indices of the lines that declare a duration, ascending.
pub open spec fn timed_indices(lines: Seq<Seq<char>>) -> Seq<usize>
    decreases lines.len(),
{
    if lines.len() == 0 {
        Seq::<usize>::empty()
    } else {
        let before = timed_indices(lines.drop_last());
        if duration_of(lines.last()) is Some {
            before.push((lines.len() - 1) as usize)
        } else {
            before
        }
    }
}

/// The durations that the lines declare, in order.
pub open spec fn timed_durations(lines: Seq<Seq<char>>) -> Seq<u64>
    decreases lines.len(),
{
    if lines.len() == 0 {
        Seq::<u64>::empty()
    } else {
        let before = timed_durations(lines.drop_last());
        match duration_of(lines.last()) {
            Some(v) => before.push(v as u64),
            None => before,
        }
    }
}

/// The URL of the segment declared by the line at index `j`: the next line,
/// trimmed and resolved against `base`, unless there is none or it is a tag.
pub open spec fn segment_under(lines: Seq<Seq<char>>, base: Seq<char>, j: int) -> Option<
    Seq<char>,
> {
    if 0 <= j && j + 1 < lines.len() && !is_comment(trimmed(lines[j + 1])) {
        Some(resolved(base, trimmed(lines[j + 1])))
    } else {
        None
    }
}

/// The segment URLs under the given lines, in order.
pub open spec fn urls_under(lines: Seq<Seq<char>>, base: Seq<char>, at: Seq<usize>) -> Seq<
    Seq<char>,
>
    decreases at.len(),
{
    if at.len() == 0 {
        Seq::<Seq<char>>::empty()
    } else {
        let before = urls_under(lines, base, at.drop_last());
        match segment_under(lines, base, at.last() as int) {
            Some(u) => before.push(u),
            None => before,
        }
    }
}

/// The indices of the duration lines whose segments meet the window.
pub open spec fn picked_lines(lines: Seq<Seq<char>>, w: Window) -> Seq<usize> {
    let sel = selected(timed_durations(lines), 1_000_000, w);
    Seq::new(sel.len(), |k: int| timed_indices(lines)[sel[k] as int])
}

/// The media segments of the playlist that meet the window, in playback
/// order.
pub open spec fn media_plan(text: Seq<char>, base: Seq<char>, w: Window) -> Seq<Seq<char>> {
    urls_under(lines_of(text), base, picked_lines(lines_of(text), w))
}

/// The segment plan of a variant playlist: its initialization segment, if
/// it declares one, then the media segments that meet the window.
pub open spec fn hls_plan(text: Seq<char>, base: Seq<char>, w: Window) -> Seq<Seq<char>> {
    match init_uri(text) {
        Some(u) => seq![resolved(base, u)] + media_plan(text, base, w),
        None => media_plan(text, base, w),
    }
}

/// The media segments that the playlist lists, whatever the window: the
/// segment under each duration line that has one.
pub open spec fn listed_segments(text: Seq<char>, base: Seq<char>) -> Seq<Seq<char>> {
    urls_under(lines_of(text), base, timed_indices(lines_of(text)))
}

/// Plans the segments of a variant playlist for the window from
/// `start_time` to `end_time`.
///
/// `variant_url` is the URL the playlist was fetched from; segment
/// references are resolved against it. A playlist that lists no media
/// segment is a `Parse` error, whatever the window and whether or not it
/// declares an initialization segment. Any other playlist gives its plan,
/// `hls_plan`, which holds no media segment where the window meets none.
pub fn parse_segments(
    variant_url: &str,
    playlist_text: &str,
    start_time: &str,
    end_time: &str,
) -> (r: Result<Vec<String>, DownloadError>)
    ensures
        match r {
            Ok(plan) => listed_segments(playlist_text@, variant_url@).len() > 0 && strings(plan@)
                == hls_plan(playlist_text@, variant_url@, window_of(start_time@, end_time@)),
            Err(e) => e == DownloadError::Parse && listed_segments(
                playlist_text@,
                variant_url@,
            ).len() == 0,
        },
{
    let base = to_chars(variant_url);
    let text = to_chars(playlist_text);
    let w = make_window(start_time, end_time);
    let lines = split_lines(&text);
    let ghost all = lines_of(text@);
    let mut at: Vec<usize> = Vec::new();
    let mut durations: Vec<u64> = Vec::new();
    let mut i: usize = 0;
    while i < lines.len()
        invariant
            i <= lines.len(),
            texts(lines@) == all,
            at@ == timed_indices(all.take(i as int)),
            durations@ == timed_durations(all.take(i as int)),
            at@.len() == durations@.len(),
            forall|k: int| 0 <= k < at@.len() ==> #[trigger] at@[k] < i,
        decreases lines.len() - i,
    {
        proof {
            assert(all.take(i + 1).drop_last() =~= all.take(i as int));
            assert(all.take(i + 1).last() == lines@[i as int]@);
        }
        match line_duration(&lines[i]) {
            Some(d) => {
                at.push(i);
                durations.push(d);
            },
            None => {},
        }
        i += 1;
    }
    assert(all.take(lines.len() as int) =~= all);
    let mut listed: bool = false;
    let mut n: usize = 0;
    while n < at.len()
        invariant
            n <= at.len(),
            texts(lines@) == all,
            forall|m: int| 0 <= m < at@.len() ==> #[trigger] at@[m] < lines.len(),
            listed == (urls_under(all, base@, at@.take(n as int)).len() > 0),
        decreases at.len() - n,
    {
        let j: usize = at[n];
        proof {
            assert(at@.take(n + 1).drop_last() =~= at@.take(n as int));
            assert(at@.take(n + 1).last() == j);
        }
        if j + 1 < lines.len() {
            let line = trim_chars(&lines[j + 1]);
            assert(line@ == trimmed(all[j + 1]));
            if !(line.len() > 0 && line[0] == '#') {
                listed = true;
            }
        }
        n += 1;
    }
    assert(at@.take(at.len() as int) =~= at@);
    if !listed {
        return Err(DownloadError::Parse);
    }
    let mut plan: Vec<String> = Vec::new();
    match find_init_uri(&text) {
        Some(u) => {
            plan.push(from_chars(&resolve_chars(&base, &u)));
        },
        None => {},
    }
    let ghost head = strings(plan@);
    assert(head =~= match init_uri(text@) {
        Some(u) => seq![resolved(base@, u)],
        None => Seq::<Seq<char>>::empty(),
    });
    let sel = select_window(&durations, 1_000_000, &w);
    proof {
        lemma_selected_exact(durations@, 1_000_000, w);
    }
    let ghost picked = picked_lines(all, w);
    let mut k: usize = 0;
    while k < sel.len()
        invariant
            k <= sel.len(),
            texts(lines@) == all,
            sel@ == selected(durations@, 1_000_000, w),
            forall|n: int| 0 <= n < sel@.len() ==> #[trigger] sel@[n] < durations@.len(),
            at@.len() == durations@.len(),
            forall|n: int| 0 <= n < at@.len() ==> #[trigger] at@[n] < lines.len(),
            picked == Seq::new(sel@.len(), |n: int| at@[sel@[n] as int]),
            strings(plan@) == head + urls_under(all, base@, picked.take(k as int)),
        decreases sel.len() - k,
    {
        let j: usize = at[sel[k]];
        proof {
            assert(picked.take(k + 1).drop_last() =~= picked.take(k as int));
            assert(picked.take(k + 1).last() == j);
        }
        if j + 1 < lines.len() {
            let line = trim_chars(&lines[j + 1]);
            assert(line@ == trimmed(all[j + 1]));
            if !(line.len() > 0 && line[0] == '#') {
                let ghost before = strings(plan@);
                let url = from_chars(&resolve_chars(&base, &line));
                plan.push(url);
                assert(strings(plan@) =~= before.push(resolved(base@, line@)));
            }
        }
        k += 1;
    }
    assert(picked.take(sel.len() as int) =~= picked);
    Ok(plan)
}

} // verus!
