//! Playback descriptors: choosing a representation and expanding its
//! segment timeline into the segment plan of a window.
use crate::error::DownloadError;
use crate::numbers::{decimal_text, format_padded, zero_padded};
use crate::text::{
    append_chars, from_chars, opt_text, replace_all, replaced, same_text, strings, to_chars,
};
use crate::window::{
    is_past_end, lemma_nothing_after_end, make_window, meets_window, selected, total, window_of,
    Window,
};
use vstd::prelude::*;

verus! {

/// One entry of a segment timeline: a duration in ticks and how often it
/// repeats after its first occurrence.
pub struct TimelineEntry {
    pub duration: Option<u64>,
    pub repeat: Option<i64>,
}

/// How the segments of a representation are addressed and timed.
pub struct SegmentTemplate {
    pub media: Option<String>,
    pub timescale: Option<u64>,
    pub timeline: Option<Vec<TimelineEntry>>,
}

/// One quality tier of an adaptation set.
pub struct Representation {
    pub id: Option<String>,
    pub width: Option<u64>,
    pub height: Option<u64>,
    pub bandwidth: Option<u64>,
    pub base_url: Option<String>,
    pub segment_template: Option<SegmentTemplate>,
}

/// The representations of one media type.
pub struct AdaptationSet {
    pub mime_type: Option<String>,
    pub representations: Option<Vec<Representation>>,
}

/// One period of a playback descriptor.
pub struct Period {
    pub adaptation_sets: Option<Vec<AdaptationSet>>,
}

/// A playback descriptor, reduced to the fields that planning reads. A
/// field that the service left out is `None`.
pub struct PlaybackDescriptor {
    pub periods: Option<Vec<Period>>,
}

/// Ticks per second where a template names none.
pub const DEFAULT_TIMESCALE: u64 = 1000;

/// Whether the set carries media of the type `mime`.
pub open spec fn has_mime(set: AdaptationSet, mime: Seq<char>) -> bool {
    set.mime_type matches Some(m) && m@ == mime
}

/// The index of the first set of the media type `mime` at or after `from`.
pub open spec fn first_with_mime(sets: Seq<AdaptationSet>, mime: Seq<char>, from: int) -> Option<
    int,
>
    decreases sets.len() - from,
{
    if from < 0 || from >= sets.len() {
        None
    } else if has_mime(sets[from], mime) {
        Some(from)
    } else {
        first_with_mime(sets, mime, from + 1)
    }
}

/// The representations of the first set of the media type `mime` in the
/// first period.
pub open spec fn representations_for(desc: PlaybackDescriptor, mime: Seq<char>) -> Option<
    Seq<Representation>,
> {
    match desc.periods {
        Some(periods) => if periods@.len() > 0 {
            match periods@[0].adaptation_sets {
                Some(sets) => match first_with_mime(sets@, mime, 0) {
                    Some(t) => match sets@[t].representations {
                        Some(reps) => Some(reps@),
                        None => None,
                    },
                    None => None,
                },
                None => None,
            }
        } else {
            None
        },
        None => None,
    }
}

/// The media type of the segments that are planned: transport streams.
pub open spec fn transport_mime() -> Seq<char> {
    "video/mp2t"@
}

/// The representations to choose from: those of the first transport-stream
/// set of the first period.
pub open spec fn transport_representations(desc: PlaybackDescriptor) -> Option<
    Seq<Representation>,
> {
    representations_for(desc, transport_mime())
}

/// Whether the representation has the identifier `id`.
pub open spec fn has_id(rep: Representation, id: Seq<char>) -> bool {
    rep.id matches Some(s) && s@ == id
}

/// The index of the first representation at or after `from` with the
/// identifier `id`.
pub open spec fn first_with_id(reps: Seq<Representation>, id: Seq<char>, from: int) -> Option<
    int,
>
    decreases reps.len() - from,
{
    if from < 0 || from >= reps.len() {
        None
    } else if has_id(reps[from], id) {
        Some(from)
    } else {
        first_with_id(reps, id, from + 1)
    }
}

/// The declared bandwidth of a representation, zero where it declares none.
pub open spec fn bandwidth_of(rep: Representation) -> u64 {
    match rep.bandwidth {
        Some(b) => b,
        None => 0,
    }
}

/// The index of the first representation of greatest bandwidth.
pub open spec fn first_max(reps: Seq<Representation>) -> Option<int>
    decreases reps.len(),
{
    if reps.len() == 0 {
        None
    } else {
        match first_max(reps.drop_last()) {
            Some(b) => if 0 <= b < reps.len() - 1 && bandwidth_of(reps.last()) <= bandwidth_of(
                reps[b],
            ) {
                Some(b)
            } else {
                Some(reps.len() - 1)
            },
            None => Some(reps.len() - 1),
        }
    }
}

/// The first representation of greatest bandwidth is one of them, none has
/// more bandwidth, and every earlier one has less.
pub proof fn lemma_first_max(reps: Seq<Representation>)
    ensures
        reps.len() == 0 <==> first_max(reps) is None,
        first_max(reps) matches Some(b) ==> 0 <= b < reps.len() && (forall|i: int|
            0 <= i < reps.len() ==> bandwidth_of(#[trigger] reps[i]) <= bandwidth_of(reps[b]))
            && (forall|i: int|
            0 <= i < b ==> bandwidth_of(#[trigger] reps[i]) < bandwidth_of(reps[b])),
    decreases reps.len(),
{
    if reps.len() > 0 {
        lemma_first_max(reps.drop_last());
        let p = reps.drop_last();
        assert forall|i: int| 0 <= i < p.len() implies p[i] == reps[i] by {}
    }
}

/// The index of the representation to download: the first with the
/// requested identifier, or else the first of greatest bandwidth.
pub open spec fn chosen_index(reps: Seq<Representation>, quality: Option<Seq<char>>) -> Result<
    int,
    DownloadError,
> {
    match quality {
        Some(q) => match first_with_id(reps, q, 0) {
            Some(i) => Ok(i),
            None => Err(DownloadError::Selection),
        },
        None => match first_max(reps) {
            Some(i) => Ok(i),
            None => Err(DownloadError::Parse),
        },
    }
}

/// How often a timeline entry counts: once, and once more for each repeat.
/// A negative repeat counts as none.
pub open spec fn occurrences(e: TimelineEntry) -> nat {
    match e.repeat {
        Some(r) => if r >= 0 {
            (r + 1) as nat
        } else {
            1
        },
        None => 1,
    }
}

/// The duration of a timeline entry in ticks, zero where it names none.
pub open spec fn ticks_of(e: TimelineEntry) -> u64 {
    match e.duration {
        Some(d) => d,
        None => 0,
    }
}

/// The durations of the segments that a timeline describes, in order: each
/// entry's duration as often as the entry counts.
pub open spec fn expanded(timeline: Seq<TimelineEntry>) -> Seq<u64>
    decreases timeline.len(),
{
    if timeline.len() == 0 {
        Seq::<u64>::empty()
    } else {
        expanded(timeline.drop_last()) + Seq::new(
            occurrences(timeline.last()),
            |k: int| ticks_of(timeline.last()),
        )
    }
}

/// The number of segments that a timeline describes.
pub open spec fn segment_count(timeline: Seq<TimelineEntry>) -> nat
    decreases timeline.len(),
{
    if timeline.len() == 0 {
        0
    } else {
        segment_count(timeline.drop_last()) + occurrences(timeline.last())
    }
}

/// A timeline expands into as many segments as its entries count together.
pub proof fn lemma_expanded_len(timeline: Seq<TimelineEntry>)
    ensures
        expanded(timeline).len() == segment_count(timeline),
    decreases timeline.len(),
{
    if timeline.len() > 0 {
        lemma_expanded_len(timeline.drop_last());
    }
}

/// A timeline of one entry expands into as many segments as the entry
/// counts, each of the entry's duration.
pub proof fn lemma_one_entry(e: TimelineEntry)
    ensures
        expanded(seq![e]) == Seq::new(occurrences(e), |k: int| ticks_of(e)),
        expanded(seq![e]).len() == occurrences(e),
{
    let t = seq![e];
    assert(t.drop_last() =~= Seq::<TimelineEntry>::empty());
    assert(expanded(t.drop_last()) =~= Seq::<u64>::empty());
    assert(expanded(t) =~= Seq::new(occurrences(e), |k: int| ticks_of(e)));
}

/// What the first entries of a timeline expand into is the beginning of
/// what the whole timeline expands into.
pub proof fn lemma_expanded_prefix(timeline: Seq<TimelineEntry>, i: int)
    requires
        0 <= i <= timeline.len(),
    ensures
        expanded(timeline.take(i)).len() <= expanded(timeline).len(),
        expanded(timeline.take(i)) == expanded(timeline).take(
            expanded(timeline.take(i)).len() as int,
        ),
    decreases timeline.len() - i,
{
    if i == timeline.len() {
        assert(timeline.take(i) =~= timeline);
        assert(expanded(timeline).take(expanded(timeline).len() as int) =~= expanded(timeline));
    } else {
        lemma_expanded_prefix(timeline, i + 1);
        assert(timeline.take(i + 1).drop_last() =~= timeline.take(i));
        let shorter = expanded(timeline.take(i));
        let longer = expanded(timeline.take(i + 1));
        assert(shorter =~= longer.take(shorter.len() as int));
        assert(shorter =~= expanded(timeline).take(shorter.len() as int));
    }
}

/// Whether a timeline describes no more segments than can be counted:
/// decides `segment_count(timeline) <= usize::MAX`.
pub fn countable(timeline: &Vec<TimelineEntry>) -> (r: bool)
    ensures
        r == (segment_count(timeline@) <= usize::MAX),
{
    let mut count: u128 = 0;
    let mut i: usize = 0;
    while i < timeline.len()
        invariant
            i <= timeline.len(),
            count == segment_count(timeline@.take(i as int)),
            count <= i * 0x8000_0000_0000_0000,
        decreases timeline.len() - i,
    {
        let more: u128 = match timeline[i].repeat {
            Some(r) => if r >= 0 {
                r as u128 + 1
            } else {
                1
            },
            None => 1,
        };
        proof {
            assert(timeline@.take(i + 1).drop_last() =~= timeline@.take(i as int));
            assert(timeline@.take(i + 1).last() == timeline@[i as int]);
        }
        count = count + more;
        i += 1;
    }
    assert(timeline@.take(timeline.len() as int) =~= timeline@);
    count <= usize::MAX as u128
}

/// The media path of segment `number`: the template with the
/// representation's identifier, the number padded to six digits and the
/// plain number put in for their placeholders, in that order.
pub open spec fn expand_template(template: Seq<char>, id: Seq<char>, number: nat) -> Seq<char> {
    replaced(
        replaced(
            replaced(template, "$RepresentationID$"@, id),
            "$Number%06d$"@,
            zero_padded(decimal_text(number), 6),
        ),
        "$Number$"@,
        decimal_text(number),
    )
}

/// The URL of segment `number`: the base URL, then the media path.
pub open spec fn segment_url(
    base: Seq<char>,
    template: Seq<char>,
    id: Seq<char>,
    number: nat,
) -> Seq<char> {
    base + expand_template(template, id, number)
}

/// Computes `segment_url`.
pub fn build_segment_url(
    base: &Vec<char>,
    template: &Vec<char>,
    id: &Vec<char>,
    number: u64,
) -> (out: Vec<char>)
    ensures
        out@ == segment_url(base@, template@, id@, number as nat),
{
    let id_mark = to_chars("$RepresentationID$");
    let padded_mark = to_chars("$Number%06d$");
    let plain_mark = to_chars("$Number$");
    let padded = format_padded(number, 6);
    let plain = format_padded(number, 0);
    let with_id = replace_all(template, &id_mark, id);
    let with_padded = replace_all(&with_id, &padded_mark, &padded);
    let path = replace_all(&with_padded, &plain_mark, &plain);
    let mut out: Vec<char> = Vec::new();
    append_chars(&mut out, base);
    append_chars(&mut out, &path);
    assert(out@ =~= base@ + path@);
    out
}

/// The URLs of the segments at the given indices; segments are numbered
/// from one.
pub open spec fn urls_at(
    base: Seq<char>,
    template: Seq<char>,
    id: Seq<char>,
    at: Seq<usize>,
) -> Seq<Seq<char>> {
    Seq::new(at.len(), |k: int| segment_url(base, template, id, (at[k] + 1) as nat))
}

/// The timescale of a template, `DEFAULT_TIMESCALE` where it names none.
pub open spec fn timescale_of(t: SegmentTemplate) -> u64 {
    match t.timescale {
        Some(ts) => ts,
        None => DEFAULT_TIMESCALE,
    }
}

/// The segment plan of a timeline for a window: the URLs of the timeline's
/// segments that meet the window, in playback order. A timeline of more
/// segments than can be counted has none.
pub open spec fn timeline_plan(
    base: Seq<char>,
    media: Seq<char>,
    id: Seq<char>,
    timeline: Seq<TimelineEntry>,
    timescale: nat,
    w: Window,
) -> Option<Seq<Seq<char>>> {
    if segment_count(timeline) <= usize::MAX {
        Some(urls_at(base, media, id, selected(expanded(timeline), timescale, w)))
    } else {
        None
    }
}

/// The segment plan of one representation for a window: the plan of its
/// timeline. A representation without identifier, base URL, template, media
/// path or timeline has none.
pub open spec fn representation_plan(rep: Representation, w: Window) -> Option<Seq<Seq<char>>> {
    match (rep.id, rep.base_url, rep.segment_template) {
        (Some(id), Some(base), Some(t)) => match (t.media, t.timeline) {
            (Some(media), Some(timeline)) => timeline_plan(
                base@,
                media@,
                id@,
                timeline@,
                timescale_of(t) as nat,
                w,
            ),
            _ => None,
        },
        _ => None,
    }
}

/// The segment plan of a playback descriptor, or the error that stands in
/// its way: `Parse` where a needed part is missing or the timeline holds
/// more segments than can be counted, `Selection` where no representation
/// has the requested identifier.
pub open spec fn dash_plan(
    desc: PlaybackDescriptor,
    quality: Option<Seq<char>>,
    w: Window,
) -> Result<Seq<Seq<char>>, DownloadError> {
    match transport_representations(desc) {
        Some(reps) => match chosen_index(reps, quality) {
            Ok(i) => match representation_plan(reps[i], w) {
                Some(plan) => Ok(plan),
                None => Err(DownloadError::Parse),
            },
            Err(e) => Err(e),
        },
        None => Err(DownloadError::Parse),
    }
}

/// Whether a string holds the given text.
pub fn text_is(s: &String, text: &Vec<char>) -> (r: bool)
    ensures
        r == (s@ == text@),
{
    let chars = to_chars(s.as_str());
    same_text(&chars, text)
}

/// The representations of the first set of the media type `mime` in the
/// first period: `representations_for`.
#[verifier::loop_isolation(false)]
pub fn find_representations<'a>(desc: &'a PlaybackDescriptor, mime: &str) -> (r: Option<
    &'a Vec<Representation>,
>)
    ensures
        match representations_for(*desc, mime@) {
            Some(reps) => r matches Some(v) && v@ == reps,
            None => r is None,
        },
{
    let periods = match &desc.periods {
        Some(p) => p,
        None => {
            return None;
        },
    };
    if periods.len() == 0 {
        return None;
    }
    let sets = match &periods[0].adaptation_sets {
        Some(s) => s,
        None => {
            return None;
        },
    };
    let wanted = to_chars(mime);
    let mut i: usize = 0;
    while i < sets.len()
        invariant
            i <= sets.len(),
            first_with_mime(sets@, mime@, 0) == first_with_mime(sets@, mime@, i as int),
        decreases sets.len() - i,
    {
        let hit = match &sets[i].mime_type {
            Some(m) => text_is(m, &wanted),
            None => false,
        };
        if hit {
            return match &sets[i].representations {
                Some(reps) => Some(reps),
                None => None,
            };
        }
        i += 1;
    }
    None
}

/// Chooses the representation to download: `chosen_index`.
#[verifier::loop_isolation(false)]
pub fn choose_representation(
    reps: &Vec<Representation>,
    quality_id: Option<&str>,
) -> (r: Result<usize, DownloadError>)
    ensures
        match chosen_index(reps@, opt_text(quality_id)) {
            Ok(i) => r matches Ok(j) && j as int == i && j < reps@.len(),
            Err(e) => r == Err::<usize, DownloadError>(e),
        },
{
    match quality_id {
        Some(q) => {
            let wanted = to_chars(q);
            let mut i: usize = 0;
            while i < reps.len()
                invariant
                    i <= reps.len(),
                    wanted@ == q@,
                    first_with_id(reps@, q@, 0) == first_with_id(reps@, q@, i as int),
                decreases reps.len() - i,
            {
                let hit = match &reps[i].id {
                    Some(s) => text_is(s, &wanted),
                    None => false,
                };
                if hit {
                    return Ok(i);
                }
                i += 1;
            }
            Err(DownloadError::Selection)
        },
        None => {
            if reps.len() == 0 {
                return Err(DownloadError::Parse);
            }
            let mut best: usize = 0;
            let mut best_bandwidth: u64 = match reps[0].bandwidth {
                Some(b) => b,
                None => 0,
            };
            let mut i: usize = 1;
            assert(reps@.take(1).drop_last() =~= reps@.take(0));
            while i < reps.len()
                invariant
                    1 <= i <= reps.len(),
                    best < i,
                    best_bandwidth == bandwidth_of(reps@[best as int]),
                    first_max(reps@.take(i as int)) == Some(best as int),
                decreases reps.len() - i,
            {
                let b: u64 = match reps[i].bandwidth {
                    Some(b) => b,
                    None => 0,
                };
                proof {
                    assert(reps@.take(i + 1).drop_last() =~= reps@.take(i as int));
                    assert(reps@.take(i + 1).last() == reps@[i as int]);
                    assert(reps@.take(i + 1)[best as int] == reps@[best as int]);
                }
                if b > best_bandwidth {
                    best = i;
                    best_bandwidth = b;
                }
                i += 1;
            }
            assert(reps@.take(reps.len() as int) =~= reps@);
            Ok(best)
        },
    }
}

/// Plans the segments of a timeline: `timeline_plan`.
///
/// The timeline is walked segment by segment, and the walk ends at the
/// first segment that begins beyond the window's end.
pub fn plan_timeline(
    base: &Vec<char>,
    media: &Vec<char>,
    id: &Vec<char>,
    timeline: &Vec<TimelineEntry>,
    timescale: u64,
    w: &Window,
) -> (r: Option<Vec<String>>)
    ensures
        match timeline_plan(base@, media@, id@, timeline@, timescale as nat, *w) {
            Some(plan) => r matches Some(v) && strings(v@) == plan,
            None => r is None,
        },
{
    if !countable(timeline) {
        return None;
    }
    let ghost all = expanded(timeline@);
    proof {
        lemma_expanded_len(timeline@);
        assert(timeline@.take(0) =~= Seq::<TimelineEntry>::empty());
        assert(all.take(0) =~= Seq::<u64>::empty());
    }
    let mut plan: Vec<String> = Vec::new();
    let mut cursor: u128 = 0;
    let mut done: usize = 0;
    let mut i: usize = 0;
    assert(strings(plan@) =~= urls_at(base@, media@, id@, Seq::<usize>::empty()));
    while i < timeline.len()
        invariant
            i <= timeline.len(),
            all == expanded(timeline@),
            segment_count(timeline@) <= usize::MAX,
            all.len() <= usize::MAX,
            done == expanded(timeline@.take(i as int)).len(),
            done <= all.len(),
            cursor == total(all.take(done as int)),
            cursor <= done * 0xFFFF_FFFF_FFFF_FFFF,
            strings(plan@) == urls_at(
                base@,
                media@,
                id@,
                selected(all.take(done as int), timescale as nat, *w),
            ),
        decreases timeline.len() - i,
    {
        let d: u64 = match timeline[i].duration {
            Some(d) => d,
            None => 0,
        };
        let count: u64 = match timeline[i].repeat {
            Some(r) => if r >= 0 {
                r as u64 + 1
            } else {
                1
            },
            None => 1,
        };
        let ghost start = done as int;
        proof {
            lemma_expanded_prefix(timeline@, i as int);
            lemma_expanded_prefix(timeline@, i + 1);
            assert(timeline@.take(i + 1).drop_last() =~= timeline@.take(i as int));
            assert(timeline@.take(i + 1).last() == timeline@[i as int]);
            let longer = expanded(timeline@.take(i + 1));
            assert(longer.len() == start + count);
            assert forall|n: int| start <= n < start + count implies #[trigger] all[n] == d by {
                assert(all.take(longer.len() as int)[n] == longer[n]);
            }
        }
        let mut k: u64 = 0;
        while k < count
            invariant
                k <= count,
                0 <= start,
                start + count <= all.len() <= usize::MAX,
                segment_count(timeline@) <= usize::MAX,
                forall|n: int| start <= n < start + count ==> #[trigger] all[n] == d,
                done == start + k,
                all == expanded(timeline@),
                cursor == total(all.take(done as int)),
                cursor <= done * 0xFFFF_FFFF_FFFF_FFFF,
                strings(plan@) == urls_at(
                    base@,
                    media@,
                    id@,
                    selected(all.take(done as int), timescale as nat, *w),
                ),
            decreases count - k,
        {
            if is_past_end(cursor, timescale, w) {
                proof {
                    lemma_nothing_after_end(
                        all,
                        timescale as nat,
                        *w,
                        done as int,
                        all.len() as int,
                    );
                    assert(all.take(all.len() as int) =~= all);
                }
                return Some(plan);
            }
            proof {
                assert(all.take(done + 1).drop_last() =~= all.take(done as int));
                assert(all.take(done + 1).last() == d);
            }
            if meets_window(cursor, d, timescale, w) {
                let url = build_segment_url(base, media, id, done as u64 + 1);
                let ghost before = strings(plan@);
                let ghost picked = selected(all.take(done as int), timescale as nat, *w);
                plan.push(from_chars(&url));
                assert(strings(plan@) =~= before.push(url@));
                assert(urls_at(base@, media@, id@, picked.push(done)) =~= urls_at(
                    base@,
                    media@,
                    id@,
                    picked,
                ).push(url@));
            }
            cursor = cursor + d as u128;
            done = done + 1;
            k += 1;
        }
        i += 1;
    }
    proof {
        assert(timeline@.take(timeline.len() as int) =~= timeline@);
        assert(all.take(all.len() as int) =~= all);
    }
    Some(plan)
}

/// Plans the segments of one representation: `representation_plan`.
pub fn plan_representation(rep: &Representation, w: &Window) -> (r: Option<Vec<String>>)
    ensures
        match representation_plan(*rep, *w) {
            Some(plan) => r matches Some(v) && strings(v@) == plan,
            None => r is None,
        },
{
    let id = match &rep.id {
        Some(s) => to_chars(s.as_str()),
        None => {
            return None;
        },
    };
    let base = match &rep.base_url {
        Some(s) => to_chars(s.as_str()),
        None => {
            return None;
        },
    };
    let template = match &rep.segment_template {
        Some(t) => t,
        None => {
            return None;
        },
    };
    let media = match &template.media {
        Some(s) => to_chars(s.as_str()),
        None => {
            return None;
        },
    };
    let timeline = match &template.timeline {
        Some(t) => t,
        None => {
            return None;
        },
    };
    let timescale: u64 = match template.timescale {
        Some(ts) => ts,
        None => DEFAULT_TIMESCALE,
    };
    plan_timeline(&base, &media, &id, timeline, timescale, w)
}

/// Plans the segments of a playback descriptor for the window from
/// `start_time` to `end_time`.
///
/// The representation is the one named by `quality_id`, or else the first
/// of greatest bandwidth. The result is `dash_plan`.
pub fn parse_dash_segments(
    desc: &PlaybackDescriptor,
    start_time: &str,
    end_time: &str,
    quality_id: Option<&str>,
) -> (r: Result<Vec<String>, DownloadError>)
    ensures
        match dash_plan(*desc, opt_text(quality_id), window_of(start_time@, end_time@)) {
            Ok(plan) => r matches Ok(v) && strings(v@) == plan,
            Err(e) => r matches Err(f) && f == e,
        },
{
    let reps = match find_representations(desc, "video/mp2t") {
        Some(r) => r,
        None => {
            return Err(DownloadError::Parse);
        },
    };
    let index = match choose_representation(reps, quality_id) {
        Ok(i) => i,
        Err(e) => {
            return Err(e);
        },
    };
    let w = make_window(start_time, end_time);
    match plan_representation(&reps[index], &w) {
        Some(plan) => Ok(plan),
        None => Err(DownloadError::Parse),
    }
}

} // verus!
