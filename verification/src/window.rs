//! The rule that picks the segments of a time window.
//!
//! Segments follow one another without gaps: the segment at index `i` begins
//! where the durations before it end. Durations are counted in ticks, with
//! `timescale` ticks to the second; the window is given in microseconds.
use crate::timing::{tag_micros, time_to_sec};
use vstd::prelude::*;

verus! {

/// A span of playback time in microseconds; no `end` means up to the last
/// segment.
#[derive(Clone, Copy, Debug)]
pub struct Window {
    pub start: u64,
    pub end: Option<u64>,
}

/// The window between two time tags; an empty end tag leaves the end open.
pub open spec fn window_of(start: Seq<char>, end: Seq<char>) -> Window {
    Window {
        start: tag_micros(start) as u64,
        end: if end.len() == 0 {
            None
        } else {
            Some(tag_micros(end) as u64)
        },
    }
}

/// Computes `window_of`.
pub fn make_window(start_time: &str, end_time: &str) -> (w: Window)
    ensures
        w == window_of(start_time@, end_time@),
{
    let start = time_to_sec(start_time);
    let end = if end_time.is_empty() {
        None
    } else {
        Some(time_to_sec(end_time))
    };
    Window { start, end }
}

/// The sum of the durations in `d`.
pub open spec fn total(d: Seq<u64>) -> nat
    decreases d.len(),
{
    if d.len() == 0 {
        0
    } else {
        total(d.drop_last()) + d.last() as nat
    }
}

/// Whether `cursor` ticks lie beyond the end of the window.
pub open spec fn past_end(cursor: nat, timescale: nat, w: Window) -> bool {
    match w.end {
        Some(e) => cursor * 1_000_000 > e as nat * timescale,
        None => false,
    }
}

/// Whether the segment that begins at `cursor` and lasts `duration` ticks
/// meets the window: it ends at or after the window's start and begins at
/// or before its end.
pub open spec fn overlaps(cursor: nat, duration: nat, timescale: nat, w: Window) -> bool {
    (cursor + duration) * 1_000_000 >= w.start as nat * timescale && !past_end(
        cursor,
        timescale,
        w,
    )
}

/// Whether the segment at index `i` of `d` meets the window.
pub open spec fn picks(d: Seq<u64>, timescale: nat, w: Window, i: int) -> bool {
    0 <= i < d.len() && overlaps(total(d.take(i)), d[i] as nat, timescale, w)
}

/// The indices of the segments of `d` that meet the window, ascending.
pub open spec fn selected(d: Seq<u64>, timescale: nat, w: Window) -> Seq<usize>
    decreases d.len(),
{
    if d.len() == 0 {
        Seq::<usize>::empty()
    } else {
        let before = selected(d.drop_last(), timescale, w);
        if overlaps(total(d.drop_last()), d.last() as nat, timescale, w) {
            before.push((d.len() - 1) as usize)
        } else {
            before
        }
    }
}

/// The durations before a position never add up to more than those before
/// a later one.
pub proof fn lemma_total_grows(d: Seq<u64>, i: int, j: int)
    requires
        0 <= i <= j <= d.len(),
    ensures
        total(d.take(i)) <= total(d.take(j)),
    decreases j - i,
{
    if i < j {
        lemma_total_grows(d, i, j - 1);
        assert(d.take(j).drop_last() =~= d.take(j - 1));
    }
}

/// Once the cursor is beyond the window's end, no later segment is picked.
pub proof fn lemma_nothing_after_end(d: Seq<u64>, timescale: nat, w: Window, i: int, j: int)
    requires
        0 <= i <= j <= d.len(),
        past_end(total(d.take(i)), timescale, w),
    ensures
        selected(d.take(j), timescale, w) == selected(d.take(i), timescale, w),
    decreases j - i,
{
    if i < j {
        lemma_nothing_after_end(d, timescale, w, i, j - 1);
        lemma_total_grows(d, i, j - 1);
        assert(d.take(j).drop_last() =~= d.take(j - 1));
        let a = total(d.take(i));
        let b = total(d.take(j - 1));
        assert(a * 1_000_000 <= b * 1_000_000) by (nonlinear_arith)
            requires
                a <= b,
        ;
    }
}

/// The selection holds exactly the indices of the segments whose span meets
/// the window, each once and in ascending order.
pub proof fn lemma_selected_exact(d: Seq<u64>, timescale: nat, w: Window)
    requires
        d.len() <= usize::MAX,
    ensures
        forall|k: int|
            0 <= k < selected(d, timescale, w).len() ==> picks(
                d,
                timescale,
                w,
                #[trigger] selected(d, timescale, w)[k] as int,
            ),
        forall|i: int| #[trigger]
            picks(d, timescale, w, i) ==> selected(d, timescale, w).contains(i as usize),
        forall|k: int, l: int|
            0 <= k < l < selected(d, timescale, w).len() ==> #[trigger] selected(
                d,
                timescale,
                w,
            )[k] < #[trigger] selected(d, timescale, w)[l],
        selected(d, timescale, w).len() <= d.len(),
        forall|k: int|
            0 <= k < selected(d, timescale, w).len() ==> #[trigger] selected(d, timescale, w)[k]
                < d.len(),
    decreases d.len(),
{
    if d.len() > 0 {
        let p = d.drop_last();
        let s = selected(d, timescale, w);
        let sp = selected(p, timescale, w);
        lemma_selected_exact(p, timescale, w);
        assert forall|i: int| 0 <= i < p.len() implies picks(p, timescale, w, i) == picks(
            d,
            timescale,
            w,
            i,
        ) by {
            assert(p.take(i) =~= d.take(i));
        }
        assert(d.take(d.len() - 1) =~= p);
        assert forall|k: int| 0 <= k < s.len() implies picks(
            d,
            timescale,
            w,
            #[trigger] s[k] as int,
        ) by {
            if k < sp.len() {
                assert(s[k] == sp[k]);
                assert(picks(p, timescale, w, sp[k] as int));
            } else {
                assert(s[k] == (d.len() - 1) as usize);
            }
        }
        assert forall|i: int| #[trigger] picks(d, timescale, w, i) implies s.contains(
            i as usize,
        ) by {
            if i < p.len() {
                assert(picks(p, timescale, w, i));
                assert(sp.contains(i as usize));
                let k = choose|k: int| 0 <= k < sp.len() && sp[k] == i as usize;
                assert(s[k] == i as usize);
            } else {
                assert(s[s.len() - 1] == i as usize);
            }
        }
    }
}

/// An end at or beyond the end of the last segment selects what an open
/// end selects.
pub proof fn lemma_late_end_is_open(d: Seq<u64>, timescale: nat, start: u64, end: u64, n: int)
    requires
        0 <= n <= d.len(),
        total(d) * 1_000_000 <= end as nat * timescale,
    ensures
        selected(d.take(n), timescale, Window { start, end: Some(end) }) == selected(
            d.take(n),
            timescale,
            Window { start, end: None },
        ),
    decreases n,
{
    if n > 0 {
        lemma_late_end_is_open(d, timescale, start, end, n - 1);
        lemma_total_grows(d, n - 1, d.len() as int);
        assert(d.take(d.len() as int) =~= d);
        assert(d.take(n).drop_last() =~= d.take(n - 1));
        let a = total(d.take(n - 1));
        let b = total(d);
        assert(a * 1_000_000 <= b * 1_000_000) by (nonlinear_arith)
            requires
                a <= b,
        ;
    }
}

/// A window that begins at zero and has an open end selects every segment.
pub proof fn lemma_whole_window_selects_all(d: Seq<u64>, timescale: nat)
    requires
        d.len() <= usize::MAX,
    ensures
        selected(d, timescale, Window { start: 0, end: None }) == Seq::new(
            d.len(),
            |i: int| i as usize,
        ),
    decreases d.len(),
{
    if d.len() > 0 {
        lemma_whole_window_selects_all(d.drop_last(), timescale);
        let w = Window { start: 0, end: None };
        assert(overlaps(total(d.drop_last()), d.last() as nat, timescale, w)) by {
            assert(0 * timescale == 0);
        }
        assert(selected(d, timescale, w) =~= Seq::new(d.len(), |i: int| i as usize));
    } else {
        assert(selected(d, timescale, Window { start: 0, end: None }) =~= Seq::new(
            d.len(),
            |i: int| i as usize,
        ));
    }
}

/// The product of two 64-bit numbers fits into 128 bits.
pub proof fn lemma_product_fits(a: u64, b: u64)
    ensures
        a * b <= u128::MAX,
{
    assert(a * b <= 0xFFFF_FFFF_FFFF_FFFF * 0xFFFF_FFFF_FFFF_FFFF) by (nonlinear_arith)
        requires
            a <= 0xFFFF_FFFF_FFFF_FFFF,
            b <= 0xFFFF_FFFF_FFFF_FFFF,
    ;
}

/// Whether the segment at `cursor` of length `duration` meets the window:
/// decides `overlaps`.
pub fn meets_window(cursor: u128, duration: u64, timescale: u64, w: &Window) -> (r: bool)
    requires
        cursor + duration <= u128::MAX,
    ensures
        r == overlaps(cursor as nat, duration as nat, timescale as nat, *w),
{
    let reach: u128 = cursor + duration as u128;
    proof {
        lemma_product_fits(w.start, timescale);
    }
    let from: u128 = w.start as u128 * timescale as u128;
    let late_enough = match reach.checked_mul(1_000_000) {
        Some(v) => v >= from,
        None => true,
    };
    late_enough && !is_past_end(cursor, timescale, w)
}

/// Whether `cursor` lies beyond the window's end: decides `past_end`.
pub fn is_past_end(cursor: u128, timescale: u64, w: &Window) -> (r: bool)
    ensures
        r == past_end(cursor as nat, timescale as nat, *w),
{
    match w.end {
        Some(e) => {
            proof {
                lemma_product_fits(e, timescale);
            }
            let limit: u128 = e as u128 * timescale as u128;
            match cursor.checked_mul(1_000_000) {
                Some(v) => v > limit,
                None => true,
            }
        },
        None => false,
    }
}

/// The indices of the segments that meet the window, in playback order.
///
/// The scan ends at the first segment that begins beyond the window's end.
pub fn select_window(durations: &Vec<u64>, timescale: u64, w: &Window) -> (out: Vec<usize>)
    ensures
        out@ == selected(durations@, timescale as nat, *w),
{
    let mut out: Vec<usize> = Vec::new();
    let mut cursor: u128 = 0;
    let mut i: usize = 0;
    while i < durations.len()
        invariant
            i <= durations.len(),
            cursor == total(durations@.take(i as int)),
            cursor <= i * 0xFFFF_FFFF_FFFF_FFFF,
            out@ == selected(durations@.take(i as int), timescale as nat, *w),
        decreases durations.len() - i,
    {
        if is_past_end(cursor, timescale, w) {
            proof {
                lemma_nothing_after_end(
                    durations@,
                    timescale as nat,
                    *w,
                    i as int,
                    durations.len() as int,
                );
                assert(durations@.take(durations.len() as int) =~= durations@);
            }
            return out;
        }
        let d = durations[i];
        proof {
            assert(durations@.take(i + 1).drop_last() =~= durations@.take(i as int));
        }
        if meets_window(cursor, d, timescale, w) {
            out.push(i);
        }
        cursor = cursor + d as u128;
        i += 1;
    }
    assert(durations@.take(durations.len() as int) =~= durations@);
    out
}

} // verus!
