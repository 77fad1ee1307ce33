//! The qualities that a manifest offers, ordered by descending bandwidth.
use crate::dash::{
    find_representations, transport_representations, PlaybackDescriptor, Representation,
};
use crate::hls::is_comment;
use crate::numbers::{all_digits, decimal_text, digits_value, parse_digits, push_decimal};
use crate::text::{
    append_str, begins_with, find, from_chars, has_at, lines_of, occurs_at, search_from, slice_of,
    split_chars, split_lines, split_on, starts_with, texts, to_chars, trim_chars, trimmed,
};
use vstd::prelude::*;

verus! {

/// One quality on offer: the identifier to ask for it by, its picture size
/// and its bandwidth in bits per second.
#[derive(Debug)]
pub struct QualityDescriptor {
    pub id: String,
    pub width: u32,
    pub height: u32,
    pub bandwidth: u64,
}

/// What a quality descriptor stands for.
pub struct QualityView {
    pub id: Seq<char>,
    pub width: u32,
    pub height: u32,
    pub bandwidth: u64,
}

impl View for QualityDescriptor {
    type V = QualityView;

    open spec fn view(&self) -> QualityView {
        QualityView {
            id: self.id@,
            width: self.width,
            height: self.height,
            bandwidth: self.bandwidth,
        }
    }
}

/// What a vector of quality descriptors stands for.
pub open spec fn quality_views(v: Seq<QualityDescriptor>) -> Seq<QualityView> {
    Seq::new(v.len(), |i: int| v[i]@)
}

/// `sorted` with `q` put in behind every entry of at least its bandwidth.
pub open spec fn inserted(sorted: Seq<QualityView>, q: QualityView) -> Seq<QualityView>
    decreases sorted.len(),
{
    if sorted.len() == 0 {
        seq![q]
    } else if sorted.last().bandwidth >= q.bandwidth {
        sorted.push(q)
    } else {
        inserted(sorted.drop_last(), q).push(sorted.last())
    }
}

/// The entries of `v` by descending bandwidth; entries of equal bandwidth
/// keep the order they had in `v`.
pub open spec fn ordered(v: Seq<QualityView>) -> Seq<QualityView>
    decreases v.len(),
{
    if v.len() == 0 {
        Seq::<QualityView>::empty()
    } else {
        inserted(ordered(v.drop_last()), v.last())
    }
}

/// Whether no entry has more bandwidth than one before it.
pub open spec fn descending(v: Seq<QualityView>) -> bool {
    forall|i: int, j: int| 0 <= i < j < v.len() ==> v[i].bandwidth >= v[j].bandwidth
}

/// Putting an entry in where `inserted` does is putting it at the position
/// behind which every entry has less bandwidth, and before which the
/// nearest has at least as much.
pub proof fn lemma_inserted_at(s: Seq<QualityView>, q: QualityView, pos: int)
    requires
        0 <= pos <= s.len(),
        forall|k: int| pos <= k < s.len() ==> s[k].bandwidth < q.bandwidth,
        pos > 0 ==> s[pos - 1].bandwidth >= q.bandwidth,
    ensures
        inserted(s, q) == s.insert(pos, q),
    decreases s.len(),
{
    if s.len() == 0 {
        assert(s.insert(pos, q) =~= seq![q]);
    } else if pos == s.len() {
        assert(s.insert(pos, q) =~= s.push(q));
    } else {
        lemma_inserted_at(s.drop_last(), q, pos);
        assert(s.insert(pos, q) =~= s.drop_last().insert(pos, q).push(s.last()));
    }
}

/// Putting an entry into a descending list leaves it descending, with the
/// same entries and the new one.
pub proof fn lemma_inserted_descending(s: Seq<QualityView>, q: QualityView)
    requires
        descending(s),
    ensures
        descending(inserted(s, q)),
        inserted(s, q).to_multiset() == s.to_multiset().insert(q),
        inserted(s, q).len() == s.len() + 1,
    decreases s.len(),
{
    broadcast use vstd::seq_lib::group_to_multiset_ensures;

    if s.len() == 0 {
    } else if s.last().bandwidth >= q.bandwidth {
    } else {
        let p = s.drop_last();
        lemma_inserted_descending(p, q);
        let r = inserted(p, q);
        assert(s =~= p.push(s.last()));
        assert forall|i: int| 0 <= i < r.len() implies (#[trigger] r[i]).bandwidth
            >= s.last().bandwidth by {
            assert(r.to_multiset().count(r[i]) > 0);
            if r[i] != q {
                assert(p.to_multiset().count(r[i]) > 0);
                assert(p.contains(r[i]));
                let k = choose|k: int| 0 <= k < p.len() && p[k] == r[i];
                assert(s[k] == p[k]);
            }
        }
        assert(p.push(s.last()).to_multiset() =~= p.to_multiset().insert(s.last()));
        assert(r.push(s.last()).to_multiset() =~= r.to_multiset().insert(s.last()));
        assert(r.to_multiset().insert(s.last()) =~= s.to_multiset().insert(q));
    }
}

/// The ordered list is descending and holds the entries of the list it was
/// made from, each as often as there.
pub proof fn lemma_ordered_is_sorted(v: Seq<QualityView>)
    ensures
        descending(ordered(v)),
        ordered(v).to_multiset() == v.to_multiset(),
        ordered(v).len() == v.len(),
    decreases v.len(),
{
    broadcast use vstd::seq_lib::group_to_multiset_ensures;

    if v.len() > 0 {
        lemma_ordered_is_sorted(v.drop_last());
        lemma_inserted_descending(ordered(v.drop_last()), v.last());
        assert(v =~= v.drop_last().push(v.last()));
    }
}

/// Puts `q` into a list ordered by descending bandwidth: `inserted`.
pub fn insert_quality(list: &mut Vec<QualityDescriptor>, q: QualityDescriptor)
    ensures
        quality_views(final(list)@) == inserted(quality_views(old(list)@), q@),
{
    let mut pos: usize = list.len();
    while pos > 0 && list[pos - 1].bandwidth < q.bandwidth
        invariant
            pos <= list.len(),
            list@ == old(list)@,
            forall|k: int| pos <= k < list@.len() ==> list@[k].bandwidth < q.bandwidth,
        decreases pos,
    {
        pos -= 1;
    }
    proof {
        lemma_inserted_at(quality_views(list@), q@, pos as int);
    }
    let ghost before = quality_views(list@);
    let ghost qv = q@;
    list.insert(pos, q);
    assert(quality_views(list@) =~= before.insert(pos as int, qv));
}

/// The number that `s` writes, or zero where it writes none: an optional
/// `+`, then digits, the number no larger than `cap`.
pub open spec fn unsigned_or_zero(s: Seq<char>, cap: u64) -> nat {
    let body = if s.len() > 0 && s[0] == '+' {
        s.skip(1)
    } else {
        s
    };
    if body.len() > 0 && all_digits(body) && digits_value(body) <= cap {
        digits_value(body)
    } else {
        0
    }
}

/// Computes `unsigned_or_zero`.
pub fn parse_unsigned(s: &Vec<char>, cap: u64) -> (n: u64)
    ensures
        n == unsigned_or_zero(s@, cap),
        n <= cap,
{
    let from: usize = if s.len() > 0 && s[0] == '+' {
        1
    } else {
        0
    };
    assert(s@.subrange(from as int, s.len() as int) =~= if from == 1 {
        s@.skip(1)
    } else {
        s@
    });
    if from == s.len() {
        return 0;
    }
    match parse_digits(s, from, s.len(), cap) {
        Some(n) => n,
        None => 0,
    }
}

/// Whether the attribute name `key` stands at position `p` of `params`:
/// the name is there, at the very beginning or right after a comma.
pub open spec fn names_attribute(params: Seq<char>, key: Seq<char>, p: int) -> bool {
    occurs_at(params, p, key) && (p == 0 || params[p - 1] == ',')
}

/// The first position at or after `from` where the attribute name `key`
/// stands.
pub open spec fn attribute_from(params: Seq<char>, key: Seq<char>, from: int) -> Option<int>
    decreases params.len() - from + 1,
{
    if from < 0 || from + key.len() > params.len() {
        None
    } else if names_attribute(params, key, from) {
        Some(from)
    } else {
        attribute_from(params, key, from + 1)
    }
}

/// The text of the attribute `key` among `params`: what follows the first
/// place where the name `key` stands, up to the next comma. A name that
/// only ends in `key` is another attribute.
pub open spec fn attribute_value(params: Seq<char>, key: Seq<char>) -> Option<Seq<char>> {
    match attribute_from(params, key, 0) {
        Some(p) => {
            let rest = params.skip(p + key.len());
            match find(rest, seq![',']) {
                Some(c) => Some(rest.take(c)),
                None => Some(rest),
            }
        },
        None => None,
    }
}

/// Computes `attribute_from` from the beginning.
pub fn find_attribute(params: &Vec<char>, key: &Vec<char>) -> (r: Option<usize>)
    ensures
        r.is_some() == attribute_from(params@, key@, 0).is_some(),
        r matches Some(p) ==> attribute_from(params@, key@, 0) == Some(p as int) && p + key@.len()
            <= params@.len(),
{
    let mut i: usize = 0;
    while i <= params.len() && key.len() <= params.len() - i
        invariant
            attribute_from(params@, key@, 0) == attribute_from(params@, key@, i as int),
        decreases params.len() + 1 - i,
    {
        if has_at(params, i, key) && (i == 0 || params[i - 1] == ',') {
            return Some(i);
        }
        if i == params.len() {
            assert(attribute_from(params@, key@, i + 1) is None);
            return None;
        }
        i += 1;
    }
    None
}

/// Computes `attribute_value`.
pub fn attribute(params: &Vec<char>, key: &Vec<char>) -> (r: Option<Vec<char>>)
    ensures
        r.is_some() == attribute_value(params@, key@).is_some(),
        r matches Some(v) ==> attribute_value(params@, key@) == Some(v@),
{
    match find_attribute(params, key) {
        Some(p) => {
            let end: usize = params.len();
            assert(p + key@.len() <= end);
            let rest = slice_of(params, p + key.len(), end);
            assert(rest@ =~= params@.skip(p + key@.len()));
            let comma: Vec<char> = vec![','];
            assert(comma@ =~= seq![',']);
            match search_from(&rest, &comma, 0) {
                Some(c) => Some(slice_of(&rest, 0, c)),
                None => Some(rest),
            }
        },
        None => None,
    }
}

/// The bandwidth that the parameters of a stream declare, zero where they
/// declare none that can be read.
pub open spec fn declared_bandwidth(params: Seq<char>) -> u64 {
    match attribute_value(params, "BANDWIDTH="@) {
        Some(t) => unsigned_or_zero(t, u64::MAX) as u64,
        None => 0,
    }
}

/// The picture size, width then height, that the parameters of a stream
/// declare as `WxH`; zero for each where they declare none.
pub open spec fn declared_size(params: Seq<char>) -> (u32, u32) {
    match attribute_value(params, "RESOLUTION="@) {
        Some(t) => {
            let parts = split_on(t, 'x');
            if parts.len() == 2 {
                (
                    unsigned_or_zero(parts[0], 0xFFFF_FFFF) as u32,
                    unsigned_or_zero(parts[1], 0xFFFF_FFFF) as u32,
                )
            } else {
                (0, 0)
            }
        },
        None => (0, 0),
    }
}

/// The text that opens the line of a stream declaration.
pub open spec fn stream_tag() -> Seq<char> {
    "#EXT-X-STREAM-INF:"@
}

/// The quality that the line at index `i` declares: the line is a stream
/// declaration and the next line, trimmed, is neither empty nor a tag; that
/// line is the quality's identifier.
pub open spec fn variant_at(lines: Seq<Seq<char>>, i: int) -> Option<QualityView> {
    if 0 <= i && i + 1 < lines.len() && starts_with(lines[i], stream_tag()) && trimmed(
        lines[i + 1],
    ).len() > 0 && !is_comment(trimmed(lines[i + 1])) {
        let params = lines[i].skip(stream_tag().len() as int);
        Some(
            QualityView {
                id: trimmed(lines[i + 1]),
                width: declared_size(params).0,
                height: declared_size(params).1,
                bandwidth: declared_bandwidth(params),
            },
        )
    } else {
        None
    }
}

/// The qualities that the first `n` lines declare, in the order of the
/// lines.
pub open spec fn variants_upto(lines: Seq<Seq<char>>, n: int) -> Seq<QualityView>
    decreases n,
{
    if n <= 0 {
        Seq::<QualityView>::empty()
    } else {
        match variant_at(lines, n - 1) {
            Some(q) => variants_upto(lines, n - 1).push(q),
            None => variants_upto(lines, n - 1),
        }
    }
}

/// The qualities that a master playlist offers, by descending bandwidth.
pub open spec fn playlist_qualities(master_text: Seq<char>) -> Seq<QualityView> {
    ordered(variants_upto(lines_of(master_text), lines_of(master_text).len() as int))
}

/// Reads the parameters of a stream declaration: bandwidth, width, height.
pub fn read_stream_params(params: &Vec<char>) -> (r: (u64, u32, u32))
    ensures
        r.0 == declared_bandwidth(params@),
        r.1 == declared_size(params@).0,
        r.2 == declared_size(params@).1,
{
    let bandwidth_key = to_chars("BANDWIDTH=");
    let size_key = to_chars("RESOLUTION=");
    let bandwidth: u64 = match attribute(params, &bandwidth_key) {
        Some(t) => parse_unsigned(&t, u64::MAX),
        None => 0,
    };
    let (width, height): (u32, u32) = match attribute(params, &size_key) {
        Some(t) => {
            let parts = split_chars(&t, 'x');
            assert(parts@.len() == texts(parts@).len());
            if parts.len() == 2 {
                assert(texts(parts@)[0] == parts@[0]@);
                assert(texts(parts@)[1] == parts@[1]@);
                (
                    parse_unsigned(&parts[0], 0xFFFF_FFFF) as u32,
                    parse_unsigned(&parts[1], 0xFFFF_FFFF) as u32,
                )
            } else {
                (0, 0)
            }
        },
        None => (0, 0),
    };
    (bandwidth, width, height)
}

/// Lists the qualities that a master playlist offers, by descending
/// bandwidth: `playlist_qualities`.
pub fn hls_qualities(master_text: &str) -> (out: Vec<QualityDescriptor>)
    ensures
        quality_views(out@) == playlist_qualities(master_text@),
{
    let text = to_chars(master_text);
    let lines = split_lines(&text);
    let ghost all = lines_of(master_text@);
    let tag = to_chars("#EXT-X-STREAM-INF:");
    let mut out: Vec<QualityDescriptor> = Vec::new();
    let mut i: usize = 0;
    assert(quality_views(out@) =~= Seq::<QualityView>::empty());
    while i < lines.len()
        invariant
            i <= lines.len(),
            texts(lines@) == all,
            tag@ == stream_tag(),
            quality_views(out@) == ordered(variants_upto(all, i as int)),
        decreases lines.len() - i,
    {
        let line = &lines[i];
        assert(line@ == all[i as int]);
        if i + 1 < lines.len() && begins_with(line, &tag) {
            let id = trim_chars(&lines[i + 1]);
            assert(id@ == trimmed(all[i + 1]));
            if id.len() > 0 && id[0] != '#' {
                let params = slice_of(line, tag.len(), line.len());
                assert(params@ =~= all[i as int].skip(stream_tag().len() as int));
                let (bandwidth, width, height) = read_stream_params(&params);
                let q = QualityDescriptor { id: from_chars(&id), width, height, bandwidth };
                assert(variant_at(all, i as int) == Some(q@));
                assert(variants_upto(all, i + 1).drop_last() =~= variants_upto(all, i as int));
                insert_quality(&mut out, q);
            }
        }
        i += 1;
    }
    out
}

/// The quality that a representation offers: its identifier, empty where
/// it has none, its picture size, each reduced to 32 bits, and its
/// bandwidth; a number that it does not declare is zero.
pub open spec fn representation_quality(rep: Representation) -> QualityView {
    QualityView {
        id: match rep.id {
            Some(s) => s@,
            None => Seq::<char>::empty(),
        },
        width: match rep.width {
            Some(w) => (w % 0x1_0000_0000) as u32,
            None => 0,
        },
        height: match rep.height {
            Some(h) => (h % 0x1_0000_0000) as u32,
            None => 0,
        },
        bandwidth: match rep.bandwidth {
            Some(b) => b,
            None => 0,
        },
    }
}

/// The qualities of the given representations, in their order.
pub open spec fn representation_qualities(reps: Seq<Representation>) -> Seq<QualityView> {
    Seq::new(reps.len(), |i: int| representation_quality(reps[i]))
}

/// The qualities that a playback descriptor offers, by descending
/// bandwidth; none where it has no transport-stream representations.
pub open spec fn descriptor_qualities(desc: PlaybackDescriptor) -> Seq<QualityView> {
    match transport_representations(desc) {
        Some(reps) => ordered(representation_qualities(reps)),
        None => Seq::<QualityView>::empty(),
    }
}

/// Lists the qualities that a playback descriptor offers, by descending
/// bandwidth: `descriptor_qualities`.
pub fn dash_qualities(desc: &PlaybackDescriptor) -> (out: Vec<QualityDescriptor>)
    ensures
        quality_views(out@) == descriptor_qualities(*desc),
{
    let mut out: Vec<QualityDescriptor> = Vec::new();
    assert(quality_views(out@) =~= Seq::<QualityView>::empty());
    let reps = match find_representations(desc, "video/mp2t") {
        Some(r) => r,
        None => {
            return out;
        },
    };
    let mut i: usize = 0;
    while i < reps.len()
        invariant
            i <= reps.len(),
            quality_views(out@) == ordered(representation_qualities(reps@.take(i as int))),
        decreases reps.len() - i,
    {
        let rep = &reps[i];
        let id = match &rep.id {
            Some(s) => s.clone(),
            None => String::new(),
        };
        let width: u32 = match rep.width {
            Some(w) => (w % 0x1_0000_0000) as u32,
            None => 0,
        };
        let height: u32 = match rep.height {
            Some(h) => (h % 0x1_0000_0000) as u32,
            None => 0,
        };
        let bandwidth: u64 = match rep.bandwidth {
            Some(b) => b,
            None => 0,
        };
        let q = QualityDescriptor { id, width, height, bandwidth };
        proof {
            assert(q@ == representation_quality(reps@[i as int]));
            assert(representation_qualities(reps@.take(i + 1)).drop_last()
                =~= representation_qualities(reps@.take(i as int)));
            assert(representation_qualities(reps@.take(i + 1)).last() == q@);
        }
        insert_quality(&mut out, q);
        i += 1;
    }
    assert(reps@.take(reps.len() as int) =~= reps@);
    out
}

/// The label of a quality: its height and its rate in megabits per second
/// where the height is known, else the rate alone.
pub open spec fn label_text(height: u32, rate: Seq<char>) -> Seq<char> {
    if height > 0 {
        decimal_text(height as nat) + "p ("@ + rate + "Mbps)"@
    } else {
        rate + "Mbps"@
    }
}

/// The label of a quality of the given height whose rate, in megabits per
/// second, is written as `rate`: `label_text`.
pub fn quality_label(height: u32, rate: &str) -> (out: String)
    ensures
        out@ == label_text(height, rate@),
{
    let mut label: Vec<char> = Vec::new();
    if height > 0 {
        push_decimal(&mut label, height as u64);
        append_str(&mut label, "p (");
        append_str(&mut label, rate);
        append_str(&mut label, "Mbps)");
    } else {
        append_str(&mut label, rate);
        append_str(&mut label, "Mbps");
    }
    assert(label@ =~= label_text(height, rate@));
    from_chars(&label)
}

} // verus!
