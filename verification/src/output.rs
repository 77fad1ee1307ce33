//! Names of the files that a download leaves behind, and the command line
//! of the remux tool.
use crate::info::{ClipInfo, VideoInfo};
use crate::numbers::{decimal_text, format_padded, zero_padded};
use crate::text::{append_chars, append_str, from_chars, replace_all, replaced, strings, to_chars};
use vstd::prelude::*;

verus! {

/// Whether a file name may not hold the character.
pub open spec fn is_forbidden(c: char) -> bool {
    c == '\\' || c == '/' || c == '*' || c == '?' || c == ':' || c == '"' || c == '<' || c == '>'
        || c == '|'
}

/// `s` without the characters that a file name may not hold.
pub open spec fn sanitized(s: Seq<char>) -> Seq<char> {
    s.filter(|c: char| !is_forbidden(c))
}

/// A sanitized text holds no forbidden character, and is no longer than
/// the text it was made from.
pub proof fn lemma_sanitized_is_clean(s: Seq<char>)
    ensures
        forall|i: int| 0 <= i < sanitized(s).len() ==> !is_forbidden(#[trigger] sanitized(s)[i]),
        sanitized(s).len() <= s.len(),
{
    let keep = |c: char| !is_forbidden(c);
    s.lemma_filter_len(keep);
    assert forall|i: int| 0 <= i < sanitized(s).len() implies !is_forbidden(
        #[trigger] sanitized(s)[i],
    ) by {
        s.lemma_filter_pred(keep, i);
    }
}

/// The pattern that matches one forbidden character.
pub open spec fn forbidden_class() -> Seq<char> {
    "[\\\\/*?:\"<>|]"@
}

/// `regex::Regex::new` followed by `Regex::replace_all`: every match of the
/// pattern in `text` is replaced. The pattern is required to be the class
/// of the nine forbidden characters and the replacement to be empty, so a
/// match is one such character and the result is `text` without them.
#[verifier::external_body]
fn strip_matches(pattern: &str, text: &str, with: &str) -> (out: String)
    requires
        pattern@ == forbidden_class(),
        with@.len() == 0,
    ensures
        out@ == sanitized(text@),
{
    regex::Regex::new(pattern).unwrap().replace_all(text, with).to_string()
}

/// Removes from `s` the characters that a file name may not hold.
pub fn sanitize_filename(s: &str) -> (out: String)
    ensures
        out@ == sanitized(s@),
{
    let empty = "";
    proof {
        reveal_strlit("");
    }
    strip_matches("[\\\\/*?:\"<>|]", s, empty)
}

/// A time tag without its colons.
pub open spec fn tag_text(t: Seq<char>) -> Seq<char> {
    replaced(t, seq![':'], Seq::<char>::empty())
}

/// The name of the finished file of a time-ranged download: the sanitized
/// channel and title, the start tag and the end tag without colons (`END`
/// for an open end), joined by underscores.
pub open spec fn output_name(
    channel: Seq<char>,
    title: Seq<char>,
    start: Seq<char>,
    end: Seq<char>,
) -> Seq<char> {
    sanitized(channel) + "_"@ + sanitized(title) + "_"@ + tag_text(start) + "_"@ + (if end.len()
        == 0 {
        "END"@
    } else {
        tag_text(end)
    }) + ".mp4"@
}

/// Computes `tag_text`.
pub fn strip_colons(t: &str) -> (out: Vec<char>)
    ensures
        out@ == tag_text(t@),
{
    let chars = to_chars(t);
    let colon: Vec<char> = vec![':'];
    let nothing: Vec<char> = Vec::new();
    assert(colon@ =~= seq![':']);
    assert(nothing@ =~= Seq::<char>::empty());
    replace_all(&chars, &colon, &nothing)
}

/// The file name under which a time-ranged download of `info` is stored:
/// `output_name`.
pub fn build_output_filename(info: &VideoInfo, start_time: &str, end_time: &str) -> (out: String)
    ensures
        out@ == output_name(info.channel@, info.title@, start_time@, end_time@),
{
    let channel = sanitize_filename(info.channel.as_str());
    let title = sanitize_filename(info.title.as_str());
    let mut name: Vec<char> = Vec::new();
    append_str(&mut name, channel.as_str());
    append_str(&mut name, "_");
    append_str(&mut name, title.as_str());
    append_str(&mut name, "_");
    let start = strip_colons(start_time);
    append_chars(&mut name, &start);
    append_str(&mut name, "_");
    if end_time.is_empty() {
        append_str(&mut name, "END");
    } else {
        let end = strip_colons(end_time);
        append_chars(&mut name, &end);
    }
    append_str(&mut name, ".mp4");
    assert(name@ =~= output_name(info.channel@, info.title@, start_time@, end_time@));
    from_chars(&name)
}

/// The name of the finished file of a clip: the sanitized channel and
/// title, joined by an underscore.
pub open spec fn clip_name(channel: Seq<char>, title: Seq<char>) -> Seq<char> {
    sanitized(channel) + "_"@ + sanitized(title) + ".mp4"@
}

/// The file name under which the clip `info` is stored: `clip_name`.
pub fn build_clip_filename(info: &ClipInfo) -> (out: String)
    ensures
        out@ == clip_name(info.channel@, info.title@),
{
    let channel = sanitize_filename(info.channel.as_str());
    let title = sanitize_filename(info.title.as_str());
    let mut name: Vec<char> = Vec::new();
    append_str(&mut name, channel.as_str());
    append_str(&mut name, "_");
    append_str(&mut name, title.as_str());
    append_str(&mut name, ".mp4");
    assert(name@ =~= clip_name(info.channel@, info.title@));
    from_chars(&name)
}

/// The name of the working directory of a download.
pub open spec fn temp_dir_text(content_id: Seq<char>) -> Seq<char> {
    "temp_"@ + content_id
}

/// The name of the working directory for the content `content_id`.
pub fn temp_dir_name(content_id: &str) -> (out: String)
    ensures
        out@ == temp_dir_text(content_id@),
{
    let mut name: Vec<char> = Vec::new();
    append_str(&mut name, "temp_");
    append_str(&mut name, content_id);
    assert(name@ =~= temp_dir_text(content_id@));
    from_chars(&name)
}

/// The name of the file that holds the segment at `index`: the index in
/// at least five digits.
pub open spec fn segment_file_text(index: nat) -> Seq<char> {
    "seg_"@ + zero_padded(decimal_text(index), 5) + ".m4s"@
}

/// The name of the file that holds the segment at `index`.
pub fn segment_file_name(index: usize) -> (out: String)
    ensures
        out@ == segment_file_text(index as nat),
{
    let mut name: Vec<char> = Vec::new();
    append_str(&mut name, "seg_");
    let digits = format_padded(index as u64, 5);
    append_chars(&mut name, &digits);
    append_str(&mut name, ".m4s");
    assert(name@ =~= segment_file_text(index as nat));
    from_chars(&name)
}

/// The name of the file that holds the assembled segments.
pub fn combined_file_name() -> (out: String)
    ensures
        out@ == "combined.raw"@,
{
    "combined.raw".to_owned()
}

/// The arguments of a remux run: overwrite the output, read `input`, copy
/// every stream unchanged, move the index to the front, and turn ADTS audio
/// framing into the container's own.
pub open spec fn remux_arguments(input: Seq<char>, output: Seq<char>) -> Seq<Seq<char>> {
    seq![
        "-y"@,
        "-i"@,
        input,
        "-c"@,
        "copy"@,
        "-map"@,
        "0"@,
        "-movflags"@,
        "faststart"@,
        "-bsf:a"@,
        "aac_adtstoasc"@,
        output,
    ]
}

/// The arguments with which the remux tool turns `input` into `output`.
pub fn remux_args(input: &str, output: &str) -> (args: Vec<String>)
    ensures
        strings(args@) == remux_arguments(input@, output@),
{
    let mut args: Vec<String> = Vec::new();
    args.push("-y".to_owned());
    args.push("-i".to_owned());
    args.push(input.to_owned());
    args.push("-c".to_owned());
    args.push("copy".to_owned());
    args.push("-map".to_owned());
    args.push("0".to_owned());
    args.push("-movflags".to_owned());
    args.push("faststart".to_owned());
    args.push("-bsf:a".to_owned());
    args.push("aac_adtstoasc".to_owned());
    args.push(output.to_owned());
    assert(strings(args@) =~= remux_arguments(input@, output@));
    args
}

} // verus!
