//! Reading the answers of the metadata service: the requests to make and
//! what a video or clip is, once its fields are at hand.
use crate::dash::{find_representations, representations_for, text_is, PlaybackDescriptor};
use crate::error::DownloadError;
use crate::info::{ClipInfo, VideoInfo};
use crate::text::{append_str, find, from_chars, search_from, slice_of, to_chars};
use vstd::prelude::*;

verus! {

/// The fields of a video's description that the library reads. A field
/// that the service left out is `None`.
pub struct VideoContent {
    pub video_title: Option<String>,
    pub channel_name: Option<String>,
    pub duration: Option<u64>,
    pub thumbnail_image_url: Option<String>,
    pub live_rewind_playback_json: Option<String>,
    pub video_id: Option<String>,
    pub in_key: Option<String>,
}

/// What the playback document embedded in a video's description holds.
pub enum PlaybackMedia {
    /// The document could not be read.
    Unreadable,
    /// The document was read; the path of its first media entry, if any.
    Listed(Option<String>),
}

/// What a playback document holds, as plain values: `None` where it could
/// not be read, else the path of its first media entry, if it has one.
impl View for PlaybackMedia {
    type V = Option<Option<Seq<char>>>;

    open spec fn view(&self) -> Option<Option<Seq<char>>> {
        match self {
            PlaybackMedia::Unreadable => None,
            PlaybackMedia::Listed(None) => Some(None),
            PlaybackMedia::Listed(Some(p)) => Some(Some(p@)),
        }
    }
}

/// The texts that a playback document lists, as they were read.
pub enum PlaybackDocument {
    /// The text is no JSON document.
    Unreadable,
    /// The document was read. `None` where it has no list under the key
    /// asked for; else, entry by entry, the text that the entry holds under
    /// the key asked for, if it holds one.
    Read(Option<Vec<Option<String>>>),
}

/// The texts of a list of optional strings.
pub open spec fn optional_texts(v: Seq<Option<String>>) -> Seq<Option<Seq<char>>> {
    Seq::new(
        v.len(),
        |i: int|
            match v[i] {
                Some(s) => Some(s@),
                None => None,
            },
    )
}

impl View for PlaybackDocument {
    type V = Option<Option<Seq<Option<Seq<char>>>>>;

    open spec fn view(&self) -> Option<Option<Seq<Option<Seq<char>>>>> {
        match self {
            PlaybackDocument::Unreadable => None,
            PlaybackDocument::Read(None) => Some(None),
            PlaybackDocument::Read(Some(entries)) => Some(Some(optional_texts(entries@))),
        }
    }
}

/// What reading `json` as a JSON document yields for the list `list_key`:
/// `None` where `json` is no JSON document, `Some(None)` where the document
/// has no list of that name, else for each entry of the list the text that
/// the entry holds under `text_key`, if it holds one.
pub uninterp spec fn listed_texts(
    json: Seq<char>,
    list_key: Seq<char>,
    text_key: Seq<char>,
) -> Option<Option<Seq<Option<Seq<char>>>>>;

/// `serde_json::from_str`, then `Value::get`, `as_array` and `as_str` on
/// what it read: parses `json` and hands out, for each entry of the list
/// under `list_key`, the text under `text_key`. The contract gives the
/// result its name and claims nothing else of it.
#[verifier::external_body]
fn read_listed_texts(json: &str, list_key: &str, text_key: &str) -> (doc: PlaybackDocument)
    ensures
        doc@ == listed_texts(json@, list_key@, text_key@),
{
    match serde_json::from_str::<serde_json::Value>(json) {
        Ok(value) => PlaybackDocument::Read(
            value.get(list_key).and_then(|list| list.as_array()).map(
                |entries|
                    entries.iter().map(
                        |e| e.get(text_key).and_then(|t| t.as_str()).map(|t| t.to_string()),
                    ).collect(),
            ),
        ),
        Err(_) => PlaybackDocument::Unreadable,
    }
}

/// What a document's first entry holds: unreadable where the document is,
/// no path where it has no list, an empty list, or a first entry without
/// text.
pub open spec fn first_text(doc: Option<Option<Seq<Option<Seq<char>>>>>) -> Option<
    Option<Seq<char>>,
> {
    match doc {
        None => None,
        Some(None) => Some(None),
        Some(Some(entries)) => if entries.len() > 0 {
            Some(entries[0])
        } else {
            Some(None)
        },
    }
}

/// The media that a playback document holds: the path of its first entry.
pub fn first_media(doc: &PlaybackDocument) -> (media: PlaybackMedia)
    ensures
        media@ == first_text(doc@),
{
    match doc {
        PlaybackDocument::Unreadable => PlaybackMedia::Unreadable,
        PlaybackDocument::Read(None) => PlaybackMedia::Listed(None),
        PlaybackDocument::Read(Some(entries)) => {
            if entries.len() > 0 {
                match &entries[0] {
                    Some(path) => PlaybackMedia::Listed(Some(path.clone())),
                    None => PlaybackMedia::Listed(None),
                }
            } else {
                PlaybackMedia::Listed(None)
            }
        },
    }
}

/// The fields of a clip's description that the library reads.
pub struct ClipContent {
    pub content_title: Option<String>,
    pub channel_name: Option<String>,
    pub video_id: Option<String>,
    pub in_key: Option<String>,
}

/// Where the segments of a video are described: a master playlist, or the
/// playback descriptor of a content identifier and its access key.
pub enum ManifestHandle {
    Hls { master_url: String },
    Dash { content_id: String, access_key: String },
}

/// `s` or, where there is none, `fallback`.
pub open spec fn text_or(s: Option<String>, fallback: Seq<char>) -> Seq<char> {
    match s {
        Some(t) => t@,
        None => fallback,
    }
}

/// A copy of `s` or, where there is none, `fallback`.
pub fn string_or(s: &Option<String>, fallback: &str) -> (out: String)
    ensures
        out@ == text_or(*s, fallback@),
{
    match s {
        Some(t) => t.clone(),
        None => fallback.to_owned(),
    }
}

/// The address of a video's description.
pub open spec fn video_api_text(video_id: Seq<char>) -> Seq<char> {
    "https://api.chzzk.naver.com/service/v3/videos/"@ + video_id
}

/// The address of a clip's description.
pub open spec fn clip_api_text(clip_uid: Seq<char>) -> Seq<char> {
    "https://api.chzzk.naver.com/service/v1/play-info/clip/"@ + clip_uid
}

/// The address of the playback descriptor of a content identifier.
pub open spec fn playback_text(content_id: Seq<char>, access_key: Seq<char>) -> Seq<char> {
    "https://apis.naver.com/neonplayer/vodplay/v2/playback/"@ + content_id + "?key="@ + access_key
}

/// The cookie header that carries a session.
pub open spec fn cookie_text(session_id: Seq<char>, session_secret: Seq<char>) -> Seq<char> {
    "NID_AUT="@ + session_id + "; NID_SES="@ + session_secret
}

/// The address of the description of the video `video_id`.
pub fn video_api_url(video_id: &str) -> (out: String)
    ensures
        out@ == video_api_text(video_id@),
{
    let mut url: Vec<char> = Vec::new();
    append_str(&mut url, "https://api.chzzk.naver.com/service/v3/videos/");
    append_str(&mut url, video_id);
    assert(url@ =~= video_api_text(video_id@));
    from_chars(&url)
}

/// The address of the description of the clip `clip_uid`.
pub fn clip_api_url(clip_uid: &str) -> (out: String)
    ensures
        out@ == clip_api_text(clip_uid@),
{
    let mut url: Vec<char> = Vec::new();
    append_str(&mut url, "https://api.chzzk.naver.com/service/v1/play-info/clip/");
    append_str(&mut url, clip_uid);
    assert(url@ =~= clip_api_text(clip_uid@));
    from_chars(&url)
}

/// The address of the playback descriptor of `content_id` under
/// `access_key`.
pub fn playback_url(content_id: &str, access_key: &str) -> (out: String)
    ensures
        out@ == playback_text(content_id@, access_key@),
{
    let mut url: Vec<char> = Vec::new();
    append_str(&mut url, "https://apis.naver.com/neonplayer/vodplay/v2/playback/");
    append_str(&mut url, content_id);
    append_str(&mut url, "?key=");
    append_str(&mut url, access_key);
    assert(url@ =~= playback_text(content_id@, access_key@));
    from_chars(&url)
}

/// The cookie header for the session `session_id` with `session_secret`.
pub fn cookie_header(session_id: &str, session_secret: &str) -> (out: String)
    ensures
        out@ == cookie_text(session_id@, session_secret@),
{
    let mut header: Vec<char> = Vec::new();
    append_str(&mut header, "NID_AUT=");
    append_str(&mut header, session_id);
    append_str(&mut header, "; NID_SES=");
    append_str(&mut header, session_secret);
    assert(header@ =~= cookie_text(session_id@, session_secret@));
    from_chars(&header)
}

/// The labels of a video.
pub struct VideoLabels {
    pub title: String,
    pub channel: String,
    pub duration: u64,
    pub thumbnail: String,
}

/// Whether `labels` are the labels that the fields give: a missing title is
/// `video`, a missing channel `channel`, a missing duration zero and a
/// missing thumbnail empty.
pub open spec fn labels_of(labels: VideoLabels, content: VideoContent) -> bool {
    &&& labels.title@ == text_or(content.video_title, "video"@)
    &&& labels.channel@ == text_or(content.channel_name, "channel"@)
    &&& labels.duration == match content.duration {
        Some(d) => d,
        None => 0,
    }
    &&& labels.thumbnail@ == text_or(content.thumbnail_image_url, ""@)
}

/// The labels of the video that the fields describe: `labels_of`.
pub fn video_labels(content: &VideoContent) -> (labels: VideoLabels)
    ensures
        labels_of(labels, *content),
{
    VideoLabels {
        title: string_or(&content.video_title, "video"),
        channel: string_or(&content.channel_name, "channel"),
        duration: match content.duration {
            Some(d) => d,
            None => 0,
        },
        thumbnail: string_or(&content.thumbnail_image_url, ""),
    }
}

/// What an optional playback document holds, as plain values.
pub open spec fn media_view(media: Option<PlaybackMedia>) -> Option<Option<Option<Seq<char>>>> {
    match media {
        Some(m) => Some(m@),
        None => None,
    }
}

/// What the playback document embedded in a description holds: the path
/// of the first entry of its `media` list. `None` where the description
/// embeds no document.
pub open spec fn embedded_media(content: VideoContent) -> Option<Option<Option<Seq<char>>>> {
    match content.live_rewind_playback_json {
        Some(json) => Some(first_text(listed_texts(json@, "media"@, "path"@))),
        None => None,
    }
}

/// Whether the fields and the embedded playback document describe a video.
///
/// With an embedded playback document, it must be readable and list a media
/// path. Without one, the content identifier and access key must be there.
pub open spec fn describes_video(
    content: VideoContent,
    media: Option<Option<Option<Seq<char>>>>,
) -> bool {
    match content.live_rewind_playback_json {
        Some(_) => media matches Some(Some(Some(_))),
        None => content.video_id is Some && content.in_key is Some,
    }
}

/// Whether `info` is the video that the fields and the embedded playback
/// document describe.
///
/// A missing title is `video`, a missing channel `channel`, a missing
/// duration zero and a missing thumbnail empty. A video with an embedded
/// playback document is served by playlist, from the document's first media
/// path; any other by playback descriptor.
pub open spec fn is_video_of(
    info: VideoInfo,
    content: VideoContent,
    media: Option<Option<Option<Seq<char>>>>,
) -> bool {
    &&& info.title@ == text_or(content.video_title, "video"@)
    &&& info.channel@ == text_or(content.channel_name, "channel"@)
    &&& info.duration == match content.duration {
        Some(d) => d,
        None => 0,
    }
    &&& info.thumbnail@ == text_or(content.thumbnail_image_url, ""@)
    &&& info.is_dash == (content.live_rewind_playback_json is None)
    &&& if info.is_dash {
        &&& info.master_url@ == "DASH"@
        &&& info.dash_video_id == content.video_id
        &&& info.dash_in_key == content.in_key
    } else {
        &&& media == Some(Some(Some(info.master_url@)))
        &&& info.dash_video_id is None
        &&& info.dash_in_key is None
    }
}

/// Reads the playback document that a description embeds, if it embeds
/// one: `embedded_media`.
pub fn read_playback_media(content: &VideoContent) -> (media: Option<PlaybackMedia>)
    ensures
        media_view(media) == embedded_media(*content),
{
    match &content.live_rewind_playback_json {
        Some(json) => Some(first_media(&read_listed_texts(json.as_str(), "media", "path"))),
        None => None,
    }
}

/// What a video is, from the fields of its description and what the
/// playback document embedded there, if any, was found to hold.
///
/// The result is the video that `is_video_of` describes; what is needed
/// and missing is a `Parse` error.
pub fn video_info_from(
    content: &VideoContent,
    media: Option<PlaybackMedia>,
) -> (r: Result<VideoInfo, DownloadError>)
    ensures
        match r {
            Ok(info) => describes_video(*content, media_view(media)) && is_video_of(
                info,
                *content,
                media_view(media),
            ),
            Err(e) => !describes_video(*content, media_view(media)) && e == DownloadError::Parse,
        },
{
    let VideoLabels { title, channel, duration, thumbnail } = video_labels(content);
    match &content.live_rewind_playback_json {
        Some(_) => match media {
            Some(PlaybackMedia::Listed(Some(path))) => Ok(
                VideoInfo {
                    title,
                    channel,
                    master_url: path,
                    duration,
                    thumbnail,
                    is_dash: false,
                    dash_video_id: None,
                    dash_in_key: None,
                },
            ),
            _ => Err(DownloadError::Parse),
        },
        None => match (&content.video_id, &content.in_key) {
            (Some(id), Some(key)) => Ok(
                VideoInfo {
                    title,
                    channel,
                    master_url: "DASH".to_owned(),
                    duration,
                    thumbnail,
                    is_dash: true,
                    dash_video_id: Some(id.clone()),
                    dash_in_key: Some(key.clone()),
                },
            ),
            _ => Err(DownloadError::Parse),
        },
    }
}

/// What a video is, from the fields of its description; a playback
/// document embedded there is read first.
///
/// The result is the video that `is_video_of` describes for
/// `embedded_media`; what is needed and missing is a `Parse` error.
pub fn video_info(content: &VideoContent) -> (r: Result<VideoInfo, DownloadError>)
    ensures
        match r {
            Ok(info) => describes_video(*content, embedded_media(*content)) && is_video_of(
                info,
                *content,
                embedded_media(*content),
            ),
            Err(e) => !describes_video(*content, embedded_media(*content)) && e
                == DownloadError::Parse,
        },
{
    let media = read_playback_media(content);
    video_info_from(content, media)
}

/// Where the segments of `info` are described; a video served by playback
/// descriptor that lacks its identifier or key is a `Parse` error.
pub fn manifest_handle(info: &VideoInfo) -> (r: Result<ManifestHandle, DownloadError>)
    ensures
        match r {
            Ok(ManifestHandle::Hls { master_url }) => !info.is_dash && master_url
                == info.master_url,
            Ok(ManifestHandle::Dash { content_id, access_key }) => info.is_dash && Some(content_id)
                == info.dash_video_id && Some(access_key) == info.dash_in_key,
            Err(e) => info.is_dash && (info.dash_video_id is None || info.dash_in_key is None)
                && e == DownloadError::Parse,
        },
{
    if !info.is_dash {
        return Ok(ManifestHandle::Hls { master_url: info.master_url.clone() });
    }
    match (&info.dash_video_id, &info.dash_in_key) {
        (Some(id), Some(key)) => Ok(
            ManifestHandle::Dash { content_id: id.clone(), access_key: key.clone() },
        ),
        _ => Err(DownloadError::Parse),
    }
}

/// The media type of a clip's file.
pub open spec fn clip_mime() -> Seq<char> {
    "video/mp4"@
}

/// The URL of a clip's media file: the base URL of the first representation
/// of the descriptor's first set of clip media.
pub open spec fn clip_media_url(desc: PlaybackDescriptor) -> Option<Seq<char>> {
    match representations_for(desc, clip_mime()) {
        Some(reps) => if reps.len() > 0 {
            match reps[0].base_url {
                Some(u) => Some(u@),
                None => None,
            }
        } else {
            None
        },
        None => None,
    }
}

/// A thumbnail address without its size selector: what stands before the
/// first `?type=`.
pub open spec fn plain_thumbnail(url: Seq<char>) -> Seq<char> {
    match find(url, "?type="@) {
        Some(p) => url.take(p),
        None => url,
    }
}

/// The thumbnail of a clip: the plain form of the address found, or empty
/// where none was found.
pub open spec fn clip_thumbnail(found: Option<&str>) -> Seq<char> {
    match found {
        Some(u) => plain_thumbnail(u@),
        None => Seq::<char>::empty(),
    }
}

/// The content identifier and access key under which a clip's playback
/// descriptor is found; a description without either is a `Parse` error.
pub fn clip_playback_key(content: &ClipContent) -> (r: Result<(String, String), DownloadError>)
    ensures
        match (content.video_id, content.in_key) {
            (Some(id), Some(key)) => r matches Ok(pair) && pair.0 == id && pair.1 == key,
            _ => r matches Err(e) && e == DownloadError::Parse,
        },
{
    match (&content.video_id, &content.in_key) {
        (Some(id), Some(key)) => Ok((id.clone(), key.clone())),
        _ => Err(DownloadError::Parse),
    }
}

/// What a clip is, from the fields of its description, its playback
/// descriptor and the thumbnail address found there.
///
/// A missing title is `clip`, a missing channel `channel`. A descriptor
/// without a media URL is a `Parse` error.
pub fn clip_info(
    content: &ClipContent,
    desc: &PlaybackDescriptor,
    thumbnail: Option<&str>,
) -> (r: Result<ClipInfo, DownloadError>)
    ensures
        match clip_media_url(*desc) {
            Some(url) => r matches Ok(info) && info.mp4_url@ == url && info.title@ == text_or(
                content.content_title,
                "clip"@,
            ) && info.channel@ == text_or(content.channel_name, "channel"@) && info.thumbnail@
                == clip_thumbnail(thumbnail),
            None => r matches Err(e) && e == DownloadError::Parse,
        },
{
    let reps = match find_representations(desc, "video/mp4") {
        Some(r) => r,
        None => {
            return Err(DownloadError::Parse);
        },
    };
    if reps.len() == 0 {
        return Err(DownloadError::Parse);
    }
    let mp4_url = match &reps[0].base_url {
        Some(u) => u.clone(),
        None => {
            return Err(DownloadError::Parse);
        },
    };
    let thumb = match thumbnail {
        Some(u) => {
            let chars = to_chars(u);
            let mark = to_chars("?type=");
            match search_from(&chars, &mark, 0) {
                Some(p) => from_chars(&slice_of(&chars, 0, p)),
                None => {
                    assert(chars@.subrange(0, chars@.len() as int) =~= chars@);
                    from_chars(&slice_of(&chars, 0, chars.len()))
                },
            }
        },
        None => String::new(),
    };
    Ok(
        ClipInfo {
            title: string_or(&content.content_title, "clip"),
            channel: string_or(&content.channel_name, "channel"),
            mp4_url,
            thumbnail: thumb,
        },
    )
}

/// The value of the last cookie called `name`; empty where there is none.
pub open spec fn last_value(cookies: Seq<(String, String)>, name: Seq<char>) -> Seq<char>
    decreases cookies.len(),
{
    if cookies.len() == 0 {
        Seq::<char>::empty()
    } else if cookies.last().0@ == name {
        cookies.last().1@
    } else {
        last_value(cookies.drop_last(), name)
    }
}

/// Computes `last_value`.
pub fn cookie_value(cookies: &Vec<(String, String)>, name: &str) -> (value: String)
    ensures
        value@ == last_value(cookies@, name@),
{
    let wanted = to_chars(name);
    let mut i: usize = cookies.len();
    assert(cookies@.take(i as int) =~= cookies@);
    while i > 0
        invariant
            i <= cookies.len(),
            wanted@ == name@,
            last_value(cookies@, name@) == last_value(cookies@.take(i as int), name@),
        decreases i,
    {
        proof {
            assert(cookies@.take(i as int).drop_last() =~= cookies@.take(i - 1));
            assert(cookies@.take(i as int).last() == cookies@[i - 1]);
        }
        if text_is(&cookies[i - 1].0, &wanted) {
            return cookies[i - 1].1.clone();
        }
        i -= 1;
    }
    String::new()
}

/// The session that a list of cookies carries: the values of the last
/// cookies called `NID_AUT` and `NID_SES`, identifier first. There is a
/// session only where both are there and neither is empty.
pub fn find_session(cookies: &Vec<(String, String)>) -> (r: Option<(String, String)>)
    ensures
        match r {
            Some(session) => session.0@ == last_value(cookies@, "NID_AUT"@) && session.1@
                == last_value(cookies@, "NID_SES"@) && session.0@.len() > 0 && session.1@.len()
                > 0,
            None => last_value(cookies@, "NID_AUT"@).len() == 0 || last_value(
                cookies@,
                "NID_SES"@,
            ).len() == 0,
        },
{
    let id = cookie_value(cookies, "NID_AUT");
    let secret = cookie_value(cookies, "NID_SES");
    if id.as_str().is_empty() || secret.as_str().is_empty() {
        None
    } else {
        Some((id, secret))
    }
}

} // verus!
