//! Resolution of streaming manifests into time-windowed segment plans,
//! with the bookkeeping for fetching, assembling and remuxing them.
//!
//! The library computes and decides; it performs no requests and touches
//! no files. A caller fetches the manifests, hands their text or fields
//! in, and carries out what the plans say.
//!
//! * `timing`, `url`, `text`, `numbers`: time tags, URL resolution and the
//!   text helpers beneath them. Times are whole microseconds.
//! * `window`: which segments of a sequence meet a time window.
//! * `hls`: variant choice and segment plans of playlists.
//! * `dash`: representation choice and segment plans of playback
//!   descriptors.
//! * `quality`: the qualities on offer, by descending bandwidth.
//! * `fetch`, `assemble`: the completed-count of a fetch run, what a resumed
//!   run still has to fetch, and the assembly in plan order.
//! * `output`, `pipeline`, `metadata`, `info`, `error`: file names, the
//!   remux command line, the stages of a download, and the descriptions of
//!   videos and clips.
pub mod assemble;
pub mod dash;
pub mod error;
pub mod fetch;
pub mod hls;
pub mod info;
pub mod metadata;
pub mod numbers;
pub mod output;
pub mod pipeline;
pub mod quality;
pub mod text;
pub mod timing;
pub mod url;
pub mod window;
