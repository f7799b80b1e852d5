//! Naming of persisted raw payloads: the key sanitisation shared with
//! feature names, and the relative path of each payload kind.
use vstd::prelude::*;
use crate::text::push_char;

verus! {

/// The kinds of raw payload that are persisted.
#[derive(Debug, Clone, Copy, PartialEq, Eq, Structural)]
pub enum RawType {
    SpotifyTrack,
    MusicBrainzRecording,
    ABHighLevel,
    ABLowLevel,
    LastFmTopTags,
}

/// Characters kept by sanitisation: ASCII letters and digits, `-`, `_`.
pub open spec fn is_key_char(c: char) -> bool {
    ('a' <= c && c <= 'z') || ('A' <= c && c <= 'Z') || ('0' <= c && c <= '9') || c == '-' || c == '_'
}

/// A character after sanitisation.
pub open spec fn sanitize_char(c: char) -> char {
    if is_key_char(c) {
        c
    } else {
        '_'
    }
}

/// A text after sanitisation: every other character becomes `_`.
pub open spec fn sanitize(s: Seq<char>) -> Seq<char> {
    s.map_values(|c: char| sanitize_char(c))
}

/// The service a payload kind comes from.
pub open spec fn raw_source(kind: RawType) -> Seq<char> {
    match kind {
        RawType::SpotifyTrack => "spotify"@,
        RawType::MusicBrainzRecording => "musicbrainz"@,
        RawType::ABHighLevel => "acousticbrainz"@,
        RawType::ABLowLevel => "acousticbrainz"@,
        RawType::LastFmTopTags => "lastfm"@,
    }
}

/// The payload's subtype within its service.
pub open spec fn raw_subtype(kind: RawType) -> Seq<char> {
    match kind {
        RawType::SpotifyTrack => "track"@,
        RawType::MusicBrainzRecording => "recording"@,
        RawType::ABHighLevel => "high-level"@,
        RawType::ABLowLevel => "low-level"@,
        RawType::LastFmTopTags => "toptags"@,
    }
}

/// `raw/<source>/<subtype>/<key>.json.zst`.
pub open spec fn rel_path_of(kind: RawType, key: Seq<char>) -> Seq<char> {
    "raw/"@ + raw_source(kind) + "/"@ + raw_subtype(kind) + "/"@ + key + ".json.zst"@
}

impl RawType {
    /// The service the payload comes from, as recorded in the index.
    pub fn source(self) -> (r: &'static str)
        ensures
            r@ == raw_source(self),
    {
        match self {
            RawType::SpotifyTrack => "spotify",
            RawType::MusicBrainzRecording => "musicbrainz",
            RawType::ABHighLevel => "acousticbrainz",
            RawType::ABLowLevel => "acousticbrainz",
            RawType::LastFmTopTags => "lastfm",
        }
    }

    /// The payload's subtype, as recorded in the index.
    pub fn subtype(self) -> (r: &'static str)
        ensures
            r@ == raw_subtype(self),
    {
        match self {
            RawType::SpotifyTrack => "track",
            RawType::MusicBrainzRecording => "recording",
            RawType::ABHighLevel => "high-level",
            RawType::ABLowLevel => "low-level",
            RawType::LastFmTopTags => "toptags",
        }
    }
}

/// Where compressed payloads are written, and at which compression level.
#[derive(Debug, Clone)]
pub struct DiskZstdSink {
    pub root: String,
    pub level: i32,
}

/// Whether `c` is kept by sanitisation.
pub fn is_key_char_exec(c: char) -> (r: bool)
    ensures
        r == is_key_char(c),
{
    ('a' <= c && c <= 'z') || ('A' <= c && c <= 'Z') || ('0' <= c && c <= '9') || c == '-' || c == '_'
}

impl DiskZstdSink {
    /// A sink under `root`; the level is clamped to 0..=21.
    pub fn new(root: String, level: i32) -> (r: DiskZstdSink)
        ensures
            r.root == root,
            r.level == if level < 0 {
                0
            } else if level > 21 {
                21
            } else {
                level
            },
    {
        let level = if level < 0 {
            0
        } else if level > 21 {
            21
        } else {
            level
        };
        DiskZstdSink { root, level }
    }

    /// Replaces every character outside `[A-Za-z0-9_-]` with `_`.
    pub fn sanitize_key(key: &str) -> (r: String)
        ensures
            r@ == sanitize(key@),
    {
        let n = key.unicode_len();
        let mut out = String::new();
        let mut i: usize = 0;
        while i < n
            invariant
                n == key@.len(),
                i <= n,
                out@ == sanitize(key@.subrange(0, i as int)),
            decreases n - i,
        {
            let c = key.get_char(i);
            let d = if is_key_char_exec(c) {
                c
            } else {
                '_'
            };
            push_char(&mut out, d);
            i = i + 1;
            assert(sanitize(key@.subrange(0, i as int)) =~= sanitize(key@.subrange(0, i - 1)).push(d));
        }
        assert(key@.subrange(0, n as int) =~= key@);
        out
    }

    /// The path of a payload of kind `kind` under key `key` (already
    /// sanitised), relative to the sink's root.
    pub fn rel_path(kind: RawType, key: String) -> (r: String)
        ensures
            r@ == rel_path_of(kind, key@),
    {
        let mut p = String::new();
        p.append("raw/");
        p.append(kind.source());
        p.append("/");
        p.append(kind.subtype());
        p.append("/");
        p.append(key.as_str());
        p.append(".json.zst");
        p
    }
}

} // verus!
