//! Identifier newtypes and the lookup key of a track.
use vstd::prelude::*;

verus! {

/// International standard recording code.
#[derive(Debug, Clone)]
pub struct Isrc(pub String);

/// Catalog-provider track id.
#[derive(Debug, Clone)]
pub struct SpotifyTrackId(pub String);

/// Authority recording id.
#[derive(Debug, Clone)]
pub struct MbRecordingId(pub String);

/// Authority release id.
#[derive(Debug, Clone)]
pub struct MbReleaseId(pub String);

/// What is known of a track when it is looked up.
#[derive(Debug, Clone)]
pub struct TrackKey {
    pub spotify_id: Option<SpotifyTrackId>,
    pub isrc: Option<Isrc>,
    pub title: Option<String>,
    pub artist_name: Option<String>,
    pub duration_ms: Option<u32>,
}

} // verus!
