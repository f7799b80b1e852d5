//! The job store: tracks, jobs, the raw-file index and feature rows, with
//! idempotent enqueue, an at-most-once claim of the oldest pending job, and
//! insert-or-ignore / upsert semantics on the unique keys of each table.
use vstd::prelude::*;
use crate::model::{CrawlerError, Job, JobStatus, JobType, SpotifyTrack, Track};
use crate::text::{owned, str_eq};

verus! {

/// One row of the jobs table.
#[derive(Debug, Clone)]
pub struct JobRow {
    pub job_id: i64,
    pub track_id: String,
    pub kind: JobType,
    pub status: JobStatus,
    pub attempt: i64,
    pub last_error: Option<String>,
    pub created_at: i64,
    pub updated_at: i64,
}

/// One row of the tracks table.
#[derive(Debug, Clone)]
pub struct TrackRow {
    pub id: String,
    pub spotify_id: Option<String>,
    pub isrc: Option<String>,
    pub mb_recording_id: Option<String>,
    pub title: Option<String>,
    pub artist_all: Vec<String>,
    pub album: Option<String>,
    pub duration_ms: Option<i64>,
    pub release_date: Option<String>,
    pub explicit: Option<bool>,
    pub popularity: Option<i32>,
    pub linked_ok: bool,
    pub features_ok: bool,
    pub created_at: i64,
    pub updated_at: i64,
}

/// One row of the raw-file index.
#[derive(Debug, Clone)]
pub struct RawFileRow {
    pub track_id: String,
    pub source: String,
    pub subtype: String,
    pub key: String,
    pub rel_path: String,
    pub created_at: i64,
}

/// The value of a feature: a number (held as the bit pattern of a double)
/// or a text. The variant is the row's dtype, so exactly one value is set.
#[derive(Debug, Clone)]
pub enum FeatureValue {
    Num(u64),
    Text(String),
}

/// One row of the features table.
#[derive(Debug, Clone)]
pub struct FeatureRow {
    pub track_id: String,
    pub source: String,
    pub feature: String,
    pub value: FeatureValue,
    pub updated_at: i64,
}

/// A copy of an optional string.
pub fn clone_opt(o: &Option<String>) -> (r: Option<String>)
    ensures
        r == *o,
{
    match o {
        Some(s) => Some(s.clone()),
        None => None,
    }
}

/// The in-memory image of the backing store.
pub struct Persistent {
    pub tracks: Vec<TrackRow>,
    pub jobs: Vec<JobRow>,
    pub raw_files: Vec<RawFileRow>,
    pub features: Vec<FeatureRow>,
    /// The identifier the next inserted job receives.
    pub next_job_id: i64,
}

/// Whether a job row belongs to the pair (`t`, `k`).
pub open spec fn job_has_key(r: JobRow, t: Seq<char>, k: JobType) -> bool {
    r.track_id@ == t && r.kind == k
}

/// Whether some job row belongs to the pair (`t`, `k`).
pub open spec fn has_job(jobs: Seq<JobRow>, t: Seq<char>, k: JobType) -> bool {
    exists|i: int| 0 <= i < jobs.len() && #[trigger] job_has_key(jobs[i], t, k)
}

/// At most one job row per (track, kind) pair.
pub open spec fn job_pairs_unique(jobs: Seq<JobRow>) -> bool {
    forall|i: int, j: int|
        0 <= i < jobs.len() && 0 <= j < jobs.len() && i != j ==> !job_has_key(
            #[trigger] jobs[i],
            jobs[j].track_id@,
            #[trigger] jobs[j].kind,
        )
}

/// Job identifiers are distinct, positive, and below the next identifier.
pub open spec fn job_ids_fresh(jobs: Seq<JobRow>, next_id: i64) -> bool {
    &&& forall|i: int| 0 <= i < jobs.len() ==> 1 <= #[trigger] jobs[i].job_id < next_id
    &&& forall|i: int, j: int|
        0 <= i < jobs.len() && 0 <= j < jobs.len() && i != j ==> #[trigger] jobs[i].job_id
            != #[trigger] jobs[j].job_id
}

/// A job that a claim of kind `k` may take.
pub open spec fn claimable(r: JobRow, k: JobType) -> bool {
    r.kind == k && r.status == JobStatus::Pending
}

/// Whether some job of kind `k` is pending.
pub open spec fn has_claimable(jobs: Seq<JobRow>, k: JobType) -> bool {
    exists|i: int| 0 <= i < jobs.len() && #[trigger] claimable(jobs[i], k)
}

/// Claim order: older creation time first, then lower identifier.
pub open spec fn claims_before(a: JobRow, b: JobRow) -> bool {
    a.created_at < b.created_at || (a.created_at == b.created_at && a.job_id <= b.job_id)
}

/// Row `i` is the pending job of kind `k` that a claim takes.
pub open spec fn is_oldest_claimable(jobs: Seq<JobRow>, k: JobType, i: int) -> bool {
    &&& 0 <= i < jobs.len()
    &&& claimable(jobs[i], k)
    &&& forall|j: int|
        0 <= j < jobs.len() && #[trigger] claimable(jobs[j], k) ==> claims_before(jobs[i], jobs[j])
}

/// A freshly enqueued job row.
pub open spec fn new_job_row(r: JobRow, t: Seq<char>, k: JobType, id: i64, now: i64) -> bool {
    &&& r.job_id == id
    &&& r.track_id@ == t
    &&& r.kind == k
    &&& r.status == JobStatus::Pending
    &&& r.attempt == 0
    &&& r.last_error is None
    &&& r.created_at == now
    &&& r.updated_at == now
}

/// A job row after a successful claim.
pub open spec fn claimed_row(r: JobRow, now: i64) -> JobRow {
    JobRow { status: JobStatus::Active, attempt: (r.attempt + 1) as i64, updated_at: now, ..r }
}

/// A job row after it finished, with `err` recorded when it failed.
pub open spec fn finished_row(r: JobRow, st: JobStatus, err: Option<String>, now: i64) -> JobRow {
    JobRow { status: st, last_error: err, updated_at: now, ..r }
}

/// The jobs table after setting the terminal status of job `id`; rows
/// with another identifier are left alone.
pub open spec fn finish_jobs(
    jobs: Seq<JobRow>,
    id: i64,
    st: JobStatus,
    err: Option<String>,
    now: i64,
) -> Seq<JobRow> {
    Seq::new(
        jobs.len(),
        |i: int|
            if jobs[i].job_id == id {
                finished_row(jobs[i], st, err, now)
            } else {
                jobs[i]
            },
    )
}

/// The number of jobs of kind `k` with status `st`.
pub open spec fn count_of(jobs: Seq<JobRow>, k: JobType, st: JobStatus) -> nat
    decreases jobs.len(),
{
    if jobs.len() == 0 {
        0
    } else {
        count_of(jobs.drop_last(), k, st) + if jobs.last().kind == k && jobs.last().status == st {
            1nat
        } else {
            0nat
        }
    }
}

/// A field of a track row that identifies it.
#[derive(Debug, Clone, Copy, PartialEq, Eq, Structural)]
pub enum TrackField {
    Id,
    Spotify,
    Isrc,
    Mbid,
}

/// The value of an identifying field of a track row.
pub open spec fn track_key(r: TrackRow, f: TrackField) -> Option<String> {
    match f {
        TrackField::Id => Some(r.id),
        TrackField::Spotify => r.spotify_id,
        TrackField::Isrc => r.isrc,
        TrackField::Mbid => r.mb_recording_id,
    }
}

/// Whether an optional string is present and reads `k`.
pub open spec fn holds_key(a: Option<String>, k: Seq<char>) -> bool {
    a matches Some(s) && s@ == k
}

/// Whether some track's field `f` reads `k`.
pub open spec fn has_track(tracks: Seq<TrackRow>, f: TrackField, k: Seq<char>) -> bool {
    exists|i: int| 0 <= i < tracks.len() && #[trigger] holds_key(track_key(tracks[i], f), k)
}

/// Two optional strings are both present and equal.
pub open spec fn clash(a: Option<String>, b: Option<String>) -> bool {
    a is Some && b is Some && a->Some_0@ == b->Some_0@
}

/// The identifying fields are unique across tracks where present, and the
/// progress flags are consistent.
pub open spec fn tracks_wf(tracks: Seq<TrackRow>) -> bool {
    &&& forall|i: int, j: int, f: TrackField|
        0 <= i < tracks.len() && 0 <= j < tracks.len() && i != j ==> !clash(
            #[trigger] track_key(tracks[i], f),
            #[trigger] track_key(tracks[j], f),
        )
    &&& forall|i: int| 0 <= i < tracks.len() ==> progress_ok(#[trigger] tracks[i])
}

/// A linked track carries a non-empty recording id; a track with features
/// is linked.
pub open spec fn progress_ok(r: TrackRow) -> bool {
    &&& r.linked_ok ==> (r.mb_recording_id matches Some(m) && m@.len() > 0)
    &&& r.features_ok ==> r.linked_ok
}

/// A new track row for `t` with internal id `id`.
pub open spec fn new_track_row(t: SpotifyTrack, id: String, now: i64) -> TrackRow {
    TrackRow {
        id,
        spotify_id: t.spotify_id,
        isrc: t.isrc,
        mb_recording_id: None,
        title: Some(t.title),
        artist_all: t.artist_all,
        album: t.album,
        duration_ms: t.duration_ms,
        release_date: t.release_date,
        explicit: t.explicit,
        popularity: t.popularity,
        linked_ok: false,
        features_ok: false,
        created_at: now,
        updated_at: now,
    }
}

/// `new` when it is present, else `old`.
pub open spec fn newer<T>(new: Option<T>, old: Option<T>) -> Option<T> {
    if new is Some {
        new
    } else {
        old
    }
}

/// Whether an upsert of `t` fills the recording code of the existing row
/// `r`: only an absent code is filled, and only with one no track holds.
pub open spec fn fills_isrc(tracks: Seq<TrackRow>, r: TrackRow, t: SpotifyTrack) -> bool {
    r.isrc is None && t.isrc is Some && !has_track(tracks, TrackField::Isrc, t.isrc->Some_0@)
}

/// The existing row `r` merged with `t`: present values replace stored
/// ones, the recording code is only filled, and the ids are kept.
pub open spec fn merged_track_row(r: TrackRow, t: SpotifyTrack, fill_isrc: bool, now: i64) -> TrackRow {
    TrackRow {
        isrc: if fill_isrc {
            t.isrc
        } else {
            r.isrc
        },
        title: Some(t.title),
        artist_all: t.artist_all,
        album: newer(t.album, r.album),
        duration_ms: newer(t.duration_ms, r.duration_ms),
        release_date: newer(t.release_date, r.release_date),
        explicit: newer(t.explicit, r.explicit),
        popularity: newer(t.popularity, r.popularity),
        updated_at: later(r.updated_at, now),
        ..r
    }
}

/// The tracks table after an upsert of `t` into the existing row `i`.
pub open spec fn tracks_after_merge(tracks: Seq<TrackRow>, i: int, t: SpotifyTrack, now: i64) -> Seq<TrackRow> {
    tracks.update(i, merged_track_row(tracks[i], t, fills_isrc(tracks, tracks[i], t), now))
}

/// What an upsert of `t` with `fresh` as the id of a new row returns, and
/// the tracks table it leaves.
pub open spec fn upsert_outcome(
    tracks: Seq<TrackRow>,
    t: SpotifyTrack,
    fresh: String,
    now: i64,
    r: Result<(String, bool), CrawlerError>,
    after: Seq<TrackRow>,
) -> bool {
    &&& t.spotify_id is None ==> r is Err
    &&& r is Err ==> after == tracks && (r matches Err(CrawlerError::Db(_)))
    &&& t.spotify_id matches Some(sid) ==> {
        if has_track(tracks, TrackField::Spotify, sid@) {
            exists|i: int|
                0 <= i < tracks.len() && holds_key(tracks[i].spotify_id, sid@) && r == Ok::<
                    (String, bool),
                    CrawlerError,
                >((tracks[i].id, false)) && after == tracks_after_merge(tracks, i, t, now)
        } else if has_track(tracks, TrackField::Id, fresh@) || (t.isrc matches Some(c) && has_track(
            tracks,
            TrackField::Isrc,
            c@,
        )) {
            r is Err
        } else {
            &&& r == Ok::<(String, bool), CrawlerError>((fresh, true))
            &&& after == tracks.push(new_track_row(t, fresh, now))
        }
    }
}

/// The update stamp of a row last stamped at `old` and changed at `now`:
/// a row's stamp never goes backwards.
pub open spec fn later(old: i64, now: i64) -> i64 {
    if now > old {
        now
    } else {
        old
    }
}

/// A track row once its recording id `m` is set.
pub open spec fn linked_row(r: TrackRow, m: String, now: i64) -> TrackRow {
    TrackRow { mb_recording_id: Some(m), linked_ok: true, updated_at: later(r.updated_at, now), ..r }
}

/// A track row once its features are stored.
pub open spec fn features_done_row(r: TrackRow, now: i64) -> TrackRow {
    TrackRow { features_ok: true, updated_at: later(r.updated_at, now), ..r }
}

/// Whether `tr` is the metadata of row `r`.
pub open spec fn metadata_of(tr: Track, r: TrackRow) -> bool {
    &&& tr.id == r.id
    &&& tr.title == r.title
    &&& tr.spotify_id == r.spotify_id
    &&& tr.artist_all@ == r.artist_all@
    &&& tr.isrc == r.isrc
    &&& tr.mb_recording_id == r.mb_recording_id
    &&& tr.linked_ok == r.linked_ok
    &&& tr.features_ok == r.features_ok
    &&& tr.updated_at == r.updated_at
}

/// Whether the track `t` (an internal id) exists, is linked and has no
/// features yet: the condition for a features job.
pub open spec fn wants_features(tracks: Seq<TrackRow>, t: Seq<char>) -> bool {
    exists|i: int|
        0 <= i < tracks.len() && #[trigger] holds_key(track_key(tracks[i], TrackField::Id), t) && tracks[i].linked_ok
            && !tracks[i].features_ok
}

/// A copy of a list of strings.
pub fn clone_strings(v: &Vec<String>) -> (r: Vec<String>)
    ensures
        r@ == v@,
{
    let mut out: Vec<String> = Vec::new();
    let mut i: usize = 0;
    while i < v.len()
        invariant
            i <= v@.len(),
            out@ == v@.subrange(0, i as int),
        decreases v@.len() - i,
    {
        out.push(v[i].clone());
        i = i + 1;
        assert(out@ =~= v@.subrange(0, i as int));
    }
    assert(v@.subrange(0, i as int) =~= v@);
    out
}

/// Relies on `uuid::Uuid::new_v4`: a freshly drawn random identifier, in
/// its hyphenated text form.
#[verifier::external_body]
fn new_track_id() -> (r: String) {
    uuid::Uuid::new_v4().to_string()
}

/// Whether a raw-file row is the one for (`s`, `st`, `k`).
pub open spec fn raw_has_key(r: RawFileRow, s: Seq<char>, st: Seq<char>, k: Seq<char>) -> bool {
    r.source@ == s && r.subtype@ == st && r.key@ == k
}

/// Whether the raw-file index holds a row for (`s`, `st`, `k`).
pub open spec fn has_raw(rows: Seq<RawFileRow>, s: Seq<char>, st: Seq<char>, k: Seq<char>) -> bool {
    exists|i: int| 0 <= i < rows.len() && #[trigger] raw_has_key(rows[i], s, st, k)
}

/// At most one raw-file row per (source, subtype, key).
pub open spec fn raw_keys_unique(rows: Seq<RawFileRow>) -> bool {
    forall|i: int, j: int|
        0 <= i < rows.len() && 0 <= j < rows.len() && i != j ==> !raw_has_key(
            #[trigger] rows[i],
            rows[j].source@,
            rows[j].subtype@,
            #[trigger] rows[j].key@,
        )
}

/// Whether a feature row is the one for (`t`, `s`, `f`).
pub open spec fn feature_has_key(r: FeatureRow, t: Seq<char>, s: Seq<char>, f: Seq<char>) -> bool {
    r.track_id@ == t && r.source@ == s && r.feature@ == f
}

/// At most one feature row per (track, source, feature).
pub open spec fn feature_keys_unique(rows: Seq<FeatureRow>) -> bool {
    forall|i: int, j: int|
        0 <= i < rows.len() && 0 <= j < rows.len() && i != j ==> !feature_has_key(
            #[trigger] rows[i],
            rows[j].track_id@,
            rows[j].source@,
            #[trigger] rows[j].feature@,
        )
}

/// The feature table after writing `value` under (`t`, `s`, `f`): the row
/// with that key is overwritten, or a new row is appended.
pub open spec fn feature_upserted(
    rows: Seq<FeatureRow>,
    t: String,
    s: String,
    f: String,
    value: FeatureValue,
    now: i64,
) -> Seq<FeatureRow> {
    if exists|i: int| 0 <= i < rows.len() && #[trigger] feature_has_key(rows[i], t@, s@, f@) {
        let i = choose|i: int| 0 <= i < rows.len() && #[trigger] feature_has_key(rows[i], t@, s@, f@);
        rows.update(i, FeatureRow { value, updated_at: now, ..rows[i] })
    } else {
        rows.push(FeatureRow { track_id: t, source: s, feature: f, value, updated_at: now })
    }
}

/// The feature table after writing each of `items` in turn.
pub open spec fn features_upserted(
    rows: Seq<FeatureRow>,
    t: String,
    s: String,
    items: Seq<(String, FeatureValue)>,
    now: i64,
) -> Seq<FeatureRow>
    decreases items.len(),
{
    if items.len() == 0 {
        rows
    } else {
        let last = items.last();
        feature_upserted(features_upserted(rows, t, s, items.drop_last(), now), t, s, last.0, last.1, now)
    }
}

/// Numeric items as feature values.
pub open spec fn num_items(items: Seq<(String, u64)>) -> Seq<(String, FeatureValue)> {
    items.map_values(|it: (String, u64)| (it.0, FeatureValue::Num(it.1)))
}

/// Text items as feature values.
pub open spec fn text_items(items: Seq<(String, String)>) -> Seq<(String, FeatureValue)> {
    items.map_values(|it: (String, String)| (it.0, FeatureValue::Text(it.1)))
}

/// The stored type of a feature value.
pub open spec fn dtype_of(v: FeatureValue) -> Seq<char> {
    match v {
        FeatureValue::Num(_) => "num"@,
        FeatureValue::Text(_) => "text"@,
    }
}

/// The numeric column of a feature row.
pub open spec fn num_column(v: FeatureValue) -> Option<u64> {
    match v {
        FeatureValue::Num(b) => Some(b),
        FeatureValue::Text(_) => None,
    }
}

/// The text column of a feature row.
pub open spec fn text_column(v: FeatureValue) -> Option<String> {
    match v {
        FeatureValue::Num(_) => None,
        FeatureValue::Text(t) => Some(t),
    }
}

impl FeatureValue {
    /// The stored type: `num` or `text`.
    pub fn dtype(&self) -> (r: &'static str)
        ensures
            r@ == dtype_of(*self),
    {
        match self {
            FeatureValue::Num(_) => "num",
            FeatureValue::Text(_) => "text",
        }
    }

    /// The numeric column: set exactly for a numeric value.
    pub fn num_value(&self) -> (r: Option<u64>)
        ensures
            r == num_column(*self),
    {
        match self {
            FeatureValue::Num(b) => Some(*b),
            FeatureValue::Text(_) => None,
        }
    }

    /// The text column: set exactly for a text value.
    pub fn text_value(&self) -> (r: Option<String>)
        ensures
            r == text_column(*self),
    {
        match self {
            FeatureValue::Num(_) => None,
            FeatureValue::Text(t) => Some(t.clone()),
        }
    }
}

/// Every feature value has exactly one of its two columns set, and that
/// column is the one its dtype names.
pub proof fn lemma_feature_columns(v: FeatureValue)
    ensures
        num_column(v) is Some != text_column(v) is Some,
        dtype_of(v) == "num"@ <==> num_column(v) is Some,
        dtype_of(v) == "text"@ <==> text_column(v) is Some,
{
    reveal_strlit("num");
    reveal_strlit("text");
    assert("num"@[0] != "text"@[0]);
}

/// Some feature row holds (`t`, `s`, `n`) with value `v`.
pub open spec fn has_feature(rows: Seq<FeatureRow>, t: Seq<char>, s: Seq<char>, n: Seq<char>, v: FeatureValue) -> bool {
    exists|i: int| 0 <= i < rows.len() && #[trigger] feature_has_key(rows[i], t, s, n) && rows[i].value == v
}

/// The value of the last item named `n`, if any.
pub open spec fn last_value(items: Seq<(String, FeatureValue)>, n: Seq<char>) -> Option<FeatureValue>
    decreases items.len(),
{
    if items.len() == 0 {
        None
    } else if items.last().0@ == n {
        Some(items.last().1)
    } else {
        last_value(items.drop_last(), n)
    }
}

/// Writing `v` under a key leaves a row with that key and value.
pub proof fn lemma_feature_upserted_sets(rows: Seq<FeatureRow>, t: String, s: String, f: String, v: FeatureValue, now: i64)
    ensures
        has_feature(feature_upserted(rows, t, s, f, v, now), t@, s@, f@, v),
{
    let after = feature_upserted(rows, t, s, f, v, now);
    if exists|i: int| 0 <= i < rows.len() && #[trigger] feature_has_key(rows[i], t@, s@, f@) {
        let i = choose|i: int| 0 <= i < rows.len() && #[trigger] feature_has_key(rows[i], t@, s@, f@);
        assert(feature_has_key(after[i], t@, s@, f@));
    } else {
        assert(feature_has_key(after[rows.len() as int], t@, s@, f@));
    }
}

/// Writing under one key keeps the rows of every other key.
pub proof fn lemma_feature_upserted_keeps(
    rows: Seq<FeatureRow>,
    t: String,
    s: String,
    f: String,
    v: FeatureValue,
    now: i64,
    n: Seq<char>,
    w: FeatureValue,
)
    requires
        has_feature(rows, t@, s@, n, w),
        n != f@,
    ensures
        has_feature(feature_upserted(rows, t, s, f, v, now), t@, s@, n, w),
{
    let after = feature_upserted(rows, t, s, f, v, now);
    let j = choose|j: int| 0 <= j < rows.len() && #[trigger] feature_has_key(rows[j], t@, s@, n) && rows[j].value == w;
    assert(after[j] == rows[j]);
    assert(feature_has_key(after[j], t@, s@, n));
}

/// After a batch write, each name of the batch holds the value of its last
/// item in the batch.
pub proof fn lemma_features_upserted_last(
    rows: Seq<FeatureRow>,
    t: String,
    s: String,
    items: Seq<(String, FeatureValue)>,
    now: i64,
    n: Seq<char>,
)
    ensures
        last_value(items, n) matches Some(v) ==> has_feature(features_upserted(rows, t, s, items, now), t@, s@, n, v),
    decreases items.len(),
{
    if items.len() > 0 {
        let last = items.last();
        let before = features_upserted(rows, t, s, items.drop_last(), now);
        if last.0@ == n {
            lemma_feature_upserted_sets(before, t, s, last.0, last.1, now);
        } else {
            lemma_features_upserted_last(rows, t, s, items.drop_last(), now, n);
            if let Some(v) = last_value(items, n) {
                lemma_feature_upserted_keeps(before, t, s, last.0, last.1, now, n, v);
            }
        }
    }
}

/// Once the raw-file index holds a key, it holds it in exactly one row.
pub proof fn lemma_raw_key_once(rows: Seq<RawFileRow>, s: Seq<char>, st: Seq<char>, k: Seq<char>)
    requires
        raw_keys_unique(rows),
        has_raw(rows, s, st, k),
    ensures
        exists|i: int|
            0 <= i < rows.len() && raw_has_key(rows[i], s, st, k) && forall|j: int|
                0 <= j < rows.len() && #[trigger] raw_has_key(rows[j], s, st, k) ==> j == i,
{
    let i = choose|i: int| 0 <= i < rows.len() && #[trigger] raw_has_key(rows[i], s, st, k);
    assert forall|j: int| 0 <= j < rows.len() && #[trigger] raw_has_key(rows[j], s, st, k) implies j == i by {
        if j != i {
            assert(!raw_has_key(rows[j], rows[i].source@, rows[i].subtype@, rows[i].key@));
        }
    }
}

/// What an idempotent enqueue of (`t`, `k`) returns, and the jobs table
/// and next identifier it leaves.
pub open spec fn enqueue_outcome(
    jobs: Seq<JobRow>,
    next_id: i64,
    t: Seq<char>,
    k: JobType,
    now: i64,
    r: Result<(), CrawlerError>,
    after: Seq<JobRow>,
    after_next: i64,
) -> bool {
    if has_job(jobs, t, k) {
        r is Ok && after == jobs && after_next == next_id
    } else if next_id == i64::MAX {
        r is Err && after == jobs && after_next == next_id
    } else {
        &&& r is Ok
        &&& after_next == next_id + 1
        &&& after.len() == jobs.len() + 1
        &&& after.drop_last() == jobs
        &&& new_job_row(after.last(), t, k, next_id, now)
    }
}

/// Enqueueing a pair again, at any time, changes nothing: a run of
/// enqueues of one pair leaves the state of the first successful one.
pub proof fn lemma_enqueue_idempotent(
    jobs: Seq<JobRow>,
    next_id: i64,
    t: Seq<char>,
    k: JobType,
    now1: i64,
    r1: Result<(), CrawlerError>,
    mid: Seq<JobRow>,
    mid_next: i64,
    now2: i64,
    r2: Result<(), CrawlerError>,
    after: Seq<JobRow>,
    after_next: i64,
)
    requires
        enqueue_outcome(jobs, next_id, t, k, now1, r1, mid, mid_next),
        r1 is Ok,
        enqueue_outcome(mid, mid_next, t, k, now2, r2, after, after_next),
    ensures
        r2 is Ok,
        after == mid,
        after_next == mid_next,
        has_job(after, t, k),
{
    if !has_job(jobs, t, k) {
        assert(job_has_key(mid[jobs.len() as int], t, k));
    }
}

/// Once a pair has a job, enqueueing that pair again changes nothing,
/// whatever was enqueued in between; with `lemma_enqueue_keeps_jobs` this
/// makes any run of enqueues leave one row per pair, the first one.
pub proof fn lemma_enqueue_present_noop(
    jobs: Seq<JobRow>,
    next_id: i64,
    t: Seq<char>,
    k: JobType,
    now: i64,
    r: Result<(), CrawlerError>,
    after: Seq<JobRow>,
    after_next: i64,
)
    requires
        has_job(jobs, t, k),
        enqueue_outcome(jobs, next_id, t, k, now, r, after, after_next),
    ensures
        r is Ok,
        after == jobs,
        after_next == next_id,
{
}

/// An enqueue of any pair keeps every job that was there, so the pair of
/// an earlier enqueue stays present whatever is enqueued after it.
pub proof fn lemma_enqueue_keeps_jobs(
    jobs: Seq<JobRow>,
    next_id: i64,
    t: Seq<char>,
    k: JobType,
    now: i64,
    r: Result<(), CrawlerError>,
    after: Seq<JobRow>,
    after_next: i64,
    t2: Seq<char>,
    k2: JobType,
)
    requires
        enqueue_outcome(jobs, next_id, t, k, now, r, after, after_next),
        has_job(jobs, t2, k2),
    ensures
        has_job(after, t2, k2),
        forall|i: int| 0 <= i < jobs.len() ==> after[i] == jobs[i],
{
    let i = choose|i: int| 0 <= i < jobs.len() && #[trigger] job_has_key(jobs[i], t2, k2);
    if !has_job(jobs, t, k) && next_id != i64::MAX {
        assert forall|j: int| 0 <= j < jobs.len() implies after[j] == jobs[j] by {
            assert(after.drop_last()[j] == jobs[j]);
        }
    }
    assert(job_has_key(after[i], t2, k2));
}

/// Under the store's invariant a (track, kind) pair has at most one job
/// row: any two rows of the pair are the same row.
pub proof fn lemma_job_pair_once(jobs: Seq<JobRow>, t: Seq<char>, k: JobType, i: int, j: int)
    requires
        job_pairs_unique(jobs),
        0 <= i < jobs.len(),
        0 <= j < jobs.len(),
        job_has_key(jobs[i], t, k),
        job_has_key(jobs[j], t, k),
    ensures
        i == j,
{
    if i != j {
        assert(!job_has_key(jobs[i], jobs[j].track_id@, jobs[j].kind));
    }
}

/// Counting after one row is replaced: the old row's share goes, the new
/// row's comes.
pub proof fn lemma_count_update(jobs: Seq<JobRow>, i: int, r: JobRow, k: JobType, st: JobStatus)
    requires
        0 <= i < jobs.len(),
    ensures
        count_of(jobs.update(i, r), k, st) + (if jobs[i].kind == k && jobs[i].status == st {
            1int
        } else {
            0int
        }) == count_of(jobs, k, st) + (if r.kind == k && r.status == st {
            1int
        } else {
            0int
        }),
    decreases jobs.len(),
{
    let u = jobs.update(i, r);
    if i == jobs.len() - 1 {
        assert(u.drop_last() =~= jobs.drop_last());
    } else {
        assert(u.drop_last() =~= jobs.drop_last().update(i, r));
        lemma_count_update(jobs.drop_last(), i, r, k, st);
    }
}

/// Some job of kind `k` is pending exactly when the pending count of `k`
/// is positive.
pub proof fn lemma_claimable_iff_count(jobs: Seq<JobRow>, k: JobType)
    ensures
        has_claimable(jobs, k) <==> count_of(jobs, k, JobStatus::Pending) > 0,
    decreases jobs.len(),
{
    if jobs.len() > 0 {
        let init = jobs.drop_last();
        lemma_claimable_iff_count(init, k);
        if has_claimable(init, k) {
            let i = choose|i: int| 0 <= i < init.len() && #[trigger] claimable(init[i], k);
            assert(claimable(jobs[i], k));
        }
        if has_claimable(jobs, k) && !claimable(jobs.last(), k) {
            let i = choose|i: int| 0 <= i < jobs.len() && #[trigger] claimable(jobs[i], k);
            assert(claimable(init[i], k));
        }
        if claimable(jobs.last(), k) {
            assert(claimable(jobs[jobs.len() - 1], k));
        }
    }
}

/// A claim takes exactly one pending job of its kind: the pending count
/// drops by one and the job taken can never be claimed again, while every
/// other job keeps its status. So claims made one after another over `m`
/// pending jobs hand out `m` distinct jobs and then report an empty queue.
pub proof fn lemma_claim_takes_one(jobs: Seq<JobRow>, k: JobType, i: int, now: i64)
    requires
        is_oldest_claimable(jobs, k, i),
    ensures
        count_of(jobs.update(i, claimed_row(jobs[i], now)), k, JobStatus::Pending) + 1 == count_of(
            jobs,
            k,
            JobStatus::Pending,
        ),
        !claimable(jobs.update(i, claimed_row(jobs[i], now))[i], k),
        forall|j: int|
            0 <= j < jobs.len() && j != i ==> #[trigger] jobs.update(i, claimed_row(jobs[i], now))[j] == jobs[j],
{
    lemma_count_update(jobs, i, claimed_row(jobs[i], now), k, JobStatus::Pending);
}

/// Every track of `old` is still in `new`, at the same place, with the
/// same internal and catalog ids.
pub open spec fn keeps_track_keys(old: Seq<TrackRow>, new: Seq<TrackRow>) -> bool {
    &&& old.len() <= new.len()
    &&& forall|i: int|
        0 <= i < old.len() ==> #[trigger] new[i].id == old[i].id && new[i].spotify_id == old[i].spotify_id
}

/// Job identifiers are pairwise distinct.
pub open spec fn ids_distinct(jobs: Seq<JobRow>) -> bool {
    forall|a: int, b: int|
        0 <= a < jobs.len() && 0 <= b < jobs.len() && a != b ==> #[trigger] jobs[a].job_id != #[trigger] jobs[b].job_id
}

/// `n` claims of kind `k` made one after another: the jobs table they
/// leave and the identifiers of the jobs they return. Each claim takes the
/// oldest pending job of the kind, as `claim_one_job` does, while there is
/// one.
pub open spec fn claim_run(jobs: Seq<JobRow>, k: JobType, n: nat, now: i64) -> (Seq<JobRow>, Seq<i64>)
    decreases n,
{
    if n == 0 || !has_claimable(jobs, k) {
        (jobs, seq![])
    } else {
        let i = choose|i: int| is_oldest_claimable(jobs, k, i);
        let next = jobs.update(i, claimed_row(jobs[i], now));
        let rest = claim_run(next, k, (n - 1) as nat, now);
        (rest.0, seq![jobs[i].job_id] + rest.1)
    }
}

/// Whenever a job of kind `k` is pending, one of them is the oldest.
pub proof fn lemma_oldest_exists(jobs: Seq<JobRow>, k: JobType)
    requires
        has_claimable(jobs, k),
    ensures
        exists|i: int| is_oldest_claimable(jobs, k, i),
    decreases jobs.len(),
{
    let init = jobs.drop_last();
    let n = jobs.len() - 1;
    if has_claimable(init, k) {
        lemma_oldest_exists(init, k);
        let o = choose|o: int| is_oldest_claimable(init, k, o);
        assert(jobs[o] == init[o]);
        if claimable(jobs[n], k) && !claims_before(jobs[o], jobs[n]) {
            assert forall|j: int| 0 <= j < jobs.len() && #[trigger] claimable(jobs[j], k) implies claims_before(
                jobs[n],
                jobs[j],
            ) by {
                if j < n {
                    assert(jobs[j] == init[j]);
                    assert(claims_before(init[o], init[j]));
                }
            }
            assert(is_oldest_claimable(jobs, k, n));
        } else {
            assert forall|j: int| 0 <= j < jobs.len() && #[trigger] claimable(jobs[j], k) implies claims_before(
                jobs[o],
                jobs[j],
            ) by {
                if j < n {
                    assert(jobs[j] == init[j]);
                }
            }
            assert(is_oldest_claimable(jobs, k, o));
        }
    } else {
        let w = choose|w: int| 0 <= w < jobs.len() && #[trigger] claimable(jobs[w], k);
        if w < n {
            assert(claimable(init[w], k));
        }
        assert forall|j: int| 0 <= j < jobs.len() && #[trigger] claimable(jobs[j], k) implies j == n by {
            if j < n {
                assert(claimable(init[j], k));
            }
        }
        assert(is_oldest_claimable(jobs, k, n));
    }
}

/// With distinct identifiers the oldest pending job is unique, so the
/// first claim of a run is exactly the step `claim_one_job` takes.
pub proof fn lemma_claim_run_step(jobs: Seq<JobRow>, k: JobType, i: int, n: nat, now: i64)
    requires
        ids_distinct(jobs),
        is_oldest_claimable(jobs, k, i),
    ensures
        claim_run(jobs, k, n + 1, now) == {
            let rest = claim_run(jobs.update(i, claimed_row(jobs[i], now)), k, n, now);
            (rest.0, seq![jobs[i].job_id] + rest.1)
        },
{
    let c = choose|c: int| is_oldest_claimable(jobs, k, c);
    assert(claims_before(jobs[i], jobs[c]) && claims_before(jobs[c], jobs[i]));
    if c != i {
        assert(jobs[c].job_id != jobs[i].job_id);
    }
    assert(c == i);
}

/// Claims made one after another never hand out a job twice, and `n` of
/// them over `m` pending jobs of their kind hand out exactly `min(n, m)`:
/// every claimer beyond the `m`-th is told the queue is empty.
pub proof fn lemma_claim_run(jobs: Seq<JobRow>, k: JobType, n: nat, now: i64)
    requires
        ids_distinct(jobs),
    ensures
        claim_run(jobs, k, n, now).1.len() == if n < count_of(jobs, k, JobStatus::Pending) {
            n
        } else {
            count_of(jobs, k, JobStatus::Pending)
        },
        claim_run(jobs, k, n, now).1.no_duplicates(),
        forall|t: int|
            0 <= t < claim_run(jobs, k, n, now).1.len() ==> exists|j: int|
                0 <= j < jobs.len() && claimable(jobs[j], k) && jobs[j].job_id == #[trigger] claim_run(
                    jobs,
                    k,
                    n,
                    now,
                ).1[t],
    decreases n,
{
    lemma_claimable_iff_count(jobs, k);
    if n == 0 || !has_claimable(jobs, k) {
    } else {
        lemma_oldest_exists(jobs, k);
        let i = choose|i: int| is_oldest_claimable(jobs, k, i);
        let next = jobs.update(i, claimed_row(jobs[i], now));
        lemma_count_update(jobs, i, claimed_row(jobs[i], now), k, JobStatus::Pending);
        assert(ids_distinct(next)) by {
            assert forall|a: int, b: int|
                0 <= a < next.len() && 0 <= b < next.len() && a != b implies #[trigger] next[a].job_id
                    != #[trigger] next[b].job_id by {
                assert(jobs[a].job_id != jobs[b].job_id);
            }
        }
        lemma_claim_run(next, k, (n - 1) as nat, now);
        let rest = claim_run(next, k, (n - 1) as nat, now).1;
        let ids = claim_run(jobs, k, n, now).1;
        assert(ids == seq![jobs[i].job_id] + rest);
        assert forall|t: int| 0 <= t < rest.len() implies exists|j: int|
            0 <= j < jobs.len() && j != i && claimable(jobs[j], k) && jobs[j].job_id == #[trigger] rest[t] by {
            let j = choose|j: int| 0 <= j < next.len() && claimable(next[j], k) && next[j].job_id == rest[t];
            assert(j != i);
            assert(next[j] == jobs[j]);
        }
        assert forall|t: int| 0 <= t < ids.len() implies exists|j: int|
            0 <= j < jobs.len() && claimable(jobs[j], k) && jobs[j].job_id == #[trigger] ids[t] by {
            if t > 0 {
                assert(ids[t] == rest[t - 1]);
            } else {
                assert(ids[0] == jobs[i].job_id);
            }
        }
        assert(ids.no_duplicates()) by {
            assert forall|a: int, b: int| 0 <= a < ids.len() && 0 <= b < ids.len() && a != b implies ids[a]
                != ids[b] by {
                if a > 0 && b > 0 {
                    assert(ids[a] == rest[a - 1] && ids[b] == rest[b - 1]);
                } else if a == 0 {
                    assert(ids[b] == rest[b - 1]);
                    let j = choose|j: int|
                        0 <= j < jobs.len() && j != i && claimable(jobs[j], k) && jobs[j].job_id == rest[b - 1];
                    assert(jobs[j].job_id != jobs[i].job_id);
                } else {
                    assert(ids[a] == rest[a - 1]);
                    let j = choose|j: int|
                        0 <= j < jobs.len() && j != i && claimable(jobs[j], k) && jobs[j].job_id == rest[a - 1];
                    assert(jobs[j].job_id != jobs[i].job_id);
                }
            }
        }
    }
}

/// Two job rows differ in identifier and in (track, kind) pair.
pub open spec fn pair_apart(a: JobRow, b: JobRow) -> bool {
    !job_has_key(a, b.track_id@, b.kind) && a.job_id != b.job_id
}

/// Every job identifier is positive and below `i64::MAX`.
pub open spec fn ids_in_range(jobs: Seq<JobRow>) -> bool {
    forall|i: int| 0 <= i < jobs.len() ==> 1 <= #[trigger] jobs[i].job_id < i64::MAX
}

/// Two track rows share no identifying value.
pub open spec fn tracks_apart(a: TrackRow, b: TrackRow) -> bool {
    &&& !clash(track_key(a, TrackField::Id), track_key(b, TrackField::Id))
    &&& !clash(track_key(a, TrackField::Spotify), track_key(b, TrackField::Spotify))
    &&& !clash(track_key(a, TrackField::Isrc), track_key(b, TrackField::Isrc))
    &&& !clash(track_key(a, TrackField::Mbid), track_key(b, TrackField::Mbid))
}

/// Two raw-file rows index different triples.
pub open spec fn raws_apart(a: RawFileRow, b: RawFileRow) -> bool {
    !raw_has_key(a, b.source@, b.subtype@, b.key@)
}

/// Two feature rows hold different keys.
pub open spec fn features_apart(a: FeatureRow, b: FeatureRow) -> bool {
    !feature_has_key(a, b.track_id@, b.source@, b.feature@)
}

/// Rows loaded from storage that satisfy every invariant of the store.
pub open spec fn restorable(
    tracks: Seq<TrackRow>,
    jobs: Seq<JobRow>,
    raw_files: Seq<RawFileRow>,
    features: Seq<FeatureRow>,
) -> bool {
    &&& job_pairs_unique(jobs)
    &&& ids_distinct(jobs)
    &&& ids_in_range(jobs)
    &&& tracks_wf(tracks)
    &&& raw_keys_unique(raw_files)
    &&& feature_keys_unique(features)
}

/// Every job identifier is positive and below `next`.
pub open spec fn job_ids_below(jobs: Seq<JobRow>, next: i64) -> bool {
    forall|i: int| 0 <= i < jobs.len() ==> 1 <= #[trigger] jobs[i].job_id < next
}

/// Whether `m` can become the recording id of the existing track `t`:
/// it is not empty and no other track holds it.
pub open spec fn can_link(tracks: Seq<TrackRow>, t: Seq<char>, m: Seq<char>) -> bool {
    &&& m.len() > 0
    &&& has_track(tracks, TrackField::Id, t)
    &&& forall|j: int|
        0 <= j < tracks.len() && #[trigger] holds_key(track_key(tracks[j], TrackField::Mbid), m) ==> holds_key(
            track_key(tracks[j], TrackField::Id),
            t,
        )
}

/// `new` is `old` after the link job `job` closed with recording id `m`:
/// the track is linked with `m`, the job is done, and the features job is
/// enqueued unless the track already has its features.
pub open spec fn link_finished(old: Persistent, new: Persistent, job: Job, m: Seq<char>, now: i64) -> bool {
    exists|i: int, ms: String|
        {
            &&& 0 <= i < old.tracks@.len()
            &&& holds_key(track_key(old.tracks@[i], TrackField::Id), job.track_id@)
            &&& ms@ == m
            &&& new.tracks@ == old.tracks@.update(i, #[trigger] linked_row(old.tracks@[i], ms, now))
            &&& new.raw_files@ == old.raw_files@
            &&& new.features@ == old.features@
            &&& if old.tracks@[i].features_ok {
                new.jobs@ == finish_jobs(old.jobs@, job.job_id, JobStatus::Done, None, now) && new.next_job_id
                    == old.next_job_id
            } else {
                exists|r2: Result<(), CrawlerError>|
                    enqueue_outcome(
                        finish_jobs(old.jobs@, job.job_id, JobStatus::Done, None, now),
                        old.next_job_id,
                        job.track_id@,
                        JobType::Features,
                        now,
                        r2,
                        new.jobs@,
                        new.next_job_id,
                    )
            }
        }
}

/// For the track with internal id `id`, `new` is `old` with its link job
/// enqueued unless it is linked; `r` is `Ok(id)` unless that enqueue failed.
pub open spec fn link_job_ensured(old: Persistent, new: Persistent, id: String, now: i64, r: Result<String, CrawlerError>) -> bool {
    exists|k: int|
        {
            &&& 0 <= k < new.tracks@.len()
            &&& #[trigger] holds_key(track_key(new.tracks@[k], TrackField::Id), id@)
            &&& if new.tracks@[k].linked_ok {
                r == Ok::<String, CrawlerError>(id) && new.jobs@ == old.jobs@ && new.next_job_id == old.next_job_id
            } else {
                exists|r2: Result<(), CrawlerError>|
                    {
                        &&& enqueue_outcome(old.jobs@, old.next_job_id, id@, JobType::Link, now, r2, new.jobs@, new.next_job_id)
                        &&& r2 is Ok ==> r == Ok::<String, CrawlerError>(id)
                        &&& r2 is Err ==> (r matches Err(CrawlerError::Db(_)))
                    }
            }
        }
}

/// What ensuring `t` returns and the store it leaves: the upsert, then the
/// link job of an unlinked track; the other tables are left alone.
pub open spec fn ensure_outcome(old: Persistent, t: SpotifyTrack, now: i64, r: Result<String, CrawlerError>, new: Persistent) -> bool {
    &&& new.raw_files@ == old.raw_files@
    &&& new.features@ == old.features@
    &&& exists|fresh: String, u: Result<(String, bool), CrawlerError>|
        {
            &&& upsert_outcome(old.tracks@, t, fresh, now, u, new.tracks@)
            &&& match u {
                Err(e) => r == Err::<String, CrawlerError>(e) && new.jobs@ == old.jobs@ && new.next_job_id
                    == old.next_job_id,
                Ok(p) => link_job_ensured(old, new, p.0, now, r),
            }
        }
}

/// `new` is the raw-file index `old` after an insert-or-ignore of the row
/// (`t`, `s`, `st`, `k`, `p`): unchanged when the triple is indexed,
/// else that row appended.
pub open spec fn raw_indexed(
    old: Seq<RawFileRow>,
    new: Seq<RawFileRow>,
    t: Seq<char>,
    s: Seq<char>,
    st: Seq<char>,
    k: Seq<char>,
    p: Seq<char>,
    now: i64,
) -> bool {
    if has_raw(old, s, st, k) {
        new == old
    } else {
        &&& new.len() == old.len() + 1
        &&& new.drop_last() == old
        &&& new.last().track_id@ == t
        &&& raw_has_key(new.last(), s, st, k)
        &&& new.last().rel_path@ == p
        &&& new.last().created_at == now
    }
}

impl Persistent {
    /// The invariants of the store.
    pub open spec fn wf(&self) -> bool {
        &&& job_pairs_unique(self.jobs@)
        &&& job_ids_fresh(self.jobs@, self.next_job_id)
        &&& self.next_job_id >= 1
        &&& tracks_wf(self.tracks@)
        &&& raw_keys_unique(self.raw_files@)
        &&& feature_keys_unique(self.features@)
    }

    /// The tables other than the jobs table are as in `other`.
    pub open spec fn same_except_jobs(&self, other: &Persistent) -> bool {
        &&& self.tracks@ == other.tracks@
        &&& self.raw_files@ == other.raw_files@
        &&& self.features@ == other.features@
    }

    /// An empty store.
    pub fn new() -> (r: Persistent)
        ensures
            r.wf(),
            r.tracks@.len() == 0,
            r.jobs@.len() == 0,
            r.raw_files@.len() == 0,
            r.features@.len() == 0,
    {
        Persistent {
            tracks: Vec::new(),
            jobs: Vec::new(),
            raw_files: Vec::new(),
            features: Vec::new(),
            next_job_id: 1,
        }
    }

    /// The index of the job row of the pair (`track_id`, `kind`), if any.
    fn find_job(&self, track_id: &str, kind: JobType) -> (r: Option<usize>)
        ensures
            match r {
                Some(i) => i < self.jobs@.len() && job_has_key(self.jobs@[i as int], track_id@, kind),
                None => !has_job(self.jobs@, track_id@, kind),
            },
    {
        let mut i: usize = 0;
        while i < self.jobs.len()
            invariant
                i <= self.jobs@.len(),
                forall|j: int| 0 <= j < i ==> !#[trigger] job_has_key(self.jobs@[j], track_id@, kind),
            decreases self.jobs@.len() - i,
        {
            if self.jobs[i].kind == kind && str_eq(self.jobs[i].track_id.as_str(), track_id) {
                return Some(i);
            }
            i = i + 1;
        }
        None
    }

    /// Inserts a pending job for the pair unless one exists, whatever its
    /// status. Fails only when the job identifier space is exhausted.
    pub fn enqueue_job_if_missing(&mut self, track_id: &str, kind: JobType, now: i64) -> (r: Result<(), CrawlerError>)
        requires
            old(self).wf(),
        ensures
            final(self).wf(),
            final(self).same_except_jobs(old(self)),
            enqueue_outcome(
                old(self).jobs@,
                old(self).next_job_id,
                track_id@,
                kind,
                now,
                r,
                final(self).jobs@,
                final(self).next_job_id,
            ),
            r is Err ==> (r matches Err(CrawlerError::Db(_))),
            has_job(final(self).jobs@, track_id@, kind) || r is Err,
    {
        match self.find_job(track_id, kind) {
            Some(i) => {
                assert(job_has_key(self.jobs@[i as int], track_id@, kind));
                Ok(())
            },
            None => {
                if self.next_job_id == i64::MAX {
                    return Err(CrawlerError::Db(owned("job id space exhausted")));
                }
                let row = JobRow {
                    job_id: self.next_job_id,
                    track_id: owned(track_id),
                    kind,
                    status: JobStatus::Pending,
                    attempt: 0,
                    last_error: None,
                    created_at: now,
                    updated_at: now,
                };
                let ghost old_jobs = self.jobs@;
                self.jobs.push(row);
                self.next_job_id = self.next_job_id + 1;
                assert(self.jobs@.drop_last() =~= old_jobs);
                proof {
                    let jobs = self.jobs@;
                    let n = old_jobs.len() as int;
                    assert forall|a: int, b: int|
                        0 <= a < jobs.len() && 0 <= b < jobs.len() && a != b implies !job_has_key(
                            #[trigger] jobs[a],
                            jobs[b].track_id@,
                            #[trigger] jobs[b].kind,
                        ) by {
                        if a == n {
                            if job_has_key(jobs[a], jobs[b].track_id@, jobs[b].kind) {
                                assert(job_has_key(old_jobs[b], track_id@, kind));
                            }
                        } else if b == n {
                            if job_has_key(jobs[a], jobs[b].track_id@, jobs[b].kind) {
                                assert(job_has_key(old_jobs[a], track_id@, kind));
                            }
                        } else {
                            assert(jobs[a] == old_jobs[a] && jobs[b] == old_jobs[b]);
                        }
                    }
                }
                assert(job_has_key(self.jobs@[old_jobs.len() as int], track_id@, kind));
                Ok(())
            },
        }
    }

    /// Index of the oldest pending job of kind `kind`, if any.
    fn find_oldest_claimable(&self, kind: JobType) -> (r: Option<usize>)
        ensures
            match r {
                Some(i) => is_oldest_claimable(self.jobs@, kind, i as int),
                None => !has_claimable(self.jobs@, kind),
            },
    {
        let mut best: Option<usize> = None;
        let mut i: usize = 0;
        while i < self.jobs.len()
            invariant
                i <= self.jobs@.len(),
                match best {
                    Some(b) => b < i && claimable(self.jobs@[b as int], kind) && forall|j: int|
                        0 <= j < i && #[trigger] claimable(self.jobs@[j], kind) ==> claims_before(
                            self.jobs@[b as int],
                            self.jobs@[j],
                        ),
                    None => forall|j: int| 0 <= j < i ==> !#[trigger] claimable(self.jobs@[j], kind),
                },
            decreases self.jobs@.len() - i,
        {
            if self.jobs[i].kind == kind && self.jobs[i].status == JobStatus::Pending {
                match best {
                    None => {
                        best = Some(i);
                    },
                    Some(b) => {
                        let rb = &self.jobs[b];
                        let ri = &self.jobs[i];
                        if ri.created_at < rb.created_at || (ri.created_at == rb.created_at
                            && ri.job_id < rb.job_id) {
                            best = Some(i);
                        }
                    },
                }
            }
            i = i + 1;
        }
        best
    }

    /// Takes the oldest pending job of kind `kind` (by creation time, then
    /// identifier), marks it active, counts the attempt and stamps it. The
    /// whole step is one atomic transition: on any error nothing changes.
    pub fn claim_one_job(&mut self, kind: JobType, now: i64) -> (r: Result<Option<Job>, CrawlerError>)
        requires
            old(self).wf(),
        ensures
            final(self).wf(),
            final(self).same_except_jobs(old(self)),
            final(self).next_job_id == old(self).next_job_id,
            !has_claimable(old(self).jobs@, kind) <==> r == Ok::<Option<Job>, CrawlerError>(None),
            r is Err || r == Ok::<Option<Job>, CrawlerError>(None) ==> final(self).jobs@ == old(self).jobs@,
            r is Err <==> exists|i: int|
                is_oldest_claimable(old(self).jobs@, kind, i) && old(self).jobs@[i].attempt == i64::MAX,
            r is Err ==> r matches Err(CrawlerError::Db(_)),
            r matches Ok(Some(job)) ==> exists|i: int|
                {
                    &&& is_oldest_claimable(old(self).jobs@, kind, i)
                    &&& final(self).jobs@ == old(self).jobs@.update(i, claimed_row(old(self).jobs@[i], now))
                    &&& job.job_id == old(self).jobs@[i].job_id
                    &&& job.track_id == old(self).jobs@[i].track_id
                    &&& job.kind == kind
                    &&& job.attempt == old(self).jobs@[i].attempt + 1
                },
    {
        match self.find_oldest_claimable(kind) {
            None => Ok(None),
            Some(i) => {
                let row = &self.jobs[i];
                if row.attempt == i64::MAX {
                    proof {
                        assert forall|j: int| is_oldest_claimable(self.jobs@, kind, j) implies j == i by {
                            assert(claims_before(self.jobs@[i as int], self.jobs@[j]));
                            assert(claims_before(self.jobs@[j], self.jobs@[i as int]));
                        }
                    }
                    return Err(CrawlerError::Db(owned("attempt counter overflow")));
                }
                let claimed = JobRow {
                    job_id: row.job_id,
                    track_id: row.track_id.clone(),
                    kind: row.kind,
                    status: JobStatus::Active,
                    attempt: row.attempt + 1,
                    last_error: clone_opt(&row.last_error),
                    created_at: row.created_at,
                    updated_at: now,
                };
                let job = Job {
                    job_id: row.job_id,
                    track_id: row.track_id.clone(),
                    kind,
                    attempt: row.attempt + 1,
                };
                let ghost old_jobs = self.jobs@;
                proof {
                    assert forall|j: int| is_oldest_claimable(old_jobs, kind, j) implies j == i by {
                        assert(claims_before(old_jobs[i as int], old_jobs[j]));
                        assert(claims_before(old_jobs[j], old_jobs[i as int]));
                    }
                }
                self.jobs.set(i, claimed);
                assert(self.jobs@ =~= old_jobs.update(i as int, claimed_row(old_jobs[i as int], now)));
                Ok(Some(job))
            },
        }
    }

    /// Index of the job with identifier `job_id`, if any.
    fn find_job_by_id(&self, job_id: i64) -> (r: Option<usize>)
        requires
            self.wf(),
        ensures
            match r {
                Some(i) => i < self.jobs@.len() && self.jobs@[i as int].job_id == job_id,
                None => forall|j: int| 0 <= j < self.jobs@.len() ==> #[trigger] self.jobs@[j].job_id != job_id,
            },
    {
        let mut i: usize = 0;
        while i < self.jobs.len()
            invariant
                i <= self.jobs@.len(),
                forall|j: int| 0 <= j < i ==> #[trigger] self.jobs@[j].job_id != job_id,
            decreases self.jobs@.len() - i,
        {
            if self.jobs[i].job_id == job_id {
                return Some(i);
            }
            i = i + 1;
        }
        None
    }

    /// Sets the terminal status of job `job_id`; no job with that identifier
    /// leaves the store as it is.
    fn finish_job(&mut self, job_id: i64, st: JobStatus, err: Option<String>, now: i64)
        requires
            old(self).wf(),
        ensures
            final(self).wf(),
            final(self).same_except_jobs(old(self)),
            final(self).next_job_id == old(self).next_job_id,
            final(self).jobs@ == finish_jobs(old(self).jobs@, job_id, st, err, now),
    {
        let ghost old_jobs = self.jobs@;
        match self.find_job_by_id(job_id) {
            None => {
                assert(self.jobs@ =~= finish_jobs(old_jobs, job_id, st, err, now));
            },
            Some(i) => {
                let row = &self.jobs[i];
                let done = JobRow {
                    job_id: row.job_id,
                    track_id: row.track_id.clone(),
                    kind: row.kind,
                    status: st,
                    attempt: row.attempt,
                    last_error: err,
                    created_at: row.created_at,
                    updated_at: now,
                };
                self.jobs.set(i, done);
                assert(self.jobs@ =~= finish_jobs(old_jobs, job_id, st, err, now)) by {
                    assert forall|j: int| 0 <= j < old_jobs.len() && j != i implies old_jobs[j].job_id
                        != job_id by {
                        assert(old_jobs[j].job_id != old_jobs[i as int].job_id);
                    }
                }
                proof {
                    let jobs = self.jobs@;
                    assert forall|a: int, b: int|
                        0 <= a < jobs.len() && 0 <= b < jobs.len() && a != b implies !job_has_key(
                            #[trigger] jobs[a],
                            jobs[b].track_id@,
                            #[trigger] jobs[b].kind,
                        ) by {
                        assert(!job_has_key(old_jobs[a], old_jobs[b].track_id@, old_jobs[b].kind));
                    }
                    assert forall|a: int, b: int|
                        0 <= a < jobs.len() && 0 <= b < jobs.len() && a != b implies #[trigger] jobs[a].job_id
                            != #[trigger] jobs[b].job_id by {
                        assert(old_jobs[a].job_id != old_jobs[b].job_id);
                    }
                }
            },
        }
    }

    /// Marks job `job_id` done and clears its last error.
    pub fn complete_job(&mut self, job_id: i64, now: i64)
        requires
            old(self).wf(),
        ensures
            final(self).wf(),
            final(self).same_except_jobs(old(self)),
            final(self).next_job_id == old(self).next_job_id,
            final(self).jobs@ == finish_jobs(old(self).jobs@, job_id, JobStatus::Done, None, now),
    {
        self.finish_job(job_id, JobStatus::Done, None, now);
    }

    /// Marks job `job_id` failed and records `err` as its last error.
    pub fn fail_job(&mut self, job_id: i64, err: &str, now: i64)
        requires
            old(self).wf(),
        ensures
            final(self).wf(),
            final(self).same_except_jobs(old(self)),
            final(self).next_job_id == old(self).next_job_id,
            exists|e: String|
                e@ == err@ && final(self).jobs@ == finish_jobs(
                    old(self).jobs@,
                    job_id,
                    JobStatus::Failed,
                    Some(e),
                    now,
                ),
    {
        let e = owned(err);
        let ghost ge = e;
        self.finish_job(job_id, JobStatus::Failed, Some(e), now);
        assert(ge@ == err@);
    }

    /// The number of jobs of kind `kind` whose status is `status`.
    pub fn count_jobs(&self, kind: JobType, status: JobStatus) -> (r: usize)
        ensures
            r == count_of(self.jobs@, kind, status),
    {
        let mut n: usize = 0;
        let mut i: usize = 0;
        while i < self.jobs.len()
            invariant
                i <= self.jobs@.len(),
                n == count_of(self.jobs@.subrange(0, i as int), kind, status),
                n <= i,
            decreases self.jobs@.len() - i,
        {
            assert(self.jobs@.subrange(0, i + 1).drop_last() =~= self.jobs@.subrange(0, i as int));
            if self.jobs[i].kind == kind && self.jobs[i].status == status {
                n = n + 1;
            }
            i = i + 1;
        }
        assert(self.jobs@.subrange(0, i as int) =~= self.jobs@);
        n
    }

    /// Index of the track whose field `f` reads `key`, if any.
    fn find_track(&self, f: TrackField, key: &str) -> (r: Option<usize>)
        ensures
            match r {
                Some(i) => i < self.tracks@.len() && holds_key(track_key(self.tracks@[i as int], f), key@),
                None => !has_track(self.tracks@, f, key@),
            },
    {
        let mut i: usize = 0;
        while i < self.tracks.len()
            invariant
                i <= self.tracks@.len(),
                forall|j: int| 0 <= j < i ==> !#[trigger] holds_key(track_key(self.tracks@[j], f), key@),
            decreases self.tracks@.len() - i,
        {
            let row = &self.tracks[i];
            let v: Option<&String> = match f {
                TrackField::Id => Some(&row.id),
                TrackField::Spotify => row.spotify_id.as_ref(),
                TrackField::Isrc => row.isrc.as_ref(),
                TrackField::Mbid => row.mb_recording_id.as_ref(),
            };
            match v {
                Some(s) => {
                    if str_eq(s.as_str(), key) {
                        return Some(i);
                    }
                },
                None => {},
            }
            i = i + 1;
        }
        None
    }

    /// The internal id of the track with catalog id `spotify_id`, if any.
    pub fn get_track_id(&self, spotify_id: &str) -> (r: Option<String>)
        ensures
            r is None <==> !has_track(self.tracks@, TrackField::Spotify, spotify_id@),
            r matches Some(id) ==> exists|i: int|
                0 <= i < self.tracks@.len() && holds_key(self.tracks@[i].spotify_id, spotify_id@)
                    && self.tracks@[i].id == id,
    {
        match self.find_track(TrackField::Spotify, spotify_id) {
            Some(i) => Some(self.tracks[i].id.clone()),
            None => None,
        }
    }

    /// Inserts or merges `t`, keyed by its catalog id, using `fresh_id` as
    /// the internal id of a new row. Returns the row's internal id and
    /// whether it was inserted.
    pub fn upsert_track_with_id(&mut self, t: SpotifyTrack, fresh_id: String, now: i64) -> (r: Result<(String, bool), CrawlerError>)
        requires
            old(self).wf(),
        ensures
            final(self).wf(),
            final(self).jobs@ == old(self).jobs@,
            final(self).next_job_id == old(self).next_job_id,
            final(self).raw_files@ == old(self).raw_files@,
            final(self).features@ == old(self).features@,
            upsert_outcome(old(self).tracks@, t, fresh_id, now, r, final(self).tracks@),
    {
        let sid: &String = match &t.spotify_id {
            Some(s) => s,
            None => {
                return Err(CrawlerError::Db(owned("missing spotify_id")));
            },
        };
        let ghost old_tracks = self.tracks@;
        match self.find_track(TrackField::Spotify, sid.as_str()) {
            Some(i) => {
                let fill = match &t.isrc {
                    Some(c) => self.tracks[i].isrc.is_none() && self.find_track(TrackField::Isrc, c.as_str()).is_none(),
                    None => false,
                };
                let row = &self.tracks[i];
                let id = row.id.clone();
                let merged = TrackRow {
                    id: row.id.clone(),
                    spotify_id: clone_opt(&row.spotify_id),
                    isrc: if fill {
                        t.isrc
                    } else {
                        clone_opt(&row.isrc)
                    },
                    mb_recording_id: clone_opt(&row.mb_recording_id),
                    title: Some(t.title),
                    artist_all: t.artist_all,
                    album: if t.album.is_some() {
                        t.album
                    } else {
                        clone_opt(&row.album)
                    },
                    duration_ms: if t.duration_ms.is_some() {
                        t.duration_ms
                    } else {
                        row.duration_ms
                    },
                    release_date: if t.release_date.is_some() {
                        t.release_date
                    } else {
                        clone_opt(&row.release_date)
                    },
                    explicit: if t.explicit.is_some() {
                        t.explicit
                    } else {
                        row.explicit
                    },
                    popularity: if t.popularity.is_some() {
                        t.popularity
                    } else {
                        row.popularity
                    },
                    linked_ok: row.linked_ok,
                    features_ok: row.features_ok,
                    created_at: row.created_at,
                    updated_at: if now > row.updated_at {
                        now
                    } else {
                        row.updated_at
                    },
                };
                self.tracks.set(i, merged);
                proof {
                    let ts = self.tracks@;
                    assert(ts == tracks_after_merge(old_tracks, i as int, t, now));
                    assert forall|a: int, b: int, f: TrackField|
                        0 <= a < ts.len() && 0 <= b < ts.len() && a != b implies !clash(
                            #[trigger] track_key(ts[a], f),
                            #[trigger] track_key(ts[b], f),
                        ) by {
                        assert(!clash(track_key(old_tracks[a], f), track_key(old_tracks[b], f)));
                        if fill && f == TrackField::Isrc {
                            if a == i && clash(track_key(ts[a], f), track_key(ts[b], f)) {
                                assert(holds_key(track_key(old_tracks[b], f), t.isrc->Some_0@));
                            }
                            if b == i && clash(track_key(ts[a], f), track_key(ts[b], f)) {
                                assert(holds_key(track_key(old_tracks[a], f), t.isrc->Some_0@));
                            }
                        }
                    }
                    assert forall|a: int| 0 <= a < ts.len() implies progress_ok(#[trigger] ts[a]) by {
                        if a < old_tracks.len() {
                            assert(progress_ok(old_tracks[a]));
                        }
                    }
                }
                Ok((id, false))
            },
            None => {
                if self.find_track(TrackField::Id, fresh_id.as_str()).is_some() {
                    return Err(CrawlerError::Db(owned("track id already present")));
                }
                match &t.isrc {
                    Some(c) => {
                        if self.find_track(TrackField::Isrc, c.as_str()).is_some() {
                            return Err(CrawlerError::Db(owned("isrc already present")));
                        }
                    },
                    None => {},
                }
                let ghost gt = t;
                let row = TrackRow {
                    id: fresh_id.clone(),
                    spotify_id: t.spotify_id,
                    isrc: t.isrc,
                    mb_recording_id: None,
                    title: Some(t.title),
                    artist_all: t.artist_all,
                    album: t.album,
                    duration_ms: t.duration_ms,
                    release_date: t.release_date,
                    explicit: t.explicit,
                    popularity: t.popularity,
                    linked_ok: false,
                    features_ok: false,
                    created_at: now,
                    updated_at: now,
                };
                self.tracks.push(row);
                proof {
                    let ts = self.tracks@;
                    let n = old_tracks.len() as int;
                    assert(ts == old_tracks.push(new_track_row(gt, fresh_id, now)));
                    assert forall|a: int, b: int, f: TrackField|
                        0 <= a < ts.len() && 0 <= b < ts.len() && a != b implies !clash(
                            #[trigger] track_key(ts[a], f),
                            #[trigger] track_key(ts[b], f),
                        ) by {
                        if a == n && clash(track_key(ts[a], f), track_key(ts[b], f)) {
                            assert(holds_key(track_key(old_tracks[b], f), track_key(ts[a], f)->Some_0@));
                        } else if b == n && clash(track_key(ts[a], f), track_key(ts[b], f)) {
                            assert(holds_key(track_key(old_tracks[a], f), track_key(ts[b], f)->Some_0@));
                        } else if a != n && b != n {
                            assert(!clash(track_key(old_tracks[a], f), track_key(old_tracks[b], f)));
                        }
                    }
                    assert forall|a: int| 0 <= a < ts.len() implies progress_ok(#[trigger] ts[a]) by {
                        if a < old_tracks.len() {
                            assert(progress_ok(old_tracks[a]));
                        }
                    }
                }
                Ok((fresh_id, true))
            },
        }
    }

    /// Inserts or merges `t`, keyed by its catalog id; a new row gets a
    /// freshly drawn internal id.
    pub fn upsert_track(&mut self, t: SpotifyTrack, now: i64) -> (r: Result<(String, bool), CrawlerError>)
        requires
            old(self).wf(),
        ensures
            final(self).wf(),
            final(self).jobs@ == old(self).jobs@,
            final(self).next_job_id == old(self).next_job_id,
            final(self).raw_files@ == old(self).raw_files@,
            final(self).features@ == old(self).features@,
            exists|fresh: String| upsert_outcome(old(self).tracks@, t, fresh, now, r, final(self).tracks@),
    {
        let fresh = new_track_id();
        self.upsert_track_with_id(t, fresh, now)
    }

    /// Keeps the flag and id invariants across an in-place change of row
    /// `i` that leaves its identifying fields and flags consistent.
    proof fn lemma_tracks_update(tracks: Seq<TrackRow>, i: int, r: TrackRow)
        requires
            tracks_wf(tracks),
            0 <= i < tracks.len(),
            progress_ok(r),
            r.id == tracks[i].id,
            r.spotify_id == tracks[i].spotify_id,
            r.isrc == tracks[i].isrc,
            r.mb_recording_id == tracks[i].mb_recording_id || (r.mb_recording_id matches Some(m)
                && forall|j: int| 0 <= j < tracks.len() && j != i ==> !#[trigger] holds_key(track_key(tracks[j], TrackField::Mbid), m@)),
        ensures
            tracks_wf(tracks.update(i, r)),
    {
        let ts = tracks.update(i, r);
        assert forall|a: int, b: int, f: TrackField|
            0 <= a < ts.len() && 0 <= b < ts.len() && a != b implies !clash(
                #[trigger] track_key(ts[a], f),
                #[trigger] track_key(ts[b], f),
            ) by {
            assert(!clash(track_key(tracks[a], f), track_key(tracks[b], f)));
            if f == TrackField::Mbid && clash(track_key(ts[a], f), track_key(ts[b], f)) {
                if a == i {
                    assert(holds_key(track_key(tracks[b], TrackField::Mbid), r.mb_recording_id->Some_0@));
                }
                if b == i {
                    assert(holds_key(track_key(tracks[a], TrackField::Mbid), r.mb_recording_id->Some_0@));
                }
            }
        }
        assert forall|a: int| 0 <= a < ts.len() implies progress_ok(#[trigger] ts[a]) by {
            assert(progress_ok(tracks[a]));
        }
    }

    /// Records the recording id `mbid` of track `track_id` and marks it
    /// linked. An unknown track leaves the store as it is; an empty id, or
    /// one that another track holds, is refused.
    pub fn set_mbid(&mut self, track_id: &str, mbid: &str, now: i64) -> (r: Result<(), CrawlerError>)
        requires
            old(self).wf(),
        ensures
            final(self).wf(),
            final(self).jobs@ == old(self).jobs@,
            final(self).next_job_id == old(self).next_job_id,
            final(self).raw_files@ == old(self).raw_files@,
            final(self).features@ == old(self).features@,
            r is Err ==> final(self).tracks@ == old(self).tracks@ && (r matches Err(CrawlerError::Db(_))),
            mbid@.len() == 0 ==> r is Err,
            !has_track(old(self).tracks@, TrackField::Id, track_id@) && mbid@.len() > 0 ==> r is Ok
                && final(self).tracks@ == old(self).tracks@,
            forall|i: int|
                0 <= i < old(self).tracks@.len() && #[trigger] holds_key(
                    track_key(old(self).tracks@[i], TrackField::Id),
                    track_id@,
                ) && mbid@.len() > 0 ==> {
                    if exists|j: int|
                        0 <= j < old(self).tracks@.len() && j != i && #[trigger] holds_key(
                            track_key(old(self).tracks@[j], TrackField::Mbid),
                            mbid@,
                        ) {
                        r is Err
                    } else {
                        r is Ok && exists|m: String|
                            m@ == mbid@ && final(self).tracks@ == old(self).tracks@.update(
                                i,
                                linked_row(old(self).tracks@[i], m, now),
                            )
                    }
                },
    {
        if mbid.unicode_len() == 0 {
            return Err(CrawlerError::Db(owned("empty recording id")));
        }
        let i = match self.find_track(TrackField::Id, track_id) {
            None => {
                return Ok(());
            },
            Some(i) => i,
        };
        proof {
            assert forall|k: int|
                0 <= k < self.tracks@.len() && holds_key(track_key(self.tracks@[k], TrackField::Id), track_id@) implies k
                == i by {
                if k != i {
                    assert(!clash(
                        track_key(self.tracks@[k], TrackField::Id),
                        track_key(self.tracks@[i as int], TrackField::Id),
                    ));
                }
            }
        }
        let holder = self.find_track(TrackField::Mbid, mbid);
        match holder {
            Some(j) => {
                if j != i {
                    assert(holds_key(track_key(self.tracks@[j as int], TrackField::Mbid), mbid@));
                    return Err(CrawlerError::Db(owned("recording id already present")));
                }
            },
            None => {},
        }
        proof {
            assert forall|j: int|
                0 <= j < self.tracks@.len() && j != i implies !#[trigger] holds_key(
                track_key(self.tracks@[j], TrackField::Mbid),
                mbid@,
            ) by {
                if holds_key(track_key(self.tracks@[j], TrackField::Mbid), mbid@) && holder is Some {
                    assert(!clash(
                        track_key(self.tracks@[j], TrackField::Mbid),
                        track_key(self.tracks@[i as int], TrackField::Mbid),
                    ));
                }
            }
        }
        let ghost old_tracks = self.tracks@;
        let m = owned(mbid);
        let ghost gm = m;
        self.tracks[i].mb_recording_id = Some(m);
        self.tracks[i].linked_ok = true;
        self.tracks[i].updated_at = if now > self.tracks[i].updated_at {
            now
        } else {
            self.tracks[i].updated_at
        };
        proof {
            assert(self.tracks@ == old_tracks.update(i as int, linked_row(old_tracks[i as int], gm, now)));
            Self::lemma_tracks_update(old_tracks, i as int, linked_row(old_tracks[i as int], gm, now));
        }
        Ok(())
    }

    /// At most one track carries a given value in an identifying field.
    proof fn lemma_key_unique(tracks: Seq<TrackRow>, f: TrackField, k: Seq<char>, i: int)
        requires
            tracks_wf(tracks),
            0 <= i < tracks.len(),
            holds_key(track_key(tracks[i], f), k),
        ensures
            forall|j: int| 0 <= j < tracks.len() && #[trigger] holds_key(track_key(tracks[j], f), k) ==> j == i,
    {
        assert forall|j: int| 0 <= j < tracks.len() && #[trigger] holds_key(track_key(tracks[j], f), k) implies j
            == i by {
            if j != i {
                assert(!clash(track_key(tracks[j], f), track_key(tracks[i], f)));
            }
        }
    }

    /// Marks track `track_id` as having its features stored. An unknown
    /// track leaves the store as it is; a track that is not linked yet is
    /// refused.
    pub fn mark_features_ok(&mut self, track_id: &str, now: i64) -> (r: Result<(), CrawlerError>)
        requires
            old(self).wf(),
        ensures
            final(self).wf(),
            final(self).jobs@ == old(self).jobs@,
            final(self).next_job_id == old(self).next_job_id,
            final(self).raw_files@ == old(self).raw_files@,
            final(self).features@ == old(self).features@,
            r is Err ==> final(self).tracks@ == old(self).tracks@ && (r matches Err(CrawlerError::Db(_))),
            !has_track(old(self).tracks@, TrackField::Id, track_id@) ==> r is Ok && final(self).tracks@
                == old(self).tracks@,
            forall|i: int|
                0 <= i < old(self).tracks@.len() && #[trigger] holds_key(
                    track_key(old(self).tracks@[i], TrackField::Id),
                    track_id@,
                ) ==> if old(self).tracks@[i].linked_ok {
                    r is Ok && final(self).tracks@ == old(self).tracks@.update(
                        i,
                        features_done_row(old(self).tracks@[i], now),
                    )
                } else {
                    r is Err
                },
    {
        let i = match self.find_track(TrackField::Id, track_id) {
            None => {
                return Ok(());
            },
            Some(i) => i,
        };
        proof {
            Self::lemma_key_unique(self.tracks@, TrackField::Id, track_id@, i as int);
        }
        if !self.tracks[i].linked_ok {
            return Err(CrawlerError::Db(owned("track not linked")));
        }
        let ghost old_tracks = self.tracks@;
        self.tracks[i].features_ok = true;
        self.tracks[i].updated_at = if now > self.tracks[i].updated_at {
            now
        } else {
            self.tracks[i].updated_at
        };
        proof {
            assert(self.tracks@ == old_tracks.update(i as int, features_done_row(old_tracks[i as int], now)));
            Self::lemma_tracks_update(old_tracks, i as int, features_done_row(old_tracks[i as int], now));
        }
        Ok(())
    }

    /// The stored metadata of track `track_id`, if it exists.
    pub fn get_track_metadata(&self, track_id: &str) -> (r: Option<Track>)
        requires
            self.wf(),
        ensures
            r is None <==> !has_track(self.tracks@, TrackField::Id, track_id@),
            r matches Some(tr) ==> forall|i: int|
                0 <= i < self.tracks@.len() && #[trigger] holds_key(
                    track_key(self.tracks@[i], TrackField::Id),
                    track_id@,
                ) ==> metadata_of(tr, self.tracks@[i]),
    {
        match self.find_track(TrackField::Id, track_id) {
            None => None,
            Some(i) => {
                proof {
                    Self::lemma_key_unique(self.tracks@, TrackField::Id, track_id@, i as int);
                }
                let row = &self.tracks[i];
                Some(
                    Track {
                        id: row.id.clone(),
                        title: clone_opt(&row.title),
                        spotify_id: clone_opt(&row.spotify_id),
                        artist_all: clone_strings(&row.artist_all),
                        isrc: clone_opt(&row.isrc),
                        mb_recording_id: clone_opt(&row.mb_recording_id),
                        linked_ok: row.linked_ok,
                        features_ok: row.features_ok,
                        updated_at: row.updated_at,
                    },
                )
            },
        }
    }

    /// Upserts `t`, then enqueues its link job unless it is linked already.
    /// Returns the internal id.
    pub fn ensure_track(&mut self, t: SpotifyTrack, now: i64) -> (r: Result<String, CrawlerError>)
        requires
            old(self).wf(),
        ensures
            final(self).wf(),
            final(self).raw_files@ == old(self).raw_files@,
            final(self).features@ == old(self).features@,
            t.spotify_id is None ==> r is Err && final(self).tracks@ == old(self).tracks@
                && final(self).jobs@ == old(self).jobs@,
            keeps_track_keys(old(self).tracks@, final(self).tracks@),
            ensure_outcome(*old(self), t, now, r, *final(self)),
            r matches Ok(id) ==> exists|i: int|
                {
                    &&& 0 <= i < final(self).tracks@.len()
                    &&& final(self).tracks@[i].id == id
                    &&& holds_key(final(self).tracks@[i].spotify_id, t.spotify_id->Some_0@)
                    &&& !final(self).tracks@[i].linked_ok ==> has_job(final(self).jobs@, id@, JobType::Link)
                    &&& final(self).tracks@[i].linked_ok ==> final(self).jobs@ == old(self).jobs@
                },
    {
        let ghost gt = t;
        let ghost old_tracks = self.tracks@;
        let ghost old_store = *self;
        let res = self.upsert_track(t, now);
        proof {
            let fresh = choose|fresh: String| upsert_outcome(old_tracks, gt, fresh, now, res, self.tracks@);
            if res is Ok {
                let sid = gt.spotify_id->Some_0;
                if has_track(old_tracks, TrackField::Spotify, sid@) {
                    let i = choose|i: int|
                        0 <= i < old_tracks.len() && holds_key(old_tracks[i].spotify_id, sid@) && res == Ok::<
                            (String, bool),
                            CrawlerError,
                        >((old_tracks[i].id, false)) && self.tracks@ == tracks_after_merge(old_tracks, i, gt, now);
                    assert(keeps_track_keys(old_tracks, self.tracks@));
                } else {
                    assert(keeps_track_keys(old_tracks, self.tracks@));
                }
            }
        }
        let ghost after_upsert = self.tracks@;
        let id = match res {
            Ok(p) => p.0,
            Err(e) => {
                proof {
                    let fresh = choose|fresh: String| upsert_outcome(old_tracks, gt, fresh, now, res, self.tracks@);
                    assert(upsert_outcome(old_tracks, gt, fresh, now, res, self.tracks@));
                    assert(ensure_outcome(old_store, gt, now, Err(e), *self));
                }
                return Err(e);
            },
        };
        proof {
            let fresh = choose|fresh: String| upsert_outcome(old_tracks, gt, fresh, now, res, after_upsert);
            assert(upsert_outcome(old_tracks, gt, fresh, now, res, after_upsert));
        }
        let ghost k: int;
        proof {
            let fresh = choose|fresh: String| upsert_outcome(old_tracks, gt, fresh, now, res, self.tracks@);
            let sid = gt.spotify_id->Some_0;
            if has_track(old_tracks, TrackField::Spotify, sid@) {
                let i = choose|i: int|
                    0 <= i < old_tracks.len() && holds_key(old_tracks[i].spotify_id, sid@) && res == Ok::<
                        (String, bool),
                        CrawlerError,
                    >((old_tracks[i].id, false)) && self.tracks@ == tracks_after_merge(old_tracks, i, gt, now);
                k = i;
            } else {
                k = old_tracks.len() as int;
            }
            assert(self.tracks@[k].id == id);
            assert(holds_key(track_key(self.tracks@[k], TrackField::Id), id@));
            Self::lemma_key_unique(self.tracks@, TrackField::Id, id@, k);
        }
        let j = match self.find_track(TrackField::Id, id.as_str()) {
            Some(j) => j,
            None => {
                assert(holds_key(track_key(self.tracks@[k], TrackField::Id), id@));
                return Ok(id);
            },
        };
        assert(j == k);
        let ghost mid = *self;
        proof {
            let fresh = choose|fresh: String| upsert_outcome(old_tracks, gt, fresh, now, res, self.tracks@);
            assert(upsert_outcome(old_tracks, gt, fresh, now, res, mid.tracks@));
        }
        if !self.tracks[j].linked_ok {
            match self.enqueue_job_if_missing(id.as_str(), JobType::Link, now) {
                Ok(u) => {
                    proof {
                        let r2 = Ok::<(), CrawlerError>(u);
                        assert(holds_key(track_key(self.tracks@[k], TrackField::Id), id@));
                        assert(link_job_ensured(old_store, *self, id, now, Ok(id)));
                        let fresh = choose|fresh: String| upsert_outcome(old_tracks, gt, fresh, now, res, mid.tracks@);
                        assert(upsert_outcome(old_store.tracks@, gt, fresh, now, res, self.tracks@));
                    }
                },
                Err(e) => {
                    proof {
                        assert(holds_key(track_key(self.tracks@[k], TrackField::Id), id@));
                        assert(link_job_ensured(old_store, *self, id, now, Err(e)));
                        let fresh = choose|fresh: String| upsert_outcome(old_tracks, gt, fresh, now, res, mid.tracks@);
                        assert(upsert_outcome(old_store.tracks@, gt, fresh, now, res, self.tracks@));
                    }
                    return Err(e);
                },
            }
        } else {
            proof {
                assert(holds_key(track_key(self.tracks@[k], TrackField::Id), id@));
                assert(link_job_ensured(old_store, *self, id, now, Ok(id)));
            }
        }
        Ok(id)
    }

    /// Records the raw payload of (`source`, `subtype`, `key`) at
    /// `rel_path`, unless that triple is indexed already.
    pub fn index_raw_file(
        &mut self,
        track_id: &str,
        source: &str,
        subtype: &str,
        key: &str,
        rel_path: &str,
        now: i64,
    )
        requires
            old(self).wf(),
        ensures
            final(self).wf(),
            final(self).tracks@ == old(self).tracks@,
            final(self).jobs@ == old(self).jobs@,
            final(self).next_job_id == old(self).next_job_id,
            final(self).features@ == old(self).features@,
            raw_indexed(
                old(self).raw_files@,
                final(self).raw_files@,
                track_id@,
                source@,
                subtype@,
                key@,
                rel_path@,
                now,
            ),
            has_raw(final(self).raw_files@, source@, subtype@, key@),
    {
        let mut i: usize = 0;
        while i < self.raw_files.len()
            invariant
                i <= self.raw_files@.len(),
                self.wf(),
                self.tracks@ == old(self).tracks@,
                self.jobs@ == old(self).jobs@,
                self.next_job_id == old(self).next_job_id,
                self.raw_files@ == old(self).raw_files@,
                self.features@ == old(self).features@,
                forall|j: int| 0 <= j < i ==> !#[trigger] raw_has_key(self.raw_files@[j], source@, subtype@, key@),
            decreases self.raw_files@.len() - i,
        {
            let r = &self.raw_files[i];
            if str_eq(r.source.as_str(), source) && str_eq(r.subtype.as_str(), subtype) && str_eq(
                r.key.as_str(),
                key,
            ) {
                assert(raw_has_key(self.raw_files@[i as int], source@, subtype@, key@));
                return ;
            }
            i = i + 1;
        }
        let ghost old_rows = self.raw_files@;
        self.raw_files.push(
            RawFileRow {
                track_id: owned(track_id),
                source: owned(source),
                subtype: owned(subtype),
                key: owned(key),
                rel_path: owned(rel_path),
                created_at: now,
            },
        );
        proof {
            let rows = self.raw_files@;
            let n = old_rows.len() as int;
            assert(rows.drop_last() =~= old_rows);
            assert(raw_has_key(rows[n], source@, subtype@, key@));
            assert forall|a: int, b: int|
                0 <= a < rows.len() && 0 <= b < rows.len() && a != b implies !raw_has_key(
                #[trigger] rows[a],
                rows[b].source@,
                rows[b].subtype@,
                #[trigger] rows[b].key@,
            ) by {
                if a == n {
                    if raw_has_key(rows[a], rows[b].source@, rows[b].subtype@, rows[b].key@) {
                        assert(raw_has_key(old_rows[b], source@, subtype@, key@));
                    }
                } else if b == n {
                    if raw_has_key(rows[a], rows[b].source@, rows[b].subtype@, rows[b].key@) {
                        assert(raw_has_key(old_rows[a], source@, subtype@, key@));
                    }
                } else {
                    assert(!raw_has_key(old_rows[a], old_rows[b].source@, old_rows[b].subtype@, old_rows[b].key@));
                }
            }
        }
    }

    /// Writes one feature value under (`t`, `s`, `f`).
    fn upsert_feature(&mut self, t: &String, s: &String, f: &String, value: FeatureValue, now: i64)
        requires
            old(self).wf(),
        ensures
            final(self).wf(),
            final(self).tracks@ == old(self).tracks@,
            final(self).jobs@ == old(self).jobs@,
            final(self).next_job_id == old(self).next_job_id,
            final(self).raw_files@ == old(self).raw_files@,
            final(self).features@ == feature_upserted(old(self).features@, *t, *s, *f, value, now),
    {
        let ghost old_rows = self.features@;
        let mut i: usize = 0;
        while i < self.features.len()
            invariant
                i <= self.features@.len(),
                self.wf(),
                self.tracks@ == old(self).tracks@,
                self.jobs@ == old(self).jobs@,
                self.next_job_id == old(self).next_job_id,
                self.raw_files@ == old(self).raw_files@,
                self.features@ == old(self).features@,
                self.features@ == old_rows,
                forall|j: int| 0 <= j < i ==> !#[trigger] feature_has_key(self.features@[j], t@, s@, f@),
            decreases self.features@.len() - i,
        {
            let r = &self.features[i];
            if r.track_id == *t && r.source == *s && r.feature == *f {
                proof {
                    assert(feature_has_key(old_rows[i as int], t@, s@, f@));
                    let c = choose|c: int| 0 <= c < old_rows.len() && #[trigger] feature_has_key(old_rows[c], t@, s@, f@);
                    if c != i {
                        assert(!feature_has_key(old_rows[c], old_rows[i as int].track_id@, old_rows[i as int].source@, old_rows[i as int].feature@));
                    }
                }
                self.features[i].value = value;
                self.features[i].updated_at = now;
                proof {
                    let rows = self.features@;
                    assert(rows == feature_upserted(old_rows, *t, *s, *f, value, now));
                    assert forall|a: int, b: int|
                        0 <= a < rows.len() && 0 <= b < rows.len() && a != b implies !feature_has_key(
                        #[trigger] rows[a],
                        rows[b].track_id@,
                        rows[b].source@,
                        #[trigger] rows[b].feature@,
                    ) by {
                        assert(!feature_has_key(old_rows[a], old_rows[b].track_id@, old_rows[b].source@, old_rows[b].feature@));
                    }
                }
                return ;
            }
            i = i + 1;
        }
        self.features.push(
            FeatureRow { track_id: t.clone(), source: s.clone(), feature: f.clone(), value, updated_at: now },
        );
        proof {
            let rows = self.features@;
            let n = old_rows.len() as int;
            assert(rows == feature_upserted(old_rows, *t, *s, *f, value, now));
            assert forall|a: int, b: int|
                0 <= a < rows.len() && 0 <= b < rows.len() && a != b implies !feature_has_key(
                #[trigger] rows[a],
                rows[b].track_id@,
                rows[b].source@,
                #[trigger] rows[b].feature@,
            ) by {
                if a == n {
                    if feature_has_key(rows[a], rows[b].track_id@, rows[b].source@, rows[b].feature@) {
                        assert(feature_has_key(old_rows[b], t@, s@, f@));
                    }
                } else if b == n {
                    if feature_has_key(rows[a], rows[b].track_id@, rows[b].source@, rows[b].feature@) {
                        assert(feature_has_key(old_rows[a], t@, s@, f@));
                    }
                } else {
                    assert(!feature_has_key(old_rows[a], old_rows[b].track_id@, old_rows[b].source@, old_rows[b].feature@));
                }
            }
        }
    }

    /// Enqueues the features job of track `track_id` when the track exists,
    /// is linked and has no features yet; otherwise changes nothing.
    pub fn enqueue_features(&mut self, track_id: &str, now: i64) -> (r: Result<(), CrawlerError>)
        requires
            old(self).wf(),
        ensures
            final(self).wf(),
            final(self).tracks@ == old(self).tracks@,
            final(self).raw_files@ == old(self).raw_files@,
            final(self).features@ == old(self).features@,
            wants_features(old(self).tracks@, track_id@) ==> enqueue_outcome(
                old(self).jobs@,
                old(self).next_job_id,
                track_id@,
                JobType::Features,
                now,
                r,
                final(self).jobs@,
                final(self).next_job_id,
            ),
            !wants_features(old(self).tracks@, track_id@) ==> r is Ok && final(self).jobs@ == old(self).jobs@
                && final(self).next_job_id == old(self).next_job_id,
    {
        match self.find_track(TrackField::Id, track_id) {
            None => Ok(()),
            Some(i) => {
                proof {
                    Self::lemma_key_unique(self.tracks@, TrackField::Id, track_id@, i as int);
                }
                if self.tracks[i].linked_ok && !self.tracks[i].features_ok {
                    self.enqueue_job_if_missing(track_id, JobType::Features, now)
                } else {
                    Ok(())
                }
            },
        }
    }

    /// Writes numeric features of track `track_id` from `source`, in one
    /// step: each item overwrites the value stored under its name.
    pub fn upsert_features_num(&mut self, track_id: &str, source: &str, items: &Vec<(String, u64)>, now: i64)
        requires
            old(self).wf(),
        ensures
            final(self).wf(),
            final(self).tracks@ == old(self).tracks@,
            final(self).jobs@ == old(self).jobs@,
            final(self).next_job_id == old(self).next_job_id,
            final(self).raw_files@ == old(self).raw_files@,
            exists|t: String, s: String|
                t@ == track_id@ && s@ == source@ && final(self).features@ == features_upserted(
                    old(self).features@,
                    t,
                    s,
                    num_items(items@),
                    now,
                ),
            forall|n: Seq<char>|
                #[trigger] last_value(num_items(items@), n) matches Some(v) ==> has_feature(
                    final(self).features@,
                    track_id@,
                    source@,
                    n,
                    v,
                ),
    {
        let t = owned(track_id);
        let s = owned(source);
        let ghost all = num_items(items@);
        let mut i: usize = 0;
        while i < items.len()
            invariant
                i <= items@.len(),
                all == num_items(items@),
                self.wf(),
                self.tracks@ == old(self).tracks@,
                self.jobs@ == old(self).jobs@,
                self.next_job_id == old(self).next_job_id,
                self.raw_files@ == old(self).raw_files@,
                self.features@ == features_upserted(old(self).features@, t, s, all.subrange(0, i as int), now),
            decreases items@.len() - i,
        {
            let name = items[i].0.clone();
            let value = FeatureValue::Num(items[i].1);
            self.upsert_feature(&t, &s, &name, value, now);
            proof {
                assert(all.subrange(0, i + 1).drop_last() =~= all.subrange(0, i as int));
                assert(all.subrange(0, i + 1).last() == (name, value));
            }
            i = i + 1;
        }
        assert(all.subrange(0, i as int) =~= all);
        proof {
            assert forall|n: Seq<char>| #[trigger] last_value(all, n) is Some implies has_feature(
                self.features@,
                track_id@,
                source@,
                n,
                last_value(all, n)->Some_0,
            ) by {
                lemma_features_upserted_last(old(self).features@, t, s, all, now, n);
            }
        }
    }

    /// Writes text features of track `track_id` from `source`, in one step:
    /// each item overwrites the value stored under its name.
    pub fn upsert_features_text(&mut self, track_id: &str, source: &str, items: &Vec<(String, String)>, now: i64)
        requires
            old(self).wf(),
        ensures
            final(self).wf(),
            final(self).tracks@ == old(self).tracks@,
            final(self).jobs@ == old(self).jobs@,
            final(self).next_job_id == old(self).next_job_id,
            final(self).raw_files@ == old(self).raw_files@,
            exists|t: String, s: String|
                t@ == track_id@ && s@ == source@ && final(self).features@ == features_upserted(
                    old(self).features@,
                    t,
                    s,
                    text_items(items@),
                    now,
                ),
            forall|n: Seq<char>|
                #[trigger] last_value(text_items(items@), n) matches Some(v) ==> has_feature(
                    final(self).features@,
                    track_id@,
                    source@,
                    n,
                    v,
                ),
    {
        let t = owned(track_id);
        let s = owned(source);
        let ghost all = text_items(items@);
        let mut i: usize = 0;
        while i < items.len()
            invariant
                i <= items@.len(),
                all == text_items(items@),
                self.wf(),
                self.tracks@ == old(self).tracks@,
                self.jobs@ == old(self).jobs@,
                self.next_job_id == old(self).next_job_id,
                self.raw_files@ == old(self).raw_files@,
                self.features@ == features_upserted(old(self).features@, t, s, all.subrange(0, i as int), now),
            decreases items@.len() - i,
        {
            let name = items[i].0.clone();
            let value = FeatureValue::Text(items[i].1.clone());
            self.upsert_feature(&t, &s, &name, value, now);
            proof {
                assert(all.subrange(0, i + 1).drop_last() =~= all.subrange(0, i as int));
                assert(all.subrange(0, i + 1).last() == (name, value));
            }
            i = i + 1;
        }
        assert(all.subrange(0, i as int) =~= all);
        proof {
            assert forall|n: Seq<char>| #[trigger] last_value(all, n) is Some implies has_feature(
                self.features@,
                track_id@,
                source@,
                n,
                last_value(all, n)->Some_0,
            ) by {
                lemma_features_upserted_last(old(self).features@, t, s, all, now, n);
            }
        }
    }

    /// Closes a claimed link job: records the recording id `mbid` of its
    /// track, marks the job done, then enqueues the features job. It is
    /// refused, with nothing changed, when the id is empty, the track is
    /// gone, or another track holds the id; so a job is only marked done
    /// once its track is linked.
    pub fn finish_link_job(&mut self, job: &Job, mbid: &str, now: i64) -> (r: Result<(), CrawlerError>)
        requires
            old(self).wf(),
        ensures
            final(self).wf(),
            can_link(old(self).tracks@, job.track_id@, mbid@) ==> r is Ok && link_finished(
                *old(self),
                *final(self),
                *job,
                mbid@,
                now,
            ),
            !can_link(old(self).tracks@, job.track_id@, mbid@) ==> (r matches Err(CrawlerError::Db(_)))
                && final(self).tracks@ == old(self).tracks@ && final(self).jobs@ == old(self).jobs@
                && final(self).next_job_id == old(self).next_job_id && final(self).raw_files@ == old(
                self,
            ).raw_files@ && final(self).features@ == old(self).features@,
            r is Ok && job.job_id < old(self).next_job_id ==> forall|i: int|
                0 <= i < final(self).jobs@.len() && #[trigger] final(self).jobs@[i].job_id == job.job_id
                    ==> final(self).jobs@[i].status == JobStatus::Done && forall|k: int|
                    0 <= k < final(self).tracks@.len() && #[trigger] holds_key(
                        track_key(final(self).tracks@[k], TrackField::Id),
                        job.track_id@,
                    ) ==> final(self).tracks@[k].linked_ok,
    {
        let ghost old_store = *self;
        let i = match self.find_track(TrackField::Id, job.track_id.as_str()) {
            Some(i) => i,
            None => {
                return Err(CrawlerError::Db(owned("track not found")));
            },
        };
        proof {
            Self::lemma_key_unique(self.tracks@, TrackField::Id, job.track_id@, i as int);
            if !can_link(old_store.tracks@, job.track_id@, mbid@) && mbid@.len() > 0 {
                let j = choose|j: int|
                    0 <= j < old_store.tracks@.len() && #[trigger] holds_key(
                        track_key(old_store.tracks@[j], TrackField::Mbid),
                        mbid@,
                    ) && !holds_key(track_key(old_store.tracks@[j], TrackField::Id), job.track_id@);
                assert(j != i);
            }
        }
        match self.set_mbid(job.track_id.as_str(), mbid, now) {
            Ok(_) => {},
            Err(e) => {
                return Err(e);
            },
        }
        let ghost linked = self.tracks@;
        proof {
            assert(can_link(old_store.tracks@, job.track_id@, mbid@)) by {
                assert forall|j: int|
                    0 <= j < old_store.tracks@.len() && #[trigger] holds_key(
                        track_key(old_store.tracks@[j], TrackField::Mbid),
                        mbid@,
                    ) implies holds_key(track_key(old_store.tracks@[j], TrackField::Id), job.track_id@) by {
                    if j != i {
                        assert(!(exists|k: int|
                            0 <= k < old_store.tracks@.len() && k != i && #[trigger] holds_key(
                                track_key(old_store.tracks@[k], TrackField::Mbid),
                                mbid@,
                            )));
                    }
                }
            }
            Self::lemma_key_unique(linked, TrackField::Id, job.track_id@, i as int);
        }
        self.complete_job(job.job_id, now);
        let ghost done = self.jobs@;
        let ghost done_next = self.next_job_id;
        assert(wants_features(linked, job.track_id@) == !old_store.tracks@[i as int].features_ok);
        let _ = self.enqueue_features(job.track_id.as_str(), now);
        proof {
            let m = choose|m: String|
                m@ == mbid@ && linked == old_store.tracks@.update(
                    i as int,
                    linked_row(old_store.tracks@[i as int], m, now),
                );
            assert(link_finished(old_store, *self, *job, mbid@, now));
            assert forall|k: int|
                0 <= k < linked.len() && #[trigger] holds_key(track_key(linked[k], TrackField::Id), job.track_id@)
                    implies linked[k].linked_ok by {
                assert(k == i);
            }
            assert forall|x: int|
                0 <= x < self.jobs@.len() && #[trigger] self.jobs@[x].job_id == job.job_id && job.job_id < old_store.next_job_id
                    implies self.jobs@[x].status == JobStatus::Done by {
                if x < done.len() {
                    assert(self.jobs@[x] == done[x]);
                } else {
                    assert(self.jobs@[x].job_id == done_next);
                }
            }
        }
        Ok(())
    }

    /// Closes a claimed features job: marks its track as having features,
    /// then marks the job done. It is refused, with nothing changed, when
    /// the track is gone or not linked; so a job is only marked done once
    /// its track has its features.
    pub fn finish_features_job(&mut self, job: &Job, now: i64) -> (r: Result<(), CrawlerError>)
        requires
            old(self).wf(),
        ensures
            final(self).wf(),
            final(self).raw_files@ == old(self).raw_files@,
            final(self).features@ == old(self).features@,
            final(self).next_job_id == old(self).next_job_id,
            !has_track(old(self).tracks@, TrackField::Id, job.track_id@) ==> (r matches Err(CrawlerError::Db(_)))
                && final(self).tracks@ == old(self).tracks@ && final(self).jobs@ == old(self).jobs@,
            forall|i: int|
                0 <= i < old(self).tracks@.len() && #[trigger] holds_key(
                    track_key(old(self).tracks@[i], TrackField::Id),
                    job.track_id@,
                ) ==> if old(self).tracks@[i].linked_ok {
                    &&& r is Ok
                    &&& final(self).tracks@ == old(self).tracks@.update(i, features_done_row(old(self).tracks@[i], now))
                    &&& final(self).jobs@ == finish_jobs(old(self).jobs@, job.job_id, JobStatus::Done, None, now)
                } else {
                    &&& r matches Err(CrawlerError::Db(_))
                    &&& final(self).tracks@ == old(self).tracks@
                    &&& final(self).jobs@ == old(self).jobs@
                },
    {
        if self.find_track(TrackField::Id, job.track_id.as_str()).is_none() {
            return Err(CrawlerError::Db(owned("track not found")));
        }
        match self.mark_features_ok(job.track_id.as_str(), now) {
            Ok(_) => {},
            Err(e) => {
                return Err(e);
            },
        }
        self.complete_job(job.job_id, now);
        Ok(())
    }

    /// Whether no two job rows share a (track, kind) pair or an identifier.
    fn jobs_unique_exec(jobs: &Vec<JobRow>) -> (r: bool)
        ensures
            r == (job_pairs_unique(jobs@) && ids_distinct(jobs@)),
    {
        let mut a: usize = 0;
        while a < jobs.len()
            invariant
                a <= jobs@.len(),
                forall|x: int, y: int|
                    0 <= x < a && 0 <= y < jobs@.len() && x != y ==> #[trigger] pair_apart(jobs@[x], jobs@[y]),
            decreases jobs@.len() - a,
        {
            let mut b: usize = 0;
            while b < jobs.len()
                invariant
                    a < jobs@.len(),
                    b <= jobs@.len(),
                    forall|x: int, y: int|
                        0 <= x < a && 0 <= y < jobs@.len() && x != y ==> #[trigger] pair_apart(jobs@[x], jobs@[y]),
                    forall|y: int| 0 <= y < b && y != a ==> #[trigger] pair_apart(jobs@[a as int], jobs@[y]),
                decreases jobs@.len() - b,
            {
                if b != a {
                    let same_id = jobs[a].job_id == jobs[b].job_id;
                    let same_pair = jobs[a].kind == jobs[b].kind && jobs[a].track_id == jobs[b].track_id;
                    if same_id || same_pair {
                        proof {
                            assert(!pair_apart(jobs@[a as int], jobs@[b as int]));
                            if same_id {
                                assert(jobs@[a as int].job_id == jobs@[b as int].job_id);
                            } else {
                                assert(job_has_key(jobs@[a as int], jobs@[b as int].track_id@, jobs@[b as int].kind));
                            }
                        }
                        return false;
                    }
                }
                b = b + 1;
            }
            a = a + 1;
        }
        proof {
            assert forall|x: int, y: int|
                0 <= x < jobs@.len() && 0 <= y < jobs@.len() && x != y implies !job_has_key(
                #[trigger] jobs@[x],
                jobs@[y].track_id@,
                #[trigger] jobs@[y].kind,
            ) by {
                assert(pair_apart(jobs@[x], jobs@[y]));
            }
            assert forall|x: int, y: int|
                0 <= x < jobs@.len() && 0 <= y < jobs@.len() && x != y implies #[trigger] jobs@[x].job_id
                != #[trigger] jobs@[y].job_id by {
                assert(pair_apart(jobs@[x], jobs@[y]));
            }
        }
        true
    }

    /// The identifier after the largest one, when every identifier is
    /// positive and below `i64::MAX`.
    fn next_id_exec(jobs: &Vec<JobRow>) -> (r: Option<i64>)
        ensures
            r is None <==> !ids_in_range(jobs@),
            r matches Some(n) ==> n >= 1 && job_ids_below(jobs@, n),
    {
        let mut next: i64 = 1;
        let mut i: usize = 0;
        while i < jobs.len()
            invariant
                i <= jobs@.len(),
                next >= 1,
                ids_in_range(jobs@.subrange(0, i as int)),
                job_ids_below(jobs@.subrange(0, i as int), next),
            decreases jobs@.len() - i,
        {
            let id = jobs[i].job_id;
            if id < 1 || id == i64::MAX {
                assert(!(1 <= jobs@[i as int].job_id < i64::MAX));
                return None;
            }
            if id >= next {
                next = id + 1;
            }
            i = i + 1;
            assert(ids_in_range(jobs@.subrange(0, i as int)));
            assert(job_ids_below(jobs@.subrange(0, i as int), next));
        }
        assert(jobs@.subrange(0, i as int) =~= jobs@);
        Some(next)
    }

    /// Whether two optional strings are both present and equal.
    fn clash_exec(a: &Option<String>, b: &Option<String>) -> (r: bool)
        ensures
            r == clash(*a, *b),
    {
        match (a, b) {
            (Some(x), Some(y)) => *x == *y,
            _ => false,
        }
    }

    /// Whether two track rows share no identifying value.
    fn tracks_apart_exec(a: &TrackRow, b: &TrackRow) -> (r: bool)
        ensures
            r == tracks_apart(*a, *b),
    {
        !(a.id == b.id) && !Self::clash_exec(&a.spotify_id, &b.spotify_id) && !Self::clash_exec(&a.isrc, &b.isrc)
            && !Self::clash_exec(&a.mb_recording_id, &b.mb_recording_id)
    }

    /// Whether a track row's flags are consistent.
    fn progress_ok_exec(r: &TrackRow) -> (b: bool)
        ensures
            b == progress_ok(*r),
    {
        let linked_ok = match &r.mb_recording_id {
            Some(m) => m.as_str().unicode_len() > 0,
            None => false,
        };
        (!r.linked_ok || linked_ok) && (!r.features_ok || r.linked_ok)
    }

    /// Whether the tracks satisfy the tracks invariant.
    fn tracks_wf_exec(tracks: &Vec<TrackRow>) -> (r: bool)
        ensures
            r == tracks_wf(tracks@),
    {
        let mut a: usize = 0;
        while a < tracks.len()
            invariant
                a <= tracks@.len(),
                forall|x: int| 0 <= x < a ==> progress_ok(#[trigger] tracks@[x]),
                forall|x: int, y: int|
                    0 <= x < a && 0 <= y < tracks@.len() && x != y ==> #[trigger] tracks_apart(tracks@[x], tracks@[y]),
            decreases tracks@.len() - a,
        {
            if !Self::progress_ok_exec(&tracks[a]) {
                return false;
            }
            let mut b: usize = 0;
            while b < tracks.len()
                invariant
                    a < tracks@.len(),
                    b <= tracks@.len(),
                    forall|x: int| 0 <= x <= a ==> progress_ok(#[trigger] tracks@[x]),
                    forall|x: int, y: int|
                        0 <= x < a && 0 <= y < tracks@.len() && x != y ==> #[trigger] tracks_apart(tracks@[x], tracks@[y]),
                    forall|y: int| 0 <= y < b && y != a ==> #[trigger] tracks_apart(tracks@[a as int], tracks@[y]),
                decreases tracks@.len() - b,
            {
                if b != a && !Self::tracks_apart_exec(&tracks[a], &tracks[b]) {
                    proof {
                        let ta = tracks@[a as int];
                        let tb = tracks@[b as int];
                        if clash(track_key(ta, TrackField::Id), track_key(tb, TrackField::Id)) {
                            assert(!tracks_wf(tracks@));
                        } else if clash(track_key(ta, TrackField::Spotify), track_key(tb, TrackField::Spotify)) {
                            assert(!tracks_wf(tracks@));
                        } else if clash(track_key(ta, TrackField::Isrc), track_key(tb, TrackField::Isrc)) {
                            assert(!tracks_wf(tracks@));
                        } else {
                            assert(!tracks_wf(tracks@));
                        }
                    }
                    return false;
                }
                b = b + 1;
            }
            a = a + 1;
        }
        proof {
            assert forall|x: int, y: int, f: TrackField|
                0 <= x < tracks@.len() && 0 <= y < tracks@.len() && x != y implies !clash(
                #[trigger] track_key(tracks@[x], f),
                #[trigger] track_key(tracks@[y], f),
            ) by {
                assert(tracks_apart(tracks@[x], tracks@[y]));
            }
        }
        true
    }

    /// Whether no two raw-file rows index the same triple.
    fn raws_unique_exec(rows: &Vec<RawFileRow>) -> (r: bool)
        ensures
            r == raw_keys_unique(rows@),
    {
        let mut a: usize = 0;
        while a < rows.len()
            invariant
                a <= rows@.len(),
                forall|x: int, y: int|
                    0 <= x < a && 0 <= y < rows@.len() && x != y ==> #[trigger] raws_apart(rows@[x], rows@[y]),
            decreases rows@.len() - a,
        {
            let mut b: usize = 0;
            while b < rows.len()
                invariant
                    a < rows@.len(),
                    b <= rows@.len(),
                    forall|x: int, y: int|
                        0 <= x < a && 0 <= y < rows@.len() && x != y ==> #[trigger] raws_apart(rows@[x], rows@[y]),
                    forall|y: int| 0 <= y < b && y != a ==> #[trigger] raws_apart(rows@[a as int], rows@[y]),
                decreases rows@.len() - b,
            {
                if b != a && rows[a].source == rows[b].source && rows[a].subtype == rows[b].subtype
                    && rows[a].key == rows[b].key {
                    assert(!raws_apart(rows@[a as int], rows@[b as int]));
                    return false;
                }
                b = b + 1;
            }
            a = a + 1;
        }
        proof {
            assert forall|x: int, y: int|
                0 <= x < rows@.len() && 0 <= y < rows@.len() && x != y implies !raw_has_key(
                #[trigger] rows@[x],
                rows@[y].source@,
                rows@[y].subtype@,
                #[trigger] rows@[y].key@,
            ) by {
                assert(raws_apart(rows@[x], rows@[y]));
            }
        }
        true
    }

    /// Whether no two feature rows hold the same key.
    fn features_unique_exec(rows: &Vec<FeatureRow>) -> (r: bool)
        ensures
            r == feature_keys_unique(rows@),
    {
        let mut a: usize = 0;
        while a < rows.len()
            invariant
                a <= rows@.len(),
                forall|x: int, y: int|
                    0 <= x < a && 0 <= y < rows@.len() && x != y ==> #[trigger] features_apart(rows@[x], rows@[y]),
            decreases rows@.len() - a,
        {
            let mut b: usize = 0;
            while b < rows.len()
                invariant
                    a < rows@.len(),
                    b <= rows@.len(),
                    forall|x: int, y: int|
                        0 <= x < a && 0 <= y < rows@.len() && x != y ==> #[trigger] features_apart(rows@[x], rows@[y]),
                    forall|y: int| 0 <= y < b && y != a ==> #[trigger] features_apart(rows@[a as int], rows@[y]),
                decreases rows@.len() - b,
            {
                if b != a && rows[a].track_id == rows[b].track_id && rows[a].source == rows[b].source
                    && rows[a].feature == rows[b].feature {
                    assert(!features_apart(rows@[a as int], rows@[b as int]));
                    return false;
                }
                b = b + 1;
            }
            a = a + 1;
        }
        proof {
            assert forall|x: int, y: int|
                0 <= x < rows@.len() && 0 <= y < rows@.len() && x != y implies !feature_has_key(
                #[trigger] rows@[x],
                rows@[y].track_id@,
                rows@[y].source@,
                #[trigger] rows@[y].feature@,
            ) by {
                assert(features_apart(rows@[x], rows@[y]));
            }
        }
        true
    }

    /// A store holding rows loaded from storage, when they satisfy every
    /// invariant of the store; the next job identifier follows the largest
    /// loaded one.
    pub fn restore(
        tracks: Vec<TrackRow>,
        jobs: Vec<JobRow>,
        raw_files: Vec<RawFileRow>,
        features: Vec<FeatureRow>,
    ) -> (r: Option<Persistent>)
        ensures
            r is Some <==> restorable(tracks@, jobs@, raw_files@, features@),
            r matches Some(p) ==> {
                &&& p.wf()
                &&& p.tracks@ == tracks@
                &&& p.jobs@ == jobs@
                &&& p.raw_files@ == raw_files@
                &&& p.features@ == features@
            },
    {
        let next = match Self::next_id_exec(&jobs) {
            Some(n) => n,
            None => {
                return None;
            },
        };
        if !Self::jobs_unique_exec(&jobs) || !Self::tracks_wf_exec(&tracks) || !Self::raws_unique_exec(&raw_files)
            || !Self::features_unique_exec(&features) {
            return None;
        }
        Some(Persistent { tracks, jobs, raw_files, features, next_job_id: next })
    }
}

} // verus!
