//! The steps of the link and features workers that act on the store: what
//! a claimed job needs next, and how fetched payloads are recorded.
use vstd::prelude::*;
use crate::features::{hl_classifiers, hl_nums, hl_texts, ll_features, num_view, text_view};
use crate::json::Json;
use crate::model::{error_text, first_artist_of, CrawlerError, Job, JobStatus};
use crate::pipeline::{
    first_id, first_recording_id, plan_link_lookup, recording_query_spec, title_or_empty, LinkLookup,
};
use crate::sink::DiskZstdSink;
use crate::catalog::{is_track_of, same_text};
use crate::json::{member, text_of};
use crate::model::SpotifyTrack;
use crate::store::{
    can_link, clone_opt, ensure_outcome, raw_indexed, features_upserted, finish_jobs, link_finished, has_raw, has_track, holds_key, keeps_track_keys, num_items, text_items,
    track_key, Persistent, TrackField,
};

verus! {

/// What a claimed link job needs next.
#[derive(Debug, Clone)]
pub enum LinkPlan {
    /// Its track is gone; the job was failed.
    TrackMissing,
    /// Look the track up at the authority.
    Lookup(LinkLookup),
}

/// Starts a claimed link job: fails it with "track not found" when its
/// track is gone, else says how to look the track up.
pub fn begin_link_job(store: &mut Persistent, job: &Job, now: i64) -> (r: LinkPlan)
    requires
        old(store).wf(),
    ensures
        final(store).wf(),
        final(store).tracks@ == old(store).tracks@,
        !has_track(old(store).tracks@, TrackField::Id, job.track_id@) <==> r is TrackMissing,
        r is TrackMissing ==> exists|e: String|
            e@ == "track not found"@ && final(store).jobs@ == crate::store::finish_jobs(
                old(store).jobs@,
                job.job_id,
                crate::model::JobStatus::Failed,
                Some(e),
                now,
            ),
        r is Lookup ==> final(store).jobs@ == old(store).jobs@,
        r matches LinkPlan::Lookup(l) ==> forall|i: int|
            0 <= i < old(store).tracks@.len() && #[trigger] holds_key(
                track_key(old(store).tracks@[i], TrackField::Id),
                job.track_id@,
            ) ==> match old(store).tracks@[i].isrc {
                Some(c) => (l matches LinkLookup::ByIsrc(x) && x@ == c@),
                None => (l matches LinkLookup::ByQuery(q) && q@ == recording_query_spec(
                    title_or_empty(old(store).tracks@[i].title),
                    first_artist_of(old(store).tracks@[i].artist_all@),
                )),
            },
{
    match store.get_track_metadata(job.track_id.as_str()) {
        None => {
            store.fail_job(job.job_id, "track not found", now);
            LinkPlan::TrackMissing
        },
        Some(meta) => LinkPlan::Lookup(plan_link_lookup(&meta)),
    }
}

/// `new` is `old` with job `job` failed by the error of `r`, and nothing
/// else changed.
pub open spec fn job_failed(old: Persistent, new: Persistent, job: Job, r: Result<String, CrawlerError>, now: i64) -> bool {
    &&& r is Err
    &&& new.tracks@ == old.tracks@
    &&& new.raw_files@ == old.raw_files@
    &&& new.features@ == old.features@
    &&& new.next_job_id == old.next_job_id
    &&& exists|e: String|
        e@ == error_text(r->Err_0) && new.jobs@ == finish_jobs(old.jobs@, job.job_id, JobStatus::Failed, Some(e), now)
}

/// Finishes a link job from the authority's answer: takes the first
/// recording id, links the track, marks the job done and enqueues the
/// features job. When no id can be taken or the store refuses it, the job
/// is failed with the error's text. Returns the recording id.
pub fn complete_link_job(store: &mut Persistent, job: &Job, answer: &Json, now: i64) -> (r: Result<String, CrawlerError>)
    requires
        old(store).wf(),
    ensures
        final(store).wf(),
        match member(*answer, "recordings"@) {
            Some(Json::Array(items)) => match first_id(items@) {
                Some(m) => if can_link(old(store).tracks@, job.track_id@, m) {
                    (r matches Ok(id) && id@ == m) && link_finished(*old(store), *final(store), *job, m, now)
                } else {
                    (r matches Err(CrawlerError::Db(_))) && job_failed(*old(store), *final(store), *job, r, now)
                },
                None => (r matches Err(CrawlerError::NotFound(_))) && job_failed(
                    *old(store),
                    *final(store),
                    *job,
                    r,
                    now,
                ),
            },
            _ => (r matches Err(CrawlerError::Parse(_))) && job_failed(*old(store), *final(store), *job, r, now),
        },
        r is Ok && job.job_id < old(store).next_job_id ==> forall|i: int|
            0 <= i < final(store).jobs@.len() && #[trigger] final(store).jobs@[i].job_id == job.job_id
                ==> final(store).jobs@[i].status == JobStatus::Done && forall|k: int|
                0 <= k < final(store).tracks@.len() && #[trigger] holds_key(
                    track_key(final(store).tracks@[k], TrackField::Id),
                    job.track_id@,
                ) ==> final(store).tracks@[k].linked_ok,
{
    let mbid = match first_recording_id(answer) {
        Ok(id) => id,
        Err(e) => {
            store.fail_job(job.job_id, e.message(), now);
            return Err(e);
        },
    };
    match store.finish_link_job(job, mbid.as_str(), now) {
        Ok(_) => Ok(mbid),
        Err(e) => {
            store.fail_job(job.job_id, e.message(), now);
            Err(e)
        },
    }
}

/// What a claimed features job needs next.
#[derive(Debug, Clone)]
pub enum FeaturesPlan {
    /// Its track is gone; the job was failed.
    TrackMissing,
    /// The track has no recording id; the job was failed.
    NoRecording,
    /// Fetch the descriptors of `mbid`; tags fall back to `artist` and
    /// `title`.
    Fetch { mbid: String, title: String, artist: String },
}

/// Starts a claimed features job: fails it when its track is gone or has
/// no recording id, else says what to fetch.
pub fn begin_features_job(store: &mut Persistent, job: &Job, now: i64) -> (r: FeaturesPlan)
    requires
        old(store).wf(),
    ensures
        final(store).wf(),
        final(store).tracks@ == old(store).tracks@,
        !has_track(old(store).tracks@, TrackField::Id, job.track_id@) <==> r is TrackMissing,
        r is Fetch ==> final(store).jobs@ == old(store).jobs@,
        r is TrackMissing ==> exists|e: String|
            e@ == "track not found"@ && final(store).jobs@ == finish_jobs(
                old(store).jobs@,
                job.job_id,
                JobStatus::Failed,
                Some(e),
                now,
            ),
        r is NoRecording ==> exists|e: String|
            e@ == "no recording id"@ && final(store).jobs@ == finish_jobs(
                old(store).jobs@,
                job.job_id,
                JobStatus::Failed,
                Some(e),
                now,
            ),
        r matches FeaturesPlan::Fetch { mbid, title, artist } ==> forall|i: int|
            0 <= i < old(store).tracks@.len() && #[trigger] holds_key(
                track_key(old(store).tracks@[i], TrackField::Id),
                job.track_id@,
            ) ==> old(store).tracks@[i].mb_recording_id == Some(mbid) && artist@ == first_artist_of(
                old(store).tracks@[i].artist_all@,
            ) && title@ == crate::pipeline::title_or_empty(old(store).tracks@[i].title),
        r is NoRecording ==> forall|i: int|
            0 <= i < old(store).tracks@.len() && #[trigger] holds_key(
                track_key(old(store).tracks@[i], TrackField::Id),
                job.track_id@,
            ) ==> old(store).tracks@[i].mb_recording_id is None,
{
    match store.get_track_metadata(job.track_id.as_str()) {
        None => {
            store.fail_job(job.job_id, "track not found", now);
            FeaturesPlan::TrackMissing
        },
        Some(meta) => {
            match &meta.mb_recording_id {
                None => {
                    store.fail_job(job.job_id, "no recording id", now);
                    FeaturesPlan::NoRecording
                },
                Some(m) => {
                    let title = match &meta.title {
                        Some(t) => t.clone(),
                        None => {
                            proof {
                                reveal_strlit("");
                            }
                            crate::text::owned("")
                        },
                    };
                    let artist = crate::text::owned(meta.first_artist());
                    FeaturesPlan::Fetch { mbid: m.clone(), title, artist }
                },
            }
        },
    }
}

/// Records a high-level document of track `track_id` written at
/// `rel_path`: indexes the payload under its recording id, then stores
/// its numeric and text features.
pub fn store_high_level(store: &mut Persistent, track_id: &str, mbid: &str, doc: &Json, rel_path: &str, now: i64)
    requires
        old(store).wf(),
    ensures
        final(store).wf(),
        final(store).tracks@ == old(store).tracks@,
        final(store).jobs@ == old(store).jobs@,
        has_raw(final(store).raw_files@, "acousticbrainz"@, "high-level"@, mbid@),
        raw_indexed(old(store).raw_files@, final(store).raw_files@, track_id@, "acousticbrainz"@, "high-level"@, mbid@, rel_path@, now),
        exists|t1: String, s1: String, t2: String, s2: String, nums: Seq<(String, u64)>, texts: Seq<(String, String)>|
            {
                &&& t1@ == track_id@ && t2@ == track_id@
                &&& s1@ == "acousticbrainz"@ && s2@ == "acousticbrainz"@
                &&& num_view(nums) == hl_nums(hl_classifiers(*doc))
                &&& text_view(texts) == hl_texts(hl_classifiers(*doc))
                &&& final(store).features@ == features_upserted(
                    features_upserted(old(store).features@, t1, s1, num_items(nums), now),
                    t2,
                    s2,
                    text_items(texts),
                    now,
                )
            },
{
    store.index_raw_file(track_id, "acousticbrainz", "high-level", mbid, rel_path, now);
    let (nums, texts) = DiskZstdSink::extract_high_level(doc);
    let ghost f0 = store.features@;
    store.upsert_features_num(track_id, "acousticbrainz", &nums, now);
    let ghost f1 = store.features@;
    store.upsert_features_text(track_id, "acousticbrainz", &texts, now);
    proof {
        let (t1, s1) = choose|t: String, s: String|
            t@ == track_id@ && s@ == "acousticbrainz"@ && f1 == features_upserted(f0, t, s, num_items(nums@), now);
        let (t2, s2) = choose|t: String, s: String|
            t@ == track_id@ && s@ == "acousticbrainz"@ && store.features@ == features_upserted(
                f1,
                t,
                s,
                text_items(texts@),
                now,
            );
        assert(num_view(nums@) == hl_nums(hl_classifiers(*doc)));
        assert(text_view(texts@) == hl_texts(hl_classifiers(*doc)));
        assert(store.features@ == features_upserted(
            features_upserted(f0, t1, s1, num_items(nums@), now),
            t2,
            s2,
            text_items(texts@),
            now,
        ));
    }
}

/// Records a low-level document of track `track_id` written at
/// `rel_path`: indexes the payload under its recording id, then stores
/// its numeric features.
pub fn store_low_level(store: &mut Persistent, track_id: &str, mbid: &str, doc: &Json, rel_path: &str, now: i64)
    requires
        old(store).wf(),
    ensures
        final(store).wf(),
        final(store).tracks@ == old(store).tracks@,
        final(store).jobs@ == old(store).jobs@,
        has_raw(final(store).raw_files@, "acousticbrainz"@, "low-level"@, mbid@),
        raw_indexed(old(store).raw_files@, final(store).raw_files@, track_id@, "acousticbrainz"@, "low-level"@, mbid@, rel_path@, now),
        exists|t: String, s: String, nums: Seq<(String, u64)>|
            {
                &&& t@ == track_id@
                &&& s@ == "acousticbrainz"@
                &&& num_view(nums) == ll_features(*doc)
                &&& final(store).features@ == features_upserted(old(store).features@, t, s, num_items(nums), now)
            },
{
    store.index_raw_file(track_id, "acousticbrainz", "low-level", mbid, rel_path, now);
    let nums = DiskZstdSink::extract_low_level(doc);
    let ghost f0 = store.features@;
    store.upsert_features_num(track_id, "acousticbrainz", &nums, now);
    proof {
        let (t, s) = choose|t: String, s: String|
            t@ == track_id@ && s@ == "acousticbrainz"@ && store.features@ == features_upserted(
                f0,
                t,
                s,
                num_items(nums@),
                now,
            );
        assert(num_view(nums@) == ll_features(*doc));
    }
}

/// Records a tag document of track `track_id` written at `rel_path`:
/// indexes the payload under its recording id, then stores the tag
/// features `items`.
pub fn store_tags(store: &mut Persistent, track_id: &str, mbid: &str, items: &Vec<(String, u64)>, rel_path: &str, now: i64)
    requires
        old(store).wf(),
    ensures
        final(store).wf(),
        final(store).tracks@ == old(store).tracks@,
        final(store).jobs@ == old(store).jobs@,
        has_raw(final(store).raw_files@, "lastfm"@, "toptags"@, mbid@),
        raw_indexed(old(store).raw_files@, final(store).raw_files@, track_id@, "lastfm"@, "toptags"@, mbid@, rel_path@, now),
        exists|t: String, s: String|
            t@ == track_id@ && s@ == "lastfm"@ && final(store).features@ == features_upserted(
                old(store).features@,
                t,
                s,
                num_items(items@),
                now,
            ),
{
    store.index_raw_file(track_id, "lastfm", "toptags", mbid, rel_path, now);
    store.upsert_features_num(track_id, "lastfm", items, now);
}

/// What became of one entry of a batch of catalog tracks.
#[derive(Debug)]
pub struct Ingested {
    /// Where the entry stands in the batch.
    pub position: usize,
    /// Its catalog id, if it has one.
    pub spotify_id: Option<String>,
    /// Its internal id, or why it was not stored.
    pub result: Result<String, CrawlerError>,
}

/// The track entries of a batch answer: its `tracks` array.
pub open spec fn batch_items(v: Json) -> Seq<Json> {
    match member(v, "tracks"@) {
        Some(Json::Array(items)) => items@,
        _ => seq![],
    }
}

/// The positions of the entries that are not null, in order.
pub open spec fn present_positions(items: Seq<Json>) -> Seq<int>
    decreases items.len(),
{
    if items.len() == 0 {
        seq![]
    } else {
        present_positions(items.drop_last()) + if items.last() is Null {
            seq![]
        } else {
            seq![items.len() - 1]
        }
    }
}

/// Entry `j` of an ingest: it normalises to `tracks[j]`, and ensuring that
/// track took the store from `states[j]` to `states[j + 1]` with the
/// recorded result.
pub open spec fn entry_ensured(
    states: Seq<Persistent>,
    tracks: Seq<SpotifyTrack>,
    out: Seq<Ingested>,
    items: Seq<Json>,
    j: int,
    now: i64,
) -> bool {
    &&& 0 <= out[j].position < items.len()
    &&& is_track_of(tracks[j], items[out[j].position as int])
    &&& ensure_outcome(states[j], tracks[j], now, out[j].result, states[j + 1])
}

/// The entries `out` were ensured one after another, taking the store
/// from `old` through `states` to `new`.
pub open spec fn ingest_run(
    states: Seq<Persistent>,
    tracks: Seq<SpotifyTrack>,
    out: Seq<Ingested>,
    items: Seq<Json>,
    now: i64,
    old: Persistent,
    new: Persistent,
) -> bool {
    &&& states.len() == out.len() + 1
    &&& tracks.len() == out.len()
    &&& states[0] == old
    &&& states.last() == new
    &&& forall|j: int| 0 <= j < out.len() ==> #[trigger] entry_ensured(states, tracks, out, items, j, now)
}

/// Stores each track of a batch answer: every entry that is not null is
/// normalised and ensured, which enqueues its link job.
pub fn ingest_batch(store: &mut Persistent, batch: &Json, now: i64) -> (r: Vec<Ingested>)
    requires
        old(store).wf(),
    ensures
        final(store).wf(),
        keeps_track_keys(old(store).tracks@, final(store).tracks@),
        r@.map_values(|x: Ingested| x.position as int) == present_positions(batch_items(*batch)),
        exists|states: Seq<Persistent>, tracks: Seq<SpotifyTrack>|
            #[trigger] ingest_run(states, tracks, r@, batch_items(*batch), now, *old(store), *final(store)),
        forall|j: int|
            0 <= j < r@.len() ==> {
                &&& 0 <= #[trigger] r@[j].position < batch_items(*batch).len()
                &&& same_text(r@[j].spotify_id, text_of(member(batch_items(*batch)[r@[j].position as int], "id"@)))
                &&& r@[j].spotify_id is None ==> r@[j].result is Err
                &&& r@[j].result matches Ok(id) ==> exists|k: int|
                    0 <= k < final(store).tracks@.len() && final(store).tracks@[k].id == id && holds_key(
                        final(store).tracks@[k].spotify_id,
                        r@[j].spotify_id->Some_0@,
                    )
            },
{
    let mut out: Vec<Ingested> = Vec::new();
    let items = match batch.get("tracks") {
        Some(Json::Array(items)) => items,
        _ => {
            assert(out@.map_values(|x: Ingested| x.position as int) =~= present_positions(batch_items(*batch)));
            assert(ingest_run(seq![*store], seq![], out@, batch_items(*batch), now, *old(store), *store));
            return out;
        },
    };
    let mut i: usize = 0;
    let ghost mut states: Seq<Persistent> = seq![*store];
    let ghost mut gtracks: Seq<SpotifyTrack> = seq![];
    assert(out@.map_values(|x: Ingested| x.position as int) =~= present_positions(items@.subrange(0, 0)));
    while i < items.len()
        invariant
            i <= items@.len(),
            batch_items(*batch) == items@,
            store.wf(),
            states.len() == out@.len() + 1,
            gtracks.len() == out@.len(),
            states[0] == *old(store),
            states.last() == *store,
            forall|j: int| 0 <= j < out@.len() ==> #[trigger] entry_ensured(states, gtracks, out@, items@, j, now),
            keeps_track_keys(old(store).tracks@, store.tracks@),
            out@.map_values(|x: Ingested| x.position as int) == present_positions(items@.subrange(0, i as int)),
            forall|j: int|
                0 <= j < out@.len() ==> {
                    &&& 0 <= #[trigger] out@[j].position < i
                    &&& same_text(out@[j].spotify_id, text_of(member(items@[out@[j].position as int], "id"@)))
                    &&& out@[j].spotify_id is None ==> out@[j].result is Err
                    &&& out@[j].result matches Ok(id) ==> exists|k: int|
                        0 <= k < store.tracks@.len() && store.tracks@[k].id == id && holds_key(
                            store.tracks@[k].spotify_id,
                            out@[j].spotify_id->Some_0@,
                        )
                },
        decreases items@.len() - i,
    {
        assert(items@.subrange(0, i + 1).drop_last() =~= items@.subrange(0, i as int));
        let ghost before = out@;
        let ghost tracks_before = store.tracks@;
        match &items[i] {
            Json::Null => {
                assert(out@.map_values(|x: Ingested| x.position as int) =~= present_positions(
                    items@.subrange(0, i + 1),
                ));
            },
            entry => {
                let t = SpotifyTrack::new(entry);
                let ghost gt = t;
                let ghost before_states = states;
                let ghost before_tracks = gtracks;
                let sid = clone_opt(&t.spotify_id);
                let result = store.ensure_track(t, now);
                let item = Ingested { position: i, spotify_id: sid, result };
                out.push(item);
                proof {
                    states = before_states.push(*store);
                    gtracks = before_tracks.push(gt);
                    assert forall|j: int| 0 <= j < out@.len() implies #[trigger] entry_ensured(
                        states,
                        gtracks,
                        out@,
                        items@,
                        j,
                        now,
                    ) by {
                        if j < before.len() {
                            assert(out@[j] == before[j]);
                            assert(entry_ensured(before_states, before_tracks, before, items@, j, now));
                            assert(states[j] == before_states[j]);
                            assert(states[j + 1] == before_states[j + 1]);
                        } else {
                            assert(states[j] == before_states.last());
                        }
                    }
                    assert(out@.map_values(|x: Ingested| x.position as int) =~= present_positions(
                        items@.subrange(0, i + 1),
                    ));
                    assert forall|j: int| 0 <= j < out@.len() implies {
                        &&& 0 <= #[trigger] out@[j].position < i + 1
                        &&& same_text(out@[j].spotify_id, text_of(member(items@[out@[j].position as int], "id"@)))
                        &&& out@[j].spotify_id is None ==> out@[j].result is Err
                        &&& out@[j].result matches Ok(id) ==> exists|k: int|
                            0 <= k < store.tracks@.len() && store.tracks@[k].id == id && holds_key(
                                store.tracks@[k].spotify_id,
                                out@[j].spotify_id->Some_0@,
                            )
                    } by {
                        if j < before.len() {
                            assert(out@[j] == before[j]);
                            if out@[j].result is Ok {
                                let id = out@[j].result->Ok_0;
                                let k = choose|k: int|
                                    0 <= k < tracks_before.len() && tracks_before[k].id == id && holds_key(
                                        tracks_before[k].spotify_id,
                                        out@[j].spotify_id->Some_0@,
                                    );
                                assert(store.tracks@[k].id == tracks_before[k].id);
                            }
                        }
                    }
                }
            },
        }
        i = i + 1;
    }
    assert(items@.subrange(0, i as int) =~= items@);
    assert(ingest_run(states, gtracks, out@, batch_items(*batch), now, *old(store), *store));
    out
}

} // verus!
