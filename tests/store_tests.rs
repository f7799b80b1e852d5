use track_crawler::model::{CrawlerError, Job, JobStatus, JobType, SpotifyTrack};
use track_crawler::store::{FeatureValue, Persistent};

fn track(spotify: &str, isrc: Option<&str>) -> SpotifyTrack {
    SpotifyTrack {
        spotify_id: Some(spotify.to_string()),
        isrc: isrc.map(|s| s.to_string()),
        title: "Song".to_string(),
        artist_all: vec!["Artist".to_string(), "Other".to_string()],
        album: Some("Album".to_string()),
        duration_ms: Some(1000),
        release_date: None,
        explicit: Some(false),
        popularity: Some(10),
    }
}

#[test]
fn enqueue_is_idempotent() {
    let mut s = Persistent::new();
    let id = s.ensure_track(track("X", None), 1).unwrap();
    assert_eq!(s.jobs.len(), 1);
    for now in 2..6 {
        s.enqueue_job_if_missing(&id, JobType::Link, now).unwrap();
    }
    assert_eq!(s.jobs.len(), 1);
    assert_eq!(s.jobs[0].created_at, 1);
    assert_eq!(s.count_jobs(JobType::Link, JobStatus::Pending), 1);
}

#[test]
fn enqueue_after_done_is_noop() {
    let mut s = Persistent::new();
    let id = s.ensure_track(track("X", None), 1).unwrap();
    let job = s.claim_one_job(JobType::Link, 2).unwrap().unwrap();
    s.complete_job(job.job_id, 3);
    s.enqueue_job_if_missing(&id, JobType::Link, 4).unwrap();
    assert_eq!(s.jobs.len(), 1);
    assert_eq!(s.jobs[0].status, JobStatus::Done);
}

#[test]
fn claim_race_single_pending() {
    let mut s = Persistent::new();
    s.ensure_track(track("X", None), 1).unwrap();
    let mut got = Vec::new();
    for now in 0..8 {
        if let Some(j) = s.claim_one_job(JobType::Link, 10 + now).unwrap() {
            got.push(j);
        }
    }
    assert_eq!(got.len(), 1);
    assert_eq!(got[0].attempt, 1);
    assert_eq!(s.jobs[0].status, JobStatus::Active);
    assert_eq!(s.jobs[0].attempt, 1);
}

#[test]
fn claims_are_distinct_and_bounded() {
    let mut s = Persistent::new();
    for i in 0..3 {
        s.ensure_track(track(&format!("T{i}"), None), 5 - i as i64).unwrap();
    }
    let mut ids = Vec::new();
    for now in 0..5 {
        if let Some(j) = s.claim_one_job(JobType::Link, 100 + now).unwrap() {
            ids.push(j.job_id);
        }
    }
    assert_eq!(ids.len(), 3);
    // oldest creation time first
    assert_eq!(ids, vec![3, 2, 1]);
}

#[test]
fn empty_queue_claim_changes_nothing() {
    let mut s = Persistent::new();
    s.ensure_track(track("X", None), 1).unwrap();
    let before = s.jobs.len();
    assert!(s.claim_one_job(JobType::Features, 2).unwrap().is_none());
    assert_eq!(s.jobs.len(), before);
    assert_eq!(s.jobs[0].status, JobStatus::Pending);
    assert_eq!(s.jobs[0].attempt, 0);
}

#[test]
fn upsert_requires_catalog_id() {
    let mut s = Persistent::new();
    let mut t = track("X", None);
    t.spotify_id = None;
    assert!(s.upsert_track(t, 1).is_err());
    assert_eq!(s.tracks.len(), 0);
}

#[test]
fn upsert_merges_fields() {
    let mut s = Persistent::new();
    let (id, is_new) = s.upsert_track(track("X", None), 1).unwrap();
    assert!(is_new);
    let mut t2 = track("X", Some("AUUM71900929"));
    t2.album = None;
    t2.popularity = Some(42);
    t2.title = "New".to_string();
    let (id2, is_new2) = s.upsert_track(t2, 2).unwrap();
    assert_eq!(id, id2);
    assert!(!is_new2);
    let row = &s.tracks[0];
    assert_eq!(row.album.as_deref(), Some("Album"));
    assert_eq!(row.popularity, Some(42));
    assert_eq!(row.title.as_deref(), Some("New"));
    assert_eq!(row.isrc.as_deref(), Some("AUUM71900929"));
    assert_eq!(row.updated_at, 2);
    assert_eq!(row.created_at, 1);
    // the recording code is never overwritten
    s.upsert_track(track("X", Some("OTHER0000000")), 3).unwrap();
    assert_eq!(s.tracks[0].isrc.as_deref(), Some("AUUM71900929"));
}

#[test]
fn upsert_refuses_duplicate_isrc() {
    let mut s = Persistent::new();
    s.upsert_track(track("X", Some("AUUM71900929")), 1).unwrap();
    assert!(s.upsert_track(track("Y", Some("AUUM71900929")), 2).is_err());
    assert_eq!(s.tracks.len(), 1);
}

#[test]
fn upsert_with_taken_id_fails() {
    let mut s = Persistent::new();
    s.upsert_track_with_id(track("X", None), "id-1".to_string(), 1).unwrap();
    assert!(s.upsert_track_with_id(track("Y", None), "id-1".to_string(), 2).is_err());
    let (id, is_new) = s.upsert_track_with_id(track("Y", None), "id-2".to_string(), 2).unwrap();
    assert_eq!(id, "id-2");
    assert!(is_new);
}

#[test]
fn fresh_ids_differ() {
    let mut s = Persistent::new();
    let (a, _) = s.upsert_track(track("X", None), 1).unwrap();
    let (b, _) = s.upsert_track(track("Y", None), 1).unwrap();
    assert_ne!(a, b);
    assert_eq!(s.get_track_id("Y"), Some(b));
    assert_eq!(s.get_track_id("Z"), None);
}

#[test]
fn features_job_only_after_link() {
    let mut s = Persistent::new();
    let id = s.ensure_track(track("X", None), 1).unwrap();
    s.enqueue_features(&id, 2).unwrap();
    assert_eq!(s.count_jobs(JobType::Features, JobStatus::Pending), 0);
    assert!(s.set_mbid(&id, "", 3).is_err());
    s.set_mbid(&id, "mbid-1", 3).unwrap();
    s.enqueue_features(&id, 4).unwrap();
    assert_eq!(s.count_jobs(JobType::Features, JobStatus::Pending), 1);
    let meta = s.get_track_metadata(&id).unwrap();
    assert!(meta.linked_ok);
    assert_eq!(meta.mb_recording_id.as_deref(), Some("mbid-1"));
    assert_eq!(meta.first_artist(), "Artist");
}

#[test]
fn mbid_is_unique() {
    let mut s = Persistent::new();
    let a = s.ensure_track(track("X", None), 1).unwrap();
    let b = s.ensure_track(track("Y", None), 1).unwrap();
    s.set_mbid(&a, "m", 2).unwrap();
    assert!(s.set_mbid(&b, "m", 3).is_err());
    assert!(!s.get_track_metadata(&b).unwrap().linked_ok);
}

#[test]
fn mark_features_needs_link() {
    let mut s = Persistent::new();
    let id = s.ensure_track(track("X", None), 1).unwrap();
    assert!(s.mark_features_ok(&id, 2).is_err());
    s.set_mbid(&id, "m", 3).unwrap();
    s.mark_features_ok(&id, 4).unwrap();
    assert!(s.get_track_metadata(&id).unwrap().features_ok);
    // unknown tracks are left alone
    s.mark_features_ok("nope", 5).unwrap();
}

#[test]
fn fail_job_records_error() {
    let mut s = Persistent::new();
    s.ensure_track(track("X", None), 1).unwrap();
    let j = s.claim_one_job(JobType::Link, 2).unwrap().unwrap();
    s.fail_job(j.job_id, "boom", 3);
    assert_eq!(s.jobs[0].status, JobStatus::Failed);
    assert_eq!(s.jobs[0].last_error.as_deref(), Some("boom"));
    assert_eq!(s.count_jobs(JobType::Link, JobStatus::Failed), 1);
    assert!(s.claim_one_job(JobType::Link, 4).unwrap().is_none());
}

#[test]
fn raw_index_insert_or_ignore() {
    let mut s = Persistent::new();
    for _ in 0..3 {
        s.index_raw_file("t", "acousticbrainz", "high-level", "mbid", "path-a", 1);
    }
    s.index_raw_file("t", "acousticbrainz", "low-level", "mbid", "path-b", 1);
    assert_eq!(s.raw_files.len(), 2);
    s.index_raw_file("t", "acousticbrainz", "high-level", "mbid", "other", 2);
    assert_eq!(s.raw_files[0].rel_path, "path-a");
}

#[test]
fn feature_upsert_switches_dtype() {
    let mut s = Persistent::new();
    s.upsert_features_num("t", "ab", &vec![("a".to_string(), 0.5f64.to_bits())], 1);
    s.upsert_features_text("t", "ab", &vec![("a".to_string(), "x".to_string())], 2);
    assert_eq!(s.features.len(), 1);
    let v = &s.features[0].value;
    assert_eq!(v.dtype(), "text");
    assert_eq!(v.num_value(), None);
    assert_eq!(v.text_value().as_deref(), Some("x"));
    s.upsert_features_num("t", "ab", &vec![("a".to_string(), 2.0f64.to_bits())], 3);
    let v = &s.features[0].value;
    assert_eq!(v.dtype(), "num");
    assert_eq!(v.num_value(), Some(2.0f64.to_bits()));
    assert_eq!(v.text_value(), None);
    assert!(matches!(s.features[0].value, FeatureValue::Num(_)));
    assert_eq!(s.features[0].updated_at, 3);
}

#[test]
fn job_text_forms() {
    assert_eq!(JobType::Link.as_str(), "link");
    assert_eq!(JobType::parse("features"), Some(JobType::Features));
    assert_eq!(JobType::parse("Link"), None);
    assert_eq!(JobStatus::Failed.as_str(), "failed");
    assert_eq!(JobStatus::parse("active"), Some(JobStatus::Active));
    assert_eq!(JobStatus::parse(""), None);
}

#[test]
fn failed_claim_rolls_back() {
    let mut s = Persistent::new();
    s.ensure_track(track("X", None), 1).unwrap();
    s.jobs[0].attempt = i64::MAX;
    assert!(s.claim_one_job(JobType::Link, 2).is_err());
    assert_eq!(s.jobs[0].status, JobStatus::Pending);
    assert_eq!(s.jobs[0].attempt, i64::MAX);
    assert_eq!(s.jobs[0].updated_at, 1);
}

#[test]
fn restore_checks_invariants() {
    let mut s = Persistent::new();
    let id = s.ensure_track(track("X", Some("AUUM71900929")), 1).unwrap();
    s.ensure_track(track("Y", None), 1).unwrap();
    s.index_raw_file(&id, "spotify", "track", "X", "raw/spotify/track/X.json.zst", 1);
    s.upsert_features_num(&id, "ab", &vec![("a".to_string(), 1.0f64.to_bits())], 1);
    let mut back = Persistent::restore(s.tracks.clone(), s.jobs.clone(), s.raw_files.clone(), s.features.clone())
        .expect("valid rows restore");
    assert_eq!(back.next_job_id, 3);
    back.enqueue_job_if_missing(&id, JobType::Features, 2).unwrap();
    assert_eq!(back.jobs[2].job_id, 3);

    let mut dup_jobs = s.jobs.clone();
    dup_jobs[1].track_id = dup_jobs[0].track_id.clone();
    assert!(Persistent::restore(s.tracks.clone(), dup_jobs, vec![], vec![]).is_none());

    let mut bad_id = s.jobs.clone();
    bad_id[0].job_id = 0;
    assert!(Persistent::restore(s.tracks.clone(), bad_id, vec![], vec![]).is_none());

    let mut unlinked = s.tracks.clone();
    unlinked[0].linked_ok = true;
    assert!(Persistent::restore(unlinked, s.jobs.clone(), vec![], vec![]).is_none());

    let mut same_isrc = s.tracks.clone();
    same_isrc[1].isrc = Some("AUUM71900929".to_string());
    assert!(Persistent::restore(same_isrc, vec![], vec![], vec![]).is_none());

    let raws = vec![s.raw_files[0].clone(), s.raw_files[0].clone()];
    assert!(Persistent::restore(vec![], vec![], raws, vec![]).is_none());
    let feats = vec![s.features[0].clone(), s.features[0].clone()];
    assert!(Persistent::restore(vec![], vec![], vec![], feats).is_none());
}

#[test]
fn stamps_never_go_backwards() {
    let mut s = Persistent::new();
    let (id, _) = s.upsert_track(track("X", None), 10).unwrap();
    s.upsert_track(track("X", None), 5).unwrap();
    assert_eq!(s.tracks[0].updated_at, 10);
    s.set_mbid(&id, "m", 7).unwrap();
    assert_eq!(s.tracks[0].updated_at, 10);
    s.mark_features_ok(&id, 12).unwrap();
    assert_eq!(s.tracks[0].updated_at, 12);
}

#[test]
fn finish_steps_refuse_without_track_state() {
    let mut s = Persistent::new();
    let id = s.ensure_track(track("X", None), 1).unwrap();
    let ghost = Job { job_id: 1, track_id: "nope".to_string(), kind: JobType::Link, attempt: 1 };
    assert!(matches!(s.finish_link_job(&ghost, "m", 2), Err(CrawlerError::Db(_))));
    assert_eq!(s.jobs[0].status, JobStatus::Pending);
    let job = s.claim_one_job(JobType::Link, 2).unwrap().unwrap();
    assert!(s.finish_link_job(&job, "", 3).is_err());
    assert_eq!(s.jobs[0].status, JobStatus::Active);
    let features = Job { job_id: 1, track_id: id.clone(), kind: JobType::Features, attempt: 1 };
    assert!(matches!(s.finish_features_job(&features, 3), Err(CrawlerError::Db(_))));
    s.finish_link_job(&job, "m", 4).unwrap();
    assert_eq!(s.jobs[0].status, JobStatus::Done);
    assert_eq!(s.count_jobs(JobType::Features, JobStatus::Pending), 1);
}
