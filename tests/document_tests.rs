use track_crawler::catalog::{join_ids, search_track_ids};
use track_crawler::json::{Json, JsonNumber};
use track_crawler::model::{CrawlerError, JobStatus, JobType, SpotifyTrack};
use track_crawler::pipeline::{
    feed_should_wait, first_recording_id, needs_token_refresh, parse_token_response, plan_link_lookup,
    plan_search, recording_query, search_query, token_expiry, LinkLookup,
};
use track_crawler::sink::{DiskZstdSink, RawType};
use track_crawler::store::{FeatureValue, Persistent};
use track_crawler::worker::{
    begin_features_job, begin_link_job, complete_link_job, store_high_level, store_low_level, store_tags,
    FeaturesPlan, LinkPlan,
};

fn s(x: &str) -> Json {
    Json::Str(x.to_string())
}

fn f(x: f64) -> Json {
    Json::Number(JsonNumber { int: None, uint: None, float_bits: x.to_bits() })
}

fn i(x: i64) -> Json {
    Json::Number(JsonNumber { int: Some(x), uint: if x >= 0 { Some(x as u64) } else { None }, float_bits: (x as f64).to_bits() })
}

fn obj(entries: Vec<(&str, Json)>) -> Json {
    Json::Object(entries.into_iter().map(|(k, v)| (k.to_string(), v)).collect())
}

fn track_doc(id: &str, isrc: &str) -> Json {
    obj(vec![
        ("id", s(id)),
        ("name", s("Song / Live")),
        ("artists", Json::Array(vec![obj(vec![("name", s("A"))]), obj(vec![("id", s("x"))]), obj(vec![("name", s("B"))])])),
        ("album", obj(vec![("name", s("Alb")), ("release_date", s("2001-02-03"))])),
        ("external_ids", obj(vec![("isrc", s(isrc))])),
        ("duration_ms", i(215000)),
        ("explicit", Json::Bool(true)),
        ("popularity", i(77)),
    ])
}

#[test]
fn high_level_extraction() {
    let doc = obj(vec![(
        "highlevel",
        obj(vec![("mood", obj(vec![("value", s("happy")), ("all", obj(vec![("happy", f(0.8)), ("sad", f(0.2))]))]))]),
    )]);
    let (nums, texts) = DiskZstdSink::extract_high_level(&doc);
    let odd = obj(vec![("highlevel", obj(vec![("genre x", obj(vec![("all", obj(vec![("a/b", f(1.0))]))]))]))]);
    assert_eq!(DiskZstdSink::extract_high_level(&odd).0[0].0, "ab.highlevel.genre_x.all.a_b");
    assert_eq!(texts, vec![("ab.highlevel.mood.value".to_string(), "happy".to_string())]);
    assert_eq!(
        nums,
        vec![
            ("ab.highlevel.mood.all.happy".to_string(), 0.8f64.to_bits()),
            ("ab.highlevel.mood.all.sad".to_string(), 0.2f64.to_bits()),
        ]
    );
    let (n2, t2) = DiskZstdSink::extract_high_level(&obj(vec![("other", obj(vec![]))]));
    assert!(n2.is_empty() && t2.is_empty());
}

#[test]
fn low_level_extraction() {
    let doc = obj(vec![(
        "lowlevel",
        obj(vec![
            ("average loudness", f(0.5)),
            ("mfcc", obj(vec![("mean", Json::Array(vec![f(1.5), i(2)]))])),
            ("flag", Json::Bool(true)),
            ("name", s("ignored")),
            ("none", Json::Null),
        ]),
    )]);
    let out = DiskZstdSink::extract_low_level(&doc);
    assert_eq!(
        out,
        vec![
            ("ab.lowlevel.average_loudness".to_string(), 0.5f64.to_bits()),
            ("ab.lowlevel.mfcc.mean.00".to_string(), 1.5f64.to_bits()),
            ("ab.lowlevel.mfcc.mean.01".to_string(), 2.0f64.to_bits()),
            ("ab.lowlevel.flag".to_string(), 1.0f64.to_bits()),
        ]
    );
    assert!(DiskZstdSink::extract_low_level(&obj(vec![])).is_empty());
}

#[test]
fn long_arrays_keep_full_index() {
    let items: Vec<Json> = (0..12).map(|k| i(k)).collect();
    let doc = obj(vec![("lowlevel", obj(vec![("v", Json::Array(items))]))]);
    let out = DiskZstdSink::extract_low_level(&doc);
    assert_eq!(out.len(), 12);
    assert_eq!(out[9].0, "ab.lowlevel.v.09");
    assert_eq!(out[11].0, "ab.lowlevel.v.11");
}

#[test]
fn sanitize_and_paths() {
    assert_eq!(DiskZstdSink::sanitize_key("a b/c.d-e_f9"), "a_b_c_d-e_f9");
    assert_eq!(DiskZstdSink::sanitize_key("é"), "_");
    assert_eq!(
        DiskZstdSink::rel_path(RawType::ABHighLevel, "m-1".to_string()),
        "raw/acousticbrainz/high-level/m-1.json.zst"
    );
    assert_eq!(DiskZstdSink::rel_path(RawType::SpotifyTrack, "k".to_string()), "raw/spotify/track/k.json.zst");
    assert_eq!(DiskZstdSink::new("r".to_string(), 99).level, 21);
    assert_eq!(DiskZstdSink::new("r".to_string(), -3).level, 0);
    assert_eq!(DiskZstdSink::new("r".to_string(), 3).level, 3);
}

#[test]
fn catalog_track_normalised() {
    let t = SpotifyTrack::new(&track_doc("6GtOsEzNUhJghrIf6UTbRV", "AUUM71900929"));
    assert_eq!(t.spotify_id.as_deref(), Some("6GtOsEzNUhJghrIf6UTbRV"));
    assert_eq!(t.isrc.as_deref(), Some("AUUM71900929"));
    assert_eq!(t.title, "Song / Live");
    assert_eq!(t.artist_all, vec!["A".to_string(), "B".to_string()]);
    assert_eq!(t.album.as_deref(), Some("Alb"));
    assert_eq!(t.release_date.as_deref(), Some("2001-02-03"));
    assert_eq!(t.duration_ms, Some(215000));
    assert_eq!(t.explicit, Some(true));
    assert_eq!(t.popularity, Some(77));
    let empty = SpotifyTrack::new(&Json::Null);
    assert_eq!(empty.spotify_id, None);
    assert_eq!(empty.title, "");
    assert!(empty.artist_all.is_empty());
}

#[test]
fn search_ids_joined() {
    let page = obj(vec![(
        "tracks",
        obj(vec![("items", Json::Array(vec![obj(vec![("id", s("a"))]), obj(vec![]), obj(vec![("id", s("b"))])]))]),
    )]);
    let ids = search_track_ids(&page);
    assert_eq!(ids, vec!["a".to_string(), "b".to_string()]);
    assert_eq!(join_ids(&ids), "a,b");
    assert_eq!(join_ids(&vec![]), "");
    assert!(search_track_ids(&Json::Null).is_empty());
}

#[test]
fn feed_decisions() {
    assert!(feed_should_wait(50));
    assert!(!feed_should_wait(49));
    assert!(needs_token_refresh(false, 0, 100));
    assert!(needs_token_refresh(true, 100, 100));
    assert!(!needs_token_refresh(true, 99, 100));
    assert_eq!(token_expiry(1000, None), 1000 + 3540);
    assert_eq!(token_expiry(1000, Some(120)), 1060);
    assert_eq!(token_expiry(1000, Some(30)), 1000);
    assert_eq!(token_expiry(u64::MAX - 5, Some(3600)), u64::MAX);
    assert_eq!(search_query(1987), "year:1987");
    for _ in 0..20 {
        let p = plan_search();
        assert!(p.year >= 1950 && p.year <= 2025);
        assert!(p.offset < 1000);
        assert_eq!(p.limit, 50);
        assert_eq!(p.query, format!("year:{}", p.year));
    }
}

#[test]
fn token_response() {
    let ok = parse_token_response(&obj(vec![("access_token", s("tok")), ("expires_in", i(600))]), 10).unwrap();
    assert_eq!(ok, ("tok".to_string(), 550));
    let dflt = parse_token_response(&obj(vec![("access_token", s("tok"))]), 10).unwrap();
    assert_eq!(dflt.1, 3550);
    assert!(matches!(parse_token_response(&obj(vec![]), 10), Err(CrawlerError::Http(_))));
}

#[test]
fn recording_id_pick() {
    let ans = obj(vec![("recordings", Json::Array(vec![obj(vec![("title", s("t"))]), obj(vec![("id", s("mbid-1"))])]))]);
    assert_eq!(first_recording_id(&ans).unwrap(), "mbid-1");
    assert!(matches!(
        first_recording_id(&obj(vec![("recordings", Json::Array(vec![]))])),
        Err(CrawlerError::NotFound(_))
    ));
    assert!(matches!(first_recording_id(&obj(vec![])), Err(CrawlerError::Parse(_))));
    assert_eq!(recording_query("T", "A"), "recording:\"T\" AND artist:\"A\"");
}

#[test]
fn end_to_end_link() {
    let mut store = Persistent::new();
    let mut t = SpotifyTrack::new(&track_doc("X", "AUUM71900929"));
    t.title = "T".to_string();
    let id = store.ensure_track(t, 1).unwrap();
    let job = store.claim_one_job(JobType::Link, 2).unwrap().unwrap();
    match begin_link_job(&mut store, &job, 3) {
        LinkPlan::Lookup(LinkLookup::ByIsrc(c)) => assert_eq!(c, "AUUM71900929"),
        other => panic!("unexpected plan {:?}", other),
    }
    let answer = obj(vec![("recordings", Json::Array(vec![obj(vec![("id", s("mbid-1"))])]))]);
    assert_eq!(complete_link_job(&mut store, &job, &answer, 4).unwrap(), "mbid-1");
    let meta = store.get_track_metadata(&id).unwrap();
    assert_eq!(meta.mb_recording_id.as_deref(), Some("mbid-1"));
    assert!(meta.linked_ok);
    assert_eq!(store.jobs[0].status, JobStatus::Done);
    assert_eq!(store.jobs[1].kind, JobType::Features);
    assert_eq!(store.jobs[1].status, JobStatus::Pending);
}

#[test]
fn link_by_query_without_isrc() {
    let mut store = Persistent::new();
    let mut t = SpotifyTrack::new(&track_doc("X", "C"));
    t.isrc = None;
    store.ensure_track(t, 1).unwrap();
    let job = store.claim_one_job(JobType::Link, 2).unwrap().unwrap();
    let meta = store.get_track_metadata(&job.track_id).unwrap();
    match plan_link_lookup(&meta) {
        LinkLookup::ByQuery(q) => assert_eq!(q, "recording:\"Song / Live\" AND artist:\"A\""),
        other => panic!("unexpected plan {:?}", other),
    }
}

#[test]
fn link_job_of_missing_track_fails() {
    let mut store = Persistent::new();
    store.upsert_track_with_id(SpotifyTrack::new(&track_doc("X", "C")), "t1".to_string(), 1).unwrap();
    store.enqueue_job_if_missing("ghost", JobType::Link, 1).unwrap();
    let job = store.claim_one_job(JobType::Link, 2).unwrap().unwrap();
    assert!(matches!(begin_link_job(&mut store, &job, 3), LinkPlan::TrackMissing));
    assert_eq!(store.jobs[0].status, JobStatus::Failed);
    assert_eq!(store.jobs[0].last_error.as_deref(), Some("track not found"));
}

#[test]
fn link_answer_without_recording_fails_job() {
    let mut store = Persistent::new();
    store.ensure_track(SpotifyTrack::new(&track_doc("X", "C")), 1).unwrap();
    let job = store.claim_one_job(JobType::Link, 2).unwrap().unwrap();
    let res = complete_link_job(&mut store, &job, &obj(vec![("recordings", Json::Array(vec![]))]), 3);
    assert!(matches!(res, Err(CrawlerError::NotFound(_))));
    assert_eq!(store.jobs[0].status, JobStatus::Failed);
    assert_eq!(store.jobs.len(), 1);
}

#[test]
fn features_job_with_tag_fallback() {
    let mut store = Persistent::new();
    let id = store.ensure_track(SpotifyTrack::new(&track_doc("X", "C")), 1).unwrap();
    store.set_mbid(&id, "mbid-1", 2).unwrap();
    store.enqueue_features(&id, 2).unwrap();
    let job = store.claim_one_job(JobType::Features, 3).unwrap().unwrap();
    let (mbid, artist) = match begin_features_job(&mut store, &job, 3) {
        FeaturesPlan::Fetch { mbid, title, artist } => {
            assert_eq!(title, "Song / Live");
            (mbid, artist)
        }
        other => panic!("unexpected plan {:?}", other),
    };
    assert_eq!(mbid, "mbid-1");
    assert_eq!(artist, "A");
    let hl = obj(vec![(
        "highlevel",
        obj(vec![("mood", obj(vec![("value", s("happy")), ("all", obj(vec![("happy", f(0.8)), ("sad", f(0.2))]))]))]),
    )]);
    store_high_level(&mut store, &id, &mbid, &hl, "raw/acousticbrainz/high-level/mbid-1.json.zst", 4);
    store_low_level(&mut store, &id, &mbid, &obj(vec![("lowlevel", obj(vec![("x", f(1.0))]))]), "raw/acousticbrainz/low-level/mbid-1.json.zst", 4);
    let tags = vec![
        ("lastfm.toptags.rock.count".to_string(), 3.0f64.to_bits()),
        ("lastfm.toptags.rock.p".to_string(), 1.0f64.to_bits()),
    ];
    store_tags(&mut store, &id, &mbid, &tags, "raw/lastfm/toptags/mbid-1.json.zst", 5);
    store.finish_features_job(&job, 6).unwrap();
    assert_eq!(store.jobs[1].status, JobStatus::Done);
    assert!(store.get_track_metadata(&id).unwrap().features_ok);
    assert_eq!(store.raw_files.len(), 3);
    let ab: Vec<_> = store.features.iter().filter(|r| r.source == "acousticbrainz").collect();
    assert_eq!(ab.len(), 4);
    assert!(ab.iter().any(|r| r.feature == "ab.highlevel.mood.value"
        && matches!(&r.value, FeatureValue::Text(t) if t == "happy")));
    let p: Vec<_> = store.features.iter().filter(|r| r.feature.ends_with(".p")).collect();
    assert_eq!(p.len(), 1);
}

#[test]
fn features_job_without_recording_fails() {
    let mut store = Persistent::new();
    let id = store.ensure_track(SpotifyTrack::new(&track_doc("X", "C")), 1).unwrap();
    store.enqueue_job_if_missing(&id, JobType::Features, 1).unwrap();
    let job = store.claim_one_job(JobType::Features, 2).unwrap().unwrap();
    assert!(matches!(begin_features_job(&mut store, &job, 3), FeaturesPlan::NoRecording));
    assert_eq!(store.jobs[1].status, JobStatus::Failed);
}

#[test]
fn batch_ingest_skips_nulls() {
    let mut store = Persistent::new();
    let mut nameless = track_doc("Z", "C2");
    if let Json::Object(es) = &mut nameless {
        es.retain(|(k, _)| k != "id");
    }
    let batch = obj(vec![("tracks", Json::Array(vec![track_doc("A", "C1"), Json::Null, nameless, track_doc("B", "C3")]))]);
    let out = track_crawler::worker::ingest_batch(&mut store, &batch, 1);
    let positions: Vec<usize> = out.iter().map(|x| x.position).collect();
    assert_eq!(positions, vec![0, 2, 3]);
    assert!(out[1].result.is_err());
    assert_eq!(out[0].spotify_id.as_deref(), Some("A"));
    let id_b = out[2].result.as_ref().unwrap();
    assert_eq!(store.get_track_id("B").as_ref(), Some(id_b));
    assert_eq!(store.count_jobs(JobType::Link, JobStatus::Pending), 2);
}

#[test]
fn spotify_track_pruned() {
    let mut doc = track_doc("X", "C1");
    if let Json::Object(es) = &mut doc {
        es.push(("preview_url".to_string(), s("http://p")));
        es.push(("available_markets".to_string(), Json::Array(vec![s("US")])));
    }
    let out = DiskZstdSink::prune_spotify_track(&doc);
    let keys: Vec<String> = match &out {
        Json::Object(es) => es.iter().map(|(k, _)| k.clone()).collect(),
        _ => panic!("not an object"),
    };
    assert_eq!(keys, vec!["id", "name", "duration_ms", "explicit", "popularity", "album", "artists", "external_ids"]);
    assert_eq!(out.get("id").and_then(|x| x.as_str()), Some("X"));
    match out.get("artists") {
        Some(Json::Array(a)) => {
            assert_eq!(a.len(), 3);
            assert_eq!(a[1].get("id").and_then(|x| x.as_str()), Some("x"));
            assert!(a[1].get("name").is_none());
        }
        _ => panic!("artists missing"),
    }
    assert_eq!(out.get("external_ids").and_then(|e| e.get("isrc")).and_then(|x| x.as_str()), Some("C1"));
    match DiskZstdSink::prune_spotify_track(&obj(vec![("x", i(1))])) {
        Json::Object(es) => assert!(es.is_empty()),
        _ => panic!("not an object"),
    }
}

#[test]
fn pruning_twice_changes_nothing() {
    let once = DiskZstdSink::prune_spotify_track(&track_doc("X", "C1"));
    let twice = DiskZstdSink::prune_spotify_track(&once);
    assert_eq!(format!("{:?}", once), format!("{:?}", twice));
}
