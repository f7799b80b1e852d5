//! Records of the crawler: jobs, tracks and the error kinds.
use vstd::prelude::*;
use crate::text::str_eq;

verus! {

/// The pipeline stage a job belongs to.
#[derive(Debug, Clone, Copy, PartialEq, Eq, Structural)]
pub enum JobType {
    Link,
    Features,
}

/// Where a job stands; `Done` and `Failed` are terminal.
#[derive(Debug, Clone, Copy, PartialEq, Eq, Structural)]
pub enum JobStatus {
    Pending,
    Active,
    Done,
    Failed,
}

/// The canonical stored form of a job kind.
pub open spec fn job_type_text(k: JobType) -> Seq<char> {
    match k {
        JobType::Link => "link"@,
        JobType::Features => "features"@,
    }
}

/// The kind whose stored form is `s`, if any.
pub open spec fn job_type_of_text(s: Seq<char>) -> Option<JobType> {
    if s == "link"@ {
        Some(JobType::Link)
    } else if s == "features"@ {
        Some(JobType::Features)
    } else {
        None
    }
}

/// The canonical stored form of a job status.
pub open spec fn job_status_text(st: JobStatus) -> Seq<char> {
    match st {
        JobStatus::Pending => "pending"@,
        JobStatus::Active => "active"@,
        JobStatus::Done => "done"@,
        JobStatus::Failed => "failed"@,
    }
}

/// The status whose stored form is `s`, if any.
pub open spec fn job_status_of_text(s: Seq<char>) -> Option<JobStatus> {
    if s == "pending"@ {
        Some(JobStatus::Pending)
    } else if s == "active"@ {
        Some(JobStatus::Active)
    } else if s == "done"@ {
        Some(JobStatus::Done)
    } else if s == "failed"@ {
        Some(JobStatus::Failed)
    } else {
        None
    }
}

impl JobType {
    pub fn as_str(self) -> (r: &'static str)
        ensures
            r@ == job_type_text(self),
    {
        match self {
            JobType::Link => "link",
            JobType::Features => "features",
        }
    }

    pub fn parse(s: &str) -> (r: Option<JobType>)
        ensures
            r == job_type_of_text(s@),
    {
        if str_eq(s, "link") {
            Some(JobType::Link)
        } else if str_eq(s, "features") {
            Some(JobType::Features)
        } else {
            None
        }
    }
}

impl JobStatus {
    pub fn as_str(self) -> (r: &'static str)
        ensures
            r@ == job_status_text(self),
    {
        match self {
            JobStatus::Pending => "pending",
            JobStatus::Active => "active",
            JobStatus::Done => "done",
            JobStatus::Failed => "failed",
        }
    }

    pub fn parse(s: &str) -> (r: Option<JobStatus>)
        ensures
            r == job_status_of_text(s@),
    {
        if str_eq(s, "pending") {
            Some(JobStatus::Pending)
        } else if str_eq(s, "active") {
            Some(JobStatus::Active)
        } else if str_eq(s, "done") {
            Some(JobStatus::Done)
        } else if str_eq(s, "failed") {
            Some(JobStatus::Failed)
        } else {
            None
        }
    }
}

/// Reading a stored kind back gives the kind that was written.
pub proof fn lemma_job_type_text_round_trip(k: JobType)
    ensures
        job_type_of_text(job_type_text(k)) == Some(k),
{
    reveal_strlit("link");
    reveal_strlit("features");
    if k == JobType::Features {
        assert("features"@[0] != "link"@[0]);
    }
}

/// Reading a stored status back gives the status that was written.
pub proof fn lemma_job_status_text_round_trip(st: JobStatus)
    ensures
        job_status_of_text(job_status_text(st)) == Some(st),
{
    reveal_strlit("pending");
    reveal_strlit("active");
    reveal_strlit("done");
    reveal_strlit("failed");
    match st {
        JobStatus::Pending => {},
        JobStatus::Active => {
            assert("active"@[0] != "pending"@[0]);
        },
        JobStatus::Done => {
            assert("done"@[0] != "pending"@[0]);
            assert("done"@[0] != "active"@[0]);
        },
        JobStatus::Failed => {
            assert("failed"@[0] != "pending"@[0]);
            assert("failed"@[0] != "active"@[0]);
            assert("failed"@[0] != "done"@[0]);
        },
    }
}

/// A claimed unit of work, as handed to a worker.
#[derive(Debug, Clone)]
pub struct Job {
    pub job_id: i64,
    pub track_id: String,
    pub kind: JobType,
    pub attempt: i64,
}

/// The stored metadata of a track, as read back for a worker.
#[derive(Debug, Clone)]
pub struct Track {
    pub id: String,
    pub title: Option<String>,
    pub spotify_id: Option<String>,
    pub artist_all: Vec<String>,
    pub isrc: Option<String>,
    pub mb_recording_id: Option<String>,
    pub linked_ok: bool,
    pub features_ok: bool,
    pub updated_at: i64,
}

/// The artist name used in textual queries: the first credited artist.
pub open spec fn first_artist_of(artists: Seq<String>) -> Seq<char> {
    if artists.len() > 0 {
        artists[0]@
    } else {
        "unknown"@
    }
}

impl Track {
    pub fn first_artist(&self) -> (r: &str)
        ensures
            r@ == first_artist_of(self.artist_all@),
    {
        if self.artist_all.len() > 0 {
            self.artist_all[0].as_str()
        } else {
            "unknown"
        }
    }
}

/// A candidate track as normalised from the catalog provider.
#[derive(Debug, Clone)]
pub struct SpotifyTrack {
    pub spotify_id: Option<String>,
    pub isrc: Option<String>,
    pub title: String,
    pub artist_all: Vec<String>,
    pub album: Option<String>,
    pub duration_ms: Option<i64>,
    pub release_date: Option<String>,
    pub explicit: Option<bool>,
    pub popularity: Option<i32>,
}

/// The error kinds of the crawler.
#[derive(Debug, Clone)]
pub enum CrawlerError {
    Config(String),
    Http(String),
    RateLimited(String),
    Parse(String),
    NotFound(String),
    Db(String),
    Io(String),
}

/// The text carried by an error.
pub open spec fn error_text(e: CrawlerError) -> Seq<char> {
    match e {
        CrawlerError::Config(s) => s@,
        CrawlerError::Http(s) => s@,
        CrawlerError::RateLimited(s) => s@,
        CrawlerError::Parse(s) => s@,
        CrawlerError::NotFound(s) => s@,
        CrawlerError::Db(s) => s@,
        CrawlerError::Io(s) => s@,
    }
}

impl CrawlerError {
    /// The text carried by the error.
    pub fn message(&self) -> (r: &str)
        ensures
            r@ == error_text(*self),
    {
        match self {
            CrawlerError::Config(s) => s.as_str(),
            CrawlerError::Http(s) => s.as_str(),
            CrawlerError::RateLimited(s) => s.as_str(),
            CrawlerError::Parse(s) => s.as_str(),
            CrawlerError::NotFound(s) => s.as_str(),
            CrawlerError::Db(s) => s.as_str(),
            CrawlerError::Io(s) => s.as_str(),
        }
    }
}

} // verus!
