//! The decisions of the feed and link stages: admission control, token
//! refresh, search parameters, how a track is looked up at the authority,
//! and which recording id is taken from its answer.
use vstd::prelude::*;
use rand::{Rng, SeedableRng};
use crate::json::{get_str, member, text_of, Json};
use crate::model::{first_artist_of, CrawlerError, Track};
use crate::text::{decimal, owned, push_decimal, push_str};

verus! {

/// Feed pauses while this many link jobs are pending.
pub const MIN_PENDING: usize = 50;

/// Token lifetime assumed when the provider does not state one, in seconds.
pub const DEFAULT_EXPIRES_IN_S: u64 = 3600;

/// How long before its stated expiry a token is refreshed, in seconds.
pub const TOKEN_SLACK_S: u64 = 60;

/// Earliest release year searched.
pub const SEARCH_YEAR_MIN: u32 = 1950;

/// Latest release year searched.
pub const SEARCH_YEAR_MAX: u32 = 2025;

/// Search offsets are drawn below this bound.
pub const SEARCH_OFFSET_BOUND: u32 = 1000;

/// Results requested per search page.
pub const SEARCH_PAGE_SIZE: u32 = 50;

/// Whether feed waits instead of ingesting, given the pending link jobs.
pub fn feed_should_wait(pending_links: usize) -> (r: bool)
    ensures
        r == (pending_links >= MIN_PENDING),
{
    pending_links >= MIN_PENDING
}

/// Whether a new bearer token is needed: none is held, or it expired.
pub fn needs_token_refresh(has_token: bool, now_s: u64, expiry_s: u64) -> (r: bool)
    ensures
        r == (!has_token || now_s >= expiry_s),
{
    !has_token || now_s >= expiry_s
}

/// When a token obtained at `now` with lifetime `expires_in` is refreshed:
/// the stated lifetime (3600 s when absent) less sixty seconds, not before
/// `now` and saturating at the clock's end.
pub open spec fn token_expiry_spec(now: u64, expires_in: Option<u64>) -> nat {
    let life: nat = match expires_in {
        Some(e) => e as nat,
        None => DEFAULT_EXPIRES_IN_S as nat,
    };
    let usable: nat = if life >= TOKEN_SLACK_S {
        (life - TOKEN_SLACK_S) as nat
    } else {
        0
    };
    if now + usable > u64::MAX {
        u64::MAX as nat
    } else {
        (now + usable) as nat
    }
}

/// The refresh instant of a token obtained at `now_s`.
pub fn token_expiry(now_s: u64, expires_in: Option<u64>) -> (r: u64)
    ensures
        r == token_expiry_spec(now_s, expires_in),
{
    let life = match expires_in {
        Some(e) => e,
        None => DEFAULT_EXPIRES_IN_S,
    };
    let usable = if life >= TOKEN_SLACK_S {
        life - TOKEN_SLACK_S
    } else {
        0
    };
    if now_s > u64::MAX - usable {
        u64::MAX
    } else {
        now_s + usable
    }
}

/// The non-negative integer value of a number.
pub open spec fn uint_of(v: Option<Json>) -> Option<u64> {
    match v {
        Some(Json::Number(n)) => n.uint,
        _ => None,
    }
}

/// Reads a token response received at `now_s`: the bearer string and its
/// refresh instant. A response without an `access_token` string is an
/// HTTP error.
pub fn parse_token_response(v: &Json, now_s: u64) -> (r: Result<(String, u64), CrawlerError>)
    ensures
        text_of(member(*v, "access_token"@)) is None <==> r is Err,
        r is Err ==> r matches Err(CrawlerError::Http(_)),
        r matches Ok(p) ==> Some(p.0@) == text_of(member(*v, "access_token"@)) && p.1 == token_expiry_spec(
            now_s,
            uint_of(member(*v, "expires_in"@)),
        ),
{
    let token = match get_str(v, "access_token") {
        Some(t) => owned(t),
        None => {
            return Err(CrawlerError::Http(owned("no access_token in response")));
        },
    };
    let expires_in = match v.get("expires_in") {
        Some(Json::Number(n)) => n.uint,
        _ => None,
    };
    Ok((token, token_expiry(now_s, expires_in)))
}

/// Relies on `rand::Rng::gen_range` over a small generator seeded from the
/// operating system: a uniformly drawn year within the inclusive range.
#[verifier::external_body]
fn draw_year() -> (r: u32)
    ensures
        SEARCH_YEAR_MIN <= r <= SEARCH_YEAR_MAX,
{
    rand::rngs::SmallRng::from_entropy().gen_range(SEARCH_YEAR_MIN..=SEARCH_YEAR_MAX)
}

/// Relies on `rand::Rng::gen_range` over a small generator seeded from the
/// operating system: a uniformly drawn offset below the exclusive bound.
#[verifier::external_body]
fn draw_offset() -> (r: u32)
    ensures
        r < SEARCH_OFFSET_BOUND,
{
    rand::rngs::SmallRng::from_entropy().gen_range(0..SEARCH_OFFSET_BOUND)
}

/// The catalog search for tracks released in `year`: `year:<year>`.
pub fn search_query(year: u32) -> (r: String)
    ensures
        r@ == "year:"@ + decimal(year as nat),
{
    let mut q = String::new();
    push_str(&mut q, "year:");
    push_decimal(&mut q, year as u64);
    q
}

/// A catalog search: its query text and result offset.
pub struct SearchPlan {
    pub year: u32,
    pub query: String,
    pub offset: u32,
    pub limit: u32,
}

/// Draws the next catalog search: a year in 1950..=2025 and an offset in
/// 0..1000, fifty results per page.
pub fn plan_search() -> (r: SearchPlan)
    ensures
        SEARCH_YEAR_MIN <= r.year <= SEARCH_YEAR_MAX,
        r.query@ == "year:"@ + decimal(r.year as nat),
        r.offset < SEARCH_OFFSET_BOUND,
        r.limit == SEARCH_PAGE_SIZE,
{
    let year = draw_year();
    let offset = draw_offset();
    SearchPlan { year, query: search_query(year), offset, limit: SEARCH_PAGE_SIZE }
}

/// The authority's textual query for a recording:
/// `recording:"<title>" AND artist:"<artist>"`.
pub open spec fn recording_query_spec(title: Seq<char>, artist: Seq<char>) -> Seq<char> {
    "recording:\""@ + title + "\" AND artist:\""@ + artist + "\""@
}

/// Builds the authority's textual query for a recording.
pub fn recording_query(title: &str, artist: &str) -> (r: String)
    ensures
        r@ == recording_query_spec(title@, artist@),
{
    let mut q = String::new();
    push_str(&mut q, "recording:\"");
    push_str(&mut q, title);
    push_str(&mut q, "\" AND artist:\"");
    push_str(&mut q, artist);
    push_str(&mut q, "\"");
    q
}

/// How a track is looked up at the authority.
#[derive(Debug, Clone)]
pub enum LinkLookup {
    /// By its international standard recording code.
    ByIsrc(String),
    /// By a textual query.
    ByQuery(String),
}

/// The title used in textual queries: the stored title, or empty.
pub open spec fn title_or_empty(t: Option<String>) -> Seq<char> {
    match t {
        Some(s) => s@,
        None => Seq::empty(),
    }
}

/// Chooses the lookup of a track: by its recording code when it has one,
/// else by its title and first artist.
pub fn plan_link_lookup(meta: &Track) -> (r: LinkLookup)
    ensures
        meta.isrc matches Some(c) ==> (r matches LinkLookup::ByIsrc(x) && x@ == c@),
        meta.isrc is None ==> (r matches LinkLookup::ByQuery(q) && q@ == recording_query_spec(
            title_or_empty(meta.title),
            first_artist_of(meta.artist_all@),
        )),
{
    match &meta.isrc {
        Some(c) => LinkLookup::ByIsrc(c.clone()),
        None => {
            let title: &str = match &meta.title {
                Some(t) => t.as_str(),
                None => "",
            };
            proof {
                reveal_strlit("");
            }
            assert(title@ == title_or_empty(meta.title));
            LinkLookup::ByQuery(recording_query(title, meta.first_artist()))
        },
    }
}

/// The first `id` string among the recordings.
pub open spec fn first_id(items: Seq<Json>) -> Option<Seq<char>>
    decreases items.len(),
{
    if items.len() == 0 {
        None
    } else {
        match text_of(member(items[0], "id"@)) {
            Some(id) => Some(id),
            None => first_id(items.drop_first()),
        }
    }
}

/// Picks the recording id from an authority answer: the first entry of
/// `recordings` that carries a string `id`. An answer without a
/// `recordings` array is a parse error; one without such an entry means
/// the recording was not found.
pub fn first_recording_id(resp: &Json) -> (r: Result<String, CrawlerError>)
    ensures
        !(member(*resp, "recordings"@) matches Some(Json::Array(_))) ==> r matches Err(CrawlerError::Parse(_)),
        member(*resp, "recordings"@) matches Some(Json::Array(items)) ==> match first_id(items@) {
            Some(id) => (r matches Ok(s) && s@ == id),
            None => r matches Err(CrawlerError::NotFound(_)),
        },
{
    let items = match resp.get("recordings") {
        Some(Json::Array(items)) => items,
        _ => {
            return Err(CrawlerError::Parse(owned("no recordings array in response")));
        },
    };
    let mut i: usize = 0;
    assert(items@.subrange(0, items@.len() as int) =~= items@);
    while i < items.len()
        invariant
            i <= items@.len(),
            member(*resp, "recordings"@) == Some(Json::Array(*items)),
            first_id(items@) == first_id(items@.subrange(i as int, items@.len() as int)),
        decreases items@.len() - i,
    {
        let ghost rest = items@.subrange(i as int, items@.len() as int);
        assert(rest.drop_first() =~= items@.subrange(i + 1, items@.len() as int));
        assert(rest[0] == items@[i as int]);
        match get_str(&items[i], "id") {
            Some(id) => {
                return Ok(owned(id));
            },
            None => {},
        }
        i = i + 1;
    }
    Err(CrawlerError::NotFound(owned("no recording for ISRC")))
}

} // verus!
