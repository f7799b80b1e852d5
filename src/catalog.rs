//! Reading catalog-provider documents: the normalised track record, and
//! the ids of a search page joined for a batch fetch.
use vstd::prelude::*;
use crate::json::{get_str, member, member2, text_of, Json};
use crate::model::SpotifyTrack;
use crate::text::{owned, push_str};

verus! {

/// The integer value of a number.
pub open spec fn int_of(v: Option<Json>) -> Option<i64> {
    match v {
        Some(Json::Number(n)) => n.int,
        _ => None,
    }
}

/// The value of a boolean.
pub open spec fn bool_of(v: Option<Json>) -> Option<bool> {
    match v {
        Some(Json::Bool(b)) => Some(b),
        _ => None,
    }
}

/// An optional string holds exactly the optional text `t`.
pub open spec fn same_text(o: Option<String>, t: Option<Seq<char>>) -> bool {
    match o {
        Some(s) => t == Some(s@),
        None => t is None,
    }
}

/// The texts of a list of strings.
pub open spec fn texts(v: Seq<String>) -> Seq<Seq<char>> {
    v.map_values(|s: String| s@)
}

/// The `name` strings among the artist entries, in order.
pub open spec fn artist_names(items: Seq<Json>) -> Seq<Seq<char>>
    decreases items.len(),
{
    if items.len() == 0 {
        seq![]
    } else {
        artist_names(items.drop_last()) + match text_of(member(items.last(), "name"@)) {
            Some(n) => seq![n],
            None => seq![],
        }
    }
}

/// The artist names of a track document.
pub open spec fn artists_of(v: Json) -> Seq<Seq<char>> {
    match member(v, "artists"@) {
        Some(Json::Array(items)) => artist_names(items@),
        _ => seq![],
    }
}

/// `t` is the normalised form of the track document `v`.
pub open spec fn is_track_of(t: SpotifyTrack, v: Json) -> bool {
    &&& same_text(t.spotify_id, text_of(member(v, "id"@)))
    &&& same_text(t.isrc, text_of(member2(v, "external_ids"@, "isrc"@)))
    &&& t.title@ == match text_of(member(v, "name"@)) {
        Some(s) => s,
        None => Seq::empty(),
    }
    &&& texts(t.artist_all@) == artists_of(v)
    &&& same_text(t.album, text_of(member2(v, "album"@, "name"@)))
    &&& t.duration_ms == int_of(member(v, "duration_ms"@))
    &&& same_text(t.release_date, text_of(member2(v, "album"@, "release_date"@)))
    &&& t.explicit == bool_of(member(v, "explicit"@))
    &&& t.popularity == match int_of(member(v, "popularity"@)) {
        Some(x) => Some(#[verifier::truncate] (x as i32)),
        None => None,
    }
}

/// An owned copy of the text of the member `key`, if it is a string.
fn opt_string(v: &Json, key: &str) -> (r: Option<String>)
    ensures
        same_text(r, text_of(member(*v, key@))),
{
    match get_str(v, key) {
        Some(s) => Some(owned(s)),
        None => None,
    }
}

/// An owned copy of the text of `v.k1.k2`, if it is a string.
fn opt_string2(v: &Json, k1: &str, k2: &str) -> (r: Option<String>)
    ensures
        same_text(r, text_of(member2(*v, k1@, k2@))),
{
    match v.get(k1) {
        Some(m) => opt_string(m, k2),
        None => None,
    }
}

/// The artist names of a track document.
fn artist_list(v: &Json) -> (r: Vec<String>)
    ensures
        texts(r@) == artists_of(*v),
{
    let mut out: Vec<String> = Vec::new();
    let items = match v.get("artists") {
        Some(Json::Array(items)) => items,
        _ => {
            assert(texts(out@) =~= artists_of(*v));
            return out;
        },
    };
    let mut i: usize = 0;
    assert(texts(out@) =~= artist_names(items@.subrange(0, 0)));
    while i < items.len()
        invariant
            i <= items@.len(),
            artists_of(*v) == artist_names(items@),
            texts(out@) == artist_names(items@.subrange(0, i as int)),
        decreases items@.len() - i,
    {
        assert(items@.subrange(0, i + 1).drop_last() =~= items@.subrange(0, i as int));
        match get_str(&items[i], "name") {
            Some(n) => {
                out.push(owned(n));
            },
            None => {},
        }
        i = i + 1;
        assert(texts(out@) =~= artist_names(items@.subrange(0, i as int)));
    }
    assert(items@.subrange(0, i as int) =~= items@);
    out
}

impl SpotifyTrack {
    /// Normalises a catalog track document.
    pub fn new(track: &Json) -> (r: SpotifyTrack)
        ensures
            is_track_of(r, *track),
    {
        let title = match get_str(track, "name") {
            Some(s) => owned(s),
            None => {
                proof {
                    reveal_strlit("");
                }
                owned("")
            },
        };
        let duration_ms = match track.get("duration_ms") {
            Some(Json::Number(n)) => n.int,
            _ => None,
        };
        let explicit = match track.get("explicit") {
            Some(Json::Bool(b)) => Some(*b),
            _ => None,
        };
        let popularity = match track.get("popularity") {
            Some(Json::Number(n)) => match n.int {
                Some(x) => Some(#[verifier::truncate] (x as i32)),
                None => None,
            },
            _ => None,
        };
        let r = SpotifyTrack {
            spotify_id: opt_string(track, "id"),
            isrc: opt_string2(track, "external_ids", "isrc"),
            title,
            artist_all: artist_list(track),
            album: opt_string2(track, "album", "name"),
            duration_ms,
            release_date: opt_string2(track, "album", "release_date"),
            explicit,
            popularity,
        };
        assert(texts(r.artist_all@) == artists_of(*track));
        assert(r.title@ == match text_of(member(*track, "name"@)) {
            Some(s) => s,
            None => Seq::empty(),
        });
        assert(r.duration_ms == int_of(member(*track, "duration_ms"@)));
        assert(r.explicit == bool_of(member(*track, "explicit"@)));
        r
    }
}

/// The `id` strings among the search items, in order.
pub open spec fn item_ids(items: Seq<Json>) -> Seq<Seq<char>>
    decreases items.len(),
{
    if items.len() == 0 {
        seq![]
    } else {
        item_ids(items.drop_last()) + match text_of(member(items.last(), "id"@)) {
            Some(n) => seq![n],
            None => seq![],
        }
    }
}

/// The items of a search page: its `tracks.items` array.
pub open spec fn search_items(v: Json) -> Seq<Json> {
    match member2(v, "tracks"@, "items"@) {
        Some(Json::Array(items)) => items@,
        _ => seq![],
    }
}

/// The track ids of a search page, in order.
pub fn search_track_ids(search: &Json) -> (r: Vec<String>)
    ensures
        texts(r@) == item_ids(search_items(*search)),
{
    let mut out: Vec<String> = Vec::new();
    let tracks = match search.get("tracks") {
        Some(t) => t,
        None => {
            assert(texts(out@) =~= item_ids(search_items(*search)));
            return out;
        },
    };
    let items = match tracks.get("items") {
        Some(Json::Array(items)) => items,
        _ => {
            assert(texts(out@) =~= item_ids(search_items(*search)));
            return out;
        },
    };
    let mut i: usize = 0;
    assert(texts(out@) =~= item_ids(items@.subrange(0, 0)));
    while i < items.len()
        invariant
            i <= items@.len(),
            search_items(*search) == items@,
            texts(out@) == item_ids(items@.subrange(0, i as int)),
        decreases items@.len() - i,
    {
        assert(items@.subrange(0, i + 1).drop_last() =~= items@.subrange(0, i as int));
        match get_str(&items[i], "id") {
            Some(n) => {
                out.push(owned(n));
            },
            None => {},
        }
        i = i + 1;
        assert(texts(out@) =~= item_ids(items@.subrange(0, i as int)));
    }
    assert(items@.subrange(0, i as int) =~= items@);
    out
}

/// Texts joined by commas.
pub open spec fn joined(v: Seq<Seq<char>>) -> Seq<char>
    decreases v.len(),
{
    if v.len() == 0 {
        Seq::empty()
    } else if v.len() == 1 {
        v[0]
    } else {
        joined(v.drop_last()) + ","@ + v.last()
    }
}

/// The ids joined by commas, as a batch fetch takes them.
pub fn join_ids(ids: &Vec<String>) -> (r: String)
    ensures
        r@ == joined(texts(ids@)),
{
    let mut out = String::new();
    let mut i: usize = 0;
    while i < ids.len()
        invariant
            i <= ids@.len(),
            out@ == joined(texts(ids@.subrange(0, i as int))),
        decreases ids@.len() - i,
    {
        assert(texts(ids@.subrange(0, i + 1)).drop_last() =~= texts(ids@.subrange(0, i as int)));
        if i > 0 {
            push_str(&mut out, ",");
        }
        push_str(&mut out, ids[i].as_str());
        i = i + 1;
        proof {
            if i == 1 {
                assert(out@ =~= texts(ids@.subrange(0, 1))[0]);
            } else {
                assert(out@ =~= joined(texts(ids@.subrange(0, i as int))));
            }
        }
    }
    assert(ids@.subrange(0, i as int) =~= ids@);
    out
}

} // verus!
