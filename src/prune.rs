//! The whitelist applied to a catalog track before its raw payload is
//! persisted.
use vstd::prelude::*;
use crate::catalog::{bool_of, int_of};
use crate::json::{entry_of, get_str, lemma_entry_of_push, member, member2, text_of, Json};
use crate::sink::DiskZstdSink;
use crate::text::owned;

verus! {

/// The member `k` of `r` is the text of the member `k` of `v`, present
/// exactly when that is a string.
pub open spec fn copies_text(r: Json, v: Json, k: Seq<char>) -> bool {
    &&& text_of(member(r, k)) == text_of(member(v, k))
    &&& (member(r, k) is Some <==> text_of(member(v, k)) is Some)
}

/// The member `k` of `r` is that of `v` when it is an integer, else absent.
pub open spec fn copies_int(r: Json, v: Json, k: Seq<char>) -> bool {
    if int_of(member(v, k)) is Some {
        member(r, k) == member(v, k)
    } else {
        member(r, k) is None
    }
}

/// The member `k` of `r` is that of `v` when it is a boolean, else absent.
pub open spec fn copies_bool(r: Json, v: Json, k: Seq<char>) -> bool {
    if bool_of(member(v, k)) is Some {
        member(r, k) == member(v, k)
    } else {
        member(r, k) is None
    }
}

/// Every entry name of `es` satisfies `allowed`.
pub open spec fn entries_among(es: Seq<(String, Json)>, allowed: spec_fn(Seq<char>) -> bool) -> bool {
    forall|i: int| 0 <= i < es.len() ==> allowed(#[trigger] es[i].0@)
}

/// `v` is an object whose member names all satisfy `allowed`.
pub open spec fn keys_among(v: Json, allowed: spec_fn(Seq<char>) -> bool) -> bool {
    match v {
        Json::Object(es) => entries_among(es@, allowed),
        _ => false,
    }
}

/// The member names a pruned track keeps.
pub open spec fn is_root_key(k: Seq<char>) -> bool {
    k == "id"@ || k == "name"@ || k == "duration_ms"@ || k == "explicit"@ || k == "popularity"@ || k == "album"@
        || k == "artists"@ || k == "external_ids"@
}

/// The member names a pruned album keeps.
pub open spec fn is_album_key(k: Seq<char>) -> bool {
    k == "id"@ || k == "name"@ || k == "release_date"@
}

/// The member names a pruned artist keeps.
pub open spec fn is_artist_key(k: Seq<char>) -> bool {
    k == "id"@ || k == "name"@
}

/// The member name a pruned recording-code object keeps.
pub open spec fn is_ids_key(k: Seq<char>) -> bool {
    k == "isrc"@
}

/// The names a pruned track keeps, as a predicate.
pub open spec fn root_keys() -> spec_fn(Seq<char>) -> bool {
    |k: Seq<char>| is_root_key(k)
}

/// The names a pruned album keeps, as a predicate.
pub open spec fn album_keys() -> spec_fn(Seq<char>) -> bool {
    |k: Seq<char>| is_album_key(k)
}

/// The names a pruned artist keeps, as a predicate.
pub open spec fn artist_keys() -> spec_fn(Seq<char>) -> bool {
    |k: Seq<char>| is_artist_key(k)
}

/// The name a pruned recording-code object keeps, as a predicate.
pub open spec fn ids_keys() -> spec_fn(Seq<char>) -> bool {
    |k: Seq<char>| is_ids_key(k)
}

/// An artist entry with an `id` or a `name` string is kept.
pub open spec fn artist_kept(a: Json) -> bool {
    text_of(member(a, "id"@)) is Some || text_of(member(a, "name"@)) is Some
}

/// `o` is the pruned copy of the artist entry `a`.
pub open spec fn artist_copy(o: Json, a: Json) -> bool {
    &&& keys_among(o, artist_keys())
    &&& copies_text(o, a, "id"@)
    &&& copies_text(o, a, "name"@)
}

/// `outs` are the pruned copies of the kept entries of `ins`, in order.
pub open spec fn artists_pruned(outs: Seq<Json>, ins: Seq<Json>) -> bool
    decreases ins.len(),
{
    if ins.len() == 0 {
        outs.len() == 0
    } else if artist_kept(ins.last()) {
        outs.len() > 0 && artist_copy(outs.last(), ins.last()) && artists_pruned(outs.drop_last(), ins.drop_last())
    } else {
        artists_pruned(outs, ins.drop_last())
    }
}

/// The artist entries of a track document.
pub open spec fn artist_inputs(v: Json) -> Seq<Json> {
    match member(v, "artists"@) {
        Some(Json::Array(items)) => items@,
        _ => seq![],
    }
}

/// The album of a track document carries one of its kept fields.
pub open spec fn album_kept(v: Json) -> bool {
    text_of(member2(v, "album"@, "id"@)) is Some || text_of(member2(v, "album"@, "name"@)) is Some || text_of(
        member2(v, "album"@, "release_date"@),
    ) is Some
}

/// `r` is the whitelisted form of the track document `v`.
pub open spec fn is_pruned_track(r: Json, v: Json) -> bool {
    &&& keys_among(r, root_keys())
    &&& (member(r, "album"@) matches Some(a) ==> keys_among(a, album_keys()))
    &&& (member(r, "external_ids"@) matches Some(x) ==> keys_among(x, ids_keys()))
    &&& copies_text(r, v, "id"@)
    &&& copies_text(r, v, "name"@)
    &&& copies_int(r, v, "duration_ms"@)
    &&& copies_bool(r, v, "explicit"@)
    &&& copies_int(r, v, "popularity"@)
    &&& (member(r, "album"@) is Some <==> album_kept(v))
    &&& text_of(member2(r, "album"@, "id"@)) == text_of(member2(v, "album"@, "id"@))
    &&& text_of(member2(r, "album"@, "name"@)) == text_of(member2(v, "album"@, "name"@))
    &&& text_of(member2(r, "album"@, "release_date"@)) == text_of(member2(v, "album"@, "release_date"@))
    &&& (member(r, "external_ids"@) is Some <==> text_of(member2(v, "external_ids"@, "isrc"@)) is Some)
    &&& text_of(member2(r, "external_ids"@, "isrc"@)) == text_of(member2(v, "external_ids"@, "isrc"@))
    &&& match member(r, "artists"@) {
        Some(Json::Array(outs)) => outs@.len() > 0 && artists_pruned(outs@, artist_inputs(v)),
        None => artists_pruned(Seq::empty(), artist_inputs(v)),
        _ => false,
    }
}

/// The entry `k` of `es` is the text of the member `k` of `v`, present
/// exactly when that is a string.
pub open spec fn entry_copies_text(es: Seq<(String, Json)>, v: Json, k: Seq<char>) -> bool {
    &&& text_of(entry_of(es, k)) == text_of(member(v, k))
    &&& (entry_of(es, k) is Some <==> text_of(member(v, k)) is Some)
}

/// Copying a kept artist entry twice is a copy of the entry.
proof fn lemma_artist_copy_twice(o2: Json, o1: Json, a: Json)
    requires
        artist_copy(o1, a),
        artist_copy(o2, o1),
    ensures
        artist_copy(o2, a),
        artist_kept(o1) == artist_kept(a),
{
}

/// Pruning the pruned artist list again prunes the original list.
proof fn lemma_artists_pruned_twice(outs2: Seq<Json>, outs1: Seq<Json>, ins: Seq<Json>)
    requires
        artists_pruned(outs1, ins),
        artists_pruned(outs2, outs1),
    ensures
        artists_pruned(outs2, ins),
    decreases ins.len(),
{
    if ins.len() > 0 {
        if artist_kept(ins.last()) {
            lemma_artist_copy_twice(outs2.last(), outs1.last(), ins.last());
            lemma_artists_pruned_twice(outs2.drop_last(), outs1.drop_last(), ins.drop_last());
        } else {
            lemma_artists_pruned_twice(outs2, outs1, ins.drop_last());
        }
    }
}

/// Pruning is stable: pruning a pruned track again yields a pruning of the
/// original track, with the same kept values.
pub proof fn lemma_prune_twice(r2: Json, r: Json, v: Json)
    requires
        is_pruned_track(r, v),
        is_pruned_track(r2, r),
    ensures
        is_pruned_track(r2, v),
{
    let ins = artist_inputs(v);
    match member(r, "artists"@) {
        Some(Json::Array(outs1)) => {
            assert(artist_inputs(r) == outs1@);
            match member(r2, "artists"@) {
                Some(Json::Array(outs2)) => {
                    lemma_artists_pruned_twice(outs2@, outs1@, ins);
                },
                _ => {
                    lemma_artists_pruned_twice(Seq::empty(), outs1@, ins);
                },
            }
        },
        _ => {
            assert(artist_inputs(r) == Seq::<Json>::empty());
            assert(artists_pruned(Seq::empty(), ins));
            match member(r2, "artists"@) {
                Some(Json::Array(outs2)) => {
                    lemma_artists_pruned_twice(outs2@, Seq::empty(), ins);
                },
                _ => {},
            }
        },
    }
}

/// Appends the entry `k: val`.
fn push_entry(es: &mut Vec<(String, Json)>, k: &str, val: Json)
    ensures
        final(es)@.len() == old(es)@.len() + 1,
        final(es)@.last().0@ == k@,
        final(es)@.last().1 == val,
        forall|q: Seq<char>|
            #[trigger] entry_of(final(es)@, q) == if entry_of(old(es)@, q) is Some {
                entry_of(old(es)@, q)
            } else if k@ == q {
                Some(val)
            } else {
                None
            },
        forall|allowed: spec_fn(Seq<char>) -> bool|
            entries_among(old(es)@, allowed) && allowed(k@) ==> #[trigger] entries_among(final(es)@, allowed),
{
    let ghost old_es = es@;
    let key = owned(k);
    let ghost e = (key, val);
    es.push((key, val));
    proof {
        assert(es@ == old_es.push(e));
        assert forall|q: Seq<char>|
            #[trigger] entry_of(es@, q) == if entry_of(old_es, q) is Some {
                entry_of(old_es, q)
            } else if k@ == q {
                Some(val)
            } else {
                None
            } by {
            lemma_entry_of_push(old_es, e, q);
        }
        assert forall|allowed: spec_fn(Seq<char>) -> bool|
            entries_among(old_es, allowed) && allowed(k@) implies #[trigger] entries_among(es@, allowed) by {
            assert forall|i: int| 0 <= i < es@.len() implies allowed(#[trigger] es@[i].0@) by {
                if i < old_es.len() {
                    assert(es@[i] == old_es[i]);
                }
            }
        }
    }
}

/// Copies the string member `k` of `v` into `es`, when it is one.
fn copy_text_entry(es: &mut Vec<(String, Json)>, v: &Json, k: &str)
    ensures
        text_of(member(*v, k@)) is None ==> final(es)@ == old(es)@,
        text_of(member(*v, k@)) matches Some(t) ==> {
            &&& final(es)@.len() == old(es)@.len() + 1
            &&& forall|q: Seq<char>|
                #[trigger] entry_of(final(es)@, q) == if entry_of(old(es)@, q) is Some {
                    entry_of(old(es)@, q)
                } else if k@ == q {
                    Some(final(es)@.last().1)
                } else {
                    None
                }
            &&& text_of(Some(final(es)@.last().1)) == Some(t)
        },
        forall|allowed: spec_fn(Seq<char>) -> bool|
            entries_among(old(es)@, allowed) && allowed(k@) ==> #[trigger] entries_among(final(es)@, allowed),
{
    match get_str(v, k) {
        Some(x) => {
            push_entry(es, k, Json::Str(owned(x)));
        },
        None => {},
    }
}

/// The pruned copy of an artist entry, if it is kept.
fn prune_artist(a: &Json) -> (r: Option<Json>)
    ensures
        r is Some <==> artist_kept(*a),
        r matches Some(o) ==> artist_copy(o, *a),
{
    let mut es: Vec<(String, Json)> = Vec::new();
    copy_text_entry(&mut es, a, "id");
    copy_text_entry(&mut es, a, "name");
    proof {
        reveal_strlit("id");
        reveal_strlit("name");
        assert(entry_of(Seq::<(String, Json)>::empty(), "id"@) is None);
        assert(entry_of(Seq::<(String, Json)>::empty(), "name"@) is None);
    }
    if es.len() == 0 {
        None
    } else {
        let o = Json::Object(es);
        assert(member(o, "id"@) == entry_of(es@, "id"@));
        Some(o)
    }
}

/// Facts about the lengths of the literal keys, which tell them apart.
proof fn lemma_key_lengths()
    ensures
        "id"@.len() == 2,
        "name"@.len() == 4,
        "duration_ms"@.len() == 11,
        "explicit"@.len() == 8,
        "popularity"@.len() == 10,
        "album"@.len() == 5,
        "artists"@.len() == 7,
        "external_ids"@.len() == 12,
        "release_date"@.len() == 12,
        "release_date"@ != "external_ids"@,
        "isrc"@.len() == 4,
{
    reveal_strlit("id");
    reveal_strlit("name");
    reveal_strlit("duration_ms");
    reveal_strlit("explicit");
    reveal_strlit("popularity");
    reveal_strlit("album");
    reveal_strlit("artists");
    reveal_strlit("external_ids");
    reveal_strlit("release_date");
    reveal_strlit("isrc");
    assert("release_date"@[0] != "external_ids"@[0]);
}

/// The kept fields of the album of `v`.
fn prune_album(v: &Json) -> (r: Vec<(String, Json)>)
    ensures
        entries_among(r@, album_keys()),
        r@.len() > 0 <==> album_kept(*v),
        text_of(entry_of(r@, "id"@)) == text_of(member2(*v, "album"@, "id"@)),
        text_of(entry_of(r@, "name"@)) == text_of(member2(*v, "album"@, "name"@)),
        text_of(entry_of(r@, "release_date"@)) == text_of(member2(*v, "album"@, "release_date"@)),
{
    proof {
        lemma_key_lengths();
    }
    let mut album: Vec<(String, Json)> = Vec::new();
    assert(entries_among(album@, album_keys()));
    let empty_album = Json::Null;
    let src_album: &Json = match v.get("album") {
        Some(a) => a,
        None => &empty_album,
    };
    assert(forall|k: Seq<char>| member2(*v, "album"@, k) == member(*src_album, k));
    assert(entry_of(album@, "id"@) is None);
    copy_text_entry(&mut album, src_album, "id");
    assert(entry_copies_text(album@, *src_album, "id"@));
    copy_text_entry(&mut album, src_album, "name");
    assert(entry_copies_text(album@, *src_album, "id"@));
    assert(entry_copies_text(album@, *src_album, "name"@));
    copy_text_entry(&mut album, src_album, "release_date");
    assert(entry_copies_text(album@, *src_album, "id"@));
    assert(entry_copies_text(album@, *src_album, "name"@));
    assert(entry_copies_text(album@, *src_album, "release_date"@));
    album
}

/// The kept artist entries of `v`, pruned.
fn prune_artists(v: &Json) -> (r: Vec<Json>)
    ensures
        artists_pruned(r@, artist_inputs(*v)),
{
    let mut artists: Vec<Json> = Vec::new();
    match v.get("artists") {
        Some(Json::Array(items)) => {
            let mut i: usize = 0;
            while i < items.len()
                invariant
                    i <= items@.len(),
                    artist_inputs(*v) == items@,
                    artists_pruned(artists@, items@.subrange(0, i as int)),
                decreases items@.len() - i,
            {
                assert(items@.subrange(0, i + 1).drop_last() =~= items@.subrange(0, i as int));
                assert(items@.subrange(0, i + 1).last() == items@[i as int]);
                let ghost before = artists@;
                match prune_artist(&items[i]) {
                    Some(o) => {
                        artists.push(o);
                        assert(artists@.drop_last() =~= before);
                    },
                    None => {},
                }
                i = i + 1;
            }
            assert(items@.subrange(0, i as int) =~= items@);
        },
        _ => {},
    }
    artists
}

/// The recording code entry of `v`, if it has one.
fn prune_external_ids(v: &Json) -> (r: Option<Vec<(String, Json)>>)
    ensures
        r matches Some(ids) ==> entries_among(ids@, ids_keys()),
        r is Some <==> text_of(member2(*v, "external_ids"@, "isrc"@)) is Some,
        r matches Some(ids) ==> text_of(entry_of(ids@, "isrc"@)) == text_of(member2(*v, "external_ids"@, "isrc"@)),
{
    match v.get("external_ids") {
        Some(ext) => match get_str(ext, "isrc") {
            Some(c) => {
                let mut ids: Vec<(String, Json)> = Vec::new();
                assert(entry_of(ids@, "isrc"@) is None);
                assert(entries_among(ids@, ids_keys()));
                push_entry(&mut ids, "isrc", Json::Str(owned(c)));
                Some(ids)
            },
            None => None,
        },
        None => None,
    }
}

impl DiskZstdSink {
    /// Keeps only the whitelisted fields of a catalog track: its id, name,
    /// duration, explicit flag and popularity; the album's id, name and
    /// release date; each artist's id and name; and the recording code.
    #[verifier::rlimit(40)]
    pub fn prune_spotify_track(v: &Json) -> (r: Json)
        ensures
            is_pruned_track(r, *v),
    {
        proof {
            lemma_key_lengths();
        }
        let album = prune_album(v);
        let artists = prune_artists(v);
        let ext = prune_external_ids(v);
        let mut root: Vec<(String, Json)> = Vec::new();
        assert(forall|k: Seq<char>| entry_of(root@, k) is None);
        assert(entries_among(root@, root_keys()));
        copy_text_entry(&mut root, v, "id");
        copy_text_entry(&mut root, v, "name");
        match v.get("duration_ms") {
            Some(Json::Number(n)) => {
                if n.int.is_some() {
                    push_entry(&mut root, "duration_ms", Json::Number(*n));
                }
            },
            _ => {},
        }
        match v.get("explicit") {
            Some(Json::Bool(b)) => {
                push_entry(&mut root, "explicit", Json::Bool(*b));
            },
            _ => {},
        }
        match v.get("popularity") {
            Some(Json::Number(n)) => {
                if n.int.is_some() {
                    push_entry(&mut root, "popularity", Json::Number(*n));
                }
            },
            _ => {},
        }
        if album.len() > 0 {
            push_entry(&mut root, "album", Json::Object(album));
        }
        let ghost ga = artists@;
        if artists.len() > 0 {
            push_entry(&mut root, "artists", Json::Array(artists));
        } else {
            assert(ga =~= Seq::<Json>::empty());
        }
        match ext {
            Some(ids) => {
                push_entry(&mut root, "external_ids", Json::Object(ids));
            },
            None => {},
        }
        assert(entries_among(root@, root_keys()));
        let r = Json::Object(root);
        assert(artists_pruned(ga, artist_inputs(*v)));
        assert(ga.len() > 0 ==> (member(r, "artists"@) matches Some(Json::Array(outs)) && outs@ == ga));
        r
    }
}

} // verus!
