//! What holds of each operation on the index of the cache.
#[allow(unused_imports)]
use crate::cache::entry::{by_key, entry_views, CacheEntry, EntryView};
#[allow(unused_imports)]
use crate::cache::eviction_laws::weight;
#[allow(unused_imports)]
use crate::cache::index::{
    active, asked, at_most, deleted, distinct_entries, first, is_asked, page, read_key,
    recent_first, recent_key, served, setting, sized, sized_views, stale, stale_before, stale_first,
    stale_key, unread_first, CacheIndex, CacheStats, IndexError,
};
#[allow(unused_imports)]
use crate::like::matches_part;
#[allow(unused_imports)]
use crate::order::{
    in_order, is_total_preorder, lemma_filter_members, lemma_in_order, lemma_in_order_members,
};
#[allow(unused_imports)]
use crate::text::pair_views;
#[allow(unused_imports)]
use vstd::utf8::encode_utf8;
use vstd::prelude::*;

verus! {

/// The first of the entries with a property, if there is one, has it.
pub proof fn lemma_first(s: Seq<EntryView>, p: spec_fn(EntryView) -> bool)
    ensures
        first(s.filter(p)) matches Some(e) ==> s.contains(e) && p(e),
        first(s.filter(p)) is None ==> forall|e: EntryView| #[trigger] s.contains(e) ==> !p(e),
{
    lemma_filter_members(s, p);
    let f = s.filter(p);
    if f.len() > 0 {
        assert(f.contains(f[0]));
    } else {
        assert forall|e: EntryView| #[trigger] s.contains(e) implies !p(e) by {
            assert(!f.contains(e));
        }
    }
}

/// Entries with the same fingerprint are the same.
pub proof fn lemma_one(s: Seq<EntryView>, a: EntryView, b: EntryView)
    requires
        distinct_entries(s),
        s.contains(a),
        s.contains(b),
        a.fingerprint == b.fingerprint,
    ensures
        a == b,
{
    let i = choose|i: int| 0 <= i < s.len() && s[i] == a;
    let j = choose|j: int| 0 <= j < s.len() && s[j] == b;
    if i < j {
        assert(s[i].fingerprint != s[j].fingerprint);
    }
    if j < i {
        assert(s[j].fingerprint != s[i].fingerprint);
    }
}

/// A lookup gives the active entry with the fingerprint, and none if there is none: a stale
/// one is not served.
pub proof fn law_lookup(index: &CacheIndex, fingerprint: &str, res: Option<CacheEntry>, e: EntryView)
    requires
        call_ensures(CacheIndex::lookup, (index, fingerprint), res),
        index@.wf(),
    ensures
        res matches Some(x) ==> index@.entries.contains(x@) && x@.fingerprint == fingerprint@
            && x@.status == "active"@,
        index@.entries.contains(e) && e.fingerprint == fingerprint@ && e.status == "active"@
            ==> res is Some && res->0@ == e,
{
    let s = index@.entries;
    lemma_first(s, |e: EntryView| e.fingerprint == fingerprint@ && active(e));
    if s.contains(e) && e.fingerprint == fingerprint@ && e.status == "active"@ {
        if let Some(x) = res {
            lemma_one(s, x@, e);
        }
    }
}

/// Finding gives the entry with the fingerprint, active or not.
pub proof fn law_find(index: &CacheIndex, fingerprint: &str, res: Option<CacheEntry>, e: EntryView)
    requires
        call_ensures(CacheIndex::find, (index, fingerprint), res),
        index@.wf(),
    ensures
        res matches Some(x) ==> index@.entries.contains(x@) && x@.fingerprint == fingerprint@,
        index@.entries.contains(e) && e.fingerprint == fingerprint@ ==> res is Some && res->0@ == e,
{
    let s = index@.entries;
    lemma_first(s, |e: EntryView| e.fingerprint == fingerprint@);
    if s.contains(e) && e.fingerprint == fingerprint@ {
        if let Some(x) = res {
            lemma_one(s, x@, e);
        }
    }
}

/// A lookup by address gives all active entries with it and no others.
pub proof fn law_lookup_by_url(index: &CacheIndex, url: &str, res: Vec<CacheEntry>)
    requires
        call_ensures(CacheIndex::lookup_by_url, (index, url), res),
    ensures
        forall|e: EntryView| #[trigger]
            entry_views(res@).contains(e) <==> index@.entries.contains(e) && e.url == url@
                && e.status == "active"@,
{
    lemma_filter_members(index@.entries, |e: EntryView| e.url == url@ && active(e));
}

/// An entry that comes in is there as it is, takes the place of entries with its fingerprint
/// or its file, and leaves all others.
pub proof fn law_insert(index: Ghost<&mut CacheIndex>, entry: &CacheEntry)
    requires
        call_ensures(CacheIndex::insert, (index@, entry), ()),
    ensures
        forall|e: EntryView| #[trigger]
            (*final(index@))@.entries.contains(e) <==> e == entry@ || ((*index@)@.entries.contains(e)
                && e.fingerprint != entry@.fingerprint && e.file_path != entry@.file_path),
        (*final(index@))@.settings == (*index@)@.settings,
{
    let s = (*index@)@.entries;
    let t = (*final(index@))@.entries;
    let x = entry@;
    let p = |e: EntryView| e.fingerprint != x.fingerprint && e.file_path != x.file_path;
    lemma_filter_members(s, p);
    assert forall|e: EntryView| #[trigger] t.contains(e) <==> e == x || (s.contains(e)
        && e.fingerprint != x.fingerprint && e.file_path != x.file_path) by {
        assert(s.filter(p).contains(e) <==> s.contains(e) && p(e));
        if s.filter(p).contains(e) {
            let i = choose|i: int| 0 <= i < s.filter(p).len() && s.filter(p)[i] == e;
            assert(t[i] == e);
        }
        if e == x {
            assert(t[s.filter(p).len() as int] == e);
        }
    }
}

/// Reading an entry changes when it was last read, and nothing else.
pub proof fn law_touch(index: Ghost<&mut CacheIndex>, fingerprint: &str, now: i64, i: int)
    requires
        call_ensures(CacheIndex::touch, (index@, fingerprint, now), ()),
        0 <= i < (*index@)@.entries.len(),
    ensures
        (*final(index@))@.entries.len() == (*index@)@.entries.len(),
        (*index@)@.entries[i].fingerprint == fingerprint@ ==> (*final(index@))@.entries[i] == (
        EntryView { last_accessed: now, ..(*index@)@.entries[i] }),
        (*index@)@.entries[i].fingerprint != fingerprint@ ==> (*final(index@))@.entries[i]
            == (*index@)@.entries[i],
{
}

/// Of several times at which entries were read, the last that is given for an entry counts.
pub proof fn law_touch_batch(index: Ghost<&mut CacheIndex>, updates: &Vec<(String, i64)>, i: int)
    requires
        call_ensures(CacheIndex::touch_batch, (index@, updates), ()),
        0 <= i < (*index@)@.entries.len(),
    ensures
        (*final(index@))@.entries.len() == (*index@)@.entries.len(),
        (forall|k: int|
            0 <= k < updates@.len() ==> (#[trigger] updates@[k]).0@
                != (*index@)@.entries[i].fingerprint) ==> (*final(index@))@.entries[i]
            == (*index@)@.entries[i],
        forall|k: int|
            0 <= k < updates@.len() && (#[trigger] updates@[k]).0@
                == (*index@)@.entries[i].fingerprint && (forall|j: int|
                k < j < updates@.len() ==> (#[trigger] updates@[j]).0@
                    != (*index@)@.entries[i].fingerprint) ==> (*final(index@))@.entries[i] == (
            EntryView { last_accessed: updates@[k].1, ..(*index@)@.entries[i] }),
{
    lemma_touched_all((*index@)@.entries, updates@, i);
}

/// The last of several times counts.
proof fn lemma_touched_all(s: Seq<EntryView>, updates: Seq<(String, i64)>, i: int)
    requires
        0 <= i < s.len(),
    ensures
        ({
            let t = crate::cache::index::touched_all(s, updates);
            &&& t.len() == s.len()
            &&& t[i].fingerprint == s[i].fingerprint
            &&& t[i] == (EntryView { last_accessed: t[i].last_accessed, ..s[i] })
            &&& (forall|k: int|
                0 <= k < updates.len() ==> (#[trigger] updates[k]).0@ != s[i].fingerprint) ==> t[i]
                == s[i]
            &&& forall|k: int|
                0 <= k < updates.len() && (#[trigger] updates[k]).0@ == s[i].fingerprint && (forall|
                    j: int,
                |
                    k < j < updates.len() ==> (#[trigger] updates[j]).0@ != s[i].fingerprint) ==> t[i]
                    == (EntryView { last_accessed: updates[k].1, ..s[i] })
        }),
    decreases updates.len(),
{
    if updates.len() > 0 {
        let init = updates.drop_last();
        lemma_touched_all(s, init, i);
        let n = updates.len() - 1;
        let t = crate::cache::index::touched_all(s, updates);
        if updates[n].0@ != s[i].fingerprint {
            if forall|k: int|
                0 <= k < updates.len() ==> (#[trigger] updates[k]).0@ != s[i].fingerprint {
                assert forall|k: int| 0 <= k < init.len() implies (#[trigger] init[k]).0@
                    != s[i].fingerprint by {
                    assert(updates[k].0@ != s[i].fingerprint);
                }
            }
            assert forall|k: int|
                0 <= k < updates.len() && (#[trigger] updates[k]).0@ == s[i].fingerprint && (forall|
                    j: int,
                |
                    k < j < updates.len() ==> (#[trigger] updates[j]).0@ != s[i].fingerprint) implies t[
                i] == (EntryView { last_accessed: updates[k].1, ..s[i] }) by {
                assert(init[k].0@ == s[i].fingerprint);
                assert forall|j: int| k < j < init.len() implies (#[trigger] init[j]).0@
                    != s[i].fingerprint by {
                    assert(updates[j].0@ != s[i].fingerprint);
                }
            }
        } else {
            assert forall|k: int|
                0 <= k < updates.len() && (#[trigger] updates[k]).0@ == s[i].fingerprint && (forall|
                    j: int,
                |
                    k < j < updates.len() ==> (#[trigger] updates[j]).0@ != s[i].fingerprint) implies t[
                i] == (EntryView { last_accessed: updates[k].1, ..s[i] }) by {
                if k < n {
                    assert(updates[n].0@ != s[i].fingerprint);
                }
            }
        }
    }
}

/// An entry that becomes stale has its new file and the time from then on and is otherwise as
/// it was, and the others stay. It is an error, and nothing changes, if another entry has
/// the file.
pub proof fn law_mark_stale(
    index: Ghost<&mut CacheIndex>,
    fingerprint: &str,
    path: &str,
    now: i64,
    res: Result<(), IndexError>,
    i: int,
)
    requires
        call_ensures(CacheIndex::mark_stale, (index@, fingerprint, path, now), res),
        0 <= i < (*index@)@.entries.len(),
    ensures
        ({
            let s = (*index@)@.entries;
            let t = (*final(index@))@.entries;
            let is_there = exists|k: int|
                0 <= k < s.len() && (#[trigger] s[k]).fingerprint == fingerprint@;
            let is_taken = exists|k: int|
                0 <= k < s.len() && (#[trigger] s[k]).fingerprint != fingerprint@ && s[k].file_path
                    == path@;
            &&& res is Err <==> is_there && is_taken
            &&& res is Err ==> t == s
            &&& t.len() == s.len()
            &&& res is Ok && s[i].fingerprint == fingerprint@ ==> t[i] == (EntryView {
                status: "stale"@,
                stale_at: Some(now),
                file_path: path@,
                ..s[i]
            })
            &&& s[i].fingerprint != fingerprint@ ==> t[i] == s[i]
        }),
{
}

/// An entry that was found unchanged has its new policy and headers and counts as read then;
/// it is otherwise as it was, and the others stay.
pub proof fn law_update_policy(
    index: Ghost<&mut CacheIndex>,
    fingerprint: &str,
    policy: &Vec<u8>,
    headers: &str,
    now: i64,
    i: int,
)
    requires
        call_ensures(CacheIndex::update_policy, (index@, fingerprint, policy, headers, now), ()),
        0 <= i < (*index@)@.entries.len(),
    ensures
        (*final(index@))@.entries.len() == (*index@)@.entries.len(),
        (*index@)@.entries[i].fingerprint == fingerprint@ ==> (*final(index@))@.entries[i] == (
        EntryView {
            cache_policy: policy@,
            response_headers: headers@,
            last_accessed: now,
            ..(*index@)@.entries[i]
        }),
        (*index@)@.entries[i].fingerprint != fingerprint@ ==> (*final(index@))@.entries[i]
            == (*index@)@.entries[i],
{
}

/// Whether a name, a fingerprint and a file, is that of an entry with a property.
pub open spec fn names_one(
    s: Seq<EntryView>,
    p: spec_fn(EntryView) -> bool,
    name: (Seq<char>, Seq<char>),
) -> bool {
    exists|e: EntryView| #[trigger]
        s.contains(e) && p(e) && e.fingerprint == name.0 && e.file_path == name.1
}

/// The names of the entries with a property are those of them and no others.
proof fn lemma_names(s: Seq<EntryView>, p: spec_fn(EntryView) -> bool, n: Seq<(Seq<char>, Seq<char>)>)
    requires
        n == s.filter(p).map_values(|e: EntryView| (e.fingerprint, e.file_path)),
    ensures
        forall|name: (Seq<char>, Seq<char>)| #[trigger] n.contains(name) <==> names_one(s, p, name),
{
    let f = s.filter(p);
    lemma_filter_members(s, p);
    assert forall|name: (Seq<char>, Seq<char>)| #[trigger]
        n.contains(name) <==> names_one(s, p, name) by {
        if n.contains(name) {
            let k = choose|k: int| 0 <= k < n.len() && n[k] == name;
            assert(f.contains(f[k]));
            assert(s.contains(f[k]));
        }
        if names_one(s, p, name) {
            let e = choose|e: EntryView| #[trigger]
                s.contains(e) && p(e) && e.fingerprint == name.0 && e.file_path == name.1;
            assert(f.contains(e));
            let k = choose|k: int| 0 <= k < f.len() && f[k] == e;
            assert(n[k] == name);
        }
    }
}

/// Every active entry for a `GET` or `HEAD` of an address becomes stale, and is named with its
/// file; the others stay.
pub proof fn law_invalidate(
    index: Ghost<&mut CacheIndex>,
    url: &str,
    now: i64,
    res: Vec<(String, String)>,
    i: int,
)
    requires
        call_ensures(CacheIndex::invalidate_by_url, (index@, url, now), res),
        0 <= i < (*index@)@.entries.len(),
    ensures
        ({
            let s = (*index@)@.entries;
            let t = (*final(index@))@.entries;
            let hit = s[i].url == url@ && s[i].status == "active"@ && (s[i].method == "GET"@
                || s[i].method == "HEAD"@);
            &&& t.len() == s.len()
            &&& hit ==> t[i] == (EntryView { status: "stale"@, stale_at: Some(now), ..s[i] })
            &&& !hit ==> t[i] == s[i]
            &&& forall|name: (Seq<char>, Seq<char>)| #[trigger]
                pair_views(res@).contains(name) <==> names_one(
                    s,
                    |e: EntryView|
                        e.url == url@ && e.status == "active"@ && (e.method == "GET"@ || e.method
                            == "HEAD"@),
                    name,
                )
        }),
{
    let s = (*index@)@.entries;
    let p = |e: EntryView| crate::cache::index::readable_at(e, url@);
    let q = |e: EntryView|
        e.url == url@ && e.status == "active"@ && (e.method == "GET"@ || e.method == "HEAD"@);
    crate::cache::index_laws::lemma_filter_same(s, p, q);
    assert(pair_views(res@) =~= s.filter(q).map_values(
        |e: EntryView| (e.fingerprint, e.file_path),
    ));
    lemma_names(s, q, pair_views(res@));
}

/// A deleted entry is gone, its file is named, and the others stay.
pub proof fn law_delete(
    index: Ghost<&mut CacheIndex>,
    fingerprint: &str,
    res: Option<String>,
    e: EntryView,
)
    requires
        call_ensures(CacheIndex::delete, (index@, fingerprint), res),
        (*index@)@.wf(),
    ensures
        (*final(index@))@.entries.contains(e) <==> (*index@)@.entries.contains(e) && e.fingerprint
            != fingerprint@,
        (*index@)@.entries.contains(e) && e.fingerprint == fingerprint@ ==> res is Some && res->0@
            == e.file_path,
        (forall|x: EntryView| #[trigger]
            (*index@)@.entries.contains(x) ==> x.fingerprint != fingerprint@) ==> res is None,
{
    let s = (*index@)@.entries;
    lemma_filter_members(s, |e: EntryView| e.fingerprint != fingerprint@);
    lemma_first(s, |e: EntryView| e.fingerprint == fingerprint@);
    if s.contains(e) && e.fingerprint == fingerprint@ {
        let x = first(s.filter(|e: EntryView| e.fingerprint == fingerprint@))->0;
        lemma_one(s, x, e);
    }
}

/// The size of the cache is that of all files; of the active part, that of the files of active
/// entries.
pub proof fn law_sizes(
    index: &CacheIndex,
    of_active: Result<i64, IndexError>,
    of_all: Result<i64, IndexError>,
)
    requires
        call_ensures(CacheIndex::total_size, (index,), of_active),
        call_ensures(CacheIndex::total_size_all, (index,), of_all),
        forall|e: EntryView| #[trigger] index@.entries.contains(e) ==> e.file_size >= 0,
        weight(index@.entries) <= i64::MAX,
    ensures
        of_all == Ok::<i64, IndexError>(weight(index@.entries) as i64),
        of_active == Ok::<i64, IndexError>(
            weight(index@.entries.filter(|e: EntryView| e.status == "active"@)) as i64,
        ),
{
    let s = index@.entries;
    let p = |e: EntryView| active(e);
    crate::cache::eviction_laws::lemma_countable(s);
    crate::cache::eviction_laws::lemma_weight_filter(s, p);
    lemma_filter_members(s, p);
    assert forall|e: EntryView| #[trigger] s.filter(p).contains(e) implies e.file_size >= 0 by {
        assert(s.contains(e));
    }
    crate::cache::eviction_laws::lemma_countable(s.filter(p));
    crate::cache::index_laws::lemma_filter_same(s, p, |e: EntryView| e.status == "active"@);
}

/// The entries that have run out are the active ones whose time lies before now.
pub proof fn law_expired(index: &CacheIndex, now: i64, res: Vec<(String, String)>)
    requires
        call_ensures(CacheIndex::get_expired_active, (index, now), res),
    ensures
        forall|name: (Seq<char>, Seq<char>)| #[trigger]
            pair_views(res@).contains(name) <==> names_one(
                index@.entries,
                |e: EntryView|
                    e.status == "active"@ && e.expires_at is Some && e.expires_at->0 < now,
                name,
            ),
{
    let s = index@.entries;
    let p = |e: EntryView| active(e) && e.expires_at is Some && e.expires_at->0 < now;
    let q = |e: EntryView| e.status == "active"@ && e.expires_at is Some && e.expires_at->0 < now;
    crate::cache::index_laws::lemma_filter_same(s, p, q);
    assert(pair_views(res@) =~= s.filter(q).map_values(
        |e: EntryView| (e.fingerprint, e.file_path),
    ));
    lemma_names(s, q, pair_views(res@));
}

/// The entries that have been stale for too long are the stale ones from before a time,
/// those first that became stale first.
pub proof fn law_stale_older_than(index: &CacheIndex, cutoff: i64, res: Vec<(String, String)>)
    requires
        call_ensures(CacheIndex::get_stale_older_than, (index, cutoff), res),
    ensures
        exists|v: Seq<EntryView>|
            #![trigger v.len()]
            v.len() == res@.len() && (forall|k: int|
                0 <= k < v.len() ==> (#[trigger] res@[k]).0@ == v[k].fingerprint && res@[k].1@
                    == v[k].file_path) && (forall|e: EntryView| #[trigger]
                v.contains(e) <==> index@.entries.contains(e) && e.status == "stale"@
                    && e.stale_at is Some && e.stale_at->0 < cutoff) && (forall|i: int, j: int|
                0 <= i < j < v.len() ==> (#[trigger] v[i]).stale_at->0 <= (
                #[trigger] v[j]).stale_at->0),
{
    let s = index@.entries;
    let p = |e: EntryView| stale(e) && e.stale_at is Some && e.stale_at->0 < cutoff;
    lemma_top(s, p, |e: EntryView| stale_key(e), 0);
    let v = stale_before(s, cutoff);
    let names = pair_views(res@);
    assert(names.len() == res@.len() && names.len() == v.len());
    assert forall|k: int| 0 <= k < v.len() implies (#[trigger] res@[k]).0@ == v[k].fingerprint
        && res@[k].1@ == v[k].file_path by {
        assert(names[k] == (v[k].fingerprint, v[k].file_path));
    }
    assert forall|i: int, j: int| 0 <= i < j < v.len() implies (#[trigger] v[i]).stale_at->0 <= (
    #[trigger] v[j]).stale_at->0 by {
        assert(v.contains(v[i]) && v.contains(v[j]));
        assert(stale_key(v[i]) <= stale_key(v[j]));
    }
}

/// The rows and the settings of an index are what it holds, and reading them again makes the
/// same index.
pub proof fn law_rows_read_back(
    index: &CacheIndex,
    rows: &Vec<CacheEntry>,
    settings: &Vec<(String, String)>,
    again: CacheIndex,
)
    requires
        call_ensures(CacheIndex::rows, (index,), rows),
        call_ensures(CacheIndex::settings, (index,), settings),
        index@.wf(),
        call_ensures(CacheIndex::from_rows, (rows, settings), again),
    ensures
        again@.entries == index@.entries,
{
    law_from_rows(rows, settings, again);
}

/// Counts are those of the entries with the status.
pub proof fn law_count(index: &CacheIndex, status: &str, res: i64)
    requires
        call_ensures(CacheIndex::count_by_status, (index, status), res),
    ensures
        res == index@.entries.filter(|e: EntryView| e.status == status@).len(),
{
}

/// The figures count the active and the stale entries and, of the active ones, those of each
/// kind of media, and add up the sizes of the active ones and of all.
pub proof fn law_figures(index: &CacheIndex, res: CacheStats)
    requires
        call_ensures(CacheIndex::stats, (index,), Ok::<CacheStats, IndexError>(res)),
        forall|e: EntryView| #[trigger] index@.entries.contains(e) ==> e.file_size >= 0,
        weight(index@.entries) <= i64::MAX,
    ensures
        res.active_entries == index@.entries.filter(|e: EntryView| e.status == "active"@).len(),
        res.stale_entries == index@.entries.filter(|e: EntryView| e.status == "stale"@).len(),
        res.active_size == weight(index@.entries.filter(|e: EntryView| e.status == "active"@)),
        res.total_size == weight(index@.entries),
        res.image_count == index@.entries.filter(
            |e: EntryView| e.media_type == Some("image"@) && e.status == "active"@,
        ).len(),
        res.video_count == index@.entries.filter(
            |e: EntryView| e.media_type == Some("video"@) && e.status == "active"@,
        ).len(),
        res.audio_count == index@.entries.filter(
            |e: EntryView| e.media_type == Some("audio"@) && e.status == "active"@,
        ).len(),
{
    let s = index@.entries;
    let p = |e: EntryView| active(e);
    crate::cache::eviction_laws::lemma_countable(s);
    crate::cache::eviction_laws::lemma_weight_filter(s, p);
    lemma_filter_members(s, p);
    assert forall|e: EntryView| #[trigger] s.filter(p).contains(e) implies e.file_size >= 0 by {
        assert(s.contains(e));
    }
    crate::cache::eviction_laws::lemma_countable(s.filter(p));
    crate::cache::index_laws::lemma_filter_same(s, p, |e: EntryView| e.status == "active"@);
    crate::cache::index_laws::lemma_filter_same(
        s,
        |e: EntryView| stale(e),
        |e: EntryView| e.status == "stale"@,
    );
    crate::cache::index_laws::lemma_filter_same(
        s,
        |e: EntryView| crate::cache::index::is_media(e, "image"@),
        |e: EntryView| e.media_type == Some("image"@) && e.status == "active"@,
    );
    crate::cache::index_laws::lemma_filter_same(
        s,
        |e: EntryView| crate::cache::index::is_media(e, "video"@),
        |e: EntryView| e.media_type == Some("video"@) && e.status == "active"@,
    );
    crate::cache::index_laws::lemma_filter_same(
        s,
        |e: EntryView| crate::cache::index::is_media(e, "audio"@),
        |e: EntryView| e.media_type == Some("audio"@) && e.status == "active"@,
    );
}

/// What is first in an order by a key.
proof fn lemma_top(
    s: Seq<EntryView>,
    p: spec_fn(EntryView) -> bool,
    key: spec_fn(EntryView) -> int,
    limit: nat,
)
    ensures
        ({
            let f = s.filter(p);
            let all = in_order(f, by_key(key));
            let top = at_most(all, limit);
            &&& all.len() == f.len()
            &&& top.len() == (if f.len() < limit {
                f.len()
            } else {
                limit
            })
            &&& forall|e: EntryView| #[trigger] top.contains(e) ==> s.contains(e) && p(e)
            &&& forall|e: EntryView| #[trigger] all.contains(e) <==> s.contains(e) && p(e)
            &&& forall|i: int, j: int|
                0 <= i < j < all.len() ==> key(#[trigger] all[i]) <= key(#[trigger] all[j])
            &&& forall|i: int, j: int|
                0 <= i < j < top.len() ==> key(#[trigger] top[i]) <= key(#[trigger] top[j])
            &&& forall|e: EntryView, x: EntryView|
                #[trigger] top.contains(e) && #[trigger] s.contains(x) && p(x) && !top.contains(x)
                    ==> key(e) <= key(x)
        }),
{
    let f = s.filter(p);
    let order = by_key(key);
    let all = in_order(f, order);
    let top = at_most(all, limit);
    assert(is_total_preorder(order));
    lemma_filter_members(s, p);
    lemma_in_order(f, order);
    lemma_in_order_members(f, order);
    assert forall|e: EntryView| #[trigger] all.contains(e) <==> s.contains(e) && p(e) by {
        assert(f.contains(e) <==> s.contains(e) && p(e));
    }
    assert forall|i: int, j: int| 0 <= i < j < all.len() implies key(#[trigger] all[i]) <= key(
        #[trigger] all[j],
    ) by {
        assert(order(all[i], all[j]));
    }
    assert forall|e: EntryView| #[trigger] top.contains(e) implies s.contains(e) && p(e) by {
        let i = choose|i: int| 0 <= i < top.len() && top[i] == e;
        assert(all.contains(all[i]));
    }
    assert forall|i: int, j: int| 0 <= i < j < top.len() implies key(#[trigger] top[i]) <= key(
        #[trigger] top[j],
    ) by {
        assert(top[i] == all[i] && top[j] == all[j]);
    }
    assert forall|e: EntryView, x: EntryView|
        #[trigger] top.contains(e) && #[trigger] s.contains(x) && p(x) && !top.contains(x) implies key(
        e,
    ) <= key(x) by {
        let i = choose|i: int| 0 <= i < top.len() && top[i] == e;
        assert(all.contains(x));
        let j = choose|j: int| 0 <= j < all.len() && all[j] == x;
        if j < top.len() {
            assert(top[j] == x);
        }
        assert(all[i] == e);
    }
}

/// The candidates for eviction: stale entries, those first that became stale first, and
/// active entries, those first that have not been read for the longest time, as many as are
/// asked for.
#[verifier::rlimit(50)]
pub proof fn law_candidates(
    index: &CacheIndex,
    limit: usize,
    stale_ones: Vec<(String, String, i64)>,
    active_ones: Vec<(String, String, i64)>,
)
    requires
        call_ensures(CacheIndex::get_stale_for_eviction, (index, limit), stale_ones),
        call_ensures(CacheIndex::get_active_for_eviction, (index, limit), active_ones),
    ensures
        exists|v: Seq<EntryView>|
            #![trigger v.len()]
            v.len() == active_ones@.len() && (forall|k: int|
                0 <= k < v.len() ==> (#[trigger] active_ones@[k]).0@ == v[k].fingerprint
                    && active_ones@[k].1@ == v[k].file_path && active_ones@[k].2 == v[k].file_size
                    && index@.entries.contains(v[k]) && v[k].status == "active"@) && (forall|
                i: int,
                j: int,
            |
                0 <= i < j < v.len() ==> (#[trigger] v[i]).last_accessed <= (
                #[trigger] v[j]).last_accessed) && (forall|e: EntryView, x: EntryView|
                #[trigger] v.contains(e) && #[trigger] index@.entries.contains(x) && x.status
                    == "active"@ && !v.contains(x) ==> e.last_accessed <= x.last_accessed),
        exists|v: Seq<EntryView>|
            #![trigger v.len()]
            v.len() == stale_ones@.len() && (forall|k: int|
                0 <= k < v.len() ==> (#[trigger] stale_ones@[k]).0@ == v[k].fingerprint
                    && stale_ones@[k].1@ == v[k].file_path && stale_ones@[k].2 == v[k].file_size
                    && index@.entries.contains(v[k]) && v[k].status == "stale"@) && (forall|
                e: EntryView,
                x: EntryView,
            |
                #[trigger] v.contains(e) && #[trigger] index@.entries.contains(x) && x.status
                    == "stale"@ && !v.contains(x) && e.stale_at is Some && x.stale_at is Some
                    ==> e.stale_at->0 <= x.stale_at->0),
        active_ones@.len() == (if index@.entries.filter(|e: EntryView| active(e)).len() < limit {
            index@.entries.filter(|e: EntryView| active(e)).len()
        } else {
            limit as nat
        }),
        stale_ones@.len() == (if index@.entries.filter(|e: EntryView| stale(e)).len() < limit {
            index@.entries.filter(|e: EntryView| stale(e)).len()
        } else {
            limit as nat
        }),
{
    let s = index@.entries;
    lemma_top(s, |e: EntryView| active(e), |e: EntryView| read_key(e), limit as nat);
    lemma_top(s, |e: EntryView| stale(e), |e: EntryView| stale_key(e), limit as nat);
    let a = at_most(unread_first(s), limit as nat);
    let b = at_most(stale_first(s), limit as nat);
    let av = sized_views(active_ones@);
    let bv = sized_views(stale_ones@);
    assert(av.len() == active_ones@.len() && av.len() == a.len());
    assert(bv.len() == stale_ones@.len() && bv.len() == b.len());
    assert forall|k: int| 0 <= k < a.len() implies (#[trigger] active_ones@[k]).0@
        == a[k].fingerprint && active_ones@[k].1@ == a[k].file_path && active_ones@[k].2
        == a[k].file_size && s.contains(a[k]) && a[k].status == "active"@ by {
        assert(av[k] == sized(a[k]));
        assert(a.contains(a[k]));
    }
    assert forall|k: int| 0 <= k < b.len() implies (#[trigger] stale_ones@[k]).0@
        == b[k].fingerprint && stale_ones@[k].1@ == b[k].file_path && stale_ones@[k].2
        == b[k].file_size && s.contains(b[k]) && b[k].status == "stale"@ by {
        assert(bv[k] == sized(b[k]));
        assert(b.contains(b[k]));
    }
    assert forall|i: int, j: int| 0 <= i < j < a.len() implies (#[trigger] a[i]).last_accessed <= (
    #[trigger] a[j]).last_accessed by {
        assert(read_key(a[i]) <= read_key(a[j]));
    }
}

/// A search gives the entries whose address matches, those first that were read last, and at
/// most as many as are asked for: none that was left out was read later.
pub proof fn law_search(
    index: &CacheIndex,
    query: &str,
    limit: usize,
    res: Result<Vec<CacheEntry>, IndexError>,
)
    requires
        call_ensures(CacheIndex::search, (index, query, limit), res),
    ensures
        encode_utf8(query@).len() <= 49_998 ==> res is Ok,
        res matches Ok(v) ==> v@.len() <= limit && (forall|k: int|
            0 <= k < v@.len() ==> index@.entries.contains((#[trigger] v@[k])@) && matches_part(
                query@,
                v@[k]@.url,
            )),
        res matches Ok(v) ==> forall|i: int, j: int|
            0 <= i < j < v@.len() ==> (#[trigger] v@[i])@.last_accessed >= (
            #[trigger] v@[j])@.last_accessed,
        res matches Ok(v) ==> forall|x: EntryView| #[trigger]
            index@.entries.contains(x) && matches_part(query@, x.url) ==> entry_views(
                v@,
            ).contains(x) || (v@.len() == limit && forall|k: int|
                0 <= k < v@.len() ==> (#[trigger] v@[k])@.last_accessed >= x.last_accessed),
{
    let s = index@.entries;
    let p = |e: EntryView| matches_part(query@, e.url);
    lemma_top(s, p, |e: EntryView| recent_key(e), limit as nat);
    if let Ok(v) = res {
        let top = at_most(recent_first(s.filter(p)), limit as nat);
        let all = recent_first(s.filter(p));
        assert(entry_views(v@) == top);
        assert(top.len() == v@.len());
        assert forall|k: int| 0 <= k < v@.len() implies s.contains((#[trigger] v@[k])@)
            && matches_part(query@, v@[k]@.url) by {
            assert(top[k] == v@[k]@);
            assert(top.contains(top[k]));
        }
        assert forall|i: int, j: int| 0 <= i < j < v@.len() implies (
        #[trigger] v@[i])@.last_accessed >= (#[trigger] v@[j])@.last_accessed by {
            assert(recent_key(top[i]) <= recent_key(top[j]));
        }
        assert forall|x: EntryView| #[trigger]
            s.contains(x) && matches_part(query@, x.url) implies top.contains(x) || (v@.len()
            == limit && forall|k: int|
            0 <= k < v@.len() ==> (#[trigger] v@[k])@.last_accessed >= x.last_accessed) by {
            assert(p(x));
            if !top.contains(x) {
                assert(all.contains(x));
                assert forall|k: int| 0 <= k < v@.len() implies (
                #[trigger] v@[k])@.last_accessed >= x.last_accessed by {
                    assert(top[k] == v@[k]@);
                    assert(top.contains(top[k]));
                    assert(recent_key(top[k]) <= recent_key(x));
                }
            }
        }
    }
}

/// All active entries become stale, the others stay, and it is said how many there were.
pub proof fn law_mark_all_stale(index: Ghost<&mut CacheIndex>, now: i64, res: i64, i: int)
    requires
        call_ensures(CacheIndex::mark_all_stale, (index@, now), res),
        0 <= i < (*index@)@.entries.len(),
    ensures
        (*final(index@))@.entries.len() == (*index@)@.entries.len(),
        (*index@)@.entries[i].status == "active"@ ==> (*final(index@))@.entries[i] == (EntryView {
            status: "stale"@,
            stale_at: Some(now),
            ..(*index@)@.entries[i]
        }),
        (*index@)@.entries[i].status != "active"@ ==> (*final(index@))@.entries[i]
            == (*index@)@.entries[i],
        res == (*index@)@.entries.filter(|e: EntryView| e.status == "active"@).len(),
{
    crate::cache::index_laws::lemma_filter_same(
        (*index@)@.entries,
        |e: EntryView| active(e),
        |e: EntryView| e.status == "active"@,
    );
}

/// A list has the entries with the host, the kind of media, the status and an address that
/// matches, as far as they are asked for; those first that were read last; and of them the
/// page that is asked for. It is said how many there are in all.
pub proof fn law_list(
    index: &CacheIndex,
    host: &Option<String>,
    media_type: &Option<String>,
    status: &Option<String>,
    query: &Option<String>,
    offset: i64,
    limit: i64,
    res: (Vec<CacheEntry>, i64),
)
    requires
        call_ensures(
            CacheIndex::list_entries,
            (index, host, media_type, status, query, offset, limit),
            Ok::<(Vec<CacheEntry>, i64), IndexError>(res),
        ),
        offset >= 0,
        limit >= 0,
    ensures
        ({
            let wanted = |e: EntryView|
                (host matches Some(h) ==> e.host == h@) && (media_type matches Some(m)
                    ==> e.media_type == Some(m@)) && (status matches Some(s) ==> e.status == s@) && (
                query matches Some(q) ==> matches_part(q@, e.url));
            &&& res.1 == index@.entries.filter(wanted).len()
            &&& res.0@.len() == (if offset >= res.1 {
                0
            } else if res.1 - offset < limit {
                res.1 - offset
            } else {
                limit as int
            })
            &&& forall|k: int|
                0 <= k < res.0@.len() ==> index@.entries.contains((#[trigger] res.0@[k])@)
                    && wanted(res.0@[k]@)
            &&& forall|i: int, j: int|
                0 <= i < j < res.0@.len() ==> (#[trigger] res.0@[i])@.last_accessed >= (
                #[trigger] res.0@[j])@.last_accessed
            &&& offset == 0 && limit >= res.1 ==> forall|e: EntryView| #[trigger]
                index@.entries.contains(e) && wanted(e) ==> entry_views(res.0@).contains(e)
        }),
{
    let s = index@.entries;
    let wanted = |e: EntryView|
        (host matches Some(h) ==> e.host == h@) && (media_type matches Some(m) ==> e.media_type
            == Some(m@)) && (status matches Some(st) ==> e.status == st@) && (query matches Some(q)
            ==> matches_part(q@, e.url));
    let (h, m, st, qu) = (
        host.deep_view(),
        media_type.deep_view(),
        status.deep_view(),
        query.deep_view(),
    );
    let chosen = |e: EntryView|
        is_asked(e, h, m, st) && (qu matches Some(q) ==> matches_part(q, e.url));
    assert(asked(s, h, m, st, qu) == s.filter(chosen));
    crate::cache::index_laws::lemma_filter_same(s, chosen, wanted);
    lemma_top(s, wanted, |e: EntryView| recent_key(e), 0);
    let all = recent_first(s.filter(wanted));
    let part = page(all, offset, limit);
    assert(entry_views(res.0@) == part);
    assert(part.len() == res.0@.len());
    assert forall|k: int| 0 <= k < part.len() implies s.contains((#[trigger] res.0@[k])@) && wanted(
        res.0@[k]@,
    ) by {
        assert(part[k] == res.0@[k]@);
        assert(part[k] == all[offset + k]);
        assert(all.contains(part[k]));
    }
    assert forall|i: int, j: int| 0 <= i < j < part.len() implies (
    #[trigger] res.0@[i])@.last_accessed >= (#[trigger] res.0@[j])@.last_accessed by {
        assert(part[i] == all[offset + i] && part[j] == all[offset + j]);
        assert(part[i] == res.0@[i]@ && part[j] == res.0@[j]@);
        assert(recent_key(all[offset + i]) <= recent_key(all[offset + j]));
    }
    if offset == 0 && limit >= res.1 {
        assert(part =~= all);
    }
}

/// A restored entry is active again, and the others stay.
pub proof fn law_restore(index: Ghost<&mut CacheIndex>, fingerprint: &str, i: int)
    requires
        call_ensures(CacheIndex::restore, (index@, fingerprint), ()),
        0 <= i < (*index@)@.entries.len(),
    ensures
        (*final(index@))@.entries.len() == (*index@)@.entries.len(),
        (*index@)@.entries[i].fingerprint == fingerprint@ ==> (*final(index@))@.entries[i] == (
        EntryView { status: "active"@, stale_at: None, ..(*index@)@.entries[i] }),
        (*index@)@.entries[i].fingerprint != fingerprint@ ==> (*final(index@))@.entries[i]
            == (*index@)@.entries[i],
{
}

/// Deleting all leaves nothing but the settings, and says how many there were.
pub proof fn law_delete_all(index: Ghost<&mut CacheIndex>, res: i64)
    requires
        call_ensures(CacheIndex::delete_all, (index@,), res),
    ensures
        (*final(index@))@.entries.len() == 0,
        (*final(index@))@.settings == (*index@)@.settings,
        res == (*index@)@.entries.len(),
{
}

/// A setting that was given a value has it afterwards, and the others have the values that
/// they had.
pub proof fn law_settings(
    index: Ghost<&mut CacheIndex>,
    before: &CacheIndex,
    after: &CacheIndex,
    key: &str,
    value: &str,
    other: &str,
    res: Option<String>,
    old_other: Option<String>,
    new_other: Option<String>,
)
    requires
        call_ensures(CacheIndex::set_setting, (index@, key, value), ()),
        before@ == (*index@)@,
        after@ == (*final(index@))@,
        call_ensures(CacheIndex::get_setting, (after, key), res),
        call_ensures(CacheIndex::get_setting, (before, other), old_other),
        call_ensures(CacheIndex::get_setting, (after, other), new_other),
    ensures
        res.deep_view() == Some(value@),
        other@ != key@ ==> new_other.deep_view() == old_other.deep_view(),
        after@.entries == before@.entries,
{
    crate::cache::index_laws::law_setting(before@.settings, key@, value@, other@);
}

/// Rows that are read with distinct fingerprints and files are the entries.
pub proof fn law_from_rows(
    rows: &Vec<CacheEntry>,
    settings: &Vec<(String, String)>,
    res: CacheIndex,
)
    requires
        call_ensures(CacheIndex::from_rows, (rows, settings), res),
        distinct_entries(entry_views(rows@)),
    ensures
        res@.entries == entry_views(rows@),
{
    crate::cache::index_laws::law_distinct_rows(entry_views(rows@));
}

} // verus!
