//! The index of the cache: which responses are kept, and in which files.
#[allow(unused_imports)]
use crate::cache::entry::{
    by_key, change_all, clone_bytes, count, entry_views, lemma_filter_push, select, sort_by_key,
    EntryView,
};
pub use crate::cache::entry::CacheEntry;
pub use crate::error::IndexError;
use crate::like::{part_is_like, LONGEST_PATTERN};
#[allow(unused_imports)]
use crate::like::matches_part;
#[allow(unused_imports)]
use crate::order::in_order;
use crate::text::{byte_len, same};
#[allow(unused_imports)]
use crate::text::pair_views;
use vstd::prelude::*;
#[allow(unused_imports)]
use vstd::utf8::encode_utf8;

verus! {

/// The index of the cache, and the settings that are kept with it.
#[derive(Debug)]
pub struct CacheIndex {
    entries: Vec<CacheEntry>,
    settings: Vec<(String, String)>,
}

/// The index of the cache: its entries in the order in which they came in, and the
/// settings.
#[verifier::ext_equal]
pub struct IndexView {
    pub entries: Seq<EntryView>,
    pub settings: Seq<(Seq<char>, Seq<char>)>,
}

/// Counts and sizes of what is in the index.
#[derive(Debug, Clone, Copy, PartialEq, Eq, Structural)]
pub struct CacheStats {
    pub active_entries: i64,
    pub stale_entries: i64,
    pub active_size: i64,
    pub total_size: i64,
    pub image_count: i64,
    pub video_count: i64,
    pub audio_count: i64,
}

impl View for CacheIndex {
    type V = IndexView;

    closed spec fn view(&self) -> IndexView {
        IndexView { entries: entry_views(self.entries@), settings: pair_views(self.settings@) }
    }
}

/// Whether no two entries have the same fingerprint or the same file.
pub open spec fn distinct_entries(s: Seq<EntryView>) -> bool {
    forall|i: int, j: int|
        0 <= i < j < s.len() ==> (#[trigger] s[i]).fingerprint != (#[trigger] s[j]).fingerprint
            && s[i].file_path != s[j].file_path
}

/// Whether no two pairs have the same first part.
pub open spec fn distinct_keys(s: Seq<(Seq<char>, Seq<char>)>) -> bool {
    forall|i: int, j: int| 0 <= i < j < s.len() ==> (#[trigger] s[i]).0 != (#[trigger] s[j]).0
}

impl IndexView {
    /// Fingerprints and files are distinct, and so are the keys of the settings.
    pub open spec fn wf(self) -> bool {
        distinct_entries(self.entries) && distinct_keys(self.settings)
    }
}

/// Whether an entry is served.
pub open spec fn active(e: EntryView) -> bool {
    e.status == "active"@
}

/// Whether an entry is kept but no longer served.
pub open spec fn stale(e: EntryView) -> bool {
    e.status == "stale"@
}

/// The entries after `x` has come in: it takes the place of those with its
/// fingerprint or its file.
pub open spec fn inserted(s: Seq<EntryView>, x: EntryView) -> Seq<EntryView> {
    s.filter(
        |e: EntryView| e.fingerprint != x.fingerprint && e.file_path != x.file_path,
    ).push(x)
}

/// The first of some entries.
pub open spec fn first(s: Seq<EntryView>) -> Option<EntryView> {
    if s.len() == 0 {
        None
    } else {
        Some(s[0])
    }
}

/// The active entry with a fingerprint.
pub open spec fn served(s: Seq<EntryView>, fingerprint: Seq<char>) -> Option<EntryView> {
    first(s.filter(|e: EntryView| e.fingerprint == fingerprint && active(e)))
}

/// The active entries for a URL.
pub open spec fn served_for_url(s: Seq<EntryView>, url: Seq<char>) -> Seq<EntryView> {
    s.filter(|e: EntryView| e.url == url && active(e))
}

/// The entries after one has been read at a time.
pub open spec fn touched(s: Seq<EntryView>, fingerprint: Seq<char>, at: i64) -> Seq<EntryView> {
    s.map_values(
        |e: EntryView|
            if e.fingerprint == fingerprint {
                EntryView { last_accessed: at, ..e }
            } else {
                e
            },
    )
}

/// The entries after each of some has been read.
pub open spec fn touched_all(s: Seq<EntryView>, updates: Seq<(String, i64)>) -> Seq<EntryView>
    decreases updates.len(),
{
    if updates.len() == 0 {
        s
    } else {
        touched(touched_all(s, updates.drop_last()), updates.last().0@, updates.last().1)
    }
}

/// An entry that has become stale at a time.
pub open spec fn gone_stale(e: EntryView, at: i64) -> EntryView {
    EntryView { status: "stale"@, stale_at: Some(at), ..e }
}

/// The entries after one has become stale and its file has been renamed.
pub open spec fn renamed_stale(
    s: Seq<EntryView>,
    fingerprint: Seq<char>,
    path: Seq<char>,
    at: i64,
) -> Seq<EntryView> {
    s.map_values(
        |e: EntryView|
            if e.fingerprint == fingerprint {
                EntryView { file_path: path, ..gone_stale(e, at) }
            } else {
                e
            },
    )
}

/// Whether there is an entry with the fingerprint, and another one has the file.
pub open spec fn path_taken(s: Seq<EntryView>, fingerprint: Seq<char>, path: Seq<char>) -> bool {
    &&& exists|i: int| 0 <= i < s.len() && (#[trigger] s[i]).fingerprint == fingerprint
    &&& exists|i: int|
        0 <= i < s.len() && (#[trigger] s[i]).fingerprint != fingerprint && s[i].file_path == path
}

/// The entries after one has been found unchanged at a time.
pub open spec fn revalidated(
    s: Seq<EntryView>,
    fingerprint: Seq<char>,
    policy: Seq<u8>,
    headers: Seq<char>,
    at: i64,
) -> Seq<EntryView> {
    s.map_values(
        |e: EntryView|
            if e.fingerprint == fingerprint {
                EntryView {
                    cache_policy: policy,
                    last_accessed: at,
                    response_headers: headers,
                    ..e
                }
            } else {
                e
            },
    )
}

/// Whether an entry is served for a `GET` or `HEAD` of a URL.
pub open spec fn readable_at(e: EntryView, url: Seq<char>) -> bool {
    e.url == url && active(e) && (e.method == "GET"@ || e.method == "HEAD"@)
}

/// The fingerprint and the file of an entry.
pub open spec fn name_and_file(e: EntryView) -> (Seq<char>, Seq<char>) {
    (e.fingerprint, e.file_path)
}

/// The entries after those with a property have become stale.
pub open spec fn all_gone_stale(
    s: Seq<EntryView>,
    p: spec_fn(EntryView) -> bool,
    at: i64,
) -> Seq<EntryView> {
    s.map_values(
        |e: EntryView|
            if p(e) {
                gone_stale(e, at)
            } else {
                e
            },
    )
}

/// The entries after one has been made active again.
pub open spec fn restored(s: Seq<EntryView>, fingerprint: Seq<char>) -> Seq<EntryView> {
    s.map_values(
        |e: EntryView|
            if e.fingerprint == fingerprint {
                EntryView { status: "active"@, stale_at: None, ..e }
            } else {
                e
            },
    )
}

/// The entries without the one that has a fingerprint.
pub open spec fn deleted(s: Seq<EntryView>, fingerprint: Seq<char>) -> Seq<EntryView> {
    s.filter(|e: EntryView| e.fingerprint != fingerprint)
}

/// The sizes of entries added up one after the other; nothing if a sum on the way
/// cannot be counted.
pub open spec fn size_sum(s: Seq<EntryView>) -> Option<i64>
    decreases s.len(),
{
    if s.len() == 0 {
        Some(0)
    } else {
        match size_sum(s.drop_last()) {
            Some(t) => if i64::MIN <= t + s.last().file_size <= i64::MAX {
                Some((t + s.last().file_size) as i64)
            } else {
                None
            },
            None => None,
        }
    }
}

/// When an entry became stale, for ordering: without a time before all times.
pub open spec fn stale_key(e: EntryView) -> int {
    match e.stale_at {
        Some(t) => t as int,
        None => i64::MIN - 1,
    }
}

/// When an entry was last read, for ordering.
pub open spec fn read_key(e: EntryView) -> int {
    e.last_accessed as int
}

/// When an entry was last read, for ordering the latest first.
pub open spec fn recent_key(e: EntryView) -> int {
    -e.last_accessed
}

/// At most the first `limit` entries.
pub open spec fn at_most(s: Seq<EntryView>, limit: nat) -> Seq<EntryView> {
    if limit < s.len() {
        s.subrange(0, limit as int)
    } else {
        s
    }
}

/// A page of some entries; a negative limit is none, and a negative offset zero.
pub open spec fn page(s: Seq<EntryView>, offset: i64, limit: i64) -> Seq<EntryView> {
    let from = if offset < 0 {
        0
    } else if offset > s.len() {
        s.len() as int
    } else {
        offset as int
    };
    let to = if limit < 0 || from + limit > s.len() {
        s.len() as int
    } else {
        from + limit
    };
    s.subrange(from, to)
}

/// The active entries whose time has run out, in the order of the index.
pub open spec fn expired(s: Seq<EntryView>, now: i64) -> Seq<EntryView> {
    s.filter(|e: EntryView| active(e) && e.expires_at is Some && e.expires_at->0 < now)
}

/// The entries that became stale before a time, the oldest first.
pub open spec fn stale_before(s: Seq<EntryView>, cutoff: i64) -> Seq<EntryView> {
    in_order(
        s.filter(|e: EntryView| stale(e) && e.stale_at is Some && e.stale_at->0 < cutoff),
        by_key(|e: EntryView| stale_key(e)),
    )
}

/// The stale entries, the oldest first.
pub open spec fn stale_first(s: Seq<EntryView>) -> Seq<EntryView> {
    in_order(s.filter(|e: EntryView| stale(e)), by_key(|e: EntryView| stale_key(e)))
}

/// The active entries, those first that have not been read for the longest time.
pub open spec fn unread_first(s: Seq<EntryView>) -> Seq<EntryView> {
    in_order(s.filter(|e: EntryView| active(e)), by_key(|e: EntryView| read_key(e)))
}

/// Entries, those first that were read last.
pub open spec fn recent_first(s: Seq<EntryView>) -> Seq<EntryView> {
    in_order(s, by_key(|e: EntryView| recent_key(e)))
}

/// Whether an entry has the host, media type and status that are asked for.
pub open spec fn is_asked(
    e: EntryView,
    host: Option<Seq<char>>,
    media_type: Option<Seq<char>>,
    status: Option<Seq<char>>,
) -> bool {
    &&& host matches Some(h) ==> e.host == h
    &&& media_type is Some ==> e.media_type == media_type
    &&& status matches Some(s) ==> e.status == s
}

/// The entries that are asked for, in the order of the index.
pub open spec fn asked(
    s: Seq<EntryView>,
    host: Option<Seq<char>>,
    media_type: Option<Seq<char>>,
    status: Option<Seq<char>>,
    query: Option<Seq<char>>,
) -> Seq<EntryView> {
    s.filter(
        |e: EntryView|
            is_asked(e, host, media_type, status) && (query matches Some(q) ==> matches_part(
                q,
                e.url,
            )),
    )
}

/// Whether a query is too long for a search pattern.
pub open spec fn too_long(query: Seq<char>) -> bool {
    encode_utf8(query).len() + 2 > LONGEST_PATTERN
}

/// The number of entries with a property.
pub open spec fn how_many(s: Seq<EntryView>, p: spec_fn(EntryView) -> bool) -> nat {
    s.filter(p).len()
}

/// Whether the figures are those of the entries.
pub open spec fn are_stats(stats: CacheStats, s: Seq<EntryView>) -> bool {
    &&& stats.active_entries == how_many(s, |e: EntryView| active(e))
    &&& stats.stale_entries == how_many(s, |e: EntryView| stale(e))
    &&& size_sum(s.filter(|e: EntryView| active(e))) == Some(stats.active_size)
    &&& size_sum(s) == Some(stats.total_size)
    &&& stats.image_count == how_many(s, |e: EntryView| is_media(e, "image"@))
    &&& stats.video_count == how_many(s, |e: EntryView| is_media(e, "video"@))
    &&& stats.audio_count == how_many(s, |e: EntryView| is_media(e, "audio"@))
}

/// Whether an entry is active and of a kind of media.
pub open spec fn is_media(e: EntryView, kind: Seq<char>) -> bool {
    e.media_type == Some(kind) && active(e)
}

/// What is left of distinct entries is distinct.
pub proof fn lemma_filter_distinct(s: Seq<EntryView>, p: spec_fn(EntryView) -> bool)
    requires
        distinct_entries(s),
    ensures
        distinct_entries(s.filter(p)),
        forall|i: int|
            0 <= i < s.filter(p).len() ==> p(#[trigger] s.filter(p)[i]) && s.contains(
                s.filter(p)[i],
            ),
    decreases s.len(),
{
    reveal(Seq::filter);
    if s.len() > 0 {
        let t = s.drop_last();
        lemma_filter_distinct(t, p);
        let k = t.filter(p);
        let r = s.filter(p);
        assert forall|i: int| 0 <= i < r.len() implies p(#[trigger] r[i]) && s.contains(r[i]) by {
            if i < k.len() {
                assert(t.contains(k[i]));
                let n = choose|n: int| 0 <= n < t.len() && t[n] == k[i];
                assert(s[n] == r[i]);
            } else {
                assert(s[s.len() - 1] == r[i]);
            }
        }
        assert forall|i: int, j: int| 0 <= i < j < r.len() implies (#[trigger] r[i]).fingerprint
            != (#[trigger] r[j]).fingerprint && r[i].file_path != r[j].file_path by {
            if j == k.len() {
                assert(t.contains(k[i]));
                let n = choose|n: int| 0 <= n < t.len() && t[n] == k[i];
                assert(s[n] == r[i] && s[s.len() - 1] == r[j]);
            } else {
                assert(k[i] == r[i] && k[j] == r[j]);
            }
        }
    }
}

/// Changing entries without their fingerprints and files keeps them distinct.
pub proof fn lemma_map_distinct(s: Seq<EntryView>, f: spec_fn(EntryView) -> EntryView)
    requires
        distinct_entries(s),
        forall|e: EntryView|
            (#[trigger] f(e)).fingerprint == e.fingerprint && f(e).file_path == e.file_path,
    ensures
        distinct_entries(s.map_values(f)),
{
    let r = s.map_values(f);
    assert forall|i: int, j: int| 0 <= i < j < r.len() implies (#[trigger] r[i]).fingerprint != (
    #[trigger] r[j]).fingerprint && r[i].file_path != r[j].file_path by {
        assert(r[i] == f(s[i]) && r[j] == f(s[j]));
    }
}

/// Whether an entry is served.
fn is_active(e: &CacheEntry) -> (res: bool)
    ensures
        res == active(e@),
{
    same(e.status.as_str(), "active")
}

/// Whether an entry is kept but no longer served.
fn is_stale(e: &CacheEntry) -> (res: bool)
    ensures
        res == stale(e@),
{
    same(e.status.as_str(), "stale")
}

/// There is an entry with a property exactly if filtering leaves one.
pub proof fn lemma_filter_some<T>(s: Seq<T>, p: spec_fn(T) -> bool)
    ensures
        s.filter(p).len() > 0 <==> exists|i: int| 0 <= i < s.len() && p(#[trigger] s[i]),
    decreases s.len(),
{
    reveal(Seq::filter);
    if s.len() > 0 {
        let t = s.drop_last();
        lemma_filter_some(t, p);
        if exists|i: int| 0 <= i < t.len() && p(#[trigger] t[i]) {
            let i = choose|i: int| 0 <= i < t.len() && p(#[trigger] t[i]);
            assert(p(s[i]));
        }
        if exists|i: int| 0 <= i < s.len() && p(#[trigger] s[i]) {
            let i = choose|i: int| 0 <= i < s.len() && p(#[trigger] s[i]);
            if i < t.len() {
                assert(p(t[i]));
            }
        }
        if p(s.last()) {
            assert(p(s[s.len() - 1]));
        }
    }
}

/// Once a sum cannot be counted, no longer sum can.
proof fn lemma_sum_stays_none(s: Seq<EntryView>, n: int)
    requires
        0 <= n <= s.len(),
        size_sum(s.subrange(0, n)) is None,
    ensures
        size_sum(s) is None,
    decreases s.len() - n,
{
    if n == s.len() {
        assert(s.subrange(0, n) =~= s);
    } else {
        assert(s.subrange(0, n + 1).drop_last() =~= s.subrange(0, n));
        lemma_sum_stays_none(s, n + 1);
    }
}

/// The sizes of entries added up.
pub(crate) fn add_sizes(v: &Vec<CacheEntry>) -> (res: Option<i64>)
    ensures
        res == size_sum(entry_views(v@)),
{
    let ghost all = entry_views(v@);
    let mut sum: i64 = 0;
    let mut i: usize = 0;
    while i < v.len()
        invariant
            i <= v@.len(),
            all == entry_views(v@),
            size_sum(all.subrange(0, i as int)) == Some(sum),
        decreases v@.len() - i,
    {
        proof {
            assert(all.subrange(0, i + 1).drop_last() =~= all.subrange(0, i as int));
            assert(all.subrange(0, i + 1).last() == v@[i as int]@);
        }
        match sum.checked_add(v[i].file_size) {
            Some(t) => {
                sum = t;
            },
            None => {
                proof {
                    lemma_sum_stays_none(all, i + 1);
                }
                return None;
            },
        }
        i += 1;
    }
    assert(all.subrange(0, i as int) =~= all);
    Some(sum)
}

/// The sizes of entries added up, or an error if they cannot be counted.
fn sum_or_error(v: &Vec<CacheEntry>) -> (res: Result<i64, IndexError>)
    ensures
        match res {
            Ok(n) => size_sum(entry_views(v@)) == Some(n),
            Err(e) => e == IndexError::SizeOverflow && size_sum(entry_views(v@)) is None,
        },
{
    match add_sizes(v) {
        Some(n) => Ok(n),
        None => Err(IndexError::SizeOverflow),
    }
}

/// The entries from `from` up to `to`.
fn part_of(v: &Vec<CacheEntry>, from: usize, to: usize) -> (res: Vec<CacheEntry>)
    requires
        from <= to <= v@.len(),
    ensures
        entry_views(res@) == entry_views(v@).subrange(from as int, to as int),
{
    let mut res: Vec<CacheEntry> = Vec::new();
    let mut i: usize = from;
    while i < to
        invariant
            from <= i <= to <= v@.len(),
            res@.len() == i - from,
            forall|k: int| 0 <= k < i - from ==> (#[trigger] res@[k])@ == v@[from + k]@,
        decreases to - i,
    {
        res.push(v[i].clone());
        i += 1;
    }
    assert(entry_views(res@) =~= entry_views(v@).subrange(from as int, to as int));
    res
}

/// At most the first `limit` entries.
fn take_at_most(v: Vec<CacheEntry>, limit: usize) -> (res: Vec<CacheEntry>)
    ensures
        entry_views(res@) == at_most(entry_views(v@), limit as nat),
{
    if limit < v.len() {
        part_of(&v, 0, limit)
    } else {
        v
    }
}

/// The fingerprints and the files of entries.
fn names_and_files(v: &Vec<CacheEntry>) -> (res: Vec<(String, String)>)
    ensures
        pair_views(res@) == entry_views(v@).map_values(|e: EntryView| name_and_file(e)),
{
    let mut res: Vec<(String, String)> = Vec::new();
    let mut i: usize = 0;
    while i < v.len()
        invariant
            i <= v@.len(),
            res@.len() == i,
            forall|k: int|
                0 <= k < i ==> (#[trigger] res@[k]).0@ == v@[k]@.fingerprint && res@[k].1@
                    == v@[k]@.file_path,
        decreases v@.len() - i,
    {
        res.push((v[i].fingerprint.clone(), v[i].file_path.clone()));
        i += 1;
    }
    assert(pair_views(res@) =~= entry_views(v@).map_values(|e: EntryView| name_and_file(e)));
    res
}

/// A fingerprint, a file and its size.
pub open spec fn sized_views(v: Seq<(String, String, i64)>) -> Seq<(Seq<char>, Seq<char>, i64)> {
    v.map_values(|t: (String, String, i64)| (t.0@, t.1@, t.2))
}

/// The fingerprint and the file of an entry, and the size of the file.
pub open spec fn sized(e: EntryView) -> (Seq<char>, Seq<char>, i64) {
    (e.fingerprint, e.file_path, e.file_size)
}

/// The fingerprints, files and sizes of entries.
fn names_and_sizes(v: &Vec<CacheEntry>) -> (res: Vec<(String, String, i64)>)
    ensures
        sized_views(res@) == entry_views(v@).map_values(|e: EntryView| sized(e)),
{
    let mut res: Vec<(String, String, i64)> = Vec::new();
    let mut i: usize = 0;
    while i < v.len()
        invariant
            i <= v@.len(),
            res@.len() == i,
            forall|k: int|
                0 <= k < i ==> (#[trigger] res@[k]).0@ == v@[k]@.fingerprint && res@[k].1@
                    == v@[k]@.file_path && res@[k].2 == v@[k]@.file_size,
        decreases v@.len() - i,
    {
        res.push((v[i].fingerprint.clone(), v[i].file_path.clone(), v[i].file_size));
        i += 1;
    }
    assert(sized_views(res@) =~= entry_views(v@).map_values(|e: EntryView| sized(e)));
    res
}

/// The entries after each of some has come in.
pub open spec fn all_inserted(rows: Seq<EntryView>) -> Seq<EntryView>
    decreases rows.len(),
{
    if rows.len() == 0 {
        seq![]
    } else {
        inserted(all_inserted(rows.drop_last()), rows.last())
    }
}

/// Whether a setting has another key.
pub open spec fn other_key(key: Seq<char>) -> spec_fn((Seq<char>, Seq<char>)) -> bool {
    |p: (Seq<char>, Seq<char>)| p.0 != key
}

/// The settings after one has been given a value.
pub open spec fn with_setting(
    s: Seq<(Seq<char>, Seq<char>)>,
    key: Seq<char>,
    value: Seq<char>,
) -> Seq<(Seq<char>, Seq<char>)> {
    s.filter(other_key(key)).push((key, value))
}

/// The settings after each of some has been given a value.
pub open spec fn all_set(rows: Seq<(Seq<char>, Seq<char>)>) -> Seq<(Seq<char>, Seq<char>)>
    decreases rows.len(),
{
    if rows.len() == 0 {
        seq![]
    } else {
        with_setting(all_set(rows.drop_last()), rows.last().0, rows.last().1)
    }
}

/// The value of a setting.
pub open spec fn setting(s: Seq<(Seq<char>, Seq<char>)>, key: Seq<char>) -> Option<Seq<char>>
    decreases s.len(),
{
    if s.len() == 0 {
        None
    } else if s.last().0 == key {
        Some(s.last().1)
    } else {
        setting(s.drop_last(), key)
    }
}

/// Giving a setting a value keeps the keys distinct.
proof fn lemma_with_setting(s: Seq<(Seq<char>, Seq<char>)>, key: Seq<char>, value: Seq<char>)
    requires
        distinct_keys(s),
    ensures
        distinct_keys(with_setting(s, key, value)),
{
    lemma_filter_keys(s, other_key(key));
}

/// What is left of pairs with distinct keys has distinct keys.
proof fn lemma_filter_keys(
    s: Seq<(Seq<char>, Seq<char>)>,
    p: spec_fn((Seq<char>, Seq<char>)) -> bool,
)
    requires
        distinct_keys(s),
    ensures
        distinct_keys(s.filter(p)),
        forall|i: int|
            0 <= i < s.filter(p).len() ==> p(#[trigger] s.filter(p)[i]) && s.contains(
                s.filter(p)[i],
            ),
    decreases s.len(),
{
    reveal(Seq::filter);
    if s.len() > 0 {
        let t = s.drop_last();
        lemma_filter_keys(t, p);
        let k = t.filter(p);
        let r = s.filter(p);
        assert forall|i: int| 0 <= i < r.len() implies p(#[trigger] r[i]) && s.contains(r[i]) by {
            if i < k.len() {
                assert(t.contains(k[i]));
                let n = choose|n: int| 0 <= n < t.len() && t[n] == k[i];
                assert(s[n] == r[i]);
            } else {
                assert(s[s.len() - 1] == r[i]);
            }
        }
        assert forall|i: int, j: int| 0 <= i < j < r.len() implies (#[trigger] r[i]).0 != (
        #[trigger] r[j]).0 by {
            if j == k.len() {
                assert(t.contains(k[i]));
                let n = choose|n: int| 0 <= n < t.len() && t[n] == k[i];
                assert(s[n] == r[i] && s[s.len() - 1] == r[j]);
            } else {
                assert(k[i] == r[i] && k[j] == r[j]);
            }
        }
    }
}

/// Coming in keeps the entries distinct.
proof fn lemma_inserted_distinct(s: Seq<EntryView>, x: EntryView)
    requires
        distinct_entries(s),
    ensures
        distinct_entries(inserted(s, x)),
{
    lemma_filter_distinct(
        s,
        |e: EntryView| e.fingerprint != x.fingerprint && e.file_path != x.file_path,
    );
}

/// A file that no other entry has can be given to an entry.
proof fn lemma_renamed_distinct(
    s: Seq<EntryView>,
    fingerprint: Seq<char>,
    path: Seq<char>,
    at: i64,
)
    requires
        distinct_entries(s),
        !path_taken(s, fingerprint, path),
    ensures
        distinct_entries(renamed_stale(s, fingerprint, path, at)),
{
    let r = renamed_stale(s, fingerprint, path, at);
    assert forall|i: int, j: int| 0 <= i < j < r.len() implies (#[trigger] r[i]).fingerprint != (
    #[trigger] r[j]).fingerprint && r[i].file_path != r[j].file_path by {
        assert(s[i].fingerprint != s[j].fingerprint);
        assert(s[i].file_path != s[j].file_path);
    }
}

impl CacheIndex {
    /// An index without entries.
    pub fn new() -> (res: CacheIndex)
        ensures
            res@.wf(),
            res@.entries == Seq::<EntryView>::empty(),
            res@.settings == Seq::<(Seq<char>, Seq<char>)>::empty(),
    {
        let res = CacheIndex { entries: Vec::new(), settings: Vec::new() };
        assert(res@.entries =~= Seq::<EntryView>::empty());
        assert(res@.settings =~= Seq::<(Seq<char>, Seq<char>)>::empty());
        res
    }

    /// The index with these rows and settings.
    pub fn from_rows(rows: &Vec<CacheEntry>, settings: &Vec<(String, String)>) -> (res: CacheIndex)
        ensures
            res@.wf(),
            res@.entries == all_inserted(entry_views(rows@)),
            res@.settings == all_set(pair_views(settings@)),
    {
        let mut res = CacheIndex::new();
        let ghost all = entry_views(rows@);
        let ghost pairs = pair_views(settings@);
        let mut i: usize = 0;
        assert(all.subrange(0, 0) =~= seq![]);
        while i < rows.len()
            invariant
                i <= rows@.len(),
                all == entry_views(rows@),
                res@.wf(),
                res@.entries == all_inserted(all.subrange(0, i as int)),
                res@.settings.len() == 0,
            decreases rows@.len() - i,
        {
            proof {
                assert(all.subrange(0, i + 1).drop_last() =~= all.subrange(0, i as int));
                assert(all.subrange(0, i + 1).last() == rows@[i as int]@);
            }
            res.insert(&rows[i]);
            i += 1;
        }
        assert(all.subrange(0, i as int) =~= all);
        let mut k: usize = 0;
        assert(pairs.subrange(0, 0) =~= seq![]);
        assert(res@.settings =~= all_set(pairs.subrange(0, 0)));
        while k < settings.len()
            invariant
                k <= settings@.len(),
                pairs == pair_views(settings@),
                res@.wf(),
                res@.entries == all_inserted(all),
                res@.settings == all_set(pairs.subrange(0, k as int)),
            decreases settings@.len() - k,
        {
            proof {
                assert(pairs.subrange(0, k + 1).drop_last() =~= pairs.subrange(0, k as int));
                assert(pairs.subrange(0, k + 1).last() == (
                    settings@[k as int].0@,
                    settings@[k as int].1@,
                ));
            }
            res.set_setting(settings[k].0.as_str(), settings[k].1.as_str());
            k += 1;
        }
        assert(pairs.subrange(0, k as int) =~= pairs);
        res
    }

    /// All entries, in the order in which they came in.
    pub fn rows(&self) -> (res: &Vec<CacheEntry>)
        ensures
            entry_views(res@) == self@.entries,
    {
        &self.entries
    }

    /// All settings.
    pub fn settings(&self) -> (res: &Vec<(String, String)>)
        ensures
            pair_views(res@) == self@.settings,
    {
        &self.settings
    }

    /// Puts in an entry, in the place of those with its fingerprint or its file.
    pub fn insert(&mut self, entry: &CacheEntry)
        requires
            old(self)@.wf(),
        ensures
            final(self)@.wf(),
            final(self)@.entries == inserted(old(self)@.entries, entry@),
            final(self)@.settings == old(self)@.settings,
    {
        let keep = |e: &CacheEntry| -> (b: bool)
            ensures
                b == (e@.fingerprint != entry@.fingerprint && e@.file_path != entry@.file_path),
            {
                !same(e.fingerprint.as_str(), entry.fingerprint.as_str()) && !same(
                    e.file_path.as_str(),
                    entry.file_path.as_str(),
                )
            };
        let ghost p = |e: EntryView|
            e.fingerprint != entry@.fingerprint && e.file_path != entry@.file_path;
        proof {
            lemma_inserted_distinct(self@.entries, entry@);
        }
        let mut entries = select(&self.entries, keep, Ghost(p));
        let ghost kept = entry_views(entries@);
        entries.push(entry.clone());
        assert(entry_views(entries@) =~= kept.push(entry@));
        self.entries = entries;
    }

    /// The active entry with a fingerprint.
    pub fn lookup(&self, fingerprint: &str) -> (res: Option<CacheEntry>)
        ensures
            match res {
                Some(e) => served(self@.entries, fingerprint@) == Some(e@),
                None => served(self@.entries, fingerprint@) is None,
            },
    {
        let keep = |e: &CacheEntry| -> (b: bool)
            ensures
                b == (e@.fingerprint == fingerprint@ && active(e@)),
            { same(e.fingerprint.as_str(), fingerprint) && is_active(e) };
        let found = select(
            &self.entries,
            keep,
            Ghost(|e: EntryView| e.fingerprint == fingerprint@ && active(e)),
        );
        if found.len() == 0 {
            None
        } else {
            assert(entry_views(found@)[0] == found@[0]@);
            Some(found[0].clone())
        }
    }

    /// The entry with a fingerprint, active or stale.
    pub fn find(&self, fingerprint: &str) -> (res: Option<CacheEntry>)
        ensures
            match res {
                Some(e) => first(
                    self@.entries.filter(|e: EntryView| e.fingerprint == fingerprint@),
                ) == Some(e@),
                None => first(
                    self@.entries.filter(|e: EntryView| e.fingerprint == fingerprint@),
                ) is None,
            },
    {
        let is_it = |e: &CacheEntry| -> (b: bool)
            ensures
                b == (e@.fingerprint == fingerprint@),
            { same(e.fingerprint.as_str(), fingerprint) };
        let found = select(
            &self.entries,
            is_it,
            Ghost(|e: EntryView| e.fingerprint == fingerprint@),
        );
        if found.len() == 0 {
            None
        } else {
            assert(entry_views(found@)[0] == found@[0]@);
            Some(found[0].clone())
        }
    }

    /// The active entries for a URL; there can be several, for different values of the
    /// headers that the response varies on.
    pub fn lookup_by_url(&self, url: &str) -> (res: Vec<CacheEntry>)
        ensures
            entry_views(res@) == served_for_url(self@.entries, url@),
    {
        let keep = |e: &CacheEntry| -> (b: bool)
            ensures
                b == (e@.url == url@ && active(e@)),
            { same(e.url.as_str(), url) && is_active(e) };
        select(&self.entries, keep, Ghost(|e: EntryView| e.url == url@ && active(e)))
    }

    /// Notes that an entry was read at a time.
    pub fn touch(&mut self, fingerprint: &str, now: i64)
        requires
            old(self)@.wf(),
        ensures
            final(self)@.wf(),
            final(self)@.entries == touched(old(self)@.entries, fingerprint@, now),
            final(self)@.settings == old(self)@.settings,
    {
        let ghost f = |e: EntryView|
            if e.fingerprint == fingerprint@ {
                EntryView { last_accessed: now, ..e }
            } else {
                e
            };
        let change = |e: &CacheEntry| -> (r: CacheEntry)
            ensures
                r@ == f(e@),
            {
                let mut r = e.clone();
                if same(e.fingerprint.as_str(), fingerprint) {
                    r.last_accessed = now;
                }
                r
            };
        proof {
            lemma_map_distinct(self@.entries, f);
        }
        self.entries = change_all(&self.entries, change, Ghost(f));
    }

    /// Notes when each of some entries was read.
    pub fn touch_batch(&mut self, updates: &Vec<(String, i64)>)
        requires
            old(self)@.wf(),
        ensures
            final(self)@.wf(),
            final(self)@.entries == touched_all(old(self)@.entries, updates@),
            final(self)@.settings == old(self)@.settings,
    {
        let ghost start = self@;
        let mut i: usize = 0;
        assert(updates@.subrange(0, 0) =~= seq![]);
        while i < updates.len()
            invariant
                i <= updates@.len(),
                self@.wf(),
                self@.entries == touched_all(start.entries, updates@.subrange(0, i as int)),
                self@.settings == start.settings,
            decreases updates@.len() - i,
        {
            assert(updates@.subrange(0, i + 1).drop_last() =~= updates@.subrange(0, i as int));
            self.touch(updates[i].0.as_str(), updates[i].1);
            i += 1;
        }
        assert(updates@.subrange(0, i as int) =~= updates@);
    }

    /// Notes that an entry has become stale and that its file has a new name.
    pub fn mark_stale(&mut self, fingerprint: &str, new_file_path: &str, now: i64) -> (res: Result<
        (),
        IndexError,
    >)
        requires
            old(self)@.wf(),
        ensures
            final(self)@.wf(),
            final(self)@.settings == old(self)@.settings,
            match res {
                Ok(_) => !path_taken(old(self)@.entries, fingerprint@, new_file_path@)
                    && final(self)@.entries == renamed_stale(
                    old(self)@.entries,
                    fingerprint@,
                    new_file_path@,
                    now,
                ),
                Err(e) => e == IndexError::PathTaken && path_taken(
                    old(self)@.entries,
                    fingerprint@,
                    new_file_path@,
                ) && final(self)@.entries == old(self)@.entries,
            },
    {
        let ghost old_entries = self@.entries;
        let ghost is_it = |e: EntryView| e.fingerprint == fingerprint@;
        let ghost has_path = |e: EntryView|
            e.fingerprint != fingerprint@ && e.file_path == new_file_path@;
        let here = |e: &CacheEntry| -> (b: bool)
            ensures
                b == is_it(e@),
            { same(e.fingerprint.as_str(), fingerprint) };
        let there = |e: &CacheEntry| -> (b: bool)
            ensures
                b == has_path(e@),
            {
                !same(e.fingerprint.as_str(), fingerprint) && same(
                    e.file_path.as_str(),
                    new_file_path,
                )
            };
        let known: usize = count(&self.entries, here, Ghost(is_it));
        let others: usize = count(&self.entries, there, Ghost(has_path));
        proof {
            lemma_filter_some(old_entries, is_it);
            lemma_filter_some(old_entries, has_path);
            if exists|i: int| 0 <= i < old_entries.len() && is_it(#[trigger] old_entries[i]) {
                let i = choose|i: int|
                    0 <= i < old_entries.len() && is_it(#[trigger] old_entries[i]);
                assert(old_entries[i].fingerprint == fingerprint@);
            }
            if exists|i: int| 0 <= i < old_entries.len() && has_path(#[trigger] old_entries[i]) {
                let i = choose|i: int|
                    0 <= i < old_entries.len() && has_path(#[trigger] old_entries[i]);
                assert(old_entries[i].file_path == new_file_path@);
            }
            if path_taken(old_entries, fingerprint@, new_file_path@) {
                let i = choose|i: int|
                    0 <= i < old_entries.len() && (#[trigger] old_entries[i]).fingerprint
                        == fingerprint@;
                let j = choose|j: int|
                    0 <= j < old_entries.len() && (#[trigger] old_entries[j]).fingerprint
                        != fingerprint@ && old_entries[j].file_path == new_file_path@;
                assert(is_it(old_entries[i]));
                assert(has_path(old_entries[j]));
            }
        }
        if known > 0 && others > 0 {
            return Err(IndexError::PathTaken);
        }
        let ghost f = |e: EntryView|
            if e.fingerprint == fingerprint@ {
                EntryView { file_path: new_file_path@, ..gone_stale(e, now) }
            } else {
                e
            };
        let change = |e: &CacheEntry| -> (r: CacheEntry)
            ensures
                r@ == f(e@),
            {
                let mut r = e.clone();
                if same(e.fingerprint.as_str(), fingerprint) {
                    r.status = "stale".to_owned();
                    r.stale_at = Some(now);
                    r.file_path = new_file_path.to_owned();
                }
                r
            };
        proof {
            lemma_renamed_distinct(self@.entries, fingerprint@, new_file_path@, now);
        }
        self.entries = change_all(&self.entries, change, Ghost(f));
        Ok(())
    }

    /// Gives an entry that was found unchanged a new policy and new headers.
    pub fn update_policy(
        &mut self,
        fingerprint: &str,
        cache_policy: &Vec<u8>,
        response_headers: &str,
        now: i64,
    )
        requires
            old(self)@.wf(),
        ensures
            final(self)@.wf(),
            final(self)@.entries == revalidated(
                old(self)@.entries,
                fingerprint@,
                cache_policy@,
                response_headers@,
                now,
            ),
            final(self)@.settings == old(self)@.settings,
    {
        let ghost f = |e: EntryView|
            if e.fingerprint == fingerprint@ {
                EntryView {
                    cache_policy: cache_policy@,
                    last_accessed: now,
                    response_headers: response_headers@,
                    ..e
                }
            } else {
                e
            };
        let change = |e: &CacheEntry| -> (r: CacheEntry)
            ensures
                r@ == f(e@),
            {
                let mut r = e.clone();
                if same(e.fingerprint.as_str(), fingerprint) {
                    r.cache_policy = clone_bytes(cache_policy);
                    r.last_accessed = now;
                    r.response_headers = response_headers.to_owned();
                }
                r
            };
        proof {
            lemma_map_distinct(self@.entries, f);
        }
        self.entries = change_all(&self.entries, change, Ghost(f));
    }

    /// Makes all entries stale that are served for a `GET` or `HEAD` of a URL. Returns
    /// their fingerprints and files.
    pub fn invalidate_by_url(&mut self, url: &str, now: i64) -> (res: Vec<(String, String)>)
        requires
            old(self)@.wf(),
        ensures
            final(self)@.wf(),
            final(self)@.entries == all_gone_stale(
                old(self)@.entries,
                |e: EntryView| readable_at(e, url@),
                now,
            ),
            final(self)@.settings == old(self)@.settings,
            pair_views(res@) == old(self)@.entries.filter(
                |e: EntryView| readable_at(e, url@),
            ).map_values(|e: EntryView| name_and_file(e)),
    {
        let ghost p = |e: EntryView| readable_at(e, url@);
        let keep = |e: &CacheEntry| -> (b: bool)
            ensures
                b == p(e@),
            {
                same(e.url.as_str(), url) && is_active(e) && (same(e.method.as_str(), "GET")
                    || same(e.method.as_str(), "HEAD"))
            };
        let hit = select(&self.entries, keep, Ghost(p));
        let ghost f = |e: EntryView|
            if p(e) {
                gone_stale(e, now)
            } else {
                e
            };
        let change = |e: &CacheEntry| -> (r: CacheEntry)
            ensures
                r@ == f(e@),
            {
                let mut r = e.clone();
                if same(e.url.as_str(), url) && is_active(e) && (same(e.method.as_str(), "GET")
                    || same(e.method.as_str(), "HEAD")) {
                    r.status = "stale".to_owned();
                    r.stale_at = Some(now);
                }
                r
            };
        proof {
            lemma_map_distinct(self@.entries, f);
        }
        self.entries = change_all(&self.entries, change, Ghost(f));
        names_and_files(&hit)
    }

    /// Deletes an entry. Returns its file.
    pub fn delete(&mut self, fingerprint: &str) -> (res: Option<String>)
        requires
            old(self)@.wf(),
        ensures
            final(self)@.wf(),
            final(self)@.entries == deleted(old(self)@.entries, fingerprint@),
            final(self)@.settings == old(self)@.settings,
            res.deep_view() == match first(
                old(self)@.entries.filter(|e: EntryView| e.fingerprint == fingerprint@),
            ) {
                Some(e) => Some(e.file_path),
                None => None,
            },
    {
        let is_it = |e: &CacheEntry| -> (b: bool)
            ensures
                b == (e@.fingerprint == fingerprint@),
            { same(e.fingerprint.as_str(), fingerprint) };
        let found = select(
            &self.entries,
            is_it,
            Ghost(|e: EntryView| e.fingerprint == fingerprint@),
        );
        let keep = |e: &CacheEntry| -> (b: bool)
            ensures
                b == (e@.fingerprint != fingerprint@),
            { !same(e.fingerprint.as_str(), fingerprint) };
        let ghost p = |e: EntryView| e.fingerprint != fingerprint@;
        proof {
            lemma_filter_distinct(self@.entries, p);
        }
        self.entries = select(&self.entries, keep, Ghost(p));
        if found.len() == 0 {
            None
        } else {
            assert(entry_views(found@)[0] == found@[0]@);
            Some(found[0].file_path.clone())
        }
    }

    /// The active entries.
    fn active_rows(&self) -> (res: Vec<CacheEntry>)
        ensures
            entry_views(res@) == self@.entries.filter(|e: EntryView| active(e)),
    {
        let keep = |e: &CacheEntry| -> (b: bool)
            ensures
                b == active(e@),
            { is_active(e) };
        select(&self.entries, keep, Ghost(|e: EntryView| active(e)))
    }

    /// The stale entries.
    fn stale_rows(&self) -> (res: Vec<CacheEntry>)
        ensures
            entry_views(res@) == self@.entries.filter(|e: EntryView| stale(e)),
    {
        let keep = |e: &CacheEntry| -> (b: bool)
            ensures
                b == stale(e@),
            { is_stale(e) };
        select(&self.entries, keep, Ghost(|e: EntryView| stale(e)))
    }

    /// The size of all active files.
    pub fn total_size(&self) -> (res: Result<i64, IndexError>)
        ensures
            match res {
                Ok(n) => size_sum(self@.entries.filter(|e: EntryView| active(e))) == Some(n),
                Err(e) => e == IndexError::SizeOverflow && size_sum(
                    self@.entries.filter(|e: EntryView| active(e)),
                ) is None,
            },
    {
        sum_or_error(&self.active_rows())
    }

    /// The size of all files, stale ones as well.
    pub fn total_size_all(&self) -> (res: Result<i64, IndexError>)
        ensures
            match res {
                Ok(n) => size_sum(self@.entries) == Some(n),
                Err(e) => e == IndexError::SizeOverflow && size_sum(self@.entries) is None,
            },
    {
        sum_or_error(&self.entries)
    }

    /// The fingerprints and files of the active entries whose time has run out.
    pub fn get_expired_active(&self, now: i64) -> (res: Vec<(String, String)>)
        ensures
            pair_views(res@) == expired(self@.entries, now).map_values(
                |e: EntryView| name_and_file(e),
            ),
    {
        let keep = |e: &CacheEntry| -> (b: bool)
            ensures
                b == (active(e@) && e@.expires_at is Some && e@.expires_at->0 < now),
            {
                is_active(e) && match e.expires_at {
                    Some(t) => t < now,
                    None => false,
                }
            };
        let rows = select(
            &self.entries,
            keep,
            Ghost(|e: EntryView| active(e) && e.expires_at is Some && e.expires_at->0 < now),
        );
        names_and_files(&rows)
    }

    /// The fingerprints and files of the entries that became stale before a time, the
    /// oldest first.
    pub fn get_stale_older_than(&self, cutoff: i64) -> (res: Vec<(String, String)>)
        ensures
            pair_views(res@) == stale_before(self@.entries, cutoff).map_values(
                |e: EntryView| name_and_file(e),
            ),
    {
        let keep = |e: &CacheEntry| -> (b: bool)
            ensures
                b == (stale(e@) && e@.stale_at is Some && e@.stale_at->0 < cutoff),
            {
                is_stale(e) && match e.stale_at {
                    Some(t) => t < cutoff,
                    None => false,
                }
            };
        let rows = select(
            &self.entries,
            keep,
            Ghost(|e: EntryView| stale(e) && e.stale_at is Some && e.stale_at->0 < cutoff),
        );
        names_and_files(&sort_stale(rows))
    }

    /// Fingerprints, files and sizes of stale entries, the oldest first, at most
    /// `limit` of them.
    pub fn get_stale_for_eviction(&self, limit: usize) -> (res: Vec<(String, String, i64)>)
        ensures
            sized_views(res@) == at_most(stale_first(self@.entries), limit as nat).map_values(
                |e: EntryView| sized(e),
            ),
    {
        names_and_sizes(&take_at_most(sort_stale(self.stale_rows()), limit))
    }

    /// Fingerprints, files and sizes of active entries, those first that have not been
    /// read for the longest time, at most `limit` of them.
    pub fn get_active_for_eviction(&self, limit: usize) -> (res: Vec<(String, String, i64)>)
        ensures
            sized_views(res@) == at_most(unread_first(self@.entries), limit as nat).map_values(
                |e: EntryView| sized(e),
            ),
    {
        let key = |e: &CacheEntry| -> (n: i128)
            ensures
                n == read_key(e@),
            { e.last_accessed as i128 };
        let rows = sort_by_key(self.active_rows(), key, Ghost(|e: EntryView| read_key(e)));
        names_and_sizes(&take_at_most(rows, limit))
    }

    /// The number of entries with a status.
    pub fn count_by_status(&self, status: &str) -> (res: i64)
        requires
            self@.entries.len() <= i64::MAX,
        ensures
            res == how_many(self@.entries, |e: EntryView| e.status == status@),
    {
        let keep = |e: &CacheEntry| -> (b: bool)
            ensures
                b == (e@.status == status@),
            { same(e.status.as_str(), status) };
        count(&self.entries, keep, Ghost(|e: EntryView| e.status == status@)) as i64
    }

    /// The number of active entries of a kind of media.
    fn media_count(&self, kind: &str) -> (res: i64)
        requires
            self@.entries.len() <= i64::MAX,
        ensures
            res == how_many(self@.entries, |e: EntryView| is_media(e, kind@)),
    {
        let keep = |e: &CacheEntry| -> (b: bool)
            ensures
                b == is_media(e@, kind@),
            {
                is_active(e) && match &e.media_type {
                    Some(m) => same(m.as_str(), kind),
                    None => false,
                }
            };
        count(&self.entries, keep, Ghost(|e: EntryView| is_media(e, kind@))) as i64
    }

    /// Counts and sizes of what is in the index.
    pub fn stats(&self) -> (res: Result<CacheStats, IndexError>)
        requires
            self@.entries.len() <= i64::MAX,
        ensures
            match res {
                Ok(stats) => are_stats(stats, self@.entries),
                Err(e) => e == IndexError::SizeOverflow && (size_sum(
                    self@.entries.filter(|e: EntryView| active(e)),
                ) is None || size_sum(self@.entries) is None),
            },
    {
        let fresh = self.active_rows();
        let old_rows = self.stale_rows();
        proof {
            self@.entries.lemma_filter_len(|e: EntryView| active(e));
            self@.entries.lemma_filter_len(|e: EntryView| stale(e));
            assert(fresh@.len() == entry_views(fresh@).len());
            assert(old_rows@.len() == entry_views(old_rows@).len());
        }
        let active_size = match add_sizes(&fresh) {
            Some(n) => n,
            None => {
                return Err(IndexError::SizeOverflow);
            },
        };
        let total_size = match add_sizes(&self.entries) {
            Some(n) => n,
            None => {
                return Err(IndexError::SizeOverflow);
            },
        };
        Ok(
            CacheStats {
                active_entries: fresh.len() as i64,
                stale_entries: old_rows.len() as i64,
                active_size,
                total_size,
                image_count: self.media_count("image"),
                video_count: self.media_count("video"),
                audio_count: self.media_count("audio"),
            },
        )
    }

    /// At most `limit` of the entries whose URL a query matches, those first that were
    /// read last.
    pub fn search(&self, query: &str, limit: usize) -> (res: Result<Vec<CacheEntry>, IndexError>)
        ensures
            match res {
                Ok(v) => !(too_long(query@) && self@.entries.len() > 0) && entry_views(v@)
                    == at_most(
                    recent_first(
                        self@.entries.filter(|e: EntryView| matches_part(query@, e.url)),
                    ),
                    limit as nat,
                ),
                Err(e) => e == IndexError::PatternTooLong && too_long(query@)
                    && self@.entries.len() > 0,
            },
    {
        if byte_len(query) > LONGEST_PATTERN - 2 && self.entries.len() > 0 {
            return Err(IndexError::PatternTooLong);
        }
        let keep = |e: &CacheEntry| -> (b: bool)
            ensures
                b == matches_part(query@, e@.url),
            { part_is_like(query, e.url.as_str()) };
        let rows = select(
            &self.entries,
            keep,
            Ghost(|e: EntryView| matches_part(query@, e.url)),
        );
        Ok(take_at_most(sort_recent(rows), limit))
    }

    /// Makes all active entries stale. Returns how many there were.
    pub fn mark_all_stale(&mut self, now: i64) -> (res: i64)
        requires
            old(self)@.wf(),
            old(self)@.entries.len() <= i64::MAX,
        ensures
            final(self)@.wf(),
            final(self)@.entries == all_gone_stale(
                old(self)@.entries,
                |e: EntryView| active(e),
                now,
            ),
            final(self)@.settings == old(self)@.settings,
            res == how_many(old(self)@.entries, |e: EntryView| active(e)),
    {
        let ghost p = |e: EntryView| active(e);
        let keep = |e: &CacheEntry| -> (b: bool)
            ensures
                b == p(e@),
            { is_active(e) };
        let n: usize = count(&self.entries, keep, Ghost(p));
        let ghost f = |e: EntryView|
            if p(e) {
                gone_stale(e, now)
            } else {
                e
            };
        let change = |e: &CacheEntry| -> (r: CacheEntry)
            ensures
                r@ == f(e@),
            {
                let mut r = e.clone();
                if is_active(e) {
                    r.status = "stale".to_owned();
                    r.stale_at = Some(now);
                }
                r
            };
        proof {
            lemma_map_distinct(self@.entries, f);
        }
        self.entries = change_all(&self.entries, change, Ghost(f));
        n as i64
    }

    /// A page of the entries that are asked for, those first that were read last, and
    /// the number of all entries that are asked for.
    pub fn list_entries(
        &self,
        host: &Option<String>,
        media_type: &Option<String>,
        status: &Option<String>,
        query: &Option<String>,
        offset: i64,
        limit: i64,
    ) -> (res: Result<(Vec<CacheEntry>, i64), IndexError>)
        requires
            self@.entries.len() <= i64::MAX,
        ensures
            match res {
                Ok((v, total)) => !(query matches Some(q) && too_long(q@) && how_many(
                    self@.entries,
                    |e: EntryView|
                        is_asked(e, host.deep_view(), media_type.deep_view(), status.deep_view()),
                ) > 0) && ({
                    let all = asked(
                        self@.entries,
                        host.deep_view(),
                        media_type.deep_view(),
                        status.deep_view(),
                        query.deep_view(),
                    );
                    total == all.len() && entry_views(v@) == page(recent_first(all), offset, limit)
                }),
                Err(e) => e == IndexError::PatternTooLong && (query matches Some(q) && too_long(
                    q@,
                ) && how_many(
                    self@.entries,
                    |e: EntryView|
                        is_asked(e, host.deep_view(), media_type.deep_view(), status.deep_view()),
                ) > 0),
            },
    {
        let ghost p = |e: EntryView|
            is_asked(e, host.deep_view(), media_type.deep_view(), status.deep_view());
        let ghost (h, m, st, qu) = (
            host.deep_view(),
            media_type.deep_view(),
            status.deep_view(),
            query.deep_view(),
        );
        let ghost q = |e: EntryView|
            is_asked(e, h, m, st) && (qu matches Some(q) ==> matches_part(q, e.url));
        assert(asked(self@.entries, h, m, st, qu) == self@.entries.filter(q));
        let fits = |e: &CacheEntry| -> (b: bool)
            ensures
                b == p(e@),
            { entry_fits(e, host, media_type, status) };
        let fitting: usize = count(&self.entries, fits, Ghost(p));
        if let Some(text) = query {
            if byte_len(text.as_str()) > LONGEST_PATTERN - 2 && fitting > 0 {
                return Err(IndexError::PatternTooLong);
            }
        }
        let keep = |e: &CacheEntry| -> (b: bool)
            ensures
                b == q(e@),
            {
                entry_fits(e, host, media_type, status) && match query {
                    Some(text) => part_is_like(text.as_str(), e.url.as_str()),
                    None => true,
                }
            };
        let rows = select(&self.entries, keep, Ghost(q));
        proof {
            self@.entries.lemma_filter_len(q);
            assert(rows@.len() == entry_views(rows@).len());
        }
        let n: usize = rows.len();
        let sorted = sort_recent(rows);
        proof {
            lemma_recent_len(self@.entries.filter(q));
            assert(sorted@.len() == entry_views(sorted@).len());
        }
        let from: usize = if offset < 0 {
            0
        } else if offset as u64 > n as u64 {
            n
        } else {
            offset as usize
        };
        let to: usize = if limit < 0 || limit as u64 > (n - from) as u64 {
            n
        } else {
            from + limit as usize
        };
        Ok((part_of(&sorted, from, to), n as i64))
    }

    /// Makes an entry active again.
    pub fn restore(&mut self, fingerprint: &str)
        requires
            old(self)@.wf(),
        ensures
            final(self)@.wf(),
            final(self)@.entries == restored(old(self)@.entries, fingerprint@),
            final(self)@.settings == old(self)@.settings,
    {
        let ghost f = |e: EntryView|
            if e.fingerprint == fingerprint@ {
                EntryView { status: "active"@, stale_at: None, ..e }
            } else {
                e
            };
        let change = |e: &CacheEntry| -> (r: CacheEntry)
            ensures
                r@ == f(e@),
            {
                let mut r = e.clone();
                if same(e.fingerprint.as_str(), fingerprint) {
                    r.status = "active".to_owned();
                    r.stale_at = None;
                }
                r
            };
        proof {
            lemma_map_distinct(self@.entries, f);
        }
        self.entries = change_all(&self.entries, change, Ghost(f));
    }

    /// Deletes all entries. Returns how many there were.
    pub fn delete_all(&mut self) -> (res: i64)
        requires
            old(self)@.wf(),
            old(self)@.entries.len() <= i64::MAX,
        ensures
            final(self)@.wf(),
            final(self)@.entries.len() == 0,
            final(self)@.settings == old(self)@.settings,
            res == old(self)@.entries.len(),
    {
        assert(self.entries@.len() == self@.entries.len());
        let n: usize = self.entries.len();
        self.entries = Vec::new();
        n as i64
    }

    /// The value of a setting.
    pub fn get_setting(&self, key: &str) -> (res: Option<String>)
        ensures
            res.deep_view() == setting(self@.settings, key@),
    {
        let ghost all = self@.settings;
        let mut i: usize = self.settings.len();
        assert(all.subrange(0, i as int) =~= all);
        while i > 0
            invariant
                i <= self.settings@.len(),
                all == pair_views(self.settings@),
                setting(all, key@) == setting(all.subrange(0, i as int), key@),
            decreases i,
        {
            proof {
                let here = all.subrange(0, i as int);
                assert(here.drop_last() =~= all.subrange(0, i - 1));
                assert(here.last() == (self.settings@[i - 1].0@, self.settings@[i - 1].1@));
            }
            i -= 1;
            if same(self.settings[i].0.as_str(), key) {
                return Some(self.settings[i].1.clone());
            }
        }
        None
    }

    /// Gives a setting a value.
    pub fn set_setting(&mut self, key: &str, value: &str)
        requires
            old(self)@.wf(),
        ensures
            final(self)@.wf(),
            final(self)@.entries == old(self)@.entries,
            final(self)@.settings == with_setting(old(self)@.settings, key@, value@),
    {
        let ghost all = self@.settings;
        let ghost p = other_key(key@);
        let mut settings: Vec<(String, String)> = Vec::new();
        let mut i: usize = 0;
        proof {
            reveal(Seq::filter);
            lemma_with_setting(all, key@, value@);
            assert(pair_views(settings@) =~= all.subrange(0, 0).filter(p));
        }
        while i < self.settings.len()
            invariant
                i <= self.settings@.len(),
                all == pair_views(self.settings@),
                p == other_key(key@),
                pair_views(settings@) == all.subrange(0, i as int).filter(p),
            decreases self.settings@.len() - i,
        {
            let ghost done = pair_views(settings@);
            let ghost here = (self.settings@[i as int].0@, self.settings@[i as int].1@);
            proof {
                assert(all.subrange(0, i + 1) =~= all.subrange(0, i as int).push(here));
                lemma_filter_push(all.subrange(0, i as int), here, p);
            }
            if !same(self.settings[i].0.as_str(), key) {
                settings.push((self.settings[i].0.clone(), self.settings[i].1.clone()));
                assert(pair_views(settings@) =~= done.push(here));
            }
            i += 1;
        }
        assert(all.subrange(0, i as int) =~= all);
        let ghost done = pair_views(settings@);
        settings.push((key.to_owned(), value.to_owned()));
        assert(pair_views(settings@) =~= done.push((key@, value@)));
        self.settings = settings;
    }
}

/// Whether an entry has the host, media type and status that are asked for.
fn entry_fits(
    e: &CacheEntry,
    host: &Option<String>,
    media_type: &Option<String>,
    status: &Option<String>,
) -> (res: bool)
    ensures
        res == is_asked(e@, host.deep_view(), media_type.deep_view(), status.deep_view()),
{
    let host_fits = match host {
        Some(h) => same(e.host.as_str(), h.as_str()),
        None => true,
    };
    let media_fits = match media_type {
        Some(m) => match &e.media_type {
            Some(n) => same(n.as_str(), m.as_str()),
            None => false,
        },
        None => true,
    };
    let status_fits = match status {
        Some(s) => same(e.status.as_str(), s.as_str()),
        None => true,
    };
    host_fits && media_fits && status_fits
}

/// Stale entries, the oldest first.
fn sort_stale(rows: Vec<CacheEntry>) -> (res: Vec<CacheEntry>)
    ensures
        entry_views(res@) == in_order(
            entry_views(rows@),
            by_key(|e: EntryView| stale_key(e)),
        ),
{
    let key = |e: &CacheEntry| -> (n: i128)
        ensures
            n == stale_key(e@),
        {
            match e.stale_at {
                Some(t) => t as i128,
                None => i64::MIN as i128 - 1,
            }
        };
    sort_by_key(rows, key, Ghost(|e: EntryView| stale_key(e)))
}

/// Entries, those first that were read last.
fn sort_recent(rows: Vec<CacheEntry>) -> (res: Vec<CacheEntry>)
    ensures
        entry_views(res@) == recent_first(entry_views(rows@)),
{
    let key = |e: &CacheEntry| -> (n: i128)
        ensures
            n == recent_key(e@),
        { -(e.last_accessed as i128) };
    sort_by_key(rows, key, Ghost(|e: EntryView| recent_key(e)))
}

/// Ordering keeps the number of entries.
proof fn lemma_recent_len(s: Seq<EntryView>)
    ensures
        recent_first(s).len() == s.len(),
{
    lemma_by_key(|e: EntryView| recent_key(e));
    crate::order::lemma_in_order(s, by_key(|e: EntryView| recent_key(e)));
}

/// Keys compare any two entries.
proof fn lemma_by_key(key: spec_fn(EntryView) -> int)
    ensures
        crate::order::is_total_preorder(by_key(key)),
{
}

} // verus!
