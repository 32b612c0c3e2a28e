//! What holds of the index of the cache across its operations.
#[allow(unused_imports)]
use crate::cache::entry::{by_key, lemma_filter_push, EntryView};
#[allow(unused_imports)]
use crate::cache::index::{
    active, all_gone_stale, all_inserted, are_stats, deleted, distinct_entries, how_many, inserted,
    is_media, lemma_filter_some, other_key, page, read_key, readable_at, renamed_stale, restored, revalidated, served, setting,
    size_sum, stale, stale_first, stale_key, touched, unread_first, with_setting, CacheStats,
};
#[allow(unused_imports)]
use crate::order::{is_total_preorder, lemma_in_order};
use vstd::prelude::*;

verus! {

/// Filtering keeps everything that has the property.
pub proof fn lemma_filter_all<T>(s: Seq<T>, p: spec_fn(T) -> bool)
    requires
        forall|i: int| 0 <= i < s.len() ==> p(#[trigger] s[i]),
    ensures
        s.filter(p) == s,
    decreases s.len(),
{
    reveal(Seq::filter);
    if s.len() > 0 {
        assert forall|i: int| 0 <= i < s.drop_last().len() implies p(
            #[trigger] s.drop_last()[i],
        ) by {
            assert(s.drop_last()[i] == s[i]);
        }
        lemma_filter_all(s.drop_last(), p);
        assert(p(s[s.len() - 1]));
        assert(s.drop_last().push(s.last()) =~= s);
    }
}

/// Filtering keeps nothing if nothing has the property.
pub proof fn lemma_filter_nothing<T>(s: Seq<T>, p: spec_fn(T) -> bool)
    requires
        forall|i: int| 0 <= i < s.len() ==> !p(#[trigger] s[i]),
    ensures
        s.filter(p).len() == 0,
{
    lemma_filter_some(s, p);
}

/// What filtering keeps has the property and was there before.
proof fn lemma_filter_members<T>(s: Seq<T>, p: spec_fn(T) -> bool, i: int)
    requires
        0 <= i < s.filter(p).len(),
    ensures
        p(s.filter(p)[i]),
        s.contains(s.filter(p)[i]),
    decreases s.len(),
{
    reveal(Seq::filter);
    if s.len() > 0 {
        let t = s.drop_last();
        if i < t.filter(p).len() {
            lemma_filter_members(t, p, i);
            let n = choose|n: int| 0 <= n < t.len() && t[n] == t.filter(p)[i];
            assert(s[n] == s.filter(p)[i]);
        } else {
            assert(s[s.len() - 1] == s.filter(p)[i]);
        }
    }
}

/// What has the property is kept by filtering.
pub proof fn lemma_filter_has<T>(s: Seq<T>, p: spec_fn(T) -> bool, n: int)
    requires
        0 <= n < s.len(),
        p(s[n]),
    ensures
        s.filter(p).contains(s[n]),
    decreases s.len(),
{
    reveal(Seq::filter);
    let t = s.drop_last();
    if n < t.len() {
        lemma_filter_has(t, p, n);
        let i = choose|i: int| 0 <= i < t.filter(p).len() && t.filter(p)[i] == t[n];
        assert(s.filter(p)[i] == s[n]);
    } else {
        assert(s.filter(p)[t.filter(p).len() as int] == s[n]);
    }
}

/// Filtering twice keeps what has both properties.
pub proof fn lemma_filter_twice<T>(
    s: Seq<T>,
    p: spec_fn(T) -> bool,
    q: spec_fn(T) -> bool,
    both: spec_fn(T) -> bool,
)
    requires
        forall|x: T| #[trigger] both(x) == (p(x) && q(x)),
    ensures
        s.filter(p).filter(q) == s.filter(both),
    decreases s.len(),
{
    reveal(Seq::filter);
    if s.len() > 0 {
        let t = s.drop_last();
        lemma_filter_twice(t, p, q, both);
        assert(both(s.last()) == (p(s.last()) && q(s.last())));
        if p(s.last()) {
            lemma_filter_push(t.filter(p), s.last(), q);
        }
    }
}

/// Properties that agree on a list keep the same of it.
pub proof fn lemma_filter_same<T>(s: Seq<T>, p: spec_fn(T) -> bool, q: spec_fn(T) -> bool)
    requires
        forall|i: int| 0 <= i < s.len() ==> p(#[trigger] s[i]) == q(s[i]),
    ensures
        s.filter(p) == s.filter(q),
    decreases s.len(),
{
    reveal(Seq::filter);
    if s.len() > 0 {
        assert forall|i: int| 0 <= i < s.drop_last().len() implies p(#[trigger] s.drop_last()[i])
            == q(s.drop_last()[i]) by {
            assert(s.drop_last()[i] == s[i]);
        }
        lemma_filter_same(s.drop_last(), p, q);
        assert(p(s[s.len() - 1]) == q(s[s.len() - 1]));
    }
}

/// An active entry that has come in is found under its fingerprint.
pub proof fn law_inserted_is_found(s: Seq<EntryView>, x: EntryView)
    requires
        active(x),
    ensures
        served(inserted(s, x), x.fingerprint) == Some(x),
{
    let keep = |e: EntryView| e.fingerprint != x.fingerprint && e.file_path != x.file_path;
    let is_it = |e: EntryView| e.fingerprint == x.fingerprint && active(e);
    let kept = s.filter(keep);
    assert forall|i: int| 0 <= i < kept.len() implies !is_it(#[trigger] kept[i]) by {
        lemma_filter_members(s, keep, i);
    }
    lemma_filter_nothing(kept, is_it);
    lemma_filter_push(kept, x, is_it);
}

/// What comes in takes nothing away but what has its fingerprint or its file.
pub proof fn law_insert_keeps_others(s: Seq<EntryView>, x: EntryView, fingerprint: Seq<char>)
    requires
        distinct_entries(s),
        fingerprint != x.fingerprint,
        served(s, fingerprint) matches Some(e) ==> e.file_path != x.file_path,
    ensures
        served(inserted(s, x), fingerprint) == served(s, fingerprint),
{
    let keep = |e: EntryView| e.fingerprint != x.fingerprint && e.file_path != x.file_path;
    let is_it = |e: EntryView| e.fingerprint == fingerprint && active(e);
    let both = |e: EntryView| keep(e) && is_it(e);
    lemma_filter_push(s.filter(keep), x, is_it);
    lemma_filter_twice(s, keep, is_it, both);
    assert forall|i: int| 0 <= i < s.len() implies both(#[trigger] s[i]) == is_it(s[i]) by {
        if is_it(s[i]) {
            lemma_filter_some(s, is_it);
            assert(s.filter(is_it).len() > 0);
            lemma_filter_members(s, is_it, 0);
            let n = choose|n: int| 0 <= n < s.len() && s[n] == s.filter(is_it)[0];
            assert(n == i);
        }
    }
    lemma_filter_same(s, both, is_it);
}

/// An entry that has become stale is no longer found.
pub proof fn law_stale_is_hidden(
    s: Seq<EntryView>,
    fingerprint: Seq<char>,
    path: Seq<char>,
    at: i64,
)
    ensures
        served(renamed_stale(s, fingerprint, path, at), fingerprint) is None,
{
    reveal_strlit("active");
    reveal_strlit("stale");
    assert("active"@.len() != "stale"@.len());
    let r = renamed_stale(s, fingerprint, path, at);
    let is_it = |e: EntryView| e.fingerprint == fingerprint && active(e);
    assert forall|i: int| 0 <= i < r.len() implies !is_it(#[trigger] r[i]) by {}
    lemma_filter_nothing(r, is_it);
}

/// After a URL has been invalidated, nothing is served for a `GET` or `HEAD` of it.
pub proof fn law_invalidated_is_hidden(s: Seq<EntryView>, url: Seq<char>, at: i64, i: int)
    requires
        0 <= i < s.len(),
    ensures
        !readable_at(all_gone_stale(s, |e: EntryView| readable_at(e, url), at)[i], url),
        !readable_at(s[i], url) ==> all_gone_stale(
            s,
            |e: EntryView| readable_at(e, url),
            at,
        )[i] == s[i],
{
    reveal_strlit("active");
    reveal_strlit("stale");
    assert("active"@.len() != "stale"@.len());
}

/// Making an entry active again undoes that it became stale, where its file has kept
/// its name.
pub proof fn law_restore_undoes(s: Seq<EntryView>, fingerprint: Seq<char>, at: i64)
    requires
        forall|i: int|
            0 <= i < s.len() && (#[trigger] s[i]).fingerprint == fingerprint ==> active(s[i])
                && s[i].stale_at is None,
    ensures
        restored(
            all_gone_stale(s, |e: EntryView| e.fingerprint == fingerprint, at),
            fingerprint,
        ) == s,
{
    let r = restored(
        all_gone_stale(s, |e: EntryView| e.fingerprint == fingerprint, at),
        fingerprint,
    );
    assert forall|i: int| 0 <= i < s.len() implies #[trigger] r[i] == s[i] by {
        assert(r[i] =~= s[i]);
    }
    assert(r =~= s);
}

/// An entry that was found unchanged is served with its new policy and headers, and is
/// otherwise as it was.
pub proof fn law_revalidated_is_served(
    s: Seq<EntryView>,
    fingerprint: Seq<char>,
    policy: Seq<u8>,
    headers: Seq<char>,
    at: i64,
)
    ensures
        served(revalidated(s, fingerprint, policy, headers, at), fingerprint) == match served(
            s,
            fingerprint,
        ) {
            Some(e) => Some(
                EntryView {
                    cache_policy: policy,
                    last_accessed: at,
                    response_headers: headers,
                    ..e
                },
            ),
            None => None,
        },
    decreases s.len(),
{
    reveal(Seq::filter);
    let is_it = |e: EntryView| e.fingerprint == fingerprint && active(e);
    let r = revalidated(s, fingerprint, policy, headers, at);
    if s.len() > 0 {
        let t = s.drop_last();
        law_revalidated_is_served(t, fingerprint, policy, headers, at);
        assert(r.drop_last() =~= revalidated(t, fingerprint, policy, headers, at));
        lemma_same_kept(t, fingerprint, policy, headers, at);
    }
}

/// As many entries are served after one was found unchanged.
proof fn lemma_same_kept(
    s: Seq<EntryView>,
    fingerprint: Seq<char>,
    policy: Seq<u8>,
    headers: Seq<char>,
    at: i64,
)
    ensures
        revalidated(s, fingerprint, policy, headers, at).filter(
            |e: EntryView| e.fingerprint == fingerprint && active(e),
        ).len() == s.filter(|e: EntryView| e.fingerprint == fingerprint && active(e)).len(),
    decreases s.len(),
{
    reveal(Seq::filter);
    let r = revalidated(s, fingerprint, policy, headers, at);
    if s.len() > 0 {
        let t = s.drop_last();
        lemma_same_kept(t, fingerprint, policy, headers, at);
        assert(r.drop_last() =~= revalidated(t, fingerprint, policy, headers, at));
    }
}

/// A deleted entry is gone, and all others are there.
pub proof fn law_deleted_is_gone(s: Seq<EntryView>, fingerprint: Seq<char>, other: Seq<char>)
    ensures
        served(deleted(s, fingerprint), fingerprint) is None,
        other != fingerprint ==> served(deleted(s, fingerprint), other) == served(s, other),
{
    let keep = |e: EntryView| e.fingerprint != fingerprint;
    let is_it = |e: EntryView| e.fingerprint == fingerprint && active(e);
    let kept = s.filter(keep);
    assert forall|i: int| 0 <= i < kept.len() implies !is_it(#[trigger] kept[i]) by {
        lemma_filter_members(s, keep, i);
    }
    lemma_filter_nothing(kept, is_it);
    if other != fingerprint {
        let is_other = |e: EntryView| e.fingerprint == other && active(e);
        lemma_filter_twice(s, keep, is_other, is_other);
    }
}

/// A setting has the value that it was given, and the others keep theirs.
pub proof fn law_setting(
    s: Seq<(Seq<char>, Seq<char>)>,
    key: Seq<char>,
    value: Seq<char>,
    other: Seq<char>,
)
    ensures
        setting(with_setting(s, key, value), key) == Some(value),
        other != key ==> setting(with_setting(s, key, value), other) == setting(s, other),
{
    let kept = s.filter(other_key(key));
    assert(with_setting(s, key, value).drop_last() =~= kept);
    if other != key {
        lemma_setting_kept(s, key, other);
    }
}

/// Dropping one setting keeps the others.
proof fn lemma_setting_kept(s: Seq<(Seq<char>, Seq<char>)>, key: Seq<char>, other: Seq<char>)
    requires
        other != key,
    ensures
        setting(s.filter(other_key(key)), other) == setting(s, other),
    decreases s.len(),
{
    reveal(Seq::filter);
    if s.len() > 0 {
        let t = s.drop_last();
        lemma_setting_kept(t, key, other);
        if s.last().0 != key {
            assert(s.filter(other_key(key)).drop_last() =~= t.filter(other_key(key)));
        }
    }
}

/// Rows with distinct fingerprints and files come in as they are.
pub proof fn law_distinct_rows(rows: Seq<EntryView>)
    requires
        distinct_entries(rows),
    ensures
        all_inserted(rows) == rows,
    decreases rows.len(),
{
    if rows.len() > 0 {
        let t = rows.drop_last();
        let x = rows.last();
        assert(distinct_entries(t)) by {
            assert forall|i: int, j: int| 0 <= i < j < t.len() implies (
            #[trigger] t[i]).fingerprint != (#[trigger] t[j]).fingerprint && t[i].file_path
                != t[j].file_path by {
                assert(t[i] == rows[i] && t[j] == rows[j]);
            }
        }
        law_distinct_rows(t);
        let keep = |e: EntryView| e.fingerprint != x.fingerprint && e.file_path != x.file_path;
        assert forall|i: int| 0 <= i < t.len() implies keep(#[trigger] t[i]) by {
            assert(t[i] == rows[i] && x == rows[rows.len() - 1]);
        }
        lemma_filter_all(t, keep);
        assert(t.push(x) =~= rows);
    } else {
        assert(rows =~= seq![]);
    }
}

/// Of the active entries, those come first that have not been read for the longest
/// time; of the stale ones, those that became stale first.
pub proof fn law_eviction_order(s: Seq<EntryView>, i: int, j: int)
    ensures
        0 <= i < j < unread_first(s).len() ==> unread_first(s)[i].last_accessed <= unread_first(
            s,
        )[j].last_accessed,
        unread_first(s).to_multiset() == s.filter(|e: EntryView| active(e)).to_multiset(),
        0 <= i < j < stale_first(s).len() ==> stale_key(stale_first(s)[i]) <= stale_key(
            stale_first(s)[j],
        ),
        stale_first(s).to_multiset() == s.filter(|e: EntryView| stale(e)).to_multiset(),
{
    let read = by_key(|e: EntryView| read_key(e));
    let old_ones = by_key(|e: EntryView| stale_key(e));
    assert(is_total_preorder(read));
    assert(is_total_preorder(old_ones));
    lemma_in_order(s.filter(|e: EntryView| active(e)), read);
    lemma_in_order(s.filter(|e: EntryView| stale(e)), old_ones);
    if 0 <= i < j < unread_first(s).len() {
        assert(read(unread_first(s)[i], unread_first(s)[j]));
    }
    if 0 <= i < j < stale_first(s).len() {
        assert(old_ones(stale_first(s)[i], stale_first(s)[j]));
    }
}

/// An active entry that was read last of all is the last that is deleted.
pub proof fn law_read_goes_last(s: Seq<EntryView>, fingerprint: Seq<char>, at: i64)
    requires
        served(s, fingerprint) is Some,
        forall|i: int|
            0 <= i < s.len() && (#[trigger] s[i]).fingerprint != fingerprint ==> s[i].last_accessed
                < at,
    ensures
        unread_first(touched(s, fingerprint, at)).len() > 0,
        unread_first(touched(s, fingerprint, at)).last().fingerprint == fingerprint,
{
    broadcast use vstd::seq_lib::group_to_multiset_ensures;

    let is_it = |e: EntryView| e.fingerprint == fingerprint && active(e);
    let t = touched(s, fingerprint, at);
    let live = t.filter(|e: EntryView| active(e));
    let x = unread_first(t);
    lemma_filter_members(s, is_it, 0);
    let n = choose|n: int| 0 <= n < s.len() && s[n] == s.filter(is_it)[0];
    assert(t[n].fingerprint == fingerprint && active(t[n]) && t[n].last_accessed == at);
    lemma_filter_has(t, |e: EntryView| active(e), n);
    live.to_multiset_ensures();
    x.to_multiset_ensures();
    law_eviction_order(t, 0, 0);
    assert(x.to_multiset().count(t[n]) > 0);
    assert(x.contains(t[n]));
    let k = choose|k: int| 0 <= k < x.len() && x[k] == t[n];
    let last = x.last();
    if last.fingerprint != fingerprint {
        law_eviction_order(t, k, x.len() - 1);
        assert(x.contains(last));
        assert(live.to_multiset().count(last) > 0);
        assert(live.contains(last));
        let j = choose|j: int| 0 <= j < live.len() && live[j] == last;
        lemma_filter_members(t, |e: EntryView| active(e), j);
        let m = choose|m: int| 0 <= m < t.len() && t[m] == last;
        assert(t[m] == s[m]);
    }
}

/// Of entries, some of which are of three different kinds, at most all are of one of them.
proof fn lemma_kinds(s: Seq<EntryView>)
    ensures
        how_many(s, |e: EntryView| is_media(e, "image"@)) + how_many(
            s,
            |e: EntryView| is_media(e, "video"@),
        ) + how_many(s, |e: EntryView| is_media(e, "audio"@)) <= how_many(
            s,
            |e: EntryView| active(e),
        ),
    decreases s.len(),
{
    reveal(Seq::filter);
    if s.len() > 0 {
        lemma_kinds(s.drop_last());
        reveal_strlit("image");
        reveal_strlit("video");
        reveal_strlit("audio");
        assert("image"@[0] != "video"@[0]);
        assert("image"@[0] != "audio"@[0]);
        assert("video"@[0] != "audio"@[0]);
    }
}

/// The figures of the index are those that counting and adding up give, the media are
/// among the active entries, and an empty index has only zeros.
pub proof fn law_stats(stats: CacheStats, s: Seq<EntryView>)
    requires
        are_stats(stats, s),
    ensures
        stats.active_entries == how_many(s, |e: EntryView| e.status == "active"@),
        stats.stale_entries == how_many(s, |e: EntryView| e.status == "stale"@),
        size_sum(s.filter(|e: EntryView| active(e))) == Some(stats.active_size),
        size_sum(s) == Some(stats.total_size),
        stats.image_count + stats.video_count + stats.audio_count <= stats.active_entries,
        stats.active_entries + stats.stale_entries <= s.len(),
        s.len() == 0 ==> stats == (CacheStats {
            active_entries: 0,
            stale_entries: 0,
            active_size: 0,
            total_size: 0,
            image_count: 0,
            video_count: 0,
            audio_count: 0,
        }),
{
    lemma_kinds(s);
    lemma_filter_same(s, |e: EntryView| active(e), |e: EntryView| e.status == "active"@);
    lemma_filter_same(s, |e: EntryView| stale(e), |e: EntryView| e.status == "stale"@);
    lemma_active_or_stale(s);
    if s.len() == 0 {
        assert(s.filter(|e: EntryView| active(e)) =~= seq![]) by {
            reveal(Seq::filter);
        }
        assert(stats.image_count == 0 && stats.video_count == 0 && stats.audio_count == 0) by {
            reveal(Seq::filter);
        }
    }
}

/// No entry is both active and stale.
proof fn lemma_active_or_stale(s: Seq<EntryView>)
    ensures
        how_many(s, |e: EntryView| active(e)) + how_many(s, |e: EntryView| stale(e)) <= s.len(),
    decreases s.len(),
{
    reveal(Seq::filter);
    if s.len() > 0 {
        lemma_active_or_stale(s.drop_last());
        reveal_strlit("active");
        reveal_strlit("stale");
        assert("active"@.len() != "stale"@.len());
    }
}

/// Two pages that follow each other make the page of both.
pub proof fn law_pages(s: Seq<EntryView>, offset: i64, one: i64, other: i64)
    requires
        0 <= offset,
        0 <= one,
        0 <= other,
        offset + one <= i64::MAX,
        one + other <= i64::MAX,
    ensures
        page(s, offset, one) + page(s, (offset + one) as i64, other) == page(
            s,
            offset,
            (one + other) as i64,
        ),
{
    assert(page(s, offset, one) + page(s, (offset + one) as i64, other) =~= page(
        s,
        offset,
        (one + other) as i64,
    ));
}

} // verus!
