//! The media in the cache, grouped by host.
use crate::cache::entry::{clone_text, select, CacheEntry};
#[allow(unused_imports)]
use crate::cache::entry::{entry_views, EntryView};
use crate::cache::index::{add_sizes, CacheIndex};
#[allow(unused_imports)]
use crate::cache::index::{asked, is_asked, how_many, page, recent_first, size_sum};
use crate::dashboard::api::{ListParams, MOST_MEDIA, SERVER_ERROR};
#[allow(unused_imports)]
use crate::dashboard::api::cannot_list;
use crate::text::same;
#[allow(unused_imports)]
use crate::text::views;
use vstd::prelude::*;

verus! {

/// The media of a host.
#[derive(Debug)]
pub struct MediaGroup {
    pub host: String,
    pub entries: Vec<MediaEntry>,
    pub total_size: i64,
}

/// What is shown of an image, a video or a sound.
#[derive(Debug)]
pub struct MediaEntry {
    pub fingerprint: String,
    pub url: String,
    pub content_type: Option<String>,
    pub media_type: Option<String>,
    pub file_path: String,
    pub file_size: i64,
    pub thumbnail_url: String,
}

/// Whether an answer shows an entry.
pub open spec fn shows_media(m: MediaEntry, e: EntryView) -> bool {
    &&& m.fingerprint@ == e.fingerprint
    &&& m.url@ == e.url
    &&& m.content_type.deep_view() == e.content_type
    &&& m.media_type.deep_view() == e.media_type
    &&& m.file_path@ == e.file_path
    &&& m.file_size == e.file_size
    &&& m.thumbnail_url@ == "/api/cache/file/"@ + e.file_path
}

/// What is shown of an entry.
fn media_entry(e: &CacheEntry) -> (res: MediaEntry)
    ensures
        shows_media(res, e@),
{
    let mut thumbnail_url: String = "/api/cache/file/".to_owned();
    thumbnail_url.append(e.file_path.as_str());
    MediaEntry {
        fingerprint: e.fingerprint.clone(),
        url: e.url.clone(),
        content_type: clone_text(&e.content_type),
        media_type: clone_text(&e.media_type),
        file_path: e.file_path.clone(),
        file_size: e.file_size,
        thumbnail_url,
    }
}

/// The hosts of entries, each once, in the order in which they come up.
pub open spec fn hosts_of(s: Seq<EntryView>) -> Seq<Seq<char>>
    decreases s.len(),
{
    if s.len() == 0 {
        seq![]
    } else {
        let done = hosts_of(s.drop_last());
        if done.contains(s.last().host) {
            done
        } else {
            done.push(s.last().host)
        }
    }
}

/// The entries of a host.
pub open spec fn of_host(s: Seq<EntryView>, host: Seq<char>) -> Seq<EntryView> {
    s.filter(|e: EntryView| e.host == host)
}

/// Whether a group shows the entries of a host.
pub open spec fn shows_group(g: MediaGroup, s: Seq<EntryView>, host: Seq<char>) -> bool {
    &&& g.host@ == host
    &&& g.entries@.len() == of_host(s, host).len()
    &&& forall|i: int|
        0 <= i < g.entries@.len() ==> shows_media(#[trigger] g.entries@[i], of_host(s, host)[i])
    &&& size_sum(of_host(s, host)) == Some(g.total_size)
}

/// The hosts of entries, each once.
fn distinct_hosts(rows: &Vec<CacheEntry>) -> (res: Vec<String>)
    ensures
        views(res@) == hosts_of(entry_views(rows@)),
{
    let ghost all = entry_views(rows@);
    let mut hosts: Vec<String> = Vec::new();
    let mut i: usize = 0;
    assert(views(hosts@) =~= hosts_of(all.subrange(0, 0)));
    while i < rows.len()
        invariant
            i <= rows@.len(),
            all == entry_views(rows@),
            views(hosts@) == hosts_of(all.subrange(0, i as int)),
        decreases rows@.len() - i,
    {
        let host = rows[i].host.as_str();
        let ghost before = views(hosts@);
        proof {
            assert(all.subrange(0, i + 1).drop_last() =~= all.subrange(0, i as int));
            assert(all.subrange(0, i + 1).last() == rows@[i as int]@);
        }
        let mut known = false;
        let mut k: usize = 0;
        while k < hosts.len()
            invariant
                k <= hosts@.len(),
                before == views(hosts@),
                known == exists|n: int| 0 <= n < k && #[trigger] before[n] == host@,
            decreases hosts@.len() - k,
        {
            assert(before[k as int] == hosts@[k as int]@);
            if same(hosts[k].as_str(), host) {
                known = true;
            }
            k += 1;
        }
        assert(known == before.contains(host@));
        if !known {
            hosts.push(host.to_owned());
            assert(views(hosts@) =~= before.push(host@));
        }
        i += 1;
    }
    assert(all.subrange(0, i as int) =~= all);
    hosts
}

/// The group of a host; none if the sizes cannot be added up.
fn group_of(rows: &Vec<CacheEntry>, host: &str) -> (res: Option<MediaGroup>)
    ensures
        match res {
            Some(g) => shows_group(g, entry_views(rows@), host@),
            None => size_sum(of_host(entry_views(rows@), host@)) is None,
        },
{
    let keep = |e: &CacheEntry| -> (b: bool)
        ensures
            b == (e@.host == host@),
        { same(e.host.as_str(), host) };
    let own = select(rows, keep, Ghost(|e: EntryView| e.host == host@));
    let ghost shown = entry_views(own@);
    let mut entries: Vec<MediaEntry> = Vec::new();
    let mut i: usize = 0;
    while i < own.len()
        invariant
            i <= own@.len(),
            shown == entry_views(own@),
            entries@.len() == i,
            forall|k: int| 0 <= k < i ==> shows_media(#[trigger] entries@[k], shown[k]),
        decreases own@.len() - i,
    {
        entries.push(media_entry(&own[i]));
        i += 1;
    }
    match add_sizes(&own) {
        Some(total_size) => Some(MediaGroup { host: host.to_owned(), entries, total_size }),
        None => None,
    }
}

/// Whether the sizes of the entries of each host can be added up.
pub open spec fn sums_fit(s: Seq<EntryView>) -> bool {
    forall|i: int|
        0 <= i < hosts_of(s).len() ==> size_sum(of_host(s, #[trigger] hosts_of(s)[i])) is Some
}

/// Entries grouped by host; none if the sizes of a group cannot be added up.
pub fn group_media(rows: &Vec<CacheEntry>) -> (res: Option<Vec<MediaGroup>>)
    ensures
        match res {
            None => !sums_fit(entry_views(rows@)),
            Some(groups) => {
                &&& sums_fit(entry_views(rows@))
                &&& groups@.len() == hosts_of(entry_views(rows@)).len()
                &&& forall|i: int|
                    0 <= i < groups@.len() ==> shows_group(
                        #[trigger] groups@[i],
                        entry_views(rows@),
                        hosts_of(entry_views(rows@))[i],
                    )
            },
        },
{
    let hosts = distinct_hosts(rows);
    let ghost all = entry_views(rows@);
    let mut groups: Vec<MediaGroup> = Vec::new();
    let mut i: usize = 0;
    while i < hosts.len()
        invariant
            i <= hosts@.len(),
            all == entry_views(rows@),
            views(hosts@) == hosts_of(all),
            groups@.len() == i,
            forall|k: int|
                0 <= k < i ==> shows_group(#[trigger] groups@[k], all, hosts_of(all)[k]),
        decreases hosts@.len() - i,
    {
        assert(hosts_of(all)[i as int] == hosts@[i as int]@);
        match group_of(rows, hosts[i].as_str()) {
            Some(g) => groups.push(g),
            None => {
                assert(size_sum(of_host(all, hosts_of(all)[i as int])) is None);
                return None;
            },
        }
        i += 1;
    }
    proof {
        assert(hosts_of(all).len() == hosts@.len());
        assert forall|k: int| 0 <= k < hosts_of(all).len() implies size_sum(
            of_host(all, #[trigger] hosts_of(all)[k]),
        ) is Some by {
            assert(shows_group(groups@[k], all, hosts_of(all)[k]));
        }
    }
    Some(groups)
}

/// The kind of media that is asked for: images, where nothing else is said.
pub open spec fn media_filter(params: ListParams) -> Option<Seq<char>> {
    match params.media_type {
        Some(m) => Some(m@),
        None => Some("image"@),
    }
}

/// The media that are shown: active ones of the kind that is asked for, those first
/// that were read last.
pub open spec fn shown_media(s: Seq<EntryView>, params: ListParams) -> Seq<EntryView> {
    page(
        recent_first(
            asked(
                s,
                params.host.deep_view(),
                media_filter(params),
                Some("active"@),
                params.q.deep_view(),
            ),
        ),
        0,
        MOST_MEDIA,
    )
}

/// The media in the cache, grouped by host.
pub fn list_media(index: &CacheIndex, params: &ListParams) -> (res: Result<Vec<MediaGroup>, u16>)
    requires
        index@.entries.len() <= i64::MAX,
    ensures
        ({
            let shown = shown_media(index@.entries, *params);
            let failed = cannot_list(
                index@.entries,
                params.host.deep_view(),
                media_filter(*params),
                Some("active"@),
                params.q.deep_view(),
            );
            match res {
                Err(code) => code == SERVER_ERROR && (failed || !sums_fit(shown)),
                Ok(groups) => {
                    &&& !failed
                    &&& sums_fit(shown)
                    &&& groups@.len() == hosts_of(shown).len()
                    &&& forall|i: int|
                        0 <= i < groups@.len() ==> shows_group(
                            #[trigger] groups@[i],
                            shown,
                            hosts_of(shown)[i],
                        )
                },
            }
        }),
{
    let media = match &params.media_type {
        Some(m) => Some(m.clone()),
        None => Some("image".to_owned()),
    };
    let status = Some("active".to_owned());
    let ghost (h, m, st) = (params.host.deep_view(), media.deep_view(), status.deep_view());
    assert(m == media_filter(*params));
    assert(st == Some("active"@));
    assert(how_many(index@.entries, |e: EntryView| is_asked(e, h, m, st)) == how_many(
        index@.entries,
        |e: EntryView|
            is_asked(e, params.host.deep_view(), media.deep_view(), status.deep_view()),
    ));
    match index.list_entries(&params.host, &media, &status, &params.q, 0, MOST_MEDIA) {
        Err(_) => Err(SERVER_ERROR),
        Ok((rows, _)) => match group_media(&rows) {
            Some(groups) => Ok(groups),
            None => Err(SERVER_ERROR),
        },
    }
}

/// Every entry is in the group of its host, and no host has two groups.
pub proof fn law_groups(s: Seq<EntryView>, i: int)
    requires
        0 <= i < s.len(),
    ensures
        hosts_of(s).contains(s[i].host),
        hosts_of(s).no_duplicates(),
        of_host(s, s[i].host).contains(s[i]),
    decreases s.len(),
{
    let t = s.drop_last();
    let h = s[i].host;
    let p = |e: EntryView| e.host == h;
    assert(p(s[i]));
    s.lemma_filter_contains(p, i);
    if i < t.len() {
        law_groups(t, i);
        let k = choose|k: int| 0 <= k < hosts_of(t).len() && hosts_of(t)[k] == h;
        assert(hosts_of(s)[k] == h);
    } else {
        if hosts_of(t).contains(h) {
            let k = choose|k: int| 0 <= k < hosts_of(t).len() && hosts_of(t)[k] == h;
            assert(hosts_of(s)[k] == h);
        } else {
            assert(hosts_of(s)[hosts_of(s).len() - 1] == h);
        }
    }
    lemma_hosts_once(s);
}

/// No host is listed twice.
proof fn lemma_hosts_once(s: Seq<EntryView>)
    ensures
        hosts_of(s).no_duplicates(),
    decreases s.len(),
{
    if s.len() > 0 {
        let done = hosts_of(s.drop_last());
        lemma_hosts_once(s.drop_last());
        let h = s.last().host;
        if !done.contains(h) {
            assert forall|a: int, b: int|
                0 <= a < done.len() + 1 && 0 <= b < done.len() + 1 && a != b implies done.push(
                h,
            )[a] != done.push(h)[b] by {
                if a < done.len() {
                    assert(done.contains(done[a]));
                }
                if b < done.len() {
                    assert(done.contains(done[b]));
                }
            }
        }
    }
}

} // verus!
