//! The rows of the cache index.
#[allow(unused_imports)]
use crate::order::{in_order, lemma_put_at};
use vstd::prelude::*;

verus! {

/// A cached response.
#[derive(Debug)]
pub struct CacheEntry {
    pub fingerprint: String,
    pub url: String,
    pub method: String,
    pub status_code: u16,
    pub content_type: Option<String>,
    pub content_length: Option<i64>,
    pub response_headers: String,
    pub cache_policy: Vec<u8>,
    pub created_at: i64,
    pub last_accessed: i64,
    pub expires_at: Option<i64>,
    pub file_path: String,
    pub file_size: i64,
    pub host: String,
    pub vary_key: Option<String>,
    pub media_type: Option<String>,
    pub status: String,
    pub stale_at: Option<i64>,
}

/// A cached response, its texts as character sequences.
#[verifier::ext_equal]
pub struct EntryView {
    pub fingerprint: Seq<char>,
    pub url: Seq<char>,
    pub method: Seq<char>,
    pub status_code: u16,
    pub content_type: Option<Seq<char>>,
    pub content_length: Option<i64>,
    pub response_headers: Seq<char>,
    pub cache_policy: Seq<u8>,
    pub created_at: i64,
    pub last_accessed: i64,
    pub expires_at: Option<i64>,
    pub file_path: Seq<char>,
    pub file_size: i64,
    pub host: Seq<char>,
    pub vary_key: Option<Seq<char>>,
    pub media_type: Option<Seq<char>>,
    pub status: Seq<char>,
    pub stale_at: Option<i64>,
}

impl View for CacheEntry {
    type V = EntryView;

    open spec fn view(&self) -> EntryView {
        EntryView {
            fingerprint: self.fingerprint@,
            url: self.url@,
            method: self.method@,
            status_code: self.status_code,
            content_type: self.content_type.deep_view(),
            content_length: self.content_length,
            response_headers: self.response_headers@,
            cache_policy: self.cache_policy@,
            created_at: self.created_at,
            last_accessed: self.last_accessed,
            expires_at: self.expires_at,
            file_path: self.file_path@,
            file_size: self.file_size,
            host: self.host@,
            vary_key: self.vary_key.deep_view(),
            media_type: self.media_type.deep_view(),
            status: self.status@,
            stale_at: self.stale_at,
        }
    }
}

/// A copy of an optional text.
pub fn clone_text(s: &Option<String>) -> (res: Option<String>)
    ensures
        res.deep_view() == s.deep_view(),
{
    match s {
        Some(t) => Some(t.clone()),
        None => None,
    }
}

/// A copy of bytes.
pub fn clone_bytes(v: &Vec<u8>) -> (res: Vec<u8>)
    ensures
        res@ == v@,
{
    let mut res: Vec<u8> = Vec::new();
    let mut i: usize = 0;
    while i < v.len()
        invariant
            i <= v@.len(),
            res@ == v@.subrange(0, i as int),
        decreases v@.len() - i,
    {
        res.push(v[i]);
        i += 1;
        assert(res@ =~= v@.subrange(0, i as int));
    }
    res
}

impl Clone for CacheEntry {
    fn clone(&self) -> (res: Self)
        ensures
            res@ == self@,
    {
        CacheEntry {
            fingerprint: self.fingerprint.clone(),
            url: self.url.clone(),
            method: self.method.clone(),
            status_code: self.status_code,
            content_type: clone_text(&self.content_type),
            content_length: self.content_length,
            response_headers: self.response_headers.clone(),
            cache_policy: clone_bytes(&self.cache_policy),
            created_at: self.created_at,
            last_accessed: self.last_accessed,
            expires_at: self.expires_at,
            file_path: self.file_path.clone(),
            file_size: self.file_size,
            host: self.host.clone(),
            vary_key: clone_text(&self.vary_key),
            media_type: clone_text(&self.media_type),
            status: self.status.clone(),
            stale_at: self.stale_at,
        }
    }
}

/// A list of entries by their views.
pub open spec fn entry_views(v: Seq<CacheEntry>) -> Seq<EntryView> {
    v.map_values(|e: CacheEntry| e@)
}

/// The order by a key.
pub open spec fn by_key(key: spec_fn(EntryView) -> int) -> spec_fn(EntryView, EntryView) -> bool {
    |a: EntryView, b: EntryView| key(a) <= key(b)
}

/// Filtering a list that has been extended.
pub proof fn lemma_filter_push<T>(s: Seq<T>, x: T, p: spec_fn(T) -> bool)
    ensures
        s.push(x).filter(p) == if p(x) {
            s.filter(p).push(x)
        } else {
            s.filter(p)
        },
{
    reveal(Seq::filter);
    assert(s.push(x).drop_last() =~= s);
}

/// The entries that `keep` accepts.
pub(crate) fn select<F: Fn(&CacheEntry) -> bool>(
    entries: &Vec<CacheEntry>,
    keep: F,
    Ghost(p): Ghost<spec_fn(EntryView) -> bool>,
) -> (res: Vec<CacheEntry>)
    requires
        forall|e: &CacheEntry| #[trigger] keep.requires((e,)),
        forall|e: &CacheEntry, b: bool| #[trigger] keep.ensures((e,), b) ==> b == p(e@),
    ensures
        entry_views(res@) == entry_views(entries@).filter(p),
{
    let ghost all = entry_views(entries@);
    let mut res: Vec<CacheEntry> = Vec::new();
    let mut i: usize = 0;
    proof {
        reveal(Seq::filter);
        assert(entry_views(res@) =~= all.subrange(0, 0).filter(p));
    }
    while i < entries.len()
        invariant
            i <= entries@.len(),
            all == entry_views(entries@),
            entry_views(res@) == all.subrange(0, i as int).filter(p),
            forall|e: &CacheEntry| #[trigger] keep.requires((e,)),
            forall|e: &CacheEntry, b: bool| #[trigger] keep.ensures((e,), b) ==> b == p(e@),
        decreases entries@.len() - i,
    {
        let ghost kept = entry_views(res@);
        let e = &entries[i];
        proof {
            assert(all.subrange(0, i + 1) =~= all.subrange(0, i as int).push(e@));
            lemma_filter_push(all.subrange(0, i as int), e@, p);
        }
        if keep(e) {
            res.push(e.clone());
            assert(entry_views(res@) =~= kept.push(e@));
        }
        i += 1;
    }
    assert(all.subrange(0, i as int) =~= all);
    res
}

/// The number of entries that `keep` accepts.
pub(crate) fn count<F: Fn(&CacheEntry) -> bool>(
    entries: &Vec<CacheEntry>,
    keep: F,
    Ghost(p): Ghost<spec_fn(EntryView) -> bool>,
) -> (res: usize)
    requires
        forall|e: &CacheEntry| #[trigger] keep.requires((e,)),
        forall|e: &CacheEntry, b: bool| #[trigger] keep.ensures((e,), b) ==> b == p(e@),
    ensures
        res == entry_views(entries@).filter(p).len(),
        res <= entries@.len(),
{
    let ghost all = entry_views(entries@);
    let mut n: usize = 0;
    let mut i: usize = 0;
    proof {
        reveal(Seq::filter);
        assert(all.subrange(0, 0).filter(p).len() == 0);
    }
    while i < entries.len()
        invariant
            n <= i <= entries@.len(),
            all == entry_views(entries@),
            n == all.subrange(0, i as int).filter(p).len(),
            forall|e: &CacheEntry| #[trigger] keep.requires((e,)),
            forall|e: &CacheEntry, b: bool| #[trigger] keep.ensures((e,), b) ==> b == p(e@),
        decreases entries@.len() - i,
    {
        let e = &entries[i];
        proof {
            assert(all.subrange(0, i + 1) =~= all.subrange(0, i as int).push(e@));
            lemma_filter_push(all.subrange(0, i as int), e@, p);
        }
        if keep(e) {
            n += 1;
        }
        i += 1;
    }
    assert(all.subrange(0, i as int) =~= all);
    n
}

/// The entries with `change` done to each.
pub(crate) fn change_all<F: Fn(&CacheEntry) -> CacheEntry>(
    entries: &Vec<CacheEntry>,
    change: F,
    Ghost(f): Ghost<spec_fn(EntryView) -> EntryView>,
) -> (res: Vec<CacheEntry>)
    requires
        forall|e: &CacheEntry| #[trigger] change.requires((e,)),
        forall|e: &CacheEntry, r: CacheEntry| #[trigger] change.ensures((e,), r) ==> r@ == f(e@),
    ensures
        entry_views(res@) == entry_views(entries@).map_values(f),
{
    let mut res: Vec<CacheEntry> = Vec::new();
    let mut i: usize = 0;
    while i < entries.len()
        invariant
            i <= entries@.len(),
            res@.len() == i,
            forall|k: int| 0 <= k < i ==> (#[trigger] res@[k])@ == f(entries@[k]@),
            forall|e: &CacheEntry| #[trigger] change.requires((e,)),
            forall|e: &CacheEntry, r: CacheEntry| #[trigger]
                change.ensures((e,), r) ==> r@ == f(e@),
        decreases entries@.len() - i,
    {
        res.push(change(&entries[i]));
        i += 1;
    }
    assert(entry_views(res@) =~= entry_views(entries@).map_values(f));
    res
}

/// The entries in the order of a key; where it is the same, they stay as they stood.
pub(crate) fn sort_by_key<F: Fn(&CacheEntry) -> i128>(
    entries: Vec<CacheEntry>,
    key: F,
    Ghost(k): Ghost<spec_fn(EntryView) -> int>,
) -> (res: Vec<CacheEntry>)
    requires
        forall|e: &CacheEntry| #[trigger] key.requires((e,)),
        forall|e: &CacheEntry, n: i128| #[trigger] key.ensures((e,), n) ==> n == k(e@),
    ensures
        entry_views(res@) == in_order(entry_views(entries@), by_key(k)),
{
    let ghost all = entry_views(entries@);
    let mut sorted: Vec<CacheEntry> = Vec::new();
    assert(entry_views(sorted@) =~= in_order(all.subrange(0, 0), by_key(k)));
    let mut i: usize = 0;
    while i < entries.len()
        invariant
            i <= entries@.len(),
            all == entry_views(entries@),
            entry_views(sorted@) == in_order(all.subrange(0, i as int), by_key(k)),
            forall|e: &CacheEntry| #[trigger] key.requires((e,)),
            forall|e: &CacheEntry, n: i128| #[trigger] key.ensures((e,), n) ==> n == k(e@),
        decreases entries@.len() - i,
    {
        let e = entries[i].clone();
        let here: i128 = key(&e);
        let ghost before = entry_views(sorted@);
        let ghost x = e@;
        let mut at: usize = sorted.len();
        let mut found: bool = false;
        while at > 0 && !found
            invariant
                at <= sorted@.len(),
                before == entry_views(sorted@),
                x == e@,
                here == k(x),
                found ==> at > 0 && by_key(k)(before[at - 1], x),
                forall|j: int| at <= j < before.len() ==> !by_key(k)(#[trigger] before[j], x),
                forall|e: &CacheEntry| #[trigger] key.requires((e,)),
                forall|e: &CacheEntry, n: i128| #[trigger] key.ensures((e,), n) ==> n == k(e@),
            decreases at + if found { 0int } else { 1int },
        {
            let there: i128 = key(&sorted[at - 1]);
            assert(before[at - 1] == sorted@[at - 1]@);
            if there <= here {
                found = true;
            } else {
                at -= 1;
            }
        }
        proof {
            lemma_put_at(before, x, by_key(k), at as int);
            assert(all.subrange(0, i + 1).drop_last() =~= all.subrange(0, i as int));
            assert(all[i as int] == x);
        }
        sorted.insert(at, e);
        assert(entry_views(sorted@) =~= before.insert(at as int, x));
        i += 1;
    }
    assert(all.subrange(0, i as int) =~= all);
    sorted
}

} // verus!
