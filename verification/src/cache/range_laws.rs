//! What holds of ranges across the operations of the range cache.
#[allow(unused_imports)]
use crate::cache::assembly::{assemble_bytes, law_assembled_is_content, part_bytes, slab_parts};
#[allow(unused_imports)]
use crate::cache::range::{
    best_slab, by_start, complete, coverage, coverage_bytes, covered_end, covers, gapless, lemma_next_id,
    new_slab, next_id, part_views, plain_slabs, resource_at, resource_for, same_place, slab_file_path,
    slab_infos, slabs_of, RangeManifest, ResourceView, SlabInfo, SlabView,
};
#[allow(unused_imports)]
use crate::cache::range::{AssemblyInfo, ContentRange, IndexError, RangeCache, SlabHit};
#[allow(unused_imports)]
use crate::order::{is_total_preorder, lemma_filter_members, lemma_in_order, lemma_in_order_members};
#[allow(unused_imports)]
use crate::cache::store::url_to_cache_path;
#[allow(unused_imports)]
use crate::number::{
    all_digits, decimal, is_digit, lemma_decimal_reads_back, lemma_zero_padded,
    lemma_zero_padded_value, zero_padded,
};
#[allow(unused_imports)]
use crate::text::opt;
use vstd::prelude::*;

verus! {

/// Whether a slab of a resource has a byte.
pub open spec fn has_byte(s: Seq<SlabView>, id: i64, at: int) -> bool {
    exists|i: int|
        0 <= i < s.len() && (#[trigger] s[i]).resource_id == id && s[i].range_start <= at
            <= s[i].range_end
}

/// The slabs of a resource are those with its number, ordered by their starts.
proof fn lemma_slabs_of(s: Seq<SlabView>, id: i64)
    ensures
        forall|x: SlabView| #[trigger]
            slabs_of(s, id).contains(x) <==> s.contains(x) && x.resource_id == id,
        forall|i: int, j: int|
            0 <= i < j < slabs_of(s, id).len() ==> (#[trigger] slabs_of(s, id)[i]).range_start <= (
            #[trigger] slabs_of(s, id)[j]).range_start,
{
    let p = |x: SlabView| x.resource_id == id;
    let t = slabs_of(s, id);
    assert(is_total_preorder(by_start()));
    lemma_filter_members(s, p);
    lemma_in_order(s.filter(p), by_start());
    lemma_in_order_members(s.filter(p), by_start());
    assert forall|x: SlabView| #[trigger] t.contains(x) <==> s.contains(x) && x.resource_id == id by {
        assert(s.filter(p).contains(x) <==> s.contains(x) && p(x));
    }
    assert forall|i: int, j: int| 0 <= i < j < t.len() implies (#[trigger] t[i]).range_start <= (
    #[trigger] t[j]).range_start by {
        assert(by_start()(t[i], t[j]));
    }
}

/// The resource with a number is one of the resources.
proof fn lemma_resource(s: Seq<ResourceView>, r: ResourceView)
    requires
        s.contains(r),
        forall|i: int, j: int| 0 <= i < j < s.len() ==> (#[trigger] s[i]).id != (#[trigger] s[j]).id,
    ensures
        resource_at(s, r.id) == Some(r),
    decreases s.len(),
{
    let k = choose|k: int| 0 <= k < s.len() && s[k] == r;
    if s[0].id == r.id {
        if k > 0 {
            assert(s[0].id != s[k].id);
        }
    } else {
        let t = s.subrange(1, s.len() as int);
        assert(t[k - 1] == r);
        assert forall|i: int, j: int| 0 <= i < j < t.len() implies (#[trigger] t[i]).id != (
        #[trigger] t[j]).id by {
            assert(s[i + 1].id != s[j + 1].id);
        }
        lemma_resource(t, r);
    }
}

/// How far the first slabs reach, each of them reaches at most.
proof fn lemma_covered_most(s: Seq<SlabView>, i: int)
    requires
        0 <= i < s.len(),
    ensures
        s[i].range_end <= covered_end(s),
    decreases s.len(),
{
    if i < s.len() - 1 {
        lemma_covered_most(s.drop_last(), i);
    }
}

/// Ordered slabs that have every byte between them leave no gap.
proof fn lemma_no_gap(s: Seq<SlabView>, id: i64, n: int, total: int)
    requires
        0 <= n <= s.len(),
        forall|i: int, j: int|
            0 <= i < j < s.len() ==> (#[trigger] s[i]).range_start <= (#[trigger] s[j]).range_start,
        forall|i: int|
            0 <= i < s.len() ==> 0 <= (#[trigger] s[i]).range_start <= s[i].range_end < total,
        forall|at: int| 0 <= at < total ==> #[trigger] has_byte(s, id, at),
    ensures
        gapless(s.subrange(0, n)),
        covered_end(s.subrange(0, n)) >= -1,
    decreases n,
{
    let t = s.subrange(0, n);
    if n > 0 {
        let u = s.subrange(0, n - 1);
        assert(t.drop_last() =~= u);
        lemma_no_gap(s, id, n - 1, total);
        let at = covered_end(u) + 1;
        if t.last().range_start > at {
            assert(s[n - 1] == t.last());
            assert(has_byte(s, id, at));
            let k = choose|k: int|
                0 <= k < s.len() && (#[trigger] s[k]).resource_id == id && s[k].range_start <= at
                    <= s[k].range_end;
            if k >= n - 1 {
                if k > n - 1 {
                    assert(s[n - 1].range_start <= s[k].range_start);
                }
                assert(false);
            }
            assert(u[k] == s[k]);
            lemma_covered_most(u, k);
        }
    }
}

/// A resource of known size is ready exactly if every byte of it has come in, in however
/// many slabs, and what is then handed out are all its slabs, ordered by their starts.
pub proof fn law_ready_when_all_is_there(
    cache: &RangeCache,
    r: ResourceView,
    res: Result<Option<AssemblyInfo>, IndexError>,
)
    requires
        call_ensures(RangeCache::check_assembly_ready, (cache, r.id), res),
        cache@.wf(),
        cache@.resources.contains(r),
        r.total_size matches Some(t) && t > 0,
        forall|i: int|
            0 <= i < cache@.slabs.len() && (#[trigger] cache@.slabs[i]).resource_id == r.id ==> 0
                <= cache@.slabs[i].range_start <= cache@.slabs[i].range_end < r.total_size->0,
    ensures
        (res matches Ok(Some(_))) <==> forall|at: int|
            0 <= at < r.total_size->0 ==> #[trigger] has_byte(cache@.slabs, r.id, at),
        res is Ok,
        res matches Ok(Some(info)) ==> info.dir_path@ == r.dir_path && info.total_size
            == r.total_size->0 && (forall|i: int, j: int|
            0 <= i < j < info.slabs@.len() ==> (#[trigger] info.slabs@[i]).0 <= (
            #[trigger] info.slabs@[j]).0),
        res matches Ok(Some(info)) ==> forall|i: int|
            0 <= i < info.slabs@.len() ==> cache@.slabs.contains(
                SlabView {
                    resource_id: r.id,
                    range_start: (#[trigger] info.slabs@[i]).0 as i64,
                    range_end: info.slabs@[i].1 as i64,
                    slab_path: info.slabs@[i].2@,
                },
            ),
        res matches Ok(Some(info)) ==> forall|x: SlabView|
            #[trigger] cache@.slabs.contains(x) && x.resource_id == r.id ==> exists|i: int|
                0 <= i < info.slabs@.len() && (#[trigger] info.slabs@[i]).0 == x.range_start
                    && info.slabs@[i].1 == x.range_end && info.slabs@[i].2@ == x.slab_path,
{
    let all = cache@.slabs;
    let s = slabs_of(all, r.id);
    let total = r.total_size->0;
    lemma_slabs_of(all, r.id);
    lemma_resource(cache@.resources, r);
    assert forall|i: int| 0 <= i < s.len() implies 0 <= (#[trigger] s[i]).range_start
        <= s[i].range_end < total && s[i].resource_id == r.id by {
        assert(s.contains(s[i]));
        let k = choose|k: int| 0 <= k < all.len() && all[k] == s[i];
        assert(all[k].resource_id == r.id);
    }
    let everything = forall|at: int| 0 <= at < total ==> #[trigger] has_byte(all, r.id, at);
    if everything {
        assert forall|at: int| 0 <= at < total implies #[trigger] has_byte(s, r.id, at) by {
            assert(has_byte(all, r.id, at));
            let k = choose|k: int|
                0 <= k < all.len() && (#[trigger] all[k]).resource_id == r.id && all[k].range_start
                    <= at <= all[k].range_end;
            assert(all.contains(all[k]));
            assert(s.contains(all[k]));
            let i = choose|i: int| 0 <= i < s.len() && s[i] == all[k];
            assert(s[i].resource_id == r.id);
        }
        lemma_no_gap(s, r.id, s.len() as int, total as int);
        assert(s.subrange(0, s.len() as int) =~= s);
        assert(has_byte(s, r.id, total - 1));
        let i = choose|i: int|
            0 <= i < s.len() && (#[trigger] s[i]).resource_id == r.id && s[i].range_start <= total
                - 1 <= s[i].range_end;
        lemma_covered_most(s, i);
        assert(complete(s, total));
    }
    if complete(s, total) {
        assert forall|at: int| 0 <= at < total implies #[trigger] has_byte(all, r.id, at) by {
            crate::cache::assembly::law_complete_has_all(s, total, at);
            let i = choose|i: int|
                0 <= i < s.len() && (#[trigger] s[i]).range_start <= at && at <= s[i].range_end;
            assert(s.contains(s[i]));
            let k = choose|k: int| 0 <= k < all.len() && all[k] == s[i];
            assert(all[k].resource_id == r.id);
        }
    }
    if let Ok(Some(info)) = res {
        let parts = part_views(info.slabs@);
        assert(parts == plain_slabs(s));
        assert(parts.len() == info.slabs@.len() && parts.len() == s.len());
        assert forall|i: int| 0 <= i < info.slabs@.len() implies (#[trigger] info.slabs@[i]).0
            == s[i].range_start && info.slabs@[i].1 == s[i].range_end && info.slabs@[i].2@
            == s[i].slab_path by {
            assert(parts[i] == plain_slabs(s)[i]);
            assert(s[i].range_start >= 0);
        }
        assert forall|i: int| 0 <= i < info.slabs@.len() implies all.contains(
            SlabView {
                resource_id: r.id,
                range_start: (#[trigger] info.slabs@[i]).0 as i64,
                range_end: info.slabs@[i].1 as i64,
                slab_path: info.slabs@[i].2@,
            },
        ) by {
            assert(s.contains(s[i]));
            assert(s[i].range_start >= 0);
        }
        assert forall|x: SlabView|
            #[trigger] all.contains(x) && x.resource_id == r.id implies exists|i: int|
            0 <= i < info.slabs@.len() && (#[trigger] info.slabs@[i]).0 == x.range_start
                && info.slabs@[i].1 == x.range_end && info.slabs@[i].2@ == x.slab_path by {
            assert(s.contains(x));
            let i = choose|i: int| 0 <= i < s.len() && s[i] == x;
            assert(info.slabs@[i].0 == x.range_start);
        }
        assert forall|i: int, j: int| 0 <= i < j < info.slabs@.len() implies (
        #[trigger] info.slabs@[i]).0 <= (#[trigger] info.slabs@[j]).0 by {
            assert(s[i].range_start <= s[j].range_start);
        }
    }
}

/// A resource of which the size is not known is not ready, and of a number that no
/// resource has nothing is said.
pub proof fn law_not_ready_without_size(
    cache: &RangeCache,
    id: i64,
    res: Result<Option<AssemblyInfo>, IndexError>,
)
    requires
        call_ensures(RangeCache::check_assembly_ready, (cache, id), res),
        cache@.wf(),
    ensures
        forall|i: int|
            0 <= i < cache@.resources.len() && (#[trigger] cache@.resources[i]).id == id
                && cache@.resources[i].total_size is None ==> (res matches Ok(None)),
        (res is Err) <==> forall|i: int|
            0 <= i < cache@.resources.len() ==> (#[trigger] cache@.resources[i]).id != id,
{
    let s = cache@.resources;
    assert forall|i: int| 0 <= i < s.len() && (#[trigger] s[i]).id == id implies resource_at(s, id)
        == Some(s[i]) by {
        assert(s.contains(s[i]));
        lemma_resource(s, s[i]);
    }
    if resource_at(s, id) is Some {
        lemma_resource_is_one(s, id);
    }
}

/// What is found under a number is one of the resources.
proof fn lemma_resource_is_one(s: Seq<ResourceView>, id: i64)
    requires
        resource_at(s, id) is Some,
    ensures
        exists|i: int|
            0 <= i < s.len() && (#[trigger] s[i]).id == id && s[i] == resource_at(s, id)->0,
    decreases s.len(),
{
    if s[0].id != id {
        let t = s.subrange(1, s.len() as int);
        lemma_resource_is_one(t, id);
        let i = choose|i: int|
            0 <= i < t.len() && (#[trigger] t[i]).id == id && t[i] == resource_at(t, id)->0;
        assert(s[i + 1] == t[i]);
    } else {
        assert(s[0] == resource_at(s, id)->0);
    }
}

/// When a resource is ready and each of its slabs has the bytes of its range, putting
/// together what is handed out gives the content, byte by byte.
pub proof fn law_ready_gives_content(
    cache: &RangeCache,
    r: ResourceView,
    info: AssemblyInfo,
    bodies: &Vec<Vec<u8>>,
    res: Vec<u8>,
    content: Seq<u8>,
)
    requires
        call_ensures(
            RangeCache::check_assembly_ready,
            (cache, r.id),
            Ok::<Option<AssemblyInfo>, IndexError>(Some(info)),
        ),
        call_ensures(assemble_bytes, (&info.slabs, bodies), res),
        cache@.wf(),
        cache@.resources.contains(r),
        0 < content.len() <= i64::MAX,
        r.total_size == Some(content.len() as i64),
        forall|i: int|
            0 <= i < cache@.slabs.len() && (#[trigger] cache@.slabs[i]).resource_id == r.id ==> 0
                <= cache@.slabs[i].range_start <= cache@.slabs[i].range_end < content.len(),
        bodies@.len() == info.slabs@.len(),
        forall|i: int|
            0 <= i < bodies@.len() ==> (#[trigger] bodies@[i])@ == content.subrange(
                info.slabs@[i].0 as int,
                info.slabs@[i].1 + 1,
            ),
    ensures
        res@ == content,
{
    let all = cache@.slabs;
    let s = slabs_of(all, r.id);
    let data = Seq::new(bodies@.len(), |i: int| bodies@[i]@);
    lemma_slabs_of(all, r.id);
    lemma_resource(cache@.resources, r);
    let parts = part_views(info.slabs@);
    assert(parts == plain_slabs(s));
    assert(parts.len() == info.slabs@.len() && parts.len() == s.len());
    assert forall|i: int| 0 <= i < s.len() implies crate::cache::assembly::holds(
        #[trigger] s[i],
        data[i],
        content,
    ) && info.slabs@[i].0 == s[i].range_start && info.slabs@[i].1 == s[i].range_end by {
        assert(s.contains(s[i]));
        let k = choose|k: int| 0 <= k < all.len() && all[k] == s[i];
        assert(all[k].resource_id == r.id);
        assert(parts[i] == plain_slabs(s)[i]);
        assert(bodies@[i]@ == data[i]);
    }
    law_assembled_is_content(s, data, content);
    assert(part_bytes(info.slabs@, bodies@) =~= slab_parts(s, data));
}

/// The resource with an address is one of the resources.
proof fn lemma_resource_with(s: Seq<ResourceView>, r: ResourceView)
    requires
        s.contains(r),
        forall|i: int, j: int|
            0 <= i < j < s.len() ==> (#[trigger] s[i]).url_pattern != (#[trigger] s[j]).url_pattern,
    ensures
        resource_for(s, r.url_pattern) == Some(r),
    decreases s.len(),
{
    let k = choose|k: int| 0 <= k < s.len() && s[k] == r;
    if s[0].url_pattern == r.url_pattern {
        if k > 0 {
            assert(s[0].url_pattern != s[k].url_pattern);
        }
    } else {
        let t = s.subrange(1, s.len() as int);
        assert(t[k - 1] == r);
        assert forall|i: int, j: int| 0 <= i < j < t.len() implies (#[trigger] t[i]).url_pattern
            != (#[trigger] t[j]).url_pattern by {
            assert(s[i + 1].url_pattern != s[j + 1].url_pattern);
        }
        lemma_resource_with(t, r);
    }
}

/// Whether one slab of a resource has all bytes from `start` on, up to `end` if there is
/// one.
pub open spec fn has_range(x: SlabView, id: i64, start: u64, end: Option<u64>) -> bool {
    x.resource_id == id && x.range_start <= start <= x.range_end && (end matches Some(e) ==> e
        <= x.range_end)
}

/// A request for a range finds a slab exactly if one slab of the resource with its
/// address has all of it. What is found is such a slab, none of them is longer, and what
/// is served of it begins and ends where the request says, or with the slab.
pub proof fn law_range_is_found(
    cache: &RangeCache,
    url: &str,
    r: ResourceView,
    start: u64,
    end: Option<u64>,
    res: Option<SlabHit>,
)
    requires
        call_ensures(RangeCache::find_covering_slab, (cache, url, start, end), res),
        cache@.wf(),
        cache@.resources.contains(r),
        r.url_pattern == url@,
        start <= i64::MAX,
        r.total_size matches Some(t) ==> t >= 0,
        forall|i: int|
            0 <= i < cache@.slabs.len() ==> 0 <= (#[trigger] cache@.slabs[i]).range_start
                <= cache@.slabs[i].range_end,
    ensures
        res is Some <==> exists|i: int|
            0 <= i < cache@.slabs.len() && has_range(#[trigger] cache@.slabs[i], r.id, start, end),
        res matches Some(hit) ==> hit.slab_start <= start == hit.serve_start && hit.serve_end
            <= hit.slab_end <= i64::MAX && hit.serve_end == (match end {
            Some(e) => e,
            None => hit.slab_end,
        }) && hit.total == (match r.total_size {
            Some(t) => Some(t as u64),
            None => None,
        }) && cache@.slabs.contains(
            SlabView {
                resource_id: r.id,
                range_start: hit.slab_start as i64,
                range_end: hit.slab_end as i64,
                slab_path: hit.slab_path@,
            },
        ),
        res matches Some(hit) ==> forall|i: int|
            0 <= i < cache@.slabs.len() && has_range(#[trigger] cache@.slabs[i], r.id, start, end)
                ==> cache@.slabs[i].range_end - cache@.slabs[i].range_start <= hit.slab_end
                - hit.slab_start,
{
    let s = cache@.slabs;
    lemma_resource_with(cache@.resources, r);
    crate::cache::assembly::law_best_slab(s, r.id, start, end);
    crate::cache::assembly::lemma_best_is_one(s, r.id, start, end);
    assert forall|i: int| 0 <= i < s.len() implies has_range(#[trigger] s[i], r.id, start, end)
        == covers(s[i], r.id, start, end) by {}
    if let Some(b) = best_slab(s, r.id, start, end) {
        let i = choose|i: int| 0 <= i < s.len() && #[trigger] s[i] == b;
        assert(has_range(s[i], r.id, start, end));
        assert(s.contains(b));
    }
}

/// A request for an address of which nothing has come in finds no slab.
pub proof fn law_other_address_has_no_range(
    cache: &RangeCache,
    url: &str,
    start: u64,
    end: Option<u64>,
    res: Option<SlabHit>,
)
    requires
        call_ensures(RangeCache::find_covering_slab, (cache, url, start, end), res),
        forall|i: int|
            0 <= i < cache@.resources.len() ==> (#[trigger] cache@.resources[i]).url_pattern
                != url@,
    ensures
        res is None,
{
    lemma_no_resource(cache@.resources, url@);
}

/// There is no resource with an address that none has.
proof fn lemma_no_resource(s: Seq<ResourceView>, url: Seq<char>)
    requires
        forall|i: int| 0 <= i < s.len() ==> (#[trigger] s[i]).url_pattern != url,
    ensures
        resource_for(s, url) is None,
    decreases s.len(),
{
    if s.len() > 0 {
        let t = s.subrange(1, s.len() as int);
        assert forall|i: int| 0 <= i < t.len() implies (#[trigger] t[i]).url_pattern != url by {
            assert(t[i] == s[i + 1]);
        }
        assert(s[0].url_pattern != url);
        lemma_no_resource(t, url);
    }
}

/// A range that has come in is kept under its number and its bounds, in the file of which
/// the path is made from them. A range of the resource that began at the same byte gives
/// way, and all else stays. The size of the whole is noted once.
pub proof fn law_slab_comes_in(
    cache: Ghost<&mut RangeCache>,
    id: i64,
    dir: &str,
    range: &ContentRange,
    now: i64,
    path: String,
    res: Result<(), IndexError>,
)
    requires
        call_ensures(RangeCache::store_slab, (cache@, id, dir, range, now), res),
        call_ensures(slab_file_path, (dir, range), path),
        range.start <= range.end <= i64::MAX,
        range.total matches Some(t) ==> t <= i64::MAX,
    ensures
        ({
            let old_rows = (*cache@)@;
            let rows = (*final(cache@))@;
            let new = SlabView {
                resource_id: id,
                range_start: range.start as i64,
                range_end: range.end as i64,
                slab_path: path@,
            };
            let is_known = exists|i: int|
                0 <= i < old_rows.resources.len() && (#[trigger] old_rows.resources[i]).id == id;
            &&& res is Ok <==> is_known
            &&& res is Err ==> rows == old_rows
            &&& res is Ok ==> forall|x: SlabView| #[trigger]
                rows.slabs.contains(x) <==> x == new || (old_rows.slabs.contains(x) && !(
                x.resource_id == id && x.range_start == range.start))
            &&& res is Ok ==> rows.resources.len() == old_rows.resources.len()
            &&& res is Ok ==> forall|i: int|
                0 <= i < rows.resources.len() ==> #[trigger] rows.resources[i] == (
                if old_rows.resources[i].id != id {
                    old_rows.resources[i]
                } else {
                    ResourceView {
                        last_accessed: now,
                        total_size: if old_rows.resources[i].total_size is Some {
                            old_rows.resources[i].total_size
                        } else if range.total is Some {
                            Some(range.total->0 as i64)
                        } else {
                            None
                        },
                        ..old_rows.resources[i]
                    }
                })
        }),
{
    let s = (*cache@)@.slabs;
    let new = SlabView {
        resource_id: id,
        range_start: range.start as i64,
        range_end: range.end as i64,
        slab_path: path@,
    };
    let p = |y: SlabView| !same_place(y, new);
    lemma_filter_members(s, p);
    if res is Ok {
        let rows = (*final(cache@))@;
        assert(new_slab(id, dir@, *range) == new);
        assert(rows.slabs == s.filter(p).push(new));
        assert forall|x: SlabView| #[trigger]
            rows.slabs.contains(x) <==> x == new || (s.contains(x) && !(x.resource_id == id
                && x.range_start == range.start)) by {
            assert(s.filter(p).contains(x) <==> s.contains(x) && p(x));
            if s.filter(p).contains(x) {
                let i = choose|i: int| 0 <= i < s.filter(p).len() && s.filter(p)[i] == x;
                assert(rows.slabs[i] == x);
            }
            if x == new {
                assert(rows.slabs[s.filter(p).len() as int] == x);
            }
        }
    }
}

/// A resource of which the whole has been made has no slabs any more and says where the
/// whole is. Other resources and their slabs stay.
pub proof fn law_whole_takes_over(cache: Ghost<&mut RangeCache>, id: i64, path: &str)
    requires
        call_ensures(RangeCache::finish_assembly, (cache@, id, path), ()),
    ensures
        ({
            let old_rows = (*cache@)@;
            let rows = (*final(cache@))@;
            &&& forall|x: SlabView| #[trigger]
                rows.slabs.contains(x) <==> old_rows.slabs.contains(x) && x.resource_id != id
            &&& rows.resources.len() == old_rows.resources.len()
            &&& forall|i: int|
                0 <= i < rows.resources.len() ==> #[trigger] rows.resources[i] == (
                if old_rows.resources[i].id != id {
                    old_rows.resources[i]
                } else {
                    ResourceView {
                        is_complete: true,
                        assembled_path: Some(path@),
                        ..old_rows.resources[i]
                    }
                })
        }),
{
    lemma_filter_members((*cache@)@.slabs, |x: SlabView| x.resource_id != id);
}

/// Where the digits before the first hyphen of a text end.
proof fn lemma_same_digits(a: Seq<char>, b: Seq<char>, x: Seq<char>, y: Seq<char>)
    requires
        all_digits(a),
        all_digits(b),
        a + seq!['-'] + x == b + seq!['-'] + y,
    ensures
        a == b,
        x == y,
{
    let s = a + seq!['-'] + x;
    let t = b + seq!['-'] + y;
    assert(s[a.len() as int] == '-' && t[b.len() as int] == '-');
    if a.len() < b.len() {
        assert(t[a.len() as int] == b[a.len() as int]);
        assert(is_digit(b[a.len() as int]));
    }
    if b.len() < a.len() {
        assert(s[b.len() as int] == a[b.len() as int]);
        assert(is_digit(a[b.len() as int]));
    }
    assert(a =~= s.subrange(0, a.len() as int));
    assert(b =~= t.subrange(0, b.len() as int));
    assert(x =~= s.subrange(a.len() as int + 1, s.len() as int));
    assert(y =~= t.subrange(b.len() as int + 1, t.len() as int));
}

/// Different ranges of a resource are in different files, within its directory.
pub proof fn law_slab_files_differ(
    dir: &str,
    one: &ContentRange,
    other: &ContentRange,
    res: String,
    again: String,
)
    requires
        call_ensures(slab_file_path, (dir, one), res),
        call_ensures(slab_file_path, (dir, other), again),
        res@ == again@,
    ensures
        one.start == other.start,
        one.end == other.end,
        res@.len() > dir@.len(),
        res@.subrange(0, dir@.len() as int) == dir@,
        dir@.len() > 0 && dir@.last() != '/' ==> res@[dir@.len() as int] == '/',
{
    reveal_strlit("-");
    reveal_strlit(".part");
    assert("-"@ =~= seq!['-']);
    let a = zero_padded(decimal(one.start as nat), 12);
    let b = zero_padded(decimal(one.end as nat), 12);
    let c = zero_padded(decimal(other.start as nat), 12);
    let d = zero_padded(decimal(other.end as nat), 12);
    lemma_decimal_reads_back(one.start as nat);
    lemma_decimal_reads_back(one.end as nat);
    lemma_decimal_reads_back(other.start as nat);
    lemma_decimal_reads_back(other.end as nat);
    lemma_zero_padded_value(decimal(one.start as nat), 12);
    lemma_zero_padded_value(decimal(one.end as nat), 12);
    lemma_zero_padded_value(decimal(other.start as nat), 12);
    lemma_zero_padded_value(decimal(other.end as nat), 12);
    lemma_zero_padded(decimal(one.start as nat), 12);
    lemma_zero_padded(decimal(other.start as nat), 12);
    let n = a + "-"@ + b + ".part"@;
    let m = c + "-"@ + d + ".part"@;
    assert(is_digit(a[0]) && is_digit(c[0]));
    assert(n[0] == a[0] && m[0] == c[0]);
    let k = res@.len() - n.len();
    let front = if dir@.len() == 0 || dir@.last() == '/' {
        dir@
    } else {
        dir@ + seq!['/']
    };
    assert(res@ =~= front + n);
    assert(again@ =~= front + m);
    assert(n =~= res@.subrange(front.len() as int, res@.len() as int));
    assert(m =~= again@.subrange(front.len() as int, again@.len() as int));
    assert(n =~= a + seq!['-'] + (b + ".part"@));
    assert(m =~= c + seq!['-'] + (d + ".part"@));
    lemma_same_digits(a, c, b + ".part"@, d + ".part"@);
    let x = b + ".part"@;
    let y = d + ".part"@;
    assert(b =~= x.subrange(0, x.len() - 5));
    assert(d =~= y.subrange(0, y.len() - 5));
    assert(res@.subrange(0, dir@.len() as int) =~= dir@);
}

/// The next number is one more than one that there is.
proof fn lemma_next_is_next(s: Seq<ResourceView>)
    ensures
        s.len() == 0 ==> next_id(s) == 1,
        s.len() > 0 ==> exists|i: int|
            0 <= i < s.len() && (#[trigger] s[i]).id + 1 == next_id(s),
    decreases s.len(),
{
    if s.len() > 0 {
        let t = s.drop_last();
        lemma_next_is_next(t);
        assert(s[s.len() - 1] == s.last());
        if next_id(s) != s.last().id + 1 {
            let i = choose|i: int| 0 <= i < t.len() && (#[trigger] t[i]).id + 1 == next_id(t);
            assert(s[i].id + 1 == next_id(s));
        }
    }
}

/// An address of which nothing had come in is given a row of its own: the directory is the
/// path for a `GET` of the address with `.parts` behind it, nothing is known of its size,
/// its number is one more than the largest, and no other row changes. An address that has a row keeps it, and nothing changes. What
/// is handed out is what the row says.
pub proof fn law_resource_row(
    cache: Ghost<&mut RangeCache>,
    url: &str,
    host: &str,
    content_type: Option<&str>,
    now: i64,
    path: String,
    res: (i64, String),
)
    requires
        call_ensures(
            RangeCache::get_or_create_resource,
            (cache@, url, host, content_type, now),
            res,
        ),
        call_ensures(url_to_cache_path, ("GET", url, content_type, None::<&str>), path),
        (*cache@)@.wf(),
        next_id((*cache@)@.resources) <= i64::MAX,
    ensures
        ({
            let old_rows = (*cache@)@.resources;
            let rows = (*final(cache@))@.resources;
            let had = exists|i: int|
                0 <= i < old_rows.len() && (#[trigger] old_rows[i]).url_pattern == url@;
            &&& (*final(cache@))@.slabs == (*cache@)@.slabs
            &&& had ==> rows == old_rows
            &&& !had ==> rows.len() == old_rows.len() + 1 && rows.subrange(
                0,
                old_rows.len() as int,
            ) == old_rows
            &&& !had ==> rows.last() == (ResourceView {
                id: res.0,
                url_pattern: url@,
                host: host@,
                total_size: None,
                content_type: opt(content_type),
                dir_path: path@ + ".parts"@,
                is_complete: false,
                assembled_path: None,
                created_at: now,
                last_accessed: now,
            })
            &&& !had ==> forall|i: int|
                0 <= i < old_rows.len() ==> (#[trigger] old_rows[i]).id < res.0
            &&& !had && old_rows.len() == 0 ==> res.0 == 1
            &&& !had && old_rows.len() > 0 ==> exists|i: int|
                0 <= i < old_rows.len() && (#[trigger] old_rows[i]).id + 1 == res.0
            &&& exists|i: int|
                0 <= i < rows.len() && (#[trigger] rows[i]).url_pattern == url@ && rows[i].id
                    == res.0 && rows[i].dir_path == res.1@
        }),
{
    let old_rows = (*cache@)@.resources;
    let rows = (*final(cache@))@.resources;
    if exists|i: int| 0 <= i < old_rows.len() && (#[trigger] old_rows[i]).url_pattern == url@ {
        let i = choose|i: int|
            0 <= i < old_rows.len() && (#[trigger] old_rows[i]).url_pattern == url@;
        assert(old_rows.contains(old_rows[i]));
        lemma_resource_with(old_rows, old_rows[i]);
        assert(rows[i].id == res.0);
    } else {
        lemma_no_resource(old_rows, url@);
        lemma_next_id(old_rows);
        lemma_next_is_next(old_rows);
        assert(rows.last() == rows[rows.len() - 1]);
        assert(rows.subrange(0, old_rows.len() as int) =~= old_rows);
    }
}

/// The lengths of ranges are added up: one range counts the bytes from its first to its
/// last, and of two lists one after the other the lengths are those of both.
pub proof fn law_coverage(
    a: &Vec<SlabInfo>,
    b: &Vec<SlabInfo>,
    both: &Vec<SlabInfo>,
    x: Option<u64>,
    y: Option<u64>,
    z: Option<u64>,
)
    requires
        call_ensures(coverage_bytes, (a,), x),
        call_ensures(coverage_bytes, (b,), y),
        call_ensures(coverage_bytes, (both,), z),
        both@ == a@ + b@,
    ensures
        a@.len() == 0 ==> x == Some(0u64),
        a@.len() == 1 && a@[0].start <= a@[0].end && a@[0].end - a@[0].start < u64::MAX ==> x
            == Some((a@[0].end - a@[0].start + 1) as u64),
        x is Some && y is Some && x->0 + y->0 <= u64::MAX ==> z == Some((x->0 + y->0) as u64),
{
    reveal_with_fuel(coverage, 2);
    if a@.len() == 1 {
        assert(a@.drop_last() =~= seq![]);
    }
    lemma_coverage_of_both(a@, b@);
}

/// The lengths of two lists one after the other are those of both.
proof fn lemma_coverage_of_both(a: Seq<SlabInfo>, b: Seq<SlabInfo>)
    ensures
        coverage(a) matches Some(m) ==> (coverage(b) matches Some(n) ==> (m + n <= u64::MAX
            ==> coverage(a + b) == Some((m + n) as u64))),
    decreases b.len(),
{
    if b.len() == 0 {
        assert(a + b =~= a);
    } else {
        lemma_coverage_of_both(a, b.drop_last());
        assert((a + b).drop_last() =~= a + b.drop_last());
        assert((a + b).last() == b.last());
    }
}

/// A manifest lists the ranges of all slabs of a resource and no others, ordered by their
/// starts, adds up their lengths, and says of the resource what is known of it.
pub proof fn law_manifest(
    cache: &RangeCache,
    r: ResourceView,
    res: RangeManifest,
    sum: Option<u64>,
)
    requires
        call_ensures(
            RangeCache::manifest,
            (cache, r.id),
            Ok::<RangeManifest, IndexError>(res),
        ),
        call_ensures(coverage_bytes, (&res.slabs,), sum),
        cache@.wf(),
        cache@.resources.contains(r),
        r.total_size matches Some(t) ==> t >= 0,
        forall|i: int|
            0 <= i < cache@.slabs.len() ==> 0 <= (#[trigger] cache@.slabs[i]).range_start
                <= cache@.slabs[i].range_end,
    ensures
        res.url@ == r.url_pattern,
        res.content_type.deep_view() == r.content_type,
        res.total_size is Some <==> r.total_size is Some,
        r.total_size matches Some(t) ==> res.total_size == Some(t as u64),
        sum == Some(res.coverage_bytes),
        forall|i: int, j: int|
            0 <= i < j < res.slabs@.len() ==> (#[trigger] res.slabs@[i]).start <= (
            #[trigger] res.slabs@[j]).start,
        forall|i: int|
            0 <= i < res.slabs@.len() ==> exists|k: int|
                0 <= k < cache@.slabs.len() && (#[trigger] cache@.slabs[k]).resource_id == r.id
                    && cache@.slabs[k].range_start == (#[trigger] res.slabs@[i]).start
                    && cache@.slabs[k].range_end == res.slabs@[i].end,
        forall|k: int|
            0 <= k < cache@.slabs.len() && (#[trigger] cache@.slabs[k]).resource_id == r.id
                ==> exists|i: int|
                0 <= i < res.slabs@.len() && (#[trigger] res.slabs@[i]).start
                    == cache@.slabs[k].range_start && res.slabs@[i].end
                    == cache@.slabs[k].range_end,
{
    let all = cache@.slabs;
    let s = slabs_of(all, r.id);
    lemma_slabs_of(all, r.id);
    lemma_resource(cache@.resources, r);
    assert(res.slabs@ == slab_infos(s));
    assert forall|i: int| 0 <= i < s.len() implies (#[trigger] res.slabs@[i]).start
        == s[i].range_start && res.slabs@[i].end == s[i].range_end && exists|k: int|
        0 <= k < all.len() && #[trigger] all[k] == s[i] by {
        assert(s.contains(s[i]));
        let k = choose|k: int| 0 <= k < all.len() && all[k] == s[i];
        assert(all[k].range_start >= 0);
    }
    assert forall|i: int| 0 <= i < res.slabs@.len() implies exists|k: int|
        0 <= k < all.len() && (#[trigger] all[k]).resource_id == r.id && all[k].range_start == (
        #[trigger] res.slabs@[i]).start && all[k].range_end == res.slabs@[i].end by {
        assert(s.contains(s[i]));
        let k = choose|k: int| 0 <= k < all.len() && all[k] == s[i];
        assert(all[k].resource_id == r.id);
    }
    assert forall|k: int| 0 <= k < all.len() && (#[trigger] all[k]).resource_id == r.id implies exists|
        i: int,
    |
        0 <= i < res.slabs@.len() && (#[trigger] res.slabs@[i]).start == all[k].range_start
            && res.slabs@[i].end == all[k].range_end by {
        assert(all.contains(all[k]));
        assert(s.contains(all[k]));
        let i = choose|i: int| 0 <= i < s.len() && s[i] == all[k];
        assert(res.slabs@[i].start == all[k].range_start);
    }
    assert forall|i: int, j: int| 0 <= i < j < res.slabs@.len() implies (
    #[trigger] res.slabs@[i]).start <= (#[trigger] res.slabs@[j]).start by {
        assert(s[i].range_start <= s[j].range_start);
    }
}

} // verus!
