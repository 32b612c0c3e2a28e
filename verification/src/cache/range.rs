//! Resources of which only ranges have come in: the slabs that are kept of them, and
//! how the whole is made from them.
pub use crate::cache::content_range::{parse_range_header, ContentRange};
#[allow(unused_imports)]
use crate::cache::entry::{clone_text, lemma_filter_push};
use crate::cache::store::url_to_cache_path;
#[allow(unused_imports)]
use crate::cache::store::cache_path;
pub use crate::error::IndexError;
use crate::number::{decimal_text, to_signed, to_unsigned, zero_pad};
#[allow(unused_imports)]
use crate::number::{as_signed, as_unsigned, decimal, zero_padded};
#[allow(unused_imports)]
use crate::order::{in_order, lemma_put_at};
use crate::path::join_path;
#[allow(unused_imports)]
use crate::path::pushed;
use crate::text::same;
#[allow(unused_imports)]
use crate::text::opt;
use vstd::prelude::*;

verus! {

/// A resource of which ranges have come in.
#[derive(Debug)]
pub struct Resource {
    pub id: i64,
    pub url_pattern: String,
    pub host: String,
    pub total_size: Option<i64>,
    pub content_type: Option<String>,
    pub dir_path: String,
    pub is_complete: bool,
    pub assembled_path: Option<String>,
    pub created_at: i64,
    pub last_accessed: i64,
}

/// A resource, its texts as character sequences.
#[verifier::ext_equal]
pub struct ResourceView {
    pub id: i64,
    pub url_pattern: Seq<char>,
    pub host: Seq<char>,
    pub total_size: Option<i64>,
    pub content_type: Option<Seq<char>>,
    pub dir_path: Seq<char>,
    pub is_complete: bool,
    pub assembled_path: Option<Seq<char>>,
    pub created_at: i64,
    pub last_accessed: i64,
}

/// A range of a resource, in a file.
#[derive(Debug)]
pub struct Slab {
    pub resource_id: i64,
    pub range_start: i64,
    pub range_end: i64,
    pub slab_path: String,
}

/// A range of a resource, its path as a character sequence.
#[verifier::ext_equal]
pub struct SlabView {
    pub resource_id: i64,
    pub range_start: i64,
    pub range_end: i64,
    pub slab_path: Seq<char>,
}

impl View for Resource {
    type V = ResourceView;

    open spec fn view(&self) -> ResourceView {
        ResourceView {
            id: self.id,
            url_pattern: self.url_pattern@,
            host: self.host@,
            total_size: self.total_size,
            content_type: self.content_type.deep_view(),
            dir_path: self.dir_path@,
            is_complete: self.is_complete,
            assembled_path: self.assembled_path.deep_view(),
            created_at: self.created_at,
            last_accessed: self.last_accessed,
        }
    }
}

impl View for Slab {
    type V = SlabView;

    open spec fn view(&self) -> SlabView {
        SlabView {
            resource_id: self.resource_id,
            range_start: self.range_start,
            range_end: self.range_end,
            slab_path: self.slab_path@,
        }
    }
}

impl Clone for Resource {
    fn clone(&self) -> (res: Self)
        ensures
            res@ == self@,
    {
        Resource {
            id: self.id,
            url_pattern: self.url_pattern.clone(),
            host: self.host.clone(),
            total_size: self.total_size,
            content_type: clone_text(&self.content_type),
            dir_path: self.dir_path.clone(),
            is_complete: self.is_complete,
            assembled_path: clone_text(&self.assembled_path),
            created_at: self.created_at,
            last_accessed: self.last_accessed,
        }
    }
}

impl Clone for Slab {
    fn clone(&self) -> (res: Self)
        ensures
            res@ == self@,
    {
        Slab {
            resource_id: self.resource_id,
            range_start: self.range_start,
            range_end: self.range_end,
            slab_path: self.slab_path.clone(),
        }
    }
}

/// A range as it stands in a manifest.
#[derive(Debug, Clone, Copy, PartialEq, Eq, Structural)]
pub struct SlabInfo {
    pub start: u64,
    pub end: u64,
}

/// A slab that a request can be answered from, and the range that it is answered with.
#[derive(Debug)]
pub struct SlabHit {
    pub slab_path: String,
    /// The slab's range on disk.
    pub slab_start: u64,
    pub slab_end: u64,
    /// The range that is served.
    pub serve_start: u64,
    pub serve_end: u64,
    pub total: Option<u64>,
}

impl Clone for SlabHit {
    fn clone(&self) -> (res: Self)
        ensures
            res.slab_path@ == self.slab_path@,
            res.slab_start == self.slab_start,
            res.slab_end == self.slab_end,
            res.serve_start == self.serve_start,
            res.serve_end == self.serve_end,
            res.total == self.total,
    {
        SlabHit {
            slab_path: self.slab_path.clone(),
            slab_start: self.slab_start,
            slab_end: self.slab_end,
            serve_start: self.serve_start,
            serve_end: self.serve_end,
            total: self.total,
        }
    }
}

/// What is needed to make the whole of a resource from its slabs.
#[derive(Debug)]
pub struct AssemblyInfo {
    pub dir_path: String,
    pub total_size: u64,
    pub slabs: Vec<(u64, u64, String)>,
}

/// What is known of the ranges of a resource.
#[derive(Debug)]
pub struct RangeManifest {
    pub url: String,
    pub total_size: Option<u64>,
    pub content_type: Option<String>,
    pub slabs: Vec<SlabInfo>,
    pub coverage_bytes: u64,
}

impl Clone for RangeManifest {
    fn clone(&self) -> (res: Self)
        ensures
            res.url@ == self.url@,
            res.total_size == self.total_size,
            res.content_type.deep_view() == self.content_type.deep_view(),
            res.slabs@ == self.slabs@,
            res.coverage_bytes == self.coverage_bytes,
    {
        let mut slabs: Vec<SlabInfo> = Vec::new();
        let mut i: usize = 0;
        while i < self.slabs.len()
            invariant
                i <= self.slabs@.len(),
                slabs@ == self.slabs@.subrange(0, i as int),
            decreases self.slabs@.len() - i,
        {
            slabs.push(self.slabs[i]);
            i += 1;
            assert(slabs@ =~= self.slabs@.subrange(0, i as int));
        }
        assert(slabs@ =~= self.slabs@);
        RangeManifest {
            url: self.url.clone(),
            total_size: self.total_size,
            content_type: clone_text(&self.content_type),
            slabs,
            coverage_bytes: self.coverage_bytes,
        }
    }
}

/// The resources of which ranges have come in, and their slabs.
#[derive(Debug)]
pub struct RangeCache {
    resources: Vec<Resource>,
    slabs: Vec<Slab>,
}

/// Resources and slabs, in the order in which they came in.
#[verifier::ext_equal]
pub struct RangeView {
    pub resources: Seq<ResourceView>,
    pub slabs: Seq<SlabView>,
}

/// A list of resources by their views.
pub open spec fn resource_views(v: Seq<Resource>) -> Seq<ResourceView> {
    v.map_values(|r: Resource| r@)
}

/// A list of slabs by their views.
pub open spec fn slab_views(v: Seq<Slab>) -> Seq<SlabView> {
    v.map_values(|s: Slab| s@)
}

impl View for RangeCache {
    type V = RangeView;

    closed spec fn view(&self) -> RangeView {
        RangeView { resources: resource_views(self.resources@), slabs: slab_views(self.slabs@) }
    }
}

/// Whether there is a resource with a number.
pub open spec fn known(s: Seq<ResourceView>, id: i64) -> bool {
    exists|i: int| 0 <= i < s.len() && (#[trigger] s[i]).id == id
}

impl RangeView {
    /// Numbers and addresses of resources are distinct, a resource has one slab for
    /// each start, and there is a resource for each slab.
    pub open spec fn wf(self) -> bool {
        &&& forall|i: int, j: int|
            0 <= i < j < self.resources.len() ==> (#[trigger] self.resources[i]).id != (
            #[trigger] self.resources[j]).id && self.resources[i].url_pattern
                != self.resources[j].url_pattern
        &&& forall|i: int, j: int|
            0 <= i < j < self.slabs.len() ==> !same_place(
                #[trigger] self.slabs[i],
                #[trigger] self.slabs[j],
            )
        &&& forall|i: int|
            0 <= i < self.slabs.len() ==> known(
                self.resources,
                (#[trigger] self.slabs[i]).resource_id,
            )
    }
}

/// Whether two slabs belong to the same resource and start at the same byte.
pub open spec fn same_place(a: SlabView, b: SlabView) -> bool {
    a.resource_id == b.resource_id && a.range_start == b.range_start
}

/// The resource with an address.
pub open spec fn resource_for(s: Seq<ResourceView>, url: Seq<char>) -> Option<ResourceView>
    decreases s.len(),
{
    if s.len() == 0 {
        None
    } else if s[0].url_pattern == url {
        Some(s[0])
    } else {
        resource_for(s.subrange(1, s.len() as int), url)
    }
}

/// The resource with a number.
pub open spec fn resource_at(s: Seq<ResourceView>, id: i64) -> Option<ResourceView>
    decreases s.len(),
{
    if s.len() == 0 {
        None
    } else if s[0].id == id {
        Some(s[0])
    } else {
        resource_at(s.subrange(1, s.len() as int), id)
    }
}

/// The number for the next resource: one, or one more than the largest so far.
pub open spec fn next_id(s: Seq<ResourceView>) -> int
    decreases s.len(),
{
    if s.len() == 0 {
        1
    } else if s.len() == 1 || s.last().id >= next_id(s.drop_last()) {
        s.last().id + 1
    } else {
        next_id(s.drop_last())
    }
}

/// The directory for the slabs of a resource.
pub open spec fn parts_dir(url: Seq<char>, content_type: Option<Seq<char>>) -> Seq<char> {
    cache_path("GET"@, url, content_type, None) + ".parts"@
}

/// A resource of which nothing has come in yet.
pub open spec fn new_resource(
    id: int,
    url: Seq<char>,
    host: Seq<char>,
    content_type: Option<Seq<char>>,
    now: i64,
) -> ResourceView {
    ResourceView {
        id: id as i64,
        url_pattern: url,
        host,
        total_size: None,
        content_type,
        dir_path: parts_dir(url, content_type),
        is_complete: false,
        assembled_path: None,
        created_at: now,
        last_accessed: now,
    }
}

/// The resource with an address; the next one, with a host and a content type, if none
/// has it.
pub open spec fn resource_of(
    s: Seq<ResourceView>,
    url: Seq<char>,
    host: Seq<char>,
    content_type: Option<Seq<char>>,
    now: i64,
) -> ResourceView {
    match resource_for(s, url) {
        Some(r) => r,
        None => new_resource(next_id(s), url, host, content_type, now),
    }
}

/// The resources once one has an address.
pub open spec fn with_resource(
    s: Seq<ResourceView>,
    url: Seq<char>,
    host: Seq<char>,
    content_type: Option<Seq<char>>,
    now: i64,
) -> Seq<ResourceView> {
    match resource_for(s, url) {
        Some(_) => s,
        None => s.push(new_resource(next_id(s), url, host, content_type, now)),
    }
}

/// The path of the file for a slab.
pub open spec fn slab_file(dir: Seq<char>, range: ContentRange) -> Seq<char> {
    pushed(
        dir,
        zero_padded(decimal(range.start as nat), 12) + "-"@ + zero_padded(
            decimal(range.end as nat),
            12,
        ) + ".part"@,
    )
}

/// The slab for a range.
pub open spec fn new_slab(id: i64, dir: Seq<char>, range: ContentRange) -> SlabView {
    SlabView {
        resource_id: id,
        range_start: as_signed(range.start),
        range_end: as_signed(range.end),
        slab_path: slab_file(dir, range),
    }
}

/// The slabs after one has come in: it takes the place of the one at its place.
pub open spec fn with_slab(s: Seq<SlabView>, x: SlabView) -> Seq<SlabView> {
    s.filter(|y: SlabView| !same_place(y, x)).push(x)
}

/// A resource after a range of it has come in. The size of the whole is noted once.
pub open spec fn after_range(r: ResourceView, total: Option<u64>, now: i64) -> ResourceView {
    ResourceView {
        total_size: match (r.total_size, total) {
            (None, Some(t)) => Some(as_signed(t)),
            _ => r.total_size,
        },
        last_accessed: now,
        ..r
    }
}

/// The resources after a range of one has come in.
pub open spec fn noted(
    s: Seq<ResourceView>,
    id: i64,
    total: Option<u64>,
    now: i64,
) -> Seq<ResourceView> {
    s.map_values(
        |r: ResourceView|
            if r.id == id {
                after_range(r, total, now)
            } else {
                r
            },
    )
}

/// Whether a slab has all bytes of a resource that are asked for.
pub open spec fn covers(s: SlabView, id: i64, start: u64, end: Option<u64>) -> bool {
    &&& s.resource_id == id
    &&& s.range_start <= as_signed(start) <= s.range_end
    &&& end matches Some(e) ==> as_unsigned(s.range_end) >= e
}

/// The length of a slab, less one.
pub open spec fn span(s: SlabView) -> int {
    s.range_end - s.range_start
}

/// The longest of the slabs that cover what is asked for; the first of several.
pub open spec fn best_slab(
    s: Seq<SlabView>,
    id: i64,
    start: u64,
    end: Option<u64>,
) -> Option<SlabView>
    decreases s.len(),
{
    if s.len() == 0 {
        None
    } else {
        let best = best_slab(s.drop_last(), id, start, end);
        if !covers(s.last(), id, start, end) {
            best
        } else {
            match best {
                Some(b) if span(b) >= span(s.last()) => best,
                _ => Some(s.last()),
            }
        }
    }
}

/// What a request is answered with from a slab.
pub open spec fn is_hit(
    hit: SlabHit,
    slab: SlabView,
    start: u64,
    end: Option<u64>,
    total: Option<i64>,
) -> bool {
    &&& hit.slab_path@ == slab.slab_path
    &&& hit.slab_start == as_unsigned(slab.range_start)
    &&& hit.slab_end == as_unsigned(slab.range_end)
    &&& hit.serve_start == start
    &&& hit.serve_end == match end {
        Some(e) => e,
        None => as_unsigned(slab.range_end),
    }
    &&& hit.total == match total {
        Some(t) => Some(as_unsigned(t)),
        None => None,
    }
}

/// The order of slabs by their starts.
pub open spec fn by_start() -> spec_fn(SlabView, SlabView) -> bool {
    |a: SlabView, b: SlabView| a.range_start <= b.range_start
}

/// The slabs of a resource, ordered by their starts.
pub open spec fn slabs_of(s: Seq<SlabView>, id: i64) -> Seq<SlabView> {
    in_order(s.filter(|x: SlabView| x.resource_id == id), by_start())
}

/// The last byte that slabs reach, or the one before the first.
pub open spec fn covered_end(s: Seq<SlabView>) -> int
    decreases s.len(),
{
    if s.len() == 0 {
        -1
    } else if s.last().range_end > covered_end(s.drop_last()) {
        s.last().range_end as int
    } else {
        covered_end(s.drop_last())
    }
}

/// Whether no byte is missing between the start and the last byte that slabs reach.
pub open spec fn gapless(s: Seq<SlabView>) -> bool
    decreases s.len(),
{
    if s.len() == 0 {
        true
    } else {
        gapless(s.drop_last()) && s.last().range_start <= covered_end(s.drop_last()) + 1
    }
}

/// Whether slabs, ordered by their starts, make up a whole of a size.
pub open spec fn complete(s: Seq<SlabView>, total: i64) -> bool {
    s.len() > 0 && gapless(s) && covered_end(s) + 1 >= total
}

/// Ranges and paths of slabs, as plain values.
pub open spec fn plain_slabs(s: Seq<SlabView>) -> Seq<(u64, u64, Seq<char>)> {
    s.map_values(
        |x: SlabView| (as_unsigned(x.range_start), as_unsigned(x.range_end), x.slab_path),
    )
}

/// Ranges and paths of slabs by their views.
pub open spec fn part_views(v: Seq<(u64, u64, String)>) -> Seq<(u64, u64, Seq<char>)> {
    v.map_values(|p: (u64, u64, String)| (p.0, p.1, p.2@))
}

/// The number for the next resource is larger than all so far.
pub proof fn lemma_next_id(s: Seq<ResourceView>)
    ensures
        forall|i: int| 0 <= i < s.len() ==> (#[trigger] s[i]).id < next_id(s),
    decreases s.len(),
{
    if s.len() > 0 {
        lemma_next_id(s.drop_last());
        assert forall|i: int| 0 <= i < s.len() implies (#[trigger] s[i]).id < next_id(s) by {
            if i < s.len() - 1 {
                assert(s.drop_last()[i] == s[i]);
            }
        }
    }
}

/// There is a resource with an address exactly if one has it.
proof fn lemma_resource_for(s: Seq<ResourceView>, url: Seq<char>)
    ensures
        resource_for(s, url) is None <==> forall|i: int|
            0 <= i < s.len() ==> (#[trigger] s[i]).url_pattern != url,
    decreases s.len(),
{
    if s.len() > 0 {
        let t = s.subrange(1, s.len() as int);
        lemma_resource_for(t, url);
        if s[0].url_pattern != url {
            if forall|i: int| 0 <= i < t.len() ==> (#[trigger] t[i]).url_pattern != url {
                assert forall|i: int| 0 <= i < s.len() implies (#[trigger] s[i]).url_pattern
                    != url by {
                    if i > 0 {
                        assert(t[i - 1] == s[i]);
                    }
                }
            }
            if forall|i: int| 0 <= i < s.len() ==> (#[trigger] s[i]).url_pattern != url {
                assert forall|i: int| 0 <= i < t.len() implies (#[trigger] t[i]).url_pattern
                    != url by {
                    assert(t[i] == s[i + 1]);
                }
            }
        }
    }
}

/// There is a resource with a number exactly if one has it.
proof fn lemma_resource_at(s: Seq<ResourceView>, id: i64)
    ensures
        resource_at(s, id) is Some <==> known(s, id),
        resource_at(s, id) matches Some(r) ==> r.id == id && s.contains(r),
    decreases s.len(),
{
    if s.len() > 0 {
        let t = s.subrange(1, s.len() as int);
        lemma_resource_at(t, id);
        if s[0].id == id {
            assert(s.contains(s[0]));
        } else {
            if known(t, id) {
                let i = choose|i: int| 0 <= i < t.len() && (#[trigger] t[i]).id == id;
                assert(s[i + 1].id == id);
                let k = choose|k: int| 0 <= k < t.len() && t[k] == resource_at(t, id)->0;
                assert(s[k + 1] == resource_at(t, id)->0);
            }
            if known(s, id) {
                let i = choose|i: int| 0 <= i < s.len() && (#[trigger] s[i]).id == id;
                assert(t[i - 1].id == id);
            }
        }
    }
}

/// What is left of slabs by filtering was there before, in the same order.
proof fn lemma_slabs_kept(s: Seq<SlabView>, p: spec_fn(SlabView) -> bool)
    requires
        forall|i: int, j: int|
            0 <= i < j < s.len() ==> !same_place(#[trigger] s[i], #[trigger] s[j]),
    ensures
        forall|i: int, j: int|
            0 <= i < j < s.filter(p).len() ==> !same_place(
                #[trigger] s.filter(p)[i],
                #[trigger] s.filter(p)[j],
            ),
        forall|i: int|
            0 <= i < s.filter(p).len() ==> p(#[trigger] s.filter(p)[i]) && s.contains(
                s.filter(p)[i],
            ),
    decreases s.len(),
{
    reveal(Seq::filter);
    if s.len() > 0 {
        let t = s.drop_last();
        assert forall|i: int, j: int| 0 <= i < j < t.len() implies !same_place(
            #[trigger] t[i],
            #[trigger] t[j],
        ) by {
            assert(t[i] == s[i] && t[j] == s[j]);
        }
        lemma_slabs_kept(t, p);
        let k = t.filter(p);
        let r = s.filter(p);
        assert forall|i: int| 0 <= i < r.len() implies p(#[trigger] r[i]) && s.contains(r[i]) by {
            if i < k.len() {
                assert(t.contains(k[i]));
                let n = choose|n: int| 0 <= n < t.len() && t[n] == k[i];
                assert(s[n] == r[i]);
            } else {
                assert(s[s.len() - 1] == r[i]);
            }
        }
        assert forall|i: int, j: int| 0 <= i < j < r.len() implies !same_place(
            #[trigger] r[i],
            #[trigger] r[j],
        ) by {
            if j == k.len() {
                assert(t.contains(k[i]));
                let n = choose|n: int| 0 <= n < t.len() && t[n] == k[i];
                assert(s[n] == r[i] && s[s.len() - 1] == r[j]);
            } else {
                assert(k[i] == r[i] && k[j] == r[j]);
            }
        }
    }
}

/// The directory for the slabs of a resource.
fn build_parts_dir(url: &str, content_type: Option<&str>) -> (res: String)
    ensures
        res@ == parts_dir(url@, opt(content_type)),
{
    let mut res = url_to_cache_path("GET", url, content_type, None);
    res.append(".parts");
    res
}

/// The path of the file for a slab.
pub fn slab_file_path(dir_path: &str, range: &ContentRange) -> (res: String)
    ensures
        res@ == slab_file(dir_path@, *range),
{
    let mut name = zero_pad(decimal_text(range.start), 12);
    name.append("-");
    name.append(zero_pad(decimal_text(range.end), 12).as_str());
    name.append(".part");
    join_path(dir_path, name.as_str())
}

/// An optional text, owned.
fn owned(s: Option<&str>) -> (res: Option<String>)
    ensures
        res.deep_view() == opt(s),
{
    match s {
        Some(t) => Some(t.to_owned()),
        None => None,
    }
}

impl RangeCache {
    /// A range cache without resources.
    pub fn new() -> (res: RangeCache)
        ensures
            res@.wf(),
            res@.resources == Seq::<ResourceView>::empty(),
            res@.slabs == Seq::<SlabView>::empty(),
    {
        let res = RangeCache { resources: Vec::new(), slabs: Vec::new() };
        assert(res@.resources =~= Seq::<ResourceView>::empty());
        assert(res@.slabs =~= Seq::<SlabView>::empty());
        res
    }

    /// All resources.
    pub fn resources(&self) -> (res: &Vec<Resource>)
        ensures
            resource_views(res@) == self@.resources,
    {
        &self.resources
    }

    /// All slabs.
    pub fn slabs(&self) -> (res: &Vec<Slab>)
        ensures
            slab_views(res@) == self@.slabs,
    {
        &self.slabs
    }

    /// The position of the resource with an address, or the number of resources.
    fn find_url(&self, url: &str) -> (res: usize)
        ensures
            res <= self.resources@.len(),
            match resource_for(self@.resources, url@) {
                Some(r) => res < self.resources@.len() && self.resources@[res as int]@ == r,
                None => res == self.resources@.len(),
            },
    {
        let ghost all = self@.resources;
        let mut i: usize = 0;
        assert(all.subrange(0, all.len() as int) =~= all);
        while i < self.resources.len()
            invariant
                i <= self.resources@.len(),
                all == resource_views(self.resources@),
                resource_for(all, url@) == resource_for(
                    all.subrange(i as int, all.len() as int),
                    url@,
                ),
            decreases self.resources@.len() - i,
        {
            proof {
                let rest = all.subrange(i as int, all.len() as int);
                assert(rest[0] == self.resources@[i as int]@);
                assert(rest.subrange(1, rest.len() as int) =~= all.subrange(
                    i + 1,
                    all.len() as int,
                ));
            }
            if same(self.resources[i].url_pattern.as_str(), url) {
                return i;
            }
            i += 1;
        }
        i
    }

    /// The position of the resource with a number, or the number of resources.
    fn find_id(&self, id: i64) -> (res: usize)
        ensures
            res <= self.resources@.len(),
            match resource_at(self@.resources, id) {
                Some(r) => res < self.resources@.len() && self.resources@[res as int]@ == r,
                None => res == self.resources@.len(),
            },
    {
        let ghost all = self@.resources;
        let mut i: usize = 0;
        assert(all.subrange(0, all.len() as int) =~= all);
        while i < self.resources.len()
            invariant
                i <= self.resources@.len(),
                all == resource_views(self.resources@),
                resource_at(all, id) == resource_at(all.subrange(i as int, all.len() as int), id),
            decreases self.resources@.len() - i,
        {
            proof {
                let rest = all.subrange(i as int, all.len() as int);
                assert(rest[0] == self.resources@[i as int]@);
                assert(rest.subrange(1, rest.len() as int) =~= all.subrange(
                    i + 1,
                    all.len() as int,
                ));
            }
            if self.resources[i].id == id {
                return i;
            }
            i += 1;
        }
        i
    }

    /// The number for the next resource.
    fn free_id(&self) -> (res: i64)
        requires
            next_id(self@.resources) <= i64::MAX,
        ensures
            res == next_id(self@.resources),
    {
        let ghost all = self@.resources;
        let mut next: i128 = 1;
        let mut i: usize = 0;
        while i < self.resources.len()
            invariant
                i <= self.resources@.len(),
                all == resource_views(self.resources@),
                next == next_id(all.subrange(0, i as int)),
                i64::MIN <= next <= i64::MAX + 1,
            decreases self.resources@.len() - i,
        {
            proof {
                let here = all.subrange(0, i + 1);
                assert(here.drop_last() =~= all.subrange(0, i as int));
                assert(here.last() == self.resources@[i as int]@);
            }
            let id: i64 = self.resources[i].id;
            if i == 0 || id as i128 >= next {
                next = id as i128 + 1;
            }
            i += 1;
        }
        assert(all.subrange(0, i as int) =~= all);
        next as i64
    }

    /// The number and the directory of the resource with an address; there is one
    /// afterwards.
    pub fn get_or_create_resource(
        &mut self,
        url_pattern: &str,
        host: &str,
        content_type: Option<&str>,
        now: i64,
    ) -> (res: (i64, String))
        requires
            old(self)@.wf(),
            resource_for(old(self)@.resources, url_pattern@) is None ==> next_id(
                old(self)@.resources,
            ) <= i64::MAX,
        ensures
            final(self)@.wf(),
            final(self)@.slabs == old(self)@.slabs,
            final(self)@.resources == with_resource(
                old(self)@.resources,
                url_pattern@,
                host@,
                opt(content_type),
                now,
            ),
            res.0 == resource_of(
                old(self)@.resources,
                url_pattern@,
                host@,
                opt(content_type),
                now,
            ).id,
            res.1@ == resource_of(
                old(self)@.resources,
                url_pattern@,
                host@,
                opt(content_type),
                now,
            ).dir_path,
    {
        let at: usize = self.find_url(url_pattern);
        if at < self.resources.len() {
            let r = &self.resources[at];
            return (r.id, r.dir_path.clone());
        }
        let ghost before = self@;
        let ghost all = self@.resources;
        let id: i64 = self.free_id();
        let dir_path = build_parts_dir(url_pattern, content_type);
        let r = Resource {
            id,
            url_pattern: url_pattern.to_owned(),
            host: host.to_owned(),
            total_size: None,
            content_type: owned(content_type),
            dir_path: dir_path.clone(),
            is_complete: false,
            assembled_path: None,
            created_at: now,
            last_accessed: now,
        };
        let ghost x = r@;
        self.resources.push(r);
        proof {
            assert(self@.resources =~= all.push(x));
            assert(self@.slabs == before.slabs);
            lemma_next_id(all);
            lemma_resource_for(all, url_pattern@);
            assert forall|i: int| 0 <= i < self@.slabs.len() implies known(
                self@.resources,
                (#[trigger] self@.slabs[i]).resource_id,
            ) by {
                assert(self@.slabs[i] == before.slabs[i]);
                assert(known(all, before.slabs[i].resource_id));
                let k = choose|k: int|
                    0 <= k < all.len() && (#[trigger] all[k]).id == before.slabs[i].resource_id;
                assert(self@.resources[k] == all[k]);
            }
        }
        (id, dir_path)
    }

    /// Notes that a range of a resource has come in and is in its file.
    pub fn store_slab(
        &mut self,
        resource_id: i64,
        dir_path: &str,
        range: &ContentRange,
        now: i64,
    ) -> (res: Result<(), IndexError>)
        requires
            old(self)@.wf(),
        ensures
            final(self)@.wf(),
            match res {
                Ok(_) => known(old(self)@.resources, resource_id) && final(self)@.slabs
                    == with_slab(old(self)@.slabs, new_slab(resource_id, dir_path@, *range))
                    && final(self)@.resources == noted(
                    old(self)@.resources,
                    resource_id,
                    range.total,
                    now,
                ),
                Err(e) => e == IndexError::UnknownResource && !known(
                    old(self)@.resources,
                    resource_id,
                ) && final(self)@ == old(self)@,
            },
    {
        proof {
            lemma_resource_at(self@.resources, resource_id);
        }
        if self.find_id(resource_id) >= self.resources.len() {
            return Err(IndexError::UnknownResource);
        }
        let slab = Slab {
            resource_id,
            range_start: to_signed(range.start),
            range_end: to_signed(range.end),
            slab_path: slab_file_path(dir_path, range),
        };
        let ghost x = slab@;
        let ghost before = self@;
        let mut slabs = self.slabs_elsewhere(&slab);
        let ghost kept = slab_views(slabs@);
        let ghost p = |y: SlabView| !same_place(y, x);
        assert(x == new_slab(resource_id, dir_path@, *range));
        assert(kept == before.slabs.filter(p));
        slabs.push(slab);
        assert(slab_views(slabs@) =~= kept.push(x));
        let mut resources: Vec<Resource> = Vec::new();
        let mut i: usize = 0;
        while i < self.resources.len()
            invariant
                i <= self.resources@.len(),
                resources@.len() == i,
                forall|k: int|
                    0 <= k < i ==> (#[trigger] resources@[k])@ == if self.resources@[k]@.id
                        == resource_id {
                        after_range(self.resources@[k]@, range.total, now)
                    } else {
                        self.resources@[k]@
                    },
            decreases self.resources@.len() - i,
        {
            let mut r = self.resources[i].clone();
            if r.id == resource_id {
                if r.total_size.is_none() {
                    r.total_size = match range.total {
                        Some(t) => Some(to_signed(t)),
                        None => None,
                    };
                }
                r.last_accessed = now;
            }
            resources.push(r);
            i += 1;
        }
        proof {
            assert(resource_views(resources@) =~= noted(
                before.resources,
                resource_id,
                range.total,
                now,
            ));
        }
        self.slabs = slabs;
        self.resources = resources;
        proof {
            lemma_slabs_kept(before.slabs, p);
            let s = self@.slabs;
            assert(s =~= kept.push(x));
            let r = self@.resources;
            assert forall|i: int, j: int| 0 <= i < j < s.len() implies !same_place(
                #[trigger] s[i],
                #[trigger] s[j],
            ) by {
                if j == kept.len() {
                    assert(p(kept[i]));
                } else {
                    assert(s[i] == kept[i] && s[j] == kept[j]);
                }
            }
            assert forall|i: int, j: int| 0 <= i < j < r.len() implies (#[trigger] r[i]).id != (
            #[trigger] r[j]).id && r[i].url_pattern != r[j].url_pattern by {
                assert(before.resources[i].id != before.resources[j].id);
            }
            assert forall|i: int| 0 <= i < s.len() implies known(
                r,
                (#[trigger] s[i]).resource_id,
            ) by {
                if i < kept.len() {
                    assert(before.slabs.contains(kept[i]));
                    let n = choose|n: int| 0 <= n < before.slabs.len() && before.slabs[n] == kept[i];
                    assert(known(before.resources, before.slabs[n].resource_id));
                } else {
                    assert(known(before.resources, resource_id));
                }
                let k = choose|k: int|
                    0 <= k < before.resources.len() && (#[trigger] before.resources[k]).id
                        == s[i].resource_id;
                assert(r[k].id == s[i].resource_id);
            }
        }
        Ok(())
    }

    /// The slabs of other resources or with other starts than a slab.
    fn slabs_elsewhere(&self, slab: &Slab) -> (res: Vec<Slab>)
        ensures
            slab_views(res@) == self@.slabs.filter(|y: SlabView| !same_place(y, slab@)),
    {
        let ghost all = self@.slabs;
        let ghost x = slab@;
        let ghost p = |y: SlabView| !same_place(y, x);
        let mut res: Vec<Slab> = Vec::new();
        let mut i: usize = 0;
        proof {
            reveal(Seq::filter);
            assert(slab_views(res@) =~= all.subrange(0, 0).filter(p));
        }
        while i < self.slabs.len()
            invariant
                i <= self.slabs@.len(),
                all == slab_views(self.slabs@),
                x == slab@,
                p == (|y: SlabView| !same_place(y, x)),
                slab_views(res@) == all.subrange(0, i as int).filter(p),
            decreases self.slabs@.len() - i,
        {
            let ghost kept = slab_views(res@);
            let s = &self.slabs[i];
            proof {
                assert(all.subrange(0, i + 1) =~= all.subrange(0, i as int).push(s@));
                lemma_filter_push(all.subrange(0, i as int), s@, p);
            }
            if s.resource_id != slab.resource_id || s.range_start != slab.range_start {
                res.push(s.clone());
                assert(slab_views(res@) =~= kept.push(s@));
            }
            i += 1;
        }
        assert(all.subrange(0, i as int) =~= all);
        res
    }

    /// The longest slab that has all bytes that are asked for, and what of it is
    /// served; none if no single slab has them all.
    pub fn find_covering_slab(
        &self,
        url_pattern: &str,
        req_start: u64,
        req_end: Option<u64>,
    ) -> (res: Option<SlabHit>)
        ensures
            match resource_for(self@.resources, url_pattern@) {
                None => res is None,
                Some(r) => match (best_slab(self@.slabs, r.id, req_start, req_end), res) {
                    (Some(slab), Some(hit)) => is_hit(hit, slab, req_start, req_end, r.total_size),
                    (None, None) => true,
                    _ => false,
                },
            },
    {
        let at: usize = self.find_url(url_pattern);
        if at >= self.resources.len() {
            return None;
        }
        let id: i64 = self.resources[at].id;
        let total: Option<i64> = self.resources[at].total_size;
        let start: i64 = to_signed(req_start);
        let ghost all = self@.slabs;
        let n: usize = self.slabs.len();
        let mut best: usize = n;
        let mut i: usize = 0;
        while i < n
            invariant
                i <= n == self.slabs@.len(),
                all == slab_views(self.slabs@),
                start == as_signed(req_start),
                best < i || best == n,
                match best_slab(all.subrange(0, i as int), id, req_start, req_end) {
                    Some(b) => best < i && all[best as int] == b,
                    None => best == n,
                },
            decreases n - i,
        {
            proof {
                let here = all.subrange(0, i + 1);
                assert(here.drop_last() =~= all.subrange(0, i as int));
                assert(here.last() == self.slabs@[i as int]@);
            }
            let s = &self.slabs[i];
            let reaches = match req_end {
                Some(e) => to_unsigned(s.range_end) >= e,
                None => true,
            };
            if s.resource_id == id && s.range_start <= start && start <= s.range_end && reaches {
                let longer = if best < n {
                    let b = &self.slabs[best];
                    assert(all[best as int] == b@);
                    (s.range_end as i128 - s.range_start as i128) > (b.range_end as i128
                        - b.range_start as i128)
                } else {
                    true
                };
                if longer {
                    best = i;
                }
            }
            i += 1;
        }
        assert(all.subrange(0, i as int) =~= all);
        if best == n {
            return None;
        }
        let s = &self.slabs[best];
        proof {
            lemma_best_covers(all, id, req_start, req_end);
            assert(all[best as int] == s@);
        }
        let slab_end: u64 = to_unsigned(s.range_end);
        Some(
            SlabHit {
                slab_path: s.slab_path.clone(),
                slab_start: to_unsigned(s.range_start),
                slab_end,
                serve_start: req_start,
                serve_end: match req_end {
                    Some(e) => e,
                    None => slab_end,
                },
                total: match total {
                    Some(t) => Some(to_unsigned(t)),
                    None => None,
                },
            },
        )
    }

    /// The slabs of a resource, ordered by their starts.
    fn sorted_slabs(&self, id: i64) -> (res: Vec<Slab>)
        ensures
            slab_views(res@) == slabs_of(self@.slabs, id),
    {
        let ghost all = self@.slabs;
        let ghost p = |x: SlabView| x.resource_id == id;
        let mut sorted: Vec<Slab> = Vec::new();
        let mut i: usize = 0;
        proof {
            reveal(Seq::filter);
            assert(slab_views(sorted@) =~= in_order(all.subrange(0, 0).filter(p), by_start()));
        }
        while i < self.slabs.len()
            invariant
                i <= self.slabs@.len(),
                all == slab_views(self.slabs@),
                p == (|x: SlabView| x.resource_id == id),
                slab_views(sorted@) == in_order(all.subrange(0, i as int).filter(p), by_start()),
            decreases self.slabs@.len() - i,
        {
            let s = self.slabs[i].clone();
            let ghost before = slab_views(sorted@);
            let ghost x = s@;
            let ghost chosen = all.subrange(0, i as int).filter(p);
            proof {
                assert(all.subrange(0, i + 1) =~= all.subrange(0, i as int).push(x));
                lemma_filter_push(all.subrange(0, i as int), x, p);
            }
            if s.resource_id == id {
                let mut at: usize = sorted.len();
                while at > 0 && sorted[at - 1].range_start > s.range_start
                    invariant
                        at <= sorted@.len(),
                        before == slab_views(sorted@),
                        x == s@,
                        forall|k: int|
                            at <= k < before.len() ==> !by_start()(#[trigger] before[k], x),
                    decreases at,
                {
                    at -= 1;
                    assert(before[at as int] == sorted@[at as int]@);
                }
                proof {
                    if at > 0 {
                        assert(before[at - 1] == sorted@[at - 1]@);
                    }
                    lemma_put_at(before, x, by_start(), at as int);
                    assert(chosen.push(x).drop_last() =~= chosen);
                }
                sorted.insert(at, s);
                assert(slab_views(sorted@) =~= before.insert(at as int, x));
            }
            i += 1;
        }
        assert(all.subrange(0, i as int) =~= all);
        sorted
    }

    /// What is needed to make the whole of a resource from its slabs; none as long as
    /// its size is not known or bytes are missing.
    pub fn check_assembly_ready(&self, resource_id: i64) -> (res: Result<
        Option<AssemblyInfo>,
        IndexError,
    >)
        ensures
            match resource_at(self@.resources, resource_id) {
                None => res == Err::<Option<AssemblyInfo>, IndexError>(
                    IndexError::UnknownResource,
                ),
                Some(r) => {
                    let slabs = slabs_of(self@.slabs, resource_id);
                    match res {
                        Err(_) => false,
                        Ok(None) => r.total_size is None || !complete(slabs, r.total_size->0),
                        Ok(Some(info)) => r.total_size is Some && complete(slabs, r.total_size->0)
                            && info.dir_path@ == r.dir_path && info.total_size == as_unsigned(
                            r.total_size->0,
                        ) && part_views(info.slabs@) == plain_slabs(slabs),
                    }
                },
            },
    {
        let at: usize = self.find_id(resource_id);
        if at >= self.resources.len() {
            return Err(IndexError::UnknownResource);
        }
        let total: i64 = match self.resources[at].total_size {
            Some(t) => t,
            None => {
                return Ok(None);
            },
        };
        let slabs = self.sorted_slabs(resource_id);
        let ghost all = slab_views(slabs@);
        assert(slabs@.len() == all.len());
        if slabs.len() == 0 {
            return Ok(None);
        }
        let mut end: i64 = -1;
        let mut parts: Vec<(u64, u64, String)> = Vec::new();
        let mut i: usize = 0;
        while i < slabs.len()
            invariant
                i <= slabs@.len(),
                all == slab_views(slabs@),
                end >= -1,
                end == covered_end(all.subrange(0, i as int)),
                gapless(all.subrange(0, i as int)),
                parts@.len() == i,
                forall|k: int|
                    0 <= k < i ==> (#[trigger] parts@[k]).0 == as_unsigned(all[k].range_start)
                        && parts@[k].1 == as_unsigned(all[k].range_end) && parts@[k].2@
                        == all[k].slab_path,
                all == slabs_of(self@.slabs, resource_id),
                resource_at(self@.resources, resource_id) matches Some(r) && r.total_size == Some(
                    total,
                ),
            decreases slabs@.len() - i,
        {
            let s = &slabs[i];
            proof {
                let here = all.subrange(0, i + 1);
                assert(here.drop_last() =~= all.subrange(0, i as int));
                assert(here.last() == s@);
            }
            if s.range_start as i128 > end as i128 + 1 {
                proof {
                    lemma_gap_stays(all, i + 1);
                }
                return Ok(None);
            }
            if s.range_end > end {
                end = s.range_end;
            }
            parts.push(
                (to_unsigned(s.range_start), to_unsigned(s.range_end), s.slab_path.clone()),
            );
            i += 1;
        }
        assert(all.subrange(0, i as int) =~= all);
        assert(part_views(parts@) =~= plain_slabs(all));
        if end as i128 + 1 >= total as i128 {
            Ok(
                Some(
                    AssemblyInfo {
                        dir_path: self.resources[at].dir_path.clone(),
                        total_size: to_unsigned(total),
                        slabs: parts,
                    },
                ),
            )
        } else {
            Ok(None)
        }
    }
}

/// The resources after the whole of one has been made.
pub open spec fn finished(s: Seq<ResourceView>, id: i64, path: Seq<char>) -> Seq<ResourceView> {
    s.map_values(
        |r: ResourceView|
            if r.id == id {
                ResourceView { is_complete: true, assembled_path: Some(path), ..r }
            } else {
                r
            },
    )
}

/// The ranges of slabs, as they stand in a manifest.
pub open spec fn slab_infos(s: Seq<SlabView>) -> Seq<SlabInfo> {
    s.map_values(
        |x: SlabView|
            SlabInfo { start: as_unsigned(x.range_start), end: as_unsigned(x.range_end) },
    )
}

/// The lengths of ranges added up; nothing if one ends before it starts, or if a sum on
/// the way cannot be counted.
pub open spec fn coverage(s: Seq<SlabInfo>) -> Option<u64>
    decreases s.len(),
{
    if s.len() == 0 {
        Some(0)
    } else {
        match coverage(s.drop_last()) {
            Some(n) => if s.last().start <= s.last().end && n + (s.last().end - s.last().start + 1)
                <= u64::MAX && s.last().end - s.last().start + 1 <= u64::MAX {
                Some((n + (s.last().end - s.last().start + 1)) as u64)
            } else {
                None
            },
            None => None,
        }
    }
}

/// Once the lengths cannot be added up, no more of them can.
proof fn lemma_coverage_stays_none(s: Seq<SlabInfo>, n: int)
    requires
        0 <= n <= s.len(),
        coverage(s.subrange(0, n)) is None,
    ensures
        coverage(s) is None,
    decreases s.len() - n,
{
    if n == s.len() {
        assert(s.subrange(0, n) =~= s);
    } else {
        assert(s.subrange(0, n + 1).drop_last() =~= s.subrange(0, n));
        lemma_coverage_stays_none(s, n + 1);
    }
}

/// The lengths of ranges added up.
pub fn coverage_bytes(slabs: &Vec<SlabInfo>) -> (res: Option<u64>)
    ensures
        res == coverage(slabs@),
{
    let mut sum: u64 = 0;
    let mut i: usize = 0;
    while i < slabs.len()
        invariant
            i <= slabs@.len(),
            coverage(slabs@.subrange(0, i as int)) == Some(sum),
        decreases slabs@.len() - i,
    {
        assert(slabs@.subrange(0, i + 1).drop_last() =~= slabs@.subrange(0, i as int));
        let s = slabs[i];
        if s.end < s.start || s.end - s.start >= u64::MAX - sum {
            proof {
                lemma_coverage_stays_none(slabs@, i + 1);
            }
            return None;
        }
        sum = sum + (s.end - s.start + 1);
        i += 1;
    }
    assert(slabs@.subrange(0, i as int) =~= slabs@);
    Some(sum)
}

impl RangeCache {
    /// What is known of the ranges of a resource.
    pub fn manifest(&self, resource_id: i64) -> (res: Result<RangeManifest, IndexError>)
        ensures
            match resource_at(self@.resources, resource_id) {
                None => res == Err::<RangeManifest, IndexError>(IndexError::UnknownResource),
                Some(r) => {
                    let infos = slab_infos(slabs_of(self@.slabs, resource_id));
                    match res {
                        Err(e) => e == IndexError::SizeOverflow && coverage(infos) is None,
                        Ok(m) => coverage(infos) == Some(m.coverage_bytes) && m.slabs@ == infos
                            && m.url@ == r.url_pattern && m.content_type.deep_view()
                            == r.content_type && m.total_size == match r.total_size {
                            Some(t) => Some(as_unsigned(t)),
                            None => None,
                        },
                    }
                },
            },
    {
        let at: usize = self.find_id(resource_id);
        if at >= self.resources.len() {
            return Err(IndexError::UnknownResource);
        }
        let sorted = self.sorted_slabs(resource_id);
        let ghost all = slab_views(sorted@);
        let mut slabs: Vec<SlabInfo> = Vec::new();
        let mut i: usize = 0;
        while i < sorted.len()
            invariant
                i <= sorted@.len(),
                all == slab_views(sorted@),
                slabs@.len() == i,
                forall|k: int| 0 <= k < i ==> #[trigger] slabs@[k] == slab_infos(all)[k],
            decreases sorted@.len() - i,
        {
            let s = &sorted[i];
            slabs.push(
                SlabInfo { start: to_unsigned(s.range_start), end: to_unsigned(s.range_end) },
            );
            i += 1;
        }
        assert(slabs@ =~= slab_infos(all));
        let r = &self.resources[at];
        match coverage_bytes(&slabs) {
            None => Err(IndexError::SizeOverflow),
            Some(n) => Ok(
                RangeManifest {
                    url: r.url_pattern.clone(),
                    total_size: match r.total_size {
                        Some(t) => Some(to_unsigned(t)),
                        None => None,
                    },
                    content_type: clone_text(&r.content_type),
                    slabs,
                    coverage_bytes: n,
                },
            ),
        }
    }

    /// Notes that the whole of a resource has been made, and forgets its slabs.
    pub fn finish_assembly(&mut self, resource_id: i64, path: &str)
        requires
            old(self)@.wf(),
        ensures
            final(self)@.wf(),
            final(self)@.resources == finished(old(self)@.resources, resource_id, path@),
            final(self)@.slabs == old(self)@.slabs.filter(
                |x: SlabView| x.resource_id != resource_id,
            ),
    {
        let ghost before = self@;
        let ghost all = self@.slabs;
        let ghost p = |x: SlabView| x.resource_id != resource_id;
        let mut slabs: Vec<Slab> = Vec::new();
        let mut i: usize = 0;
        proof {
            reveal(Seq::filter);
            assert(slab_views(slabs@) =~= all.subrange(0, 0).filter(p));
        }
        while i < self.slabs.len()
            invariant
                i <= self.slabs@.len(),
                all == slab_views(self.slabs@),
                p == (|x: SlabView| x.resource_id != resource_id),
                slab_views(slabs@) == all.subrange(0, i as int).filter(p),
            decreases self.slabs@.len() - i,
        {
            let ghost kept = slab_views(slabs@);
            let s = &self.slabs[i];
            proof {
                assert(all.subrange(0, i + 1) =~= all.subrange(0, i as int).push(s@));
                lemma_filter_push(all.subrange(0, i as int), s@, p);
            }
            if s.resource_id != resource_id {
                slabs.push(s.clone());
                assert(slab_views(slabs@) =~= kept.push(s@));
            }
            i += 1;
        }
        assert(all.subrange(0, i as int) =~= all);
        let mut resources: Vec<Resource> = Vec::new();
        let mut k: usize = 0;
        while k < self.resources.len()
            invariant
                k <= self.resources@.len(),
                resources@.len() == k,
                before.resources == resource_views(self.resources@),
                forall|n: int|
                    0 <= n < k ==> (#[trigger] resources@[n])@ == finished(
                        before.resources,
                        resource_id,
                        path@,
                    )[n],
            decreases self.resources@.len() - k,
        {
            let mut r = self.resources[k].clone();
            if r.id == resource_id {
                r.is_complete = true;
                r.assembled_path = Some(path.to_owned());
            }
            resources.push(r);
            k += 1;
        }
        assert(resource_views(resources@) =~= finished(before.resources, resource_id, path@));
        self.slabs = slabs;
        self.resources = resources;
        proof {
            lemma_slabs_kept(before.slabs, p);
            let s = self@.slabs;
            let r = self@.resources;
            assert forall|i: int, j: int| 0 <= i < j < r.len() implies (#[trigger] r[i]).id != (
            #[trigger] r[j]).id && r[i].url_pattern != r[j].url_pattern by {
                assert(before.resources[i].id != before.resources[j].id);
            }
            assert forall|i: int| 0 <= i < s.len() implies known(
                r,
                (#[trigger] s[i]).resource_id,
            ) by {
                assert(before.slabs.contains(s[i]));
                let n = choose|n: int| 0 <= n < before.slabs.len() && before.slabs[n] == s[i];
                assert(known(before.resources, before.slabs[n].resource_id));
                let k = choose|k: int|
                    0 <= k < before.resources.len() && (#[trigger] before.resources[k]).id
                        == s[i].resource_id;
                assert(r[k].id == s[i].resource_id);
            }
        }
    }

    /// The range cache with these rows; none if they do not belong together.
    pub fn from_rows(resources: Vec<Resource>, slabs: Vec<Slab>) -> (res: Option<RangeCache>)
        ensures
            ({
                let rows = RangeView {
                    resources: resource_views(resources@),
                    slabs: slab_views(slabs@),
                };
                match res {
                    Some(c) => c@ == rows && rows.wf(),
                    None => !rows.wf(),
                }
            }),
    {
        let cache = RangeCache { resources, slabs };
        if cache.is_wf() {
            Some(cache)
        } else {
            None
        }
    }

    /// Whether the rows belong together.
    fn is_wf(&self) -> (res: bool)
        ensures
            res == self@.wf(),
    {
        let ghost rs = self@.resources;
        let ghost ss = self@.slabs;
        let n: usize = self.resources.len();
        let m: usize = self.slabs.len();
        let mut i: usize = 0;
        while i < n
            invariant
                i <= n == self.resources@.len(),
                rs == resource_views(self.resources@),
                forall|a: int, b: int|
                    0 <= a < b < n && a < i ==> (#[trigger] rs[a]).id != (#[trigger] rs[b]).id
                        && rs[a].url_pattern != rs[b].url_pattern,
                self@.resources == rs,
            decreases n - i,
        {
            let mut j: usize = i + 1;
            while j < n
                invariant
                    i < j <= n == self.resources@.len(),
                    i < n,
                    rs == resource_views(self.resources@),
                    forall|b: int|
                        i < b < j ==> rs[i as int].id != (#[trigger] rs[b]).id
                            && rs[i as int].url_pattern != rs[b].url_pattern,
                    self@.resources == rs,
                decreases n - j,
            {
                let a = &self.resources[i];
                let b = &self.resources[j];
                assert(rs[i as int] == a@ && rs[j as int] == b@);
                if a.id == b.id || same(a.url_pattern.as_str(), b.url_pattern.as_str()) {
                    return false;
                }
                j += 1;
            }
            i += 1;
        }
        i = 0;
        while i < m
            invariant
                i <= m == self.slabs@.len(),
                ss == slab_views(self.slabs@),
                rs == self@.resources,
                ss == self@.slabs,
                forall|a: int, b: int|
                    0 <= a < b < m && a < i ==> !same_place(#[trigger] ss[a], #[trigger] ss[b]),
                forall|a: int| 0 <= a < i ==> known(rs, (#[trigger] ss[a]).resource_id),
            decreases m - i,
        {
            proof {
                lemma_resource_at(rs, ss[i as int].resource_id);
                assert(ss[i as int] == self.slabs@[i as int]@);
            }
            if self.find_id(self.slabs[i].resource_id) >= self.resources.len() {
                return false;
            }
            let mut j: usize = i + 1;
            while j < m
                invariant
                    i < j <= m == self.slabs@.len(),
                    i < m,
                    ss == slab_views(self.slabs@),
                    ss == self@.slabs,
                    forall|b: int|
                        i < b < j ==> !same_place(ss[i as int], #[trigger] ss[b]),
                decreases m - j,
            {
                let a = &self.slabs[i];
                let b = &self.slabs[j];
                assert(ss[i as int] == a@ && ss[j as int] == b@);
                if a.resource_id == b.resource_id && a.range_start == b.range_start {
                    return false;
                }
                j += 1;
            }
            i += 1;
        }
        true
    }
}

/// The best slab covers what is asked for.
proof fn lemma_best_covers(s: Seq<SlabView>, id: i64, start: u64, end: Option<u64>)
    ensures
        best_slab(s, id, start, end) matches Some(b) ==> covers(b, id, start, end) && s.contains(b),
    decreases s.len(),
{
    if s.len() > 0 {
        let t = s.drop_last();
        lemma_best_covers(t, id, start, end);
        if let Some(b) = best_slab(s, id, start, end) {
            if t.contains(b) {
                let k = choose|k: int| 0 <= k < t.len() && t[k] == b;
                assert(s[k] == b);
            } else {
                assert(s[s.len() - 1] == b);
            }
        }
    }
}

/// A gap among the first slabs is a gap among all.
proof fn lemma_gap_stays(s: Seq<SlabView>, n: int)
    requires
        0 <= n <= s.len(),
        !gapless(s.subrange(0, n)),
    ensures
        !gapless(s),
    decreases s.len() - n,
{
    if n == s.len() {
        assert(s.subrange(0, n) =~= s);
    } else {
        assert(s.subrange(0, n + 1).drop_last() =~= s.subrange(0, n));
        lemma_gap_stays(s, n + 1);
    }
}

/// What is found under an address is one of the resources and has the address.
proof fn lemma_found(s: Seq<ResourceView>, url: Seq<char>)
    ensures
        resource_for(s, url) matches Some(r) ==> r.url_pattern == url && exists|i: int|
            0 <= i < s.len() && #[trigger] s[i] == r,
    decreases s.len(),
{
    if s.len() > 0 && s[0].url_pattern != url {
        let t = s.subrange(1, s.len() as int);
        lemma_found(t, url);
        if let Some(r) = resource_for(t, url) {
            let i = choose|i: int| 0 <= i < t.len() && #[trigger] t[i] == r;
            assert(s[i + 1] == r);
        }
    }
}

/// A resource that comes in is found if none had its address, and takes none away.
proof fn lemma_found_after_push(s: Seq<ResourceView>, x: ResourceView, url: Seq<char>)
    ensures
        resource_for(s.push(x), url) == match resource_for(s, url) {
            Some(r) => Some(r),
            None => if x.url_pattern == url {
                Some(x)
            } else {
                None
            },
        },
    decreases s.len(),
{
    let t = s.push(x);
    if s.len() == 0 {
        reveal_with_fuel(resource_for, 2);
        assert(t.subrange(1, 1) =~= seq![]);
    } else if s[0].url_pattern != url {
        let rest = s.subrange(1, s.len() as int);
        lemma_found_after_push(rest, x, url);
        assert(t.subrange(1, t.len() as int) =~= rest.push(x));
    }
}

/// A change that keeps addresses, numbers and directories keeps what is found.
proof fn lemma_found_after_change(s: Seq<ResourceView>, t: Seq<ResourceView>, url: Seq<char>)
    requires
        s.len() == t.len(),
        forall|i: int|
            0 <= i < s.len() ==> same_resource(#[trigger] s[i], t[i]),
    ensures
        match (resource_for(s, url), resource_for(t, url)) {
            (Some(a), Some(b)) => same_resource(a, b),
            (None, None) => true,
            _ => false,
        },
    decreases s.len(),
{
    if s.len() > 0 {
        assert(same_resource(s[0], t[0]));
        let a = s.subrange(1, s.len() as int);
        let b = t.subrange(1, t.len() as int);
        assert forall|i: int| 0 <= i < a.len() implies same_resource(#[trigger] a[i], b[i]) by {
            assert(same_resource(s[i + 1], t[i + 1]));
        }
        lemma_found_after_change(a, b, url);
    }
}

/// Whether two rows have the same address, number and directory.
pub open spec fn same_resource(a: ResourceView, b: ResourceView) -> bool {
    a.url_pattern == b.url_pattern && a.id == b.id && a.dir_path == b.dir_path
}

/// An address is given a number and a directory once: the directory goes by the first
/// content type, and a second call gives the same back and changes no row, whatever
/// else it says.
pub proof fn law_resource_once(
    s: Seq<ResourceView>,
    url: Seq<char>,
    first: (Seq<char>, Option<Seq<char>>, i64),
    second: (Seq<char>, Option<Seq<char>>, i64),
)
    ensures
        ({
            let r = resource_of(s, url, first.0, first.1, first.2);
            let t = with_resource(s, url, first.0, first.1, first.2);
            &&& resource_for(s, url) is None ==> r.dir_path == cache_path(
                "GET"@,
                url,
                first.1,
                None,
            ) + ".parts"@
            &&& resource_for(t, url) == Some(r)
            &&& resource_of(t, url, second.0, second.1, second.2) == r
            &&& with_resource(t, url, second.0, second.1, second.2) == t
        }),
{
    let r = new_resource(next_id(s), url, first.0, first.1, first.2);
    lemma_found_after_push(s, r, url);
}

/// A resource keeps its number and its directory under its address whatever comes in: a
/// resource with any address, a range, or the whole.
pub proof fn law_resource_stays(
    s: Seq<ResourceView>,
    r: ResourceView,
    other: (Seq<char>, Seq<char>, Option<Seq<char>>, i64),
    id: i64,
    total: Option<u64>,
    path: Seq<char>,
    now: i64,
)
    requires
        resource_for(s, r.url_pattern) == Some(r),
    ensures
        resource_for(with_resource(s, other.0, other.1, other.2, other.3), r.url_pattern) == Some(
            r,
        ),
        resource_for(noted(s, id, total, now), r.url_pattern) matches Some(q) && same_resource(
            q,
            r,
        ),
        resource_for(finished(s, id, path), r.url_pattern) matches Some(q) && same_resource(q, r),
{
    let new = new_resource(next_id(s), other.0, other.1, other.2, other.3);
    lemma_found_after_push(s, new, r.url_pattern);
    lemma_found_after_change(s, noted(s, id, total, now), r.url_pattern);
    lemma_found_after_change(s, finished(s, id, path), r.url_pattern);
}

/// Different addresses have different numbers, also where one is new.
pub proof fn law_resources_differ(
    view: RangeView,
    one: Seq<char>,
    other: Seq<char>,
    host: Seq<char>,
    content_type: Option<Seq<char>>,
    now: i64,
)
    requires
        view.wf(),
        one != other,
        resource_for(view.resources, one) is Some,
        resource_for(view.resources, other) is None ==> next_id(view.resources) <= i64::MAX,
    ensures
        resource_for(view.resources, one)->0.id != resource_of(
            view.resources,
            other,
            host,
            content_type,
            now,
        ).id,
{
    let s = view.resources;
    lemma_found(s, one);
    lemma_found(s, other);
    let a = resource_for(s, one)->0;
    let i = choose|i: int| 0 <= i < s.len() && #[trigger] s[i] == a;
    match resource_for(s, other) {
        Some(b) => {
            let j = choose|j: int| 0 <= j < s.len() && #[trigger] s[j] == b;
            assert(i != j);
            if i < j {
                assert(s[i].id != s[j].id);
            } else {
                assert(s[j].id != s[i].id);
            }
        },
        None => {
            lemma_next_id(s);
            assert(s[i].id < next_id(s));
        },
    }
}

} // verus!
