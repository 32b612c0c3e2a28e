//! Making the whole of a resource from its slabs, and serving a part of a slab.
#[allow(unused_imports)]
use crate::cache::entry::{CacheEntry, EntryView};
use crate::cache::key::compute_fingerprint;
#[allow(unused_imports)]
use crate::cache::key::{fingerprint, str_pairs};
#[allow(unused_imports)]
use crate::cache::range::{
    best_slab, complete, covered_end, covers, gapless, new_slab, span, with_slab, AssemblyInfo,
    ContentRange, SlabView,
};
use crate::cache::store::classify_media_type;
#[allow(unused_imports)]
use crate::cache::store::{media_kind, mime_of};
use crate::number::to_signed;
#[allow(unused_imports)]
use crate::number::{as_signed, as_unsigned};
use crate::path::strip_extension;
#[allow(unused_imports)]
use crate::path::without_extension;
use crate::text::strip_suffix;
#[allow(unused_imports)]
use crate::text::{before_suffix, opt};
use vstd::prelude::*;

verus! {

/// A range and its bytes.
pub type Part = (u64, u64, Seq<u8>);

/// The parts of a whole by their views.
pub open spec fn part_bytes(slabs: Seq<(u64, u64, String)>, bodies: Seq<Vec<u8>>) -> Seq<Part> {
    Seq::new(slabs.len(), |i: int| (slabs[i].0, slabs[i].1, bodies[i]@))
}

/// Where the first byte would stand that comes after all of the parts.
pub open spec fn reach(parts: Seq<Part>) -> int
    decreases parts.len(),
{
    if parts.len() == 0 {
        0
    } else if parts.last().1 + 1 > reach(parts.drop_last()) {
        parts.last().1 + 1
    } else {
        reach(parts.drop_last())
    }
}

/// The bytes of parts put together: of a part that starts before one before it ends, the
/// bytes up to the furthest end so far are left out.
pub open spec fn assembled(parts: Seq<Part>) -> Seq<u8>
    decreases parts.len(),
{
    if parts.len() == 0 {
        seq![]
    } else {
        let done = assembled(parts.drop_last());
        let (start, end, data) = parts.last();
        let skip = reach(parts.drop_last()) - start;
        if skip <= 0 {
            done + data
        } else if skip < data.len() {
            done + data.subrange(skip, data.len() as int)
        } else {
            done
        }
    }
}

/// The path for the whole of a resource whose slabs are in a directory.
pub open spec fn whole_path(dir: Seq<char>) -> Seq<char> {
    match before_suffix(dir, ".parts"@) {
        Some(path) => path,
        None => without_extension(dir),
    }
}

/// The entry of the index for the whole of a resource.
pub open spec fn whole_entry(
    url: Seq<char>,
    content_type: Option<Seq<char>>,
    host: Seq<char>,
    path: Seq<char>,
    size: i64,
    now: i64,
) -> EntryView {
    EntryView {
        fingerprint: fingerprint("GET"@, url, seq![]),
        url,
        method: "GET"@,
        status_code: 200,
        content_type,
        content_length: Some(size),
        response_headers: "{}"@,
        cache_policy: seq![],
        created_at: now,
        last_accessed: now,
        expires_at: None,
        file_path: path,
        file_size: size,
        host,
        vary_key: None,
        media_type: match content_type {
            Some(c) => media_kind(mime_of(c)),
            None => None,
        },
        status: "active"@,
        stale_at: None,
    }
}

/// The whole of a resource: its file, the bytes in it, and its entry.
#[derive(Debug)]
pub struct Assembled {
    pub final_path: String,
    pub body: Vec<u8>,
    pub entry: CacheEntry,
}

/// The path for the whole of a resource whose slabs are in a directory.
pub fn assembled_path(dir_path: &str) -> (res: String)
    ensures
        res@ == whole_path(dir_path@),
{
    match strip_suffix(dir_path, ".parts") {
        Some(path) => path,
        None => strip_extension(dir_path),
    }
}

/// Appends the bytes of `data` from `from` on.
fn add_bytes(out: &mut Vec<u8>, data: &Vec<u8>, from: usize)
    requires
        from <= data@.len(),
    ensures
        final(out)@ == old(out)@ + data@.subrange(from as int, data@.len() as int),
{
    let ghost start = out@;
    let mut i: usize = from;
    while i < data.len()
        invariant
            from <= i <= data@.len(),
            out@ == start + data@.subrange(from as int, i as int),
        decreases data@.len() - i,
    {
        out.push(data[i]);
        i += 1;
        assert(out@ =~= start + data@.subrange(from as int, i as int));
    }
}

/// The bytes of slabs put together.
pub fn assemble_bytes(slabs: &Vec<(u64, u64, String)>, bodies: &Vec<Vec<u8>>) -> (res: Vec<u8>)
    requires
        slabs@.len() == bodies@.len(),
        forall|i: int| 0 <= i < slabs@.len() ==> (#[trigger] slabs@[i]).1 < u64::MAX,
    ensures
        res@ == assembled(part_bytes(slabs@, bodies@)),
{
    let ghost all = part_bytes(slabs@, bodies@);
    let mut out: Vec<u8> = Vec::new();
    let mut pos: u64 = 0;
    let mut i: usize = 0;
    assert(out@ =~= assembled(all.subrange(0, 0)));
    while i < slabs.len()
        invariant
            i <= slabs@.len(),
            slabs@.len() == bodies@.len(),
            forall|k: int| 0 <= k < slabs@.len() ==> (#[trigger] slabs@[k]).1 < u64::MAX,
            all == part_bytes(slabs@, bodies@),
            out@ == assembled(all.subrange(0, i as int)),
            pos == reach(all.subrange(0, i as int)),
        decreases slabs@.len() - i,
    {
        let ghost done = out@;
        let data = &bodies[i];
        let start: u64 = slabs[i].0;
        proof {
            let here = all.subrange(0, i + 1);
            assert(here.drop_last() =~= all.subrange(0, i as int));
            assert(here.last() == all[i as int]);
            assert(data@.subrange(0, data@.len() as int) =~= data@);
        }
        if start < pos {
            let skip: u64 = pos - start;
            if skip < data.len() as u64 {
                add_bytes(&mut out, data, skip as usize);
            }
        } else {
            add_bytes(&mut out, data, 0);
        }
        if slabs[i].1 + 1 > pos {
            pos = slabs[i].1 + 1;
        }
        i += 1;
    }
    assert(all.subrange(0, i as int) =~= all);
    out
}

/// The whole of a resource, from the bytes of its slabs.
pub fn assemble(
    info: &AssemblyInfo,
    bodies: &Vec<Vec<u8>>,
    url: &str,
    content_type: Option<&str>,
    host: &str,
    now: i64,
) -> (res: Assembled)
    requires
        info.slabs@.len() == bodies@.len(),
        forall|i: int| 0 <= i < info.slabs@.len() ==> (#[trigger] info.slabs@[i]).1 < u64::MAX,
    ensures
        res.final_path@ == whole_path(info.dir_path@),
        res.body@ == assembled(part_bytes(info.slabs@, bodies@)),
        res.entry@ == whole_entry(
            url@,
            opt(content_type),
            host@,
            res.final_path@,
            as_signed(res.body@.len() as u64),
            now,
        ),
{
    let final_path = assembled_path(info.dir_path.as_str());
    let body = assemble_bytes(&info.slabs, bodies);
    let size: i64 = to_signed(body.len() as u64);
    let none: [(&str, &str); 0] = [];
    assert(str_pairs(none@) =~= seq![]);
    let media_type = match content_type {
        Some(c) => match classify_media_type(c) {
            Some(kind) => Some(kind.to_owned()),
            None => None,
        },
        None => None,
    };
    let entry = CacheEntry {
        fingerprint: compute_fingerprint("GET", url, none.as_slice()),
        url: url.to_owned(),
        method: "GET".to_owned(),
        status_code: 200,
        content_type: match content_type {
            Some(c) => Some(c.to_owned()),
            None => None,
        },
        content_length: Some(size),
        response_headers: "{}".to_owned(),
        cache_policy: Vec::new(),
        created_at: now,
        last_accessed: now,
        expires_at: None,
        file_path: final_path.clone(),
        file_size: size,
        host: host.to_owned(),
        vary_key: None,
        media_type,
        status: "active".to_owned(),
        stale_at: None,
    };
    assert(entry@ =~= whole_entry(
        url@,
        opt(content_type),
        host@,
        final_path@,
        as_signed(body@.len() as u64),
        now,
    ));
    Assembled { final_path, body, entry }
}

/// Whether a slab has the bytes of its range of a content.
pub open spec fn holds(slab: SlabView, data: Seq<u8>, content: Seq<u8>) -> bool {
    &&& 0 <= slab.range_start <= slab.range_end < content.len()
    &&& data == content.subrange(slab.range_start as int, slab.range_end + 1)
}

/// The parts that slabs and their bytes make.
pub open spec fn slab_parts(s: Seq<SlabView>, bodies: Seq<Seq<u8>>) -> Seq<Part> {
    Seq::new(
        s.len(),
        |i: int| (as_unsigned(s[i].range_start), as_unsigned(s[i].range_end), bodies[i]),
    )
}

/// What has been put together of the first slabs is the content as far as they reach.
proof fn lemma_assembled_prefix(s: Seq<SlabView>, bodies: Seq<Seq<u8>>, content: Seq<u8>)
    requires
        bodies.len() == s.len(),
        content.len() <= i64::MAX,
        gapless(s),
        forall|i: int| 0 <= i < s.len() ==> holds(#[trigger] s[i], bodies[i], content),
    ensures
        -1 <= covered_end(s) < content.len(),
        reach(slab_parts(s, bodies)) == covered_end(s) + 1,
        assembled(slab_parts(s, bodies)) == content.subrange(0, covered_end(s) + 1),
    decreases s.len(),
{
    let parts = slab_parts(s, bodies);
    if s.len() == 0 {
        assert(assembled(parts) =~= content.subrange(0, 0));
    } else {
        let t = s.drop_last();
        let b = bodies.drop_last();
        assert forall|i: int| 0 <= i < t.len() implies holds(#[trigger] t[i], b[i], content) by {
            assert(holds(s[i], bodies[i], content));
        }
        lemma_assembled_prefix(t, b, content);
        assert(parts.drop_last() =~= slab_parts(t, b));
        let x = s.last();
        assert(holds(s[s.len() - 1], bodies[s.len() - 1], content));
        let data = bodies.last();
        let cov = covered_end(t) + 1;
        let done = content.subrange(0, cov);
        assert(parts.last() == (as_unsigned(x.range_start), as_unsigned(x.range_end), data));
        let skip = cov - x.range_start;
        if skip <= 0 {
            assert(done + data =~= content.subrange(0, covered_end(s) + 1));
        } else if skip < data.len() {
            assert(done + data.subrange(skip, data.len() as int) =~= content.subrange(
                0,
                covered_end(s) + 1,
            ));
        } else {
            assert(covered_end(s) == covered_end(t));
        }
    }
}

/// Putting together the slabs of a resource that is complete gives its content back, byte
/// by byte, if each slab has the bytes of its range; slabs may overlap, and one may lie
/// within another.
pub proof fn law_assembled_is_content(
    slabs: Seq<SlabView>,
    bodies: Seq<Seq<u8>>,
    content: Seq<u8>,
)
    requires
        content.len() <= i64::MAX,
        complete(slabs, content.len() as i64),
        bodies.len() == slabs.len(),
        forall|i: int| 0 <= i < slabs.len() ==> holds(#[trigger] slabs[i], bodies[i], content),
    ensures
        assembled(slab_parts(slabs, bodies)) == content,
{
    lemma_assembled_prefix(slabs, bodies, content);
    assert(content.subrange(0, content.len() as int) =~= content);
}

/// Every byte of a complete resource is in one of its slabs.
pub proof fn law_complete_has_all(s: Seq<SlabView>, total: i64, at: int)
    requires
        complete(s, total),
        0 <= at < total,
    ensures
        exists|i: int|
            0 <= i < s.len() && (#[trigger] s[i]).range_start <= at && at <= s[i].range_end,
{
    lemma_reached(s, at);
}

/// Every byte that gapless slabs reach is in one of them.
proof fn lemma_reached(s: Seq<SlabView>, at: int)
    requires
        gapless(s),
        0 <= at <= covered_end(s),
    ensures
        exists|i: int|
            0 <= i < s.len() && (#[trigger] s[i]).range_start <= at && at <= s[i].range_end,
    decreases s.len(),
{
    if s.len() > 0 {
        let t = s.drop_last();
        if at <= covered_end(t) {
            lemma_reached(t, at);
            let i = choose|i: int|
                0 <= i < t.len() && (#[trigger] t[i]).range_start <= at && at <= t[i].range_end;
            assert(s[i] == t[i]);
        } else {
            assert(s[s.len() - 1].range_start <= at);
        }
    }
}

/// A range that has come in is served afterwards: a request for bytes in it finds a
/// slab that has them all.
pub proof fn law_stored_is_found(
    slabs: Seq<SlabView>,
    id: i64,
    dir: Seq<char>,
    range: ContentRange,
    start: u64,
    end: Option<u64>,
)
    requires
        range.start <= start <= range.end <= i64::MAX,
        end matches Some(e) ==> e <= range.end,
    ensures
        best_slab(with_slab(slabs, new_slab(id, dir, range)), id, start, end) matches Some(b)
            && covers(b, id, start, end),
{
    let x = new_slab(id, dir, range);
    let s = with_slab(slabs, x);
    assert(s.last() == x);
    assert(covers(x, id, start, end));
    lemma_best(s, id, start, end);
}

/// The best slab covers what is asked for, and none that does so is longer.
proof fn lemma_best(s: Seq<SlabView>, id: i64, start: u64, end: Option<u64>)
    ensures
        best_slab(s, id, start, end) matches Some(b) ==> covers(b, id, start, end),
        best_slab(s, id, start, end) matches Some(b) ==> forall|i: int|
            0 <= i < s.len() && covers(#[trigger] s[i], id, start, end) ==> span(s[i]) <= span(b),
        best_slab(s, id, start, end) is None ==> forall|i: int|
            0 <= i < s.len() ==> !covers(#[trigger] s[i], id, start, end),
    decreases s.len(),
{
    if s.len() > 0 {
        let t = s.drop_last();
        lemma_best(t, id, start, end);
        match best_slab(s, id, start, end) {
            Some(b) => {
                assert forall|i: int|
                    0 <= i < s.len() && covers(#[trigger] s[i], id, start, end) implies span(s[i])
                    <= span(b) by {
                    if i < t.len() {
                        assert(covers(t[i], id, start, end));
                    }
                }
            },
            None => {
                assert forall|i: int| 0 <= i < s.len() implies !covers(
                    #[trigger] s[i],
                    id,
                    start,
                    end,
                ) by {
                    if i < t.len() {
                        assert(!covers(t[i], id, start, end));
                    }
                }
            },
        }
    }
}

/// A request finds a slab exactly if one has all bytes that are asked for, and then no
/// slab that has them is longer.
pub proof fn law_best_slab(s: Seq<SlabView>, id: i64, start: u64, end: Option<u64>)
    ensures
        best_slab(s, id, start, end) is Some <==> exists|i: int|
            0 <= i < s.len() && covers(#[trigger] s[i], id, start, end),
        best_slab(s, id, start, end) matches Some(b) ==> covers(b, id, start, end) && forall|i: int|
            0 <= i < s.len() && covers(#[trigger] s[i], id, start, end) ==> span(s[i]) <= span(b),
{
    lemma_best(s, id, start, end);
    lemma_best_is_one(s, id, start, end);
}

/// The best slab is one of the slabs.
pub proof fn lemma_best_is_one(s: Seq<SlabView>, id: i64, start: u64, end: Option<u64>)
    ensures
        best_slab(s, id, start, end) matches Some(b) ==> exists|i: int|
            0 <= i < s.len() && #[trigger] s[i] == b,
    decreases s.len(),
{
    if s.len() > 0 {
        let t = s.drop_last();
        lemma_best_is_one(t, id, start, end);
        if let Some(b) = best_slab(s, id, start, end) {
            if best_slab(t, id, start, end) == Some(b) {
                let i = choose|i: int| 0 <= i < t.len() && #[trigger] t[i] == b;
                assert(s[i] == b);
            } else {
                assert(s[s.len() - 1] == b);
            }
        }
    }
}

/// The whole of a resource lies beside the directory of its ranges, under the name without
/// the ending of that.
pub proof fn law_assembled_path(dir_path: &str, path: Seq<char>, res: String, bare: String)
    requires
        call_ensures(assembled_path, (dir_path,), res),
        call_ensures(strip_extension, (dir_path,), bare),
    ensures
        dir_path@ == path + ".parts"@ ==> res@ == path,
        !crate::text::has_suffix(dir_path@, ".parts"@) ==> res@ == bare@,
{
    if dir_path@ == path + ".parts"@ {
        let n = path.len() as int;
        assert(dir_path@.subrange(n, dir_path@.len() as int) =~= ".parts"@);
        assert(dir_path@.subrange(0, n) =~= path);
    }
}

/// The whole of a resource is what its ranges make, and its entry is that of a `GET` which
/// was answered with it at the time.
pub proof fn law_assemble(
    info: &AssemblyInfo,
    bodies: &Vec<Vec<u8>>,
    url: &str,
    content_type: Option<&str>,
    host: &str,
    now: i64,
    res: Assembled,
    body: Vec<u8>,
    dir_path: &str,
    path: String,
    vary_values: &[(&str, &str)],
    key: String,
    kind: Option<&'static str>,
)
    requires
        call_ensures(assemble, (info, bodies, url, content_type, host, now), res),
        call_ensures(assemble_bytes, (&info.slabs, bodies), body),
        dir_path@ == info.dir_path@,
        call_ensures(assembled_path, (dir_path,), path),
        vary_values@.len() == 0,
        call_ensures(crate::cache::key::compute_fingerprint, ("GET", url, vary_values), key),
        match content_type {
            Some(c) => call_ensures(crate::cache::store::classify_media_type, (c,), kind),
            None => kind is None,
        },
    ensures
        res.body@ == body@,
        res.final_path@ == path@,
        res.entry.fingerprint@ == key@,
        res.entry.url@ == url@,
        res.entry.method@ == "GET"@,
        res.entry.status_code == 200,
        res.entry.content_type.deep_view() == opt(content_type),
        body@.len() <= i64::MAX ==> res.entry.content_length == Some(body@.len() as i64)
            && res.entry.file_size == body@.len(),
        res.entry.response_headers@ == "{}"@,
        res.entry.cache_policy@.len() == 0,
        res.entry.created_at == now,
        res.entry.last_accessed == now,
        res.entry.expires_at is None,
        res.entry.file_path@ == path@,
        res.entry.host@ == host@,
        res.entry.vary_key is None,
        res.entry.media_type.deep_view() == opt(kind),
        res.entry.status@ == "active"@,
        res.entry.stale_at is None,
{
    assert(crate::cache::key::str_pairs(vary_values@) =~= seq![]);
    let v = res.entry@;
    assert(v.stale_at is None);
}

} // verus!
