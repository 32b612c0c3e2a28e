//! Which files are deleted to keep the cache within its limits.
#[allow(unused_imports)]
use crate::cache::entry::EntryView;
use crate::cache::index::CacheIndex;
#[allow(unused_imports)]
use crate::cache::index::{
    at_most, deleted, name_and_file, path_taken, renamed_stale, size_sum, sized, sized_views,
    stale_before, stale_first, unread_first,
};
pub use crate::error::IndexError;
use crate::number::{to_nearest_double, to_signed};
#[allow(unused_imports)]
use crate::number::{as_signed, nearest_double};
#[allow(unused_imports)]
use crate::text::{pair_views, views};
use vstd::prelude::*;

verus! {

/// The most entries of a kind that are deleted at once.
pub const BATCH: usize = 100;

/// The seconds of a day.
pub const DAY: i64 = 86400;

/// The numerator of the double that is nearest to nine tenths, over `DOUBLE_UNIT`.
pub const NINE_TENTHS: u128 = 8106479329266893;

/// Two to the power of 53.
pub const DOUBLE_UNIT: u128 = 9007199254740992;

/// Nine tenths of a size, as doubles compute them, without the fraction.
pub open spec fn nine_tenths(size: nat) -> nat {
    nearest_double(nearest_double(size) * NINE_TENTHS as nat) / DOUBLE_UNIT as nat
}

/// The size to which the cache is brought down when it is larger than `max`.
pub open spec fn target_of(max: i64) -> int {
    if max >= 0 {
        nine_tenths(max as nat) as int
    } else {
        -(nine_tenths((-max) as nat) as int)
    }
}

/// How many of some sizes it takes to reach a need.
pub open spec fn taken(sizes: Seq<i64>, need: int) -> nat
    decreases sizes.len(),
{
    if sizes.len() == 0 || need <= 0 {
        0
    } else {
        1 + taken(sizes.skip(1), need - sizes[0])
    }
}

/// The sum of some sizes.
pub open spec fn sum_of(sizes: Seq<i64>) -> int
    decreases sizes.len(),
{
    if sizes.len() == 0 {
        0
    } else {
        sum_of(sizes.drop_last()) + sizes.last()
    }
}

/// The sizes of entries.
pub open spec fn sizes_of(s: Seq<EntryView>) -> Seq<i64> {
    s.map_values(|e: EntryView| e.file_size)
}

/// The fingerprints of entries.
pub open spec fn fingerprints_of(s: Seq<EntryView>) -> Seq<Seq<char>> {
    s.map_values(|e: EntryView| e.fingerprint)
}

/// The files of entries.
pub open spec fn files_of(s: Seq<EntryView>) -> Seq<Seq<char>> {
    s.map_values(|e: EntryView| e.file_path)
}

/// The first of some candidates, as many as it takes to reach a need.
pub open spec fn victims(candidates: Seq<EntryView>, need: int) -> Seq<EntryView> {
    candidates.subrange(0, taken(sizes_of(candidates), need) as int)
}

/// The entries without those that have one of some fingerprints.
pub open spec fn without(s: Seq<EntryView>, gone: Seq<Seq<char>>) -> Seq<EntryView> {
    s.filter(|e: EntryView| !gone.contains(e.fingerprint))
}

/// The stale entries that are deleted to reach a need: the oldest first.
pub open spec fn stale_victims(s: Seq<EntryView>, need: int) -> Seq<EntryView> {
    victims(at_most(stale_first(s), BATCH as nat), need)
}

/// The active entries that are deleted to reach a need: those first that have not been
/// read for the longest time.
pub open spec fn active_victims(s: Seq<EntryView>, need: int) -> Seq<EntryView> {
    victims(at_most(unread_first(s), BATCH as nat), need)
}

/// What is still needed after the stale entries have gone.
pub open spec fn still_needed(s: Seq<EntryView>, need: int) -> int {
    need - sum_of(sizes_of(stale_victims(s, need)))
}

/// The entries that are left after a need has been met, as far as possible.
pub open spec fn after_need(s: Seq<EntryView>, need: int) -> Seq<EntryView> {
    let rest = without(s, fingerprints_of(stale_victims(s, need)));
    without(rest, fingerprints_of(active_victims(rest, still_needed(s, need))))
}

/// The files that are deleted to meet a need.
pub open spec fn need_files(s: Seq<EntryView>, need: int) -> Seq<Seq<char>> {
    let rest = without(s, fingerprints_of(stale_victims(s, need)));
    files_of(stale_victims(s, need)) + files_of(active_victims(rest, still_needed(s, need)))
}

/// Before which time an entry must have become stale to be deleted.
pub open spec fn cutoff_of(now: i64, retention_days: u32) -> int {
    now - retention_days * DAY
}

/// The entries that are left when those have gone that have been stale for too long.
pub open spec fn after_retention(s: Seq<EntryView>, cutoff: i64) -> Seq<EntryView> {
    without(s, fingerprints_of(stale_before(s, cutoff)))
}

/// Nine tenths, as doubles compute them, are less than the whole.
proof fn lemma_nine_tenths(size: nat)
    ensures
        20 * nine_tenths(size) <= 19 * size,
{
    let d = nearest_double(size);
    crate::number::lemma_nearest_double(size);
    let x = d * NINE_TENTHS as nat;
    let p = nearest_double(x);
    crate::number::lemma_nearest_double(x);
    assert(20 * p <= 19 * size * 9007199254740992);
}

/// The target is no larger than the limit.
pub proof fn law_target(max: i64)
    requires
        max >= 0,
    ensures
        0 <= target_of(max) <= max,
{
    lemma_nine_tenths(max as nat);
}

/// Nine tenths of a limit as doubles compute them, but for the fraction.
pub proof fn lemma_target_is_nine_tenths(max: i64)
    requires
        max >= 0,
    ensures
        8_999_999_999_999 * max - 10_000_000_000_000 <= 10_000_000_000_000 * target_of(max)
            <= 9_000_000_000_001 * max,
{
    let size = max as nat;
    let d = nearest_double(size);
    crate::number::lemma_nearest_double(size);
    let x = d * NINE_TENTHS as nat;
    crate::number::lemma_nearest_double(x);
    assert(target_of(max) == nearest_double(x) / 9007199254740992);
}

/// The target is nine tenths of the limit, but for the fraction and for what doubles
/// cannot hold.
pub proof fn law_target_is_nine_tenths(max: i64, res: i64)
    requires
        call_ensures(eviction_target, (max,), res),
        max >= 0,
    ensures
        8_999_999_999_999 * max - 10_000_000_000_000 <= 10_000_000_000_000 * res
            <= 9_000_000_000_001 * max,
{
    lemma_target_is_nine_tenths(max);
}

/// Nine tenths of a size, as doubles compute them, without the fraction.
fn compute_nine_tenths(size: u64) -> (res: u64)
    requires
        size <= 0x8000_0000_0000_0000,
    ensures
        res == nine_tenths(size as nat),
        20 * res <= 19 * size,
{
    proof {
        lemma_nine_tenths(size as nat);
    }
    let double: u128 = to_nearest_double(size as u128);
    assert(double * NINE_TENTHS <= 0x1_0000_0000_0000_0000 * 8106479329266893) by (nonlinear_arith)
        requires
            double <= 0x1_0000_0000_0000_0000,
            NINE_TENTHS == 8106479329266893,
    ;
    let product: u128 = to_nearest_double(double * NINE_TENTHS);
    let res: u128 = product / DOUBLE_UNIT;
    res as u64
}

/// The size to which the cache is brought down when it is larger than `max`.
pub fn eviction_target(max: i64) -> (res: i64)
    ensures
        res == target_of(max),
{
    if max >= 0 {
        compute_nine_tenths(max as u64) as i64
    } else {
        let size: u64 = (-(max + 1)) as u64 + 1;
        let t: u64 = compute_nine_tenths(size);
        -(t as i64)
    }
}

/// What is left out one by one is left out at once.
proof fn lemma_without_one_more(s: Seq<EntryView>, gone: Seq<Seq<char>>, x: Seq<char>)
    ensures
        deleted(without(s, gone), x) == without(s, gone.push(x)),
    decreases s.len(),
{
    reveal(Seq::filter);
    let keep = |e: EntryView| !gone.contains(e.fingerprint);
    let other = |e: EntryView| e.fingerprint != x;
    let both = |e: EntryView| !gone.push(x).contains(e.fingerprint);
    if s.len() > 0 {
        let t = s.drop_last();
        let e = s.last();
        lemma_without_one_more(t, gone, x);
        assert(gone.push(x).contains(e.fingerprint) == (gone.contains(e.fingerprint)
            || e.fingerprint == x)) by {
            if gone.contains(e.fingerprint) {
                let i = choose|i: int| 0 <= i < gone.len() && gone[i] == e.fingerprint;
                assert(gone.push(x)[i] == e.fingerprint);
            }
            if e.fingerprint == x {
                assert(gone.push(x)[gone.len() as int] == x);
            }
            if gone.push(x).contains(e.fingerprint) {
                let i = choose|i: int|
                    0 <= i < gone.push(x).len() && gone.push(x)[i] == e.fingerprint;
                if i < gone.len() {
                    assert(gone[i] == e.fingerprint);
                }
            }
        }
        if keep(e) {
            crate::cache::entry::lemma_filter_push(t.filter(keep), e, other);
        }
    }
}

/// Where nothing is left out, all stays.
pub proof fn lemma_without_nothing(s: Seq<EntryView>)
    ensures
        without(s, seq![]) == s,
    decreases s.len(),
{
    reveal(Seq::filter);
    if s.len() > 0 {
        lemma_without_nothing(s.drop_last());
        assert(s.drop_last().push(s.last()) =~= s);
    }
}

/// Deletes some entries and adds their files to a list.
fn delete_first(
    index: &mut CacheIndex,
    list: &Vec<(String, String)>,
    files: &mut Vec<String>,
    Ghost(chosen): Ghost<Seq<EntryView>>,
)
    requires
        old(index)@.wf(),
        pair_views(list@) == chosen.map_values(|e: EntryView| name_and_file(e)),
    ensures
        final(index)@.wf(),
        final(index)@.settings == old(index)@.settings,
        final(index)@.entries == without(old(index)@.entries, fingerprints_of(chosen)),
        views(final(files)@) == views(old(files)@) + files_of(chosen),
{
    let ghost start = index@;
    let ghost first = views(files@);
    let ghost gone = fingerprints_of(chosen);
    let ghost paths = files_of(chosen);
    let mut i: usize = 0;
    proof {
        lemma_without_nothing(start.entries);
        assert(gone.subrange(0, 0) =~= seq![]);
        assert(views(files@) =~= first + paths.subrange(0, 0));
        assert(pair_views(list@).len() == chosen.len());
    }
    while i < list.len()
        invariant
            i <= list@.len() == chosen.len(),
            pair_views(list@) == chosen.map_values(|e: EntryView| name_and_file(e)),
            gone == fingerprints_of(chosen),
            paths == files_of(chosen),
            index@.wf(),
            index@.settings == start.settings,
            index@.entries == without(start.entries, gone.subrange(0, i as int)),
            views(files@) == first + paths.subrange(0, i as int),
        decreases list@.len() - i,
    {
        proof {
            assert(pair_views(list@)[i as int] == name_and_file(chosen[i as int]));
            assert(gone[i as int] == list@[i as int].0@);
            assert(paths[i as int] == list@[i as int].1@);
            assert(gone.subrange(0, i + 1) =~= gone.subrange(0, i as int).push(gone[i as int]));
            lemma_without_one_more(
                start.entries,
                gone.subrange(0, i as int),
                gone[i as int],
            );
        }
        let _ = index.delete(list[i].0.as_str());
        let ghost before = views(files@);
        files.push(list[i].1.clone());
        assert(views(files@) =~= before.push(paths[i as int]));
        i += 1;
        assert(views(files@) =~= first + paths.subrange(0, i as int));
    }
    assert(gone.subrange(0, i as int) =~= gone);
    assert(paths.subrange(0, i as int) =~= paths);
}

/// The first of some candidates, as many as it takes to reach a need, and what is still
/// needed then.
fn take_needed(list: &Vec<(String, String, i64)>, need: i128, Ghost(all): Ghost<Seq<EntryView>>) -> (res: (
    Vec<(String, String)>,
    i128,
))
    requires
        sized_views(list@) == all.map_values(|e: EntryView| sized(e)),
        list@.len() <= BATCH,
        -0x1_0000_0000_0000_0000_0000 <= need <= 0x1_0000_0000_0000_0000_0000,
    ensures
        pair_views(res.0@) == victims(all, need as int).map_values(
            |e: EntryView| name_and_file(e),
        ),
        res.1 == need - sum_of(sizes_of(victims(all, need as int))),
        need - BATCH * 0x8000_0000_0000_0000 <= res.1 <= need + BATCH * 0x8000_0000_0000_0000,
{
    let ghost sizes = sizes_of(all);
    let mut chosen: Vec<(String, String)> = Vec::new();
    let mut left: i128 = need;
    let mut i: usize = 0;
    proof {
        assert(sizes.skip(0) =~= sizes);
        assert(sized_views(list@).len() == all.len());
        assert(all.subrange(0, 0) =~= seq![]);
        assert(sizes.subrange(0, 0) =~= seq![]);
    }
    while i < list.len() && left > 0
        invariant
            i <= list@.len() == all.len(),
            list@.len() <= BATCH,
            sized_views(list@) == all.map_values(|e: EntryView| sized(e)),
            sizes == sizes_of(all),
            taken(sizes, need as int) == i + taken(sizes.skip(i as int), left as int),
            left == need - sum_of(sizes.subrange(0, i as int)),
            -0x1_0000_0000_0000_0000_0000 <= need <= 0x1_0000_0000_0000_0000_0000,
            need - i * 0x8000_0000_0000_0000 <= left <= need + i * 0x8000_0000_0000_0000,
            chosen@.len() == i,
            forall|k: int|
                0 <= k < i ==> (#[trigger] chosen@[k]).0@ == all[k].fingerprint && chosen@[k].1@
                    == all[k].file_path,
        decreases list@.len() - i,
    {
        proof {
            assert(sized_views(list@)[i as int] == sized(all[i as int]));
            assert(sizes[i as int] == list@[i as int].2);
            assert(sizes.skip(i as int).skip(1) =~= sizes.skip(i + 1));
            assert(sizes.skip(i as int)[0] == sizes[i as int]);
            assert(sizes.subrange(0, i + 1).drop_last() =~= sizes.subrange(0, i as int));
        }
        chosen.push((list[i].0.clone(), list[i].1.clone()));
        left = left - list[i].2 as i128;
        i += 1;
    }
    proof {
        let v = victims(all, need as int);
        assert(taken(sizes.skip(i as int), left as int) == 0);
        assert(v =~= all.subrange(0, i as int));
        assert(sizes_of(v) =~= sizes.subrange(0, i as int));
        assert(pair_views(chosen@) =~= v.map_values(|e: EntryView| name_and_file(e)));
    }
    (chosen, left)
}

/// Deletes the entries that have been stale for too long, and returns their files.
pub fn delete_old_stale(index: &mut CacheIndex, cutoff: i64) -> (res: Vec<String>)
    requires
        old(index)@.wf(),
    ensures
        final(index)@.wf(),
        final(index)@.settings == old(index)@.settings,
        final(index)@.entries == after_retention(old(index)@.entries, cutoff),
        views(res@) == files_of(stale_before(old(index)@.entries, cutoff)),
{
    let list = index.get_stale_older_than(cutoff);
    let mut files: Vec<String> = Vec::new();
    let ghost chosen = stale_before(index@.entries, cutoff);
    delete_first(index, &list, &mut files, Ghost(chosen));
    assert(views(files@) =~= files_of(chosen));
    files
}

/// How much a cache of a size has to shrink: nothing, unless it is larger than its limit.
pub open spec fn need_of(total: i64, max: i64) -> int {
    if total > max {
        total - target_of(max)
    } else {
        0
    }
}

/// Deletes stale entries, the oldest first, and then active ones, those first that have
/// not been read for the longest time, until the files take up no more than nine tenths
/// of the limit, or until a batch of each has gone. Returns their files.
pub fn shrink(index: &mut CacheIndex, max_size: i64) -> (res: Result<Vec<String>, IndexError>)
    requires
        old(index)@.wf(),
    ensures
        final(index)@.wf(),
        final(index)@.settings == old(index)@.settings,
        match res {
            Err(e) => e == IndexError::SizeOverflow && size_sum(old(index)@.entries) is None
                && final(index)@.entries == old(index)@.entries,
            Ok(files) => size_sum(old(index)@.entries) matches Some(total) && ({
                let need = need_of(total, max_size);
                final(index)@.entries == after_need(old(index)@.entries, need) && views(files@)
                    == need_files(old(index)@.entries, need)
            }),
        },
{
    let ghost start = index@.entries;
    let total: i64 = match index.total_size_all() {
        Ok(n) => n,
        Err(e) => {
            return Err(e);
        },
    };
    let need: i128 = if total > max_size {
        total as i128 - eviction_target(max_size) as i128
    } else {
        0
    };
    let mut files: Vec<String> = Vec::new();
    let ghost all_stale = at_most(stale_first(start), BATCH as nat);
    let stale_list = index.get_stale_for_eviction(BATCH);
    proof {
        assert(sized_views(stale_list@).len() == stale_list@.len());
    }
    let (chosen, left) = take_needed(&stale_list, need, Ghost(all_stale));
    delete_first(index, &chosen, &mut files, Ghost(stale_victims(start, need as int)));
    assert(views(files@) =~= files_of(stale_victims(start, need as int)));
    let ghost rest = index@.entries;
    let ghost all_active = at_most(unread_first(rest), BATCH as nat);
    let active_list = index.get_active_for_eviction(BATCH);
    proof {
        assert(sized_views(active_list@).len() == active_list@.len());
    }
    let (more, _) = take_needed(&active_list, left, Ghost(all_active));
    delete_first(index, &more, &mut files, Ghost(active_victims(rest, left as int)));
    Ok(files)
}

/// The entries after some that have run out have become stale and their files have been
/// renamed; one whose new file another entry has stays as it is.
pub open spec fn swept(s: Seq<EntryView>, renamed: Seq<(Seq<char>, Seq<char>)>, now: i64) -> Seq<
    EntryView,
>
    decreases renamed.len(),
{
    if renamed.len() == 0 {
        s
    } else {
        let done = swept(s, renamed.drop_last(), now);
        let (fingerprint, path) = renamed.last();
        if path_taken(done, fingerprint, path) {
            done
        } else {
            renamed_stale(done, fingerprint, path, now)
        }
    }
}

/// Notes that some entries have become stale and that their files have new names.
pub fn sweep(index: &mut CacheIndex, renamed: &Vec<(String, String)>, now: i64)
    requires
        old(index)@.wf(),
    ensures
        final(index)@.wf(),
        final(index)@.settings == old(index)@.settings,
        final(index)@.entries == swept(old(index)@.entries, pair_views(renamed@), now),
{
    let ghost start = index@;
    let ghost all = pair_views(renamed@);
    let mut i: usize = 0;
    assert(all.subrange(0, 0) =~= seq![]);
    while i < renamed.len()
        invariant
            i <= renamed@.len(),
            all == pair_views(renamed@),
            index@.wf(),
            index@.settings == start.settings,
            index@.entries == swept(start.entries, all.subrange(0, i as int), now),
        decreases renamed@.len() - i,
    {
        proof {
            let here = all.subrange(0, i + 1);
            assert(here.drop_last() =~= all.subrange(0, i as int));
            assert(here.last() == (renamed@[i as int].0@, renamed@[i as int].1@));
        }
        let _ = index.mark_stale(renamed[i].0.as_str(), renamed[i].1.as_str(), now);
        i += 1;
    }
    assert(all.subrange(0, i as int) =~= all);
}

/// What an eviction cycle leads to: the files to delete, and an error if the sizes of
/// what is left could not be added up.
#[derive(Debug)]
pub struct Eviction {
    pub files: Vec<String>,
    pub error: Option<IndexError>,
}

/// An eviction cycle: what has run out becomes stale, what has been stale for too long
/// is deleted, and the cache is brought below its limit.
pub fn run_eviction_cycle(
    index: &mut CacheIndex,
    renamed: &Vec<(String, String)>,
    retention_days: u32,
    max_cache_size: u64,
    now: i64,
) -> (res: Eviction)
    requires
        old(index)@.wf(),
        now >= 0,
    ensures
        final(index)@.wf(),
        final(index)@.settings == old(index)@.settings,
        ({
            let cutoff = cutoff_of(now, retention_days) as i64;
            let swept_rows = swept(old(index)@.entries, pair_views(renamed@), now);
            let rows = after_retention(swept_rows, cutoff);
            let old_files = files_of(stale_before(swept_rows, cutoff));
            match size_sum(rows) {
                None => res.error == Some(IndexError::SizeOverflow) && final(index)@.entries
                    == rows && views(res.files@) == old_files,
                Some(total) => {
                    let need = need_of(total, as_signed(max_cache_size));
                    res.error is None && final(index)@.entries == after_need(rows, need) && views(
                        res.files@,
                    ) == old_files + need_files(rows, need)
                },
            }
        }),
{
    sweep(index, renamed, now);
    let cutoff: i64 = now - retention_days as i64 * DAY;
    let mut files = delete_old_stale(index, cutoff);
    let ghost first = views(files@);
    match shrink(index, to_signed(max_cache_size)) {
        Err(e) => Eviction { files, error: Some(e) },
        Ok(more) => {
            let mut i: usize = 0;
            assert(views(files@) =~= first + views(more@).subrange(0, 0));
            while i < more.len()
                invariant
                    i <= more@.len(),
                    views(files@) == first + views(more@).subrange(0, i as int),
                decreases more@.len() - i,
            {
                let ghost before = views(files@);
                files.push(more[i].clone());
                assert(views(files@) =~= before.push(more@[i as int]@));
                i += 1;
                assert(views(files@) =~= first + views(more@).subrange(0, i as int));
            }
            assert(views(more@).subrange(0, i as int) =~= views(more@));
            Eviction { files, error: None }
        },
    }
}

} // verus!
