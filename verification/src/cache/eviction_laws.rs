//! What holds of eviction.
#[allow(unused_imports)]
use crate::cache::entry::{by_key, EntryView};
#[allow(unused_imports)]
use crate::cache::eviction::{
    active_victims, after_need, after_retention, cutoff_of, files_of, fingerprints_of, lemma_without_nothing, need_files, need_of, sizes_of,
    run_eviction_cycle, shrink, stale_victims, still_needed, sum_of, sweep, swept, taken, target_of,
    victims, without, Eviction, BATCH,
};
#[allow(unused_imports)]
use crate::cache::index_laws::lemma_filter_same;
#[allow(unused_imports)]
use crate::cache::index::{CacheIndex, IndexError};
#[allow(unused_imports)]
use crate::cache::index::{
    active, at_most, distinct_entries, lemma_filter_distinct, read_key, size_sum, stale,
    stale_before, stale_first, stale_key, unread_first,
};
#[allow(unused_imports)]
use crate::order::{
    in_order, is_total_preorder, lemma_filter_members, lemma_in_order, lemma_in_order_members,
};
#[allow(unused_imports)]
use crate::text::{pair_views, views};
use vstd::prelude::*;

verus! {

/// The size of all files of entries.
pub open spec fn total_of(s: Seq<EntryView>) -> int {
    sum_of(sizes_of(s))
}

/// The sum of sizes that have been extended.
proof fn lemma_total_push(s: Seq<EntryView>, e: EntryView)
    ensures
        total_of(s.push(e)) == total_of(s) + e.file_size,
{
    assert(sizes_of(s.push(e)).drop_last() =~= sizes_of(s));
}

/// A sum that can be counted is the sum.
proof fn lemma_size_sum(s: Seq<EntryView>)
    ensures
        size_sum(s) matches Some(n) ==> n == total_of(s),
    decreases s.len(),
{
    if s.len() > 0 {
        lemma_size_sum(s.drop_last());
        assert(sizes_of(s).drop_last() =~= sizes_of(s.drop_last()));
    }
}

/// The sum without one entry.
proof fn lemma_total_remove(s: Seq<EntryView>, i: int)
    requires
        0 <= i < s.len(),
    ensures
        total_of(s) == total_of(s.remove(i)) + s[i].file_size,
    decreases s.len(),
{
    let t = s.drop_last();
    assert(s =~= t.push(s.last()));
    lemma_total_push(t, s.last());
    if i < t.len() {
        lemma_total_remove(t, i);
        assert(s.remove(i) =~= t.remove(i).push(s.last()));
        lemma_total_push(t.remove(i), s.last());
    } else {
        assert(s.remove(i) =~= t);
    }
}

/// The sum does not depend on the order.
proof fn lemma_total_same(a: Seq<EntryView>, b: Seq<EntryView>)
    requires
        a.to_multiset() == b.to_multiset(),
    ensures
        total_of(a) == total_of(b),
    decreases a.len(),
{
    broadcast use vstd::seq_lib::group_to_multiset_ensures;

    a.to_multiset_ensures();
    b.to_multiset_ensures();
    if a.len() == 0 {
        assert(a =~= b);
    } else {
        let x = a.last();
        let rest = a.drop_last();
        assert(a =~= rest.push(x));
        assert(a.to_multiset() =~= rest.to_multiset().insert(x));
        assert(b.to_multiset().count(x) > 0);
        assert(b.contains(x));
        let k = choose|k: int| 0 <= k < b.len() && b[k] == x;
        assert(b.remove(k).to_multiset() =~= rest.to_multiset());
        lemma_total_same(rest, b.remove(k));
        lemma_total_push(rest, x);
        lemma_total_remove(b, k);
    }
}

/// The sum of what has a property and of what has it not is the sum of all.
proof fn lemma_total_split(
    s: Seq<EntryView>,
    p: spec_fn(EntryView) -> bool,
    q: spec_fn(EntryView) -> bool,
)
    requires
        forall|e: EntryView| #[trigger] q(e) == !p(e),
    ensures
        total_of(s) == total_of(s.filter(p)) + total_of(s.filter(q)),
    decreases s.len(),
{
    reveal(Seq::filter);
    if s.len() > 0 {
        let t = s.drop_last();
        let e = s.last();
        lemma_total_split(t, p, q);
        assert(s =~= t.push(e));
        lemma_total_push(t, e);
        assert(q(e) == !p(e));
        if p(e) {
            lemma_total_push(t.filter(p), e);
        } else {
            lemma_total_push(t.filter(q), e);
        }
    }
}

/// Distinct entries are not the same.
proof fn lemma_distinct(s: Seq<EntryView>)
    requires
        distinct_entries(s),
    ensures
        s.no_duplicates(),
{
    assert forall|i: int, j: int| 0 <= i < s.len() && 0 <= j < s.len() && i != j implies s[i]
        != s[j] by {
        if i < j {
            assert(s[i].fingerprint != s[j].fingerprint);
        } else {
            assert(s[j].fingerprint != s[i].fingerprint);
        }
    }
}

/// Lists without repetitions that have the same elements are the same but for the order.
proof fn lemma_same_elements(a: Seq<EntryView>, b: Seq<EntryView>)
    requires
        a.no_duplicates(),
        b.no_duplicates(),
        forall|e: EntryView| a.contains(e) == b.contains(e),
    ensures
        a.to_multiset() == b.to_multiset(),
{
    a.to_multiset_ensures();
    b.to_multiset_ensures();
    a.lemma_multiset_has_no_duplicates();
    b.lemma_multiset_has_no_duplicates();
    assert forall|e: EntryView| a.to_multiset().count(e) == b.to_multiset().count(e) by {
        assert(a.contains(e) == b.contains(e));
        assert(a.contains(e) == (a.to_multiset().count(e) > 0));
        assert(b.contains(e) == (b.to_multiset().count(e) > 0));
        assert(a.to_multiset().contains(e) == (a.to_multiset().count(e) > 0));
        assert(b.to_multiset().contains(e) == (b.to_multiset().count(e) > 0));
    }
    assert(a.to_multiset() =~= b.to_multiset());
}

/// Leaving out entries takes their sizes off the sum.
proof fn lemma_total_without(s: Seq<EntryView>, gone: Seq<EntryView>)
    requires
        distinct_entries(s),
        gone.no_duplicates(),
        forall|e: EntryView| gone.contains(e) ==> s.contains(e),
    ensures
        total_of(without(s, fingerprints_of(gone))) == total_of(s) - total_of(gone),
{
    let names = fingerprints_of(gone);
    let out = |e: EntryView| names.contains(e.fingerprint);
    let keep = |e: EntryView| !names.contains(e.fingerprint);
    lemma_total_split(s, out, keep);
    let taken_out = s.filter(out);
    lemma_filter_distinct(s, out);
    lemma_distinct(taken_out);
    assert forall|e: EntryView| taken_out.contains(e) == gone.contains(e) by {
        if taken_out.contains(e) {
            let i = choose|i: int| 0 <= i < taken_out.len() && taken_out[i] == e;
            assert(out(taken_out[i]) && s.contains(taken_out[i]));
            let k = choose|k: int| 0 <= k < names.len() && names[k] == e.fingerprint;
            assert(gone[k].fingerprint == e.fingerprint);
            assert(gone.contains(gone[k]));
            lemma_one_of_name(s, e, gone[k]);
            assert(gone.contains(e));
        }
        if gone.contains(e) {
            let k = choose|k: int| 0 <= k < gone.len() && gone[k] == e;
            assert(names[k] == e.fingerprint);
            assert(names.contains(e.fingerprint));
            assert(s.contains(e));
            let i = choose|i: int| 0 <= i < s.len() && s[i] == e;
            assert(out(s[i]));
            s.lemma_filter_contains(out, i);
        }
    }
    lemma_same_elements(taken_out, gone);
    lemma_total_same(taken_out, gone);
}

/// There is one entry with a fingerprint.
proof fn lemma_one_of_name(s: Seq<EntryView>, a: EntryView, b: EntryView)
    requires
        distinct_entries(s),
        s.contains(a),
        s.contains(b),
        a.fingerprint == b.fingerprint,
    ensures
        a == b,
{
    let i = choose|i: int| 0 <= i < s.len() && s[i] == a;
    let j = choose|j: int| 0 <= j < s.len() && s[j] == b;
    if i < j {
        assert(s[i].fingerprint != s[j].fingerprint);
    }
    if j < i {
        assert(s[j].fingerprint != s[i].fingerprint);
    }
}

/// No more are taken than there are; they are not more than needed; and they are enough,
/// or all.
proof fn lemma_taken_bounds(sizes: Seq<i64>, need: int)
    ensures
        taken(sizes, need) <= sizes.len(),
        need > 0 && taken(sizes, need) < sizes.len() ==> sum_of(
            sizes.subrange(0, taken(sizes, need) as int),
        ) >= need,
        taken(sizes, need) > 0 ==> sum_of(sizes.subrange(0, taken(sizes, need) - 1)) < need,
    decreases sizes.len(),
{
    if sizes.len() > 0 && need > 0 {
        let rest = sizes.skip(1);
        lemma_taken_bounds(rest, need - sizes[0]);
        let n = taken(rest, need - sizes[0]);
        assert(sizes.subrange(0, n as int + 1) =~= seq![sizes[0]] + rest.subrange(0, n as int));
        lemma_sum_front(sizes[0], rest.subrange(0, n as int));
        if n > 0 {
            assert(sizes.subrange(0, n as int) =~= seq![sizes[0]] + rest.subrange(0, n - 1));
            lemma_sum_front(sizes[0], rest.subrange(0, n - 1));
        } else {
            assert(sizes.subrange(0, 0) =~= seq![]);
            assert(rest.subrange(0, 0) =~= seq![]);
        }
    } else {
        assert(sizes.subrange(0, 0) =~= seq![]);
    }
}

/// The sum with one more in front.
proof fn lemma_sum_front(x: i64, s: Seq<i64>)
    ensures
        sum_of(seq![x] + s) == x + sum_of(s),
    decreases s.len(),
{
    let t = seq![x] + s;
    if s.len() == 0 {
        assert(t.drop_last() =~= seq![]);
        assert(t.last() == x);
        reveal_with_fuel(sum_of, 2);
    } else {
        assert(t.drop_last() =~= seq![x] + s.drop_last());
        lemma_sum_front(x, s.drop_last());
    }
}

/// The victims among ordered candidates are distinct and come from the index.
proof fn lemma_victims(
    s: Seq<EntryView>,
    p: spec_fn(EntryView) -> bool,
    key: spec_fn(EntryView) -> int,
    need: int,
)
    requires
        distinct_entries(s),
    ensures
        ({
            let all = at_most(in_order(s.filter(p), by_key(key)), BATCH as nat);
            let v = victims(all, need);
            &&& v.no_duplicates()
            &&& forall|e: EntryView| v.contains(e) ==> s.contains(e) && p(e)
            &&& sizes_of(v) == sizes_of(all).subrange(0, v.len() as int)
            &&& v.len() == taken(sizes_of(all), need)
        }),
{
    let chosen = s.filter(p);
    let sorted = in_order(chosen, by_key(key));
    let all = at_most(sorted, BATCH as nat);
    let v = victims(all, need);
    lemma_filter_distinct(s, p);
    lemma_distinct(chosen);
    assert(is_total_preorder(by_key(key)));
    lemma_in_order(chosen, by_key(key));
    chosen.to_multiset_ensures();
    sorted.to_multiset_ensures();
    chosen.lemma_multiset_has_no_duplicates();
    sorted.lemma_multiset_has_no_duplicates_conv();
    lemma_taken_bounds(sizes_of(all), need);
    assert forall|e: EntryView| v.contains(e) implies s.contains(e) && p(e) by {
        let i = choose|i: int| 0 <= i < v.len() && v[i] == e;
        assert(sorted[i] == e);
        assert(sorted.contains(e));
        assert(sorted.to_multiset().count(e) > 0);
        assert(chosen.contains(e));
        let k = choose|k: int| 0 <= k < chosen.len() && chosen[k] == e;
        assert(p(chosen[k]) && s.contains(chosen[k]));
    }
    assert(sizes_of(v) =~= sizes_of(all).subrange(0, v.len() as int));
}

/// Nothing is deleted from a cache that is within its limit.
pub proof fn law_nothing_needed(s: Seq<EntryView>, total: i64, max: i64)
    requires
        total <= max,
    ensures
        after_need(s, need_of(total, max)) == s,
        need_files(s, need_of(total, max)).len() == 0,
{
    assert(stale_victims(s, 0) =~= seq![]);
    assert(fingerprints_of(seq![]) =~= seq![]);
    assert(sizes_of(seq![]) =~= seq![]);
    lemma_without_nothing(s);
    assert(active_victims(s, 0) =~= seq![]);
}

/// Active entries are deleted only when all stale ones of the batch have gone and more
/// is needed.
pub proof fn law_stale_go_first(s: Seq<EntryView>, need: int)
    requires
        distinct_entries(s),
        ({
            let rest = without(s, fingerprints_of(stale_victims(s, need)));
            active_victims(rest, still_needed(s, need)).len() > 0
        }),
    ensures
        stale_victims(s, need) == at_most(stale_first(s), BATCH as nat),
        still_needed(s, need) > 0,
{
    let rest = without(s, fingerprints_of(stale_victims(s, need)));
    let candidates = at_most(unread_first(rest), BATCH as nat);
    lemma_taken_bounds(sizes_of(candidates), still_needed(s, need));
    let old_ones = at_most(stale_first(s), BATCH as nat);
    lemma_taken_bounds(sizes_of(old_ones), need);
    let v = stale_victims(s, need);
    assert(sizes_of(v) =~= sizes_of(old_ones).subrange(0, v.len() as int));
    if need <= 0 {
        assert(sizes_of(v) =~= seq![]);
    }
    assert(v =~= old_ones);
}

/// No more is deleted than is needed: without the entry that was deleted last, the need
/// would not have been met.
pub proof fn law_no_more_than_needed(candidates: Seq<EntryView>, need: int)
    requires
        victims(candidates, need).len() > 0,
    ensures
        total_of(victims(candidates, need).drop_last()) < need,
{
    let sizes = sizes_of(candidates);
    lemma_taken_bounds(sizes, need);
    let v = victims(candidates, need);
    assert(sizes_of(v.drop_last()) =~= sizes.subrange(0, v.len() - 1));
}

/// After eviction the cache takes up no more than the target, unless a full batch of
/// stale and of active entries, or all there are, have gone and that was not enough.
pub proof fn law_brought_down(s: Seq<EntryView>, total: i64, max: i64)
    requires
        distinct_entries(s),
        size_sum(s) == Some(total),
        total > max,
    ensures
        ({
            let need = need_of(total, max);
            let rest = without(s, fingerprints_of(stale_victims(s, need)));
            ||| total_of(after_need(s, need)) <= target_of(max)
            ||| stale_victims(s, need) == at_most(stale_first(s), BATCH as nat) && active_victims(
                rest,
                still_needed(s, need),
            ) == at_most(unread_first(rest), BATCH as nat)
        }),
{
    let need = need_of(total, max);
    let one = stale_victims(s, need);
    let rest = without(s, fingerprints_of(one));
    let left = still_needed(s, need);
    let two = active_victims(rest, left);
    lemma_size_sum(s);
    lemma_victims(s, |e: EntryView| stale(e), |e: EntryView| stale_key(e), need);
    lemma_total_without(s, one);
    lemma_filter_distinct(s, |e: EntryView| !fingerprints_of(one).contains(e.fingerprint));
    lemma_victims(rest, |e: EntryView| active(e), |e: EntryView| read_key(e), left);
    lemma_total_without(rest, two);
    let old_ones = at_most(stale_first(s), BATCH as nat);
    let unread = at_most(unread_first(rest), BATCH as nat);
    lemma_taken_bounds(sizes_of(old_ones), need);
    lemma_taken_bounds(sizes_of(unread), left);
    if total_of(after_need(s, need)) > target_of(max) {
        assert(left > 0 && two.len() == unread.len()) by {
            if two.len() < unread.len() && left > 0 {
                assert(sum_of(sizes_of(two)) >= left);
            }
            if left <= 0 {
                assert(two =~= seq![]);
                assert(sizes_of(two) =~= seq![]);
            }
        }
        assert(two =~= unread);
        if one.len() < old_ones.len() {
            if need > 0 {
                assert(sum_of(sizes_of(one)) >= need);
            } else {
                assert(sizes_of(one) =~= seq![]);
            }
        }
        assert(one =~= old_ones);
    }
}

/// How many bytes the files of entries have.
pub open spec fn weight(s: Seq<EntryView>) -> int
    decreases s.len(),
{
    if s.len() == 0 {
        0
    } else {
        weight(s.drop_last()) + s.last().file_size
    }
}

/// Whether an entry was there and is gone.
pub open spec fn went(s: Seq<EntryView>, t: Seq<EntryView>, e: EntryView) -> bool {
    s.contains(e) && !t.contains(e)
}

/// Whether of the entries with a status all have gone, or a hundred.
pub open spec fn all_or_hundred_went(
    s: Seq<EntryView>,
    t: Seq<EntryView>,
    status: Seq<char>,
) -> bool {
    ||| forall|e: EntryView| #[trigger] s.contains(e) && e.status == status ==> !t.contains(e)
    ||| exists|v: Seq<EntryView>| #[trigger]
        v.no_duplicates() && v.len() >= 100 && forall|e: EntryView| #[trigger]
            v.contains(e) ==> went(s, t, e) && e.status == status
}

/// The bytes of entries are those that adding up their sizes gives.
proof fn lemma_weight(s: Seq<EntryView>)
    ensures
        weight(s) == total_of(s),
    decreases s.len(),
{
    if s.len() > 0 {
        lemma_weight(s.drop_last());
        assert(s =~= s.drop_last().push(s.last()));
        lemma_total_push(s.drop_last(), s.last());
    }
}

/// A sum of sizes that are not negative can be counted if it is not too large.
pub proof fn lemma_countable(s: Seq<EntryView>)
    requires
        forall|e: EntryView| #[trigger] s.contains(e) ==> e.file_size >= 0,
        weight(s) <= i64::MAX,
    ensures
        size_sum(s) == Some(weight(s) as i64),
        weight(s) >= 0,
    decreases s.len(),
{
    if s.len() > 0 {
        let t = s.drop_last();
        assert(s.contains(s[s.len() - 1]));
        assert forall|e: EntryView| #[trigger] t.contains(e) implies e.file_size >= 0 by {
            let i = choose|i: int| 0 <= i < t.len() && t[i] == e;
            assert(s.contains(s[i]));
        }
        lemma_countable(t);
    }
}

/// What filtering leaves has no more bytes.
pub proof fn lemma_weight_filter(s: Seq<EntryView>, p: spec_fn(EntryView) -> bool)
    requires
        forall|e: EntryView| #[trigger] s.contains(e) ==> e.file_size >= 0,
    ensures
        0 <= weight(s.filter(p)) <= weight(s),
    decreases s.len(),
{
    reveal(Seq::filter);
    if s.len() > 0 {
        let t = s.drop_last();
        assert(s.contains(s[s.len() - 1]));
        assert forall|e: EntryView| #[trigger] t.contains(e) implies e.file_size >= 0 by {
            let i = choose|i: int| 0 <= i < t.len() && t[i] == e;
            assert(s.contains(s[i]));
        }
        lemma_weight_filter(t, p);
        if p(s.last()) {
            assert(t.filter(p).push(s.last()).drop_last() =~= t.filter(p));
        }
    }
}

/// The victims are the first of the candidates in their order: what is no victim comes
/// behind them, and they are all of the candidates, a hundred, or enough.
proof fn lemma_first_go(
    s: Seq<EntryView>,
    p: spec_fn(EntryView) -> bool,
    key: spec_fn(EntryView) -> int,
    need: int,
)
    requires
        distinct_entries(s),
    ensures
        ({
            let v = victims(at_most(in_order(s.filter(p), by_key(key)), BATCH as nat), need);
            &&& v.no_duplicates()
            &&& v.len() <= 100
            &&& forall|e: EntryView| #[trigger] v.contains(e) ==> s.contains(e) && p(e)
            &&& forall|e: EntryView, f: EntryView|
                #[trigger] v.contains(e) && #[trigger] s.contains(f) && p(f) && !v.contains(f)
                    ==> key(e) <= key(f)
            &&& v.len() < 100 && total_of(v) < need ==> forall|e: EntryView| #[trigger]
                s.contains(e) && p(e) ==> v.contains(e)
            &&& v.len() > 0 ==> total_of(v.drop_last()) < need
            &&& need <= 0 ==> v.len() == 0
        }),
{
    let chosen = s.filter(p);
    let sorted = in_order(chosen, by_key(key));
    let all = at_most(sorted, BATCH as nat);
    let v = victims(all, need);
    lemma_victims(s, p, key, need);
    lemma_taken_bounds(sizes_of(all), need);
    assert(is_total_preorder(by_key(key)));
    lemma_in_order(chosen, by_key(key));
    lemma_in_order_members(chosen, by_key(key));
    lemma_filter_members(s, p);
    assert(v.len() <= all.len() <= 100);
    assert forall|e: EntryView, f: EntryView|
        #[trigger] v.contains(e) && #[trigger] s.contains(f) && p(f) && !v.contains(f) implies key(e)
        <= key(f) by {
        let i = choose|i: int| 0 <= i < v.len() && v[i] == e;
        assert(chosen.contains(f));
        assert(sorted.contains(f));
        let j = choose|j: int| 0 <= j < sorted.len() && sorted[j] == f;
        if j < v.len() {
            assert(v[j] == f);
        }
        assert(by_key(key)(sorted[i], sorted[j]));
    }
    if v.len() < 100 && total_of(v) < need {
        assert(v.len() == all.len());
        assert(all == sorted);
        assert forall|e: EntryView| #[trigger] s.contains(e) && p(e) implies v.contains(e) by {
            assert(chosen.contains(e));
            assert(sorted.contains(e));
            let j = choose|j: int| 0 <= j < sorted.len() && sorted[j] == e;
            assert(v[j] == e);
        }
    }
    if v.len() > 0 {
        assert(sizes_of(v.drop_last()) =~= sizes_of(all).subrange(0, v.len() - 1));
    }
}

/// What is left when entries have been left out.
proof fn lemma_left(s: Seq<EntryView>, v: Seq<EntryView>)
    requires
        distinct_entries(s),
        forall|e: EntryView| #[trigger] v.contains(e) ==> s.contains(e),
    ensures
        distinct_entries(without(s, fingerprints_of(v))),
        forall|e: EntryView| #[trigger]
            without(s, fingerprints_of(v)).contains(e) <==> s.contains(e) && !v.contains(e),
{
    let names = fingerprints_of(v);
    let keep = |e: EntryView| !names.contains(e.fingerprint);
    lemma_filter_distinct(s, keep);
    lemma_filter_members(s, keep);
    assert forall|e: EntryView| #[trigger]
        without(s, names).contains(e) <==> s.contains(e) && !v.contains(e) by {
        assert(s.filter(keep).contains(e) <==> s.contains(e) && keep(e));
        if v.contains(e) {
            let k = choose|k: int| 0 <= k < v.len() && v[k] == e;
            assert(names[k] == e.fingerprint);
        }
        if s.contains(e) && names.contains(e.fingerprint) {
            let k = choose|k: int| 0 <= k < names.len() && names[k] == e.fingerprint;
            assert(v.contains(v[k]));
            lemma_one_of_name(s, e, v[k]);
        }
    }
}

/// Whether a cache has been brought within its limit: a cache within it is left alone;
/// else as many entries go as it takes to come down to nine tenths, the stale ones first
/// and those first that became stale first, then the active ones and those first that have
/// not been read for the longest time, at most a hundred of each.
pub open spec fn brought_within(s: Seq<EntryView>, t: Seq<EntryView>, max: i64) -> bool {
    &&& forall|e: EntryView| #[trigger] t.contains(e) ==> s.contains(e)
    &&& weight(s) <= max ==> t == s
    &&& weight(s) > max ==> 10_000_000_000_000 * weight(t) <= 9_000_000_000_001 * max || (
    all_or_hundred_went(s, t, "stale"@) && all_or_hundred_went(s, t, "active"@))
    &&& forall|e: EntryView| #[trigger]
        went(s, t, e) ==> e.status == "stale"@ || e.status == "active"@
    &&& (exists|e: EntryView| #[trigger] went(s, t, e) && e.status == "active"@)
        ==> all_or_hundred_went(s, t, "stale"@)
    &&& forall|e: EntryView, f: EntryView|
        #[trigger] went(s, t, e) && #[trigger] t.contains(f) && e.status == "active"@ && f.status
            == "active"@ ==> e.last_accessed <= f.last_accessed
    &&& forall|e: EntryView, f: EntryView|
        #[trigger] went(s, t, e) && #[trigger] t.contains(f) && e.status == "stale"@ && f.status
            == "stale"@ && e.stale_at is Some && f.stale_at is Some ==> e.stale_at->0
            <= f.stale_at->0
    &&& (exists|e: EntryView| #[trigger] went(s, t, e)) ==> exists|e: EntryView| #[trigger]
        went(s, t, e) && 10_000_000_000_000 * (weight(t) + e.file_size) > 8_999_999_999_999 * max
            - 10_000_000_000_000
    &&& forall|v: Seq<EntryView>, status: Seq<char>|
        #![trigger v.no_duplicates(), all_or_hundred_went(s, t, status)]
        v.no_duplicates() && (forall|e: EntryView| #[trigger]
            v.contains(e) ==> went(s, t, e) && e.status == status) ==> v.len() <= 100
}

/// Of entries that all are among others, there are no more.
proof fn lemma_no_more(a: Seq<EntryView>, b: Seq<EntryView>)
    requires
        a.no_duplicates(),
        forall|e: EntryView| #[trigger] a.contains(e) ==> b.contains(e),
    ensures
        a.len() <= b.len(),
{
    a.unique_seq_to_set();
    assert(a.to_set().subset_of(b.to_set())) by {
        assert forall|e: EntryView| a.to_set().contains(e) implies b.to_set().contains(e) by {
            assert(a.contains(e));
        }
    }
    vstd::set_lib::lemma_len_subset(a.to_set(), b.to_set());
    b.lemma_cardinality_of_set();
}

/// Meeting the need of a cache brings it within its limit.
proof fn lemma_brought_within(s: Seq<EntryView>, max: i64)
    requires
        distinct_entries(s),
        forall|e: EntryView| #[trigger] s.contains(e) ==> e.file_size >= 0,
        weight(s) <= i64::MAX,
        max >= 0,
    ensures
        size_sum(s) == Some(weight(s) as i64),
        brought_within(s, after_need(s, need_of(weight(s) as i64, max)), max),
        need_files(s, need_of(weight(s) as i64, max)).len() == s.len() - after_need(
            s,
            need_of(weight(s) as i64, max),
        ).len(),
        forall|f: Seq<char>| #[trigger]
            need_files(s, need_of(weight(s) as i64, max)).contains(f) <==> exists|e: EntryView|
                #[trigger] went(s, after_need(s, need_of(weight(s) as i64, max)), e)
                    && e.file_path == f,
{
    reveal_strlit("active");
    reveal_strlit("stale");
    assert("active"@.len() != "stale"@.len());
    lemma_countable(s);
    let total = weight(s) as i64;
    let need = need_of(total, max);
    let is_stale = |e: EntryView| stale(e);
    let is_active = |e: EntryView| active(e);
    let one = stale_victims(s, need);
    let rest = without(s, fingerprints_of(one));
    let left = still_needed(s, need);
    let two = active_victims(rest, left);
    let t = after_need(s, need);
    lemma_first_go(s, is_stale, |e: EntryView| stale_key(e), need);
    lemma_left(s, one);
    lemma_first_go(rest, is_active, |e: EntryView| read_key(e), left);
    lemma_left(rest, two);
    lemma_total_without(s, one);
    lemma_total_without(rest, two);
    lemma_weight(s);
    lemma_weight(t);
    assert(weight(t) == weight(s) - total_of(one) - total_of(two));
    assert forall|e: EntryView| #[trigger] t.contains(e) <==> s.contains(e) && !one.contains(e)
        && !two.contains(e) by {
        assert(rest.contains(e) <==> s.contains(e) && !one.contains(e));
    }
    assert forall|e: EntryView| #[trigger] went(s, t, e) <==> one.contains(e) || two.contains(e) by {
        if two.contains(e) {
            assert(rest.contains(e));
        }
    }
    assert forall|e: EntryView| #[trigger] one.contains(e) implies e.status == "stale"@ && went(
        s,
        t,
        e,
    ) by {}
    assert forall|e: EntryView| #[trigger] two.contains(e) implies e.status == "active"@ && went(
        s,
        t,
        e,
    ) by {}
    if total <= max {
        crate::cache::eviction_laws::law_nothing_needed(s, total, max);
    }
    crate::cache::eviction::lemma_target_is_nine_tenths(max);
    // What is gone of the stale ones is all of them, or a hundred, unless it was enough.
    if total_of(one) < need {
        if one.len() >= 100 {
            assert(one.no_duplicates());
            assert(all_or_hundred_went(s, t, "stale"@));
        } else {
            assert forall|e: EntryView| #[trigger]
                s.contains(e) && e.status == "stale"@ implies !t.contains(e) by {
                assert(is_stale(e));
                assert(one.contains(e));
            }
        }
    }
    if total_of(two) < left {
        if two.len() >= 100 {
            assert(two.no_duplicates());
            assert(all_or_hundred_went(s, t, "active"@));
        } else {
            assert forall|e: EntryView| #[trigger]
                s.contains(e) && e.status == "active"@ implies !t.contains(e) by {
                assert(!one.contains(e));
                assert(rest.contains(e));
                assert(is_active(e));
                assert(two.contains(e));
            }
        }
    }
    if total > max && weight(t) > crate::cache::eviction::target_of(max) {
        assert(total_of(two) < left);
        if total_of(one) >= need {
            assert(left <= 0);
            assert(two =~= seq![]);
            assert(sizes_of(two) =~= seq![]);
        }
    }
    if exists|e: EntryView| #[trigger] went(s, t, e) && e.status == "active"@ {
        let e = choose|e: EntryView| #[trigger] went(s, t, e) && e.status == "active"@;
        assert(two.contains(e));
        assert(left > 0);
    }
    assert forall|e: EntryView, f: EntryView|
        #[trigger] went(s, t, e) && #[trigger] t.contains(f) && e.status == "active"@ && f.status
            == "active"@ implies e.last_accessed <= f.last_accessed by {
        assert(two.contains(e));
        assert(rest.contains(f) && is_active(f) && !two.contains(f));
    }
    assert forall|e: EntryView, f: EntryView|
        #[trigger] went(s, t, e) && #[trigger] t.contains(f) && e.status == "stale"@ && f.status
            == "stale"@ && e.stale_at is Some && f.stale_at is Some implies e.stale_at->0
        <= f.stale_at->0 by {
        assert(one.contains(e));
        assert(is_stale(f) && s.contains(f) && !one.contains(f));
    }
    if exists|e: EntryView| #[trigger] went(s, t, e) {
        if two.len() > 0 {
            let e = two.last();
            assert(two.contains(e));
            assert(two =~= two.drop_last().push(e));
            lemma_total_push(two.drop_last(), e);
            assert(went(s, t, e));
            assert(weight(t) + e.file_size == weight(s) - total_of(one) - total_of(two.drop_last()));
        } else {
            let x = choose|e: EntryView| #[trigger] went(s, t, e);
            assert(one.contains(x));
            let e = one.last();
            assert(one.contains(e));
            assert(one =~= one.drop_last().push(e));
            lemma_total_push(one.drop_last(), e);
            assert(sizes_of(two) =~= seq![]);
            assert(went(s, t, e));
        }
    }
    assert forall|v: Seq<EntryView>, status: Seq<char>|
        #![trigger v.no_duplicates(), all_or_hundred_went(s, t, status)]
        v.no_duplicates() && (forall|e: EntryView| #[trigger]
            v.contains(e) ==> went(s, t, e) && e.status == status) implies v.len() <= 100 by {
        if v.len() > 0 {
            assert(v.contains(v[0]));
            if status == "stale"@ {
                assert forall|e: EntryView| #[trigger] v.contains(e) implies one.contains(e) by {}
                lemma_no_more(v, one);
            } else {
                assert(v[0].status == "active"@);
                assert forall|e: EntryView| #[trigger] v.contains(e) implies two.contains(e) by {}
                lemma_no_more(v, two);
            }
        }
    }
    assert(weight(s) > max ==> 10_000_000_000_000 * weight(t) <= 9_000_000_000_001 * max || (
    all_or_hundred_went(s, t, "stale"@) && all_or_hundred_went(s, t, "active"@)));
    assert((exists|e: EntryView| #[trigger] went(s, t, e) && e.status == "active"@)
        ==> all_or_hundred_went(s, t, "stale"@));
    assert((exists|e: EntryView| #[trigger] went(s, t, e)) ==> exists|e: EntryView| #[trigger]
        went(s, t, e) && 10_000_000_000_000 * (weight(t) + e.file_size) > 8_999_999_999_999 * max
            - 10_000_000_000_000);
    assert(brought_within(s, t, max));
    let files = need_files(s, need);
    assert forall|f: Seq<char>| #[trigger] files.contains(f) <==> exists|e: EntryView| #[trigger]
        went(s, t, e) && e.file_path == f by {
        if files.contains(f) {
            let k = choose|k: int| 0 <= k < files.len() && files[k] == f;
            if k < one.len() {
                assert(one.contains(one[k]));
                assert(went(s, t, one[k]) && one[k].file_path == f);
            } else {
                assert(two.contains(two[k - one.len()]));
                assert(went(s, t, two[k - one.len()]) && two[k - one.len()].file_path == f);
            }
        }
        if exists|e: EntryView| #[trigger] went(s, t, e) && e.file_path == f {
            let e = choose|e: EntryView| #[trigger] went(s, t, e) && e.file_path == f;
            if one.contains(e) {
                let k = choose|k: int| 0 <= k < one.len() && one[k] == e;
                assert(files[k] == f);
            } else {
                let k = choose|k: int| 0 <= k < two.len() && two[k] == e;
                assert(files[one.len() + k] == f);
            }
        }
    }
    lemma_len_without(s, one);
    lemma_len_without(rest, two);
}

/// How many are left when entries have been left out.
proof fn lemma_len_without(s: Seq<EntryView>, v: Seq<EntryView>)
    requires
        distinct_entries(s),
        v.no_duplicates(),
        forall|e: EntryView| #[trigger] v.contains(e) ==> s.contains(e),
    ensures
        without(s, fingerprints_of(v)).len() == s.len() - v.len(),
{
    let t = without(s, fingerprints_of(v));
    lemma_left(s, v);
    lemma_distinct(s);
    lemma_distinct(t);
    let both = t + v;
    assert(both.no_duplicates()) by {
        assert forall|i: int, j: int| 0 <= i < both.len() && 0 <= j < both.len() && i != j implies both[
            i] != both[j] by {
            if i < t.len() && j >= t.len() {
                assert(t.contains(both[i]) && v.contains(both[j]));
            }
            if j < t.len() && i >= t.len() {
                assert(t.contains(both[j]) && v.contains(both[i]));
            }
        }
    }
    assert forall|e: EntryView| #[trigger] both.contains(e) implies s.contains(e) by {
        let i = choose|i: int| 0 <= i < both.len() && both[i] == e;
        if i < t.len() {
            assert(t.contains(e));
        } else {
            assert(v.contains(e));
        }
    }
    assert forall|e: EntryView| #[trigger] s.contains(e) implies both.contains(e) by {
        if t.contains(e) {
            let i = choose|i: int| 0 <= i < t.len() && t[i] == e;
            assert(both[i] == e);
        } else {
            let i = choose|i: int| 0 <= i < v.len() && v[i] == e;
            assert(both[t.len() + i] == e);
        }
    }
    lemma_no_more(both, s);
    lemma_no_more(s, both);
}

/// Shrinking brings a cache within its limit, and names the files of what went and no
/// others.
pub proof fn law_shrink(
    index: Ghost<&mut CacheIndex>,
    max: i64,
    res: Result<Vec<String>, IndexError>,
)
    requires
        call_ensures(shrink, (index@, max), res),
        (*index@)@.wf(),
        forall|e: EntryView| #[trigger] (*index@)@.entries.contains(e) ==> e.file_size >= 0,
        weight((*index@)@.entries) <= i64::MAX,
        max >= 0,
    ensures
        brought_within((*index@)@.entries, (*final(index@))@.entries, max),
        (*final(index@))@.settings == (*index@)@.settings,
        res matches Ok(files) && files@.len() == (*index@)@.entries.len() - (*final(
            index@))@.entries.len() && forall|f: Seq<char>| #[trigger]
            views(files@).contains(f) <==> exists|e: EntryView| #[trigger]
                went((*index@)@.entries, (*final(index@))@.entries, e) && e.file_path == f,
{
    lemma_brought_within((*index@)@.entries, max);
    if let Ok(files) = res {
        assert(views(files@).len() == files@.len());
    }
}

/// Sweeping changes the status, the time and the file of an entry at most, and nothing of
/// an entry that is not named.
proof fn lemma_swept(s: Seq<EntryView>, renamed: Seq<(Seq<char>, Seq<char>)>, now: i64)
    ensures
        swept(s, renamed, now).len() == s.len(),
        forall|i: int|
            0 <= i < s.len() ==> (#[trigger] swept(s, renamed, now)[i]).fingerprint
                == s[i].fingerprint && swept(s, renamed, now)[i].file_size == s[i].file_size,
        forall|i: int|
            0 <= i < s.len() && (forall|k: int|
                0 <= k < renamed.len() ==> (#[trigger] renamed[k]).0 != s[i].fingerprint)
                ==> #[trigger] swept(s, renamed, now)[i] == s[i],
    decreases renamed.len(),
{
    if renamed.len() > 0 {
        lemma_swept(s, renamed.drop_last(), now);
        assert forall|i: int|
            0 <= i < s.len() && (forall|k: int|
                0 <= k < renamed.len() ==> (#[trigger] renamed[k]).0 != s[i].fingerprint) implies (
        #[trigger] swept(s, renamed, now)[i]) == s[i] by {
            assert forall|k: int| 0 <= k < renamed.drop_last().len() implies (
            #[trigger] renamed.drop_last()[k]).0 != s[i].fingerprint by {
                assert(renamed[k].0 != s[i].fingerprint);
            }
            assert(renamed[renamed.len() - 1].0 != s[i].fingerprint);
        }
    }
}

/// Entries with the same sizes have as many bytes.
proof fn lemma_weight_same(s: Seq<EntryView>, t: Seq<EntryView>)
    requires
        s.len() == t.len(),
        forall|i: int| 0 <= i < s.len() ==> (#[trigger] s[i]).file_size == t[i].file_size,
    ensures
        weight(s) == weight(t),
    decreases s.len(),
{
    if s.len() > 0 {
        assert(s[s.len() - 1].file_size == t[s.len() - 1].file_size);
        assert forall|i: int| 0 <= i < s.drop_last().len() implies (
        #[trigger] s.drop_last()[i]).file_size == t.drop_last()[i].file_size by {
            assert(s[i].file_size == t[i].file_size);
        }
        lemma_weight_same(s.drop_last(), t.drop_last());
    }
}

/// Whether an entry has been stale for more than some days of 86400 seconds.
pub open spec fn overdue(e: EntryView, retention_days: u32, now: i64) -> bool {
    e.status == "stale"@ && (e.stale_at matches Some(at) && now - at > retention_days * 86400)
}

/// The entries that became stale before the cutoff are those that are overdue.
proof fn lemma_overdue(s: Seq<EntryView>, retention_days: u32, now: i64)
    requires
        now >= 0,
    ensures
        forall|e: EntryView| #[trigger]
            stale_before(s, cutoff_of(now, retention_days) as i64).contains(e) <==> s.contains(e)
                && overdue(e, retention_days, now),
{
    let cutoff = cutoff_of(now, retention_days) as i64;
    let p = |e: EntryView| stale(e) && e.stale_at is Some && e.stale_at->0 < cutoff;
    let order = by_key(|e: EntryView| stale_key(e));
    assert(is_total_preorder(order));
    lemma_filter_members(s, p);
    lemma_in_order_members(s.filter(p), order);
    assert forall|e: EntryView| #[trigger]
        stale_before(s, cutoff).contains(e) <==> s.contains(e) && overdue(
            e,
            retention_days,
            now,
        ) by {
        assert(s.filter(p).contains(e) <==> s.contains(e) && p(e));
    }
}

/// What is left after retention is what is not overdue, if no two entries have the same
/// fingerprint.
proof fn lemma_retained(s: Seq<EntryView>, retention_days: u32, now: i64)
    requires
        now >= 0,
        forall|i: int, j: int|
            0 <= i < j < s.len() ==> (#[trigger] s[i]).fingerprint != (#[trigger] s[j]).fingerprint,
    ensures
        after_retention(s, cutoff_of(now, retention_days) as i64) == s.filter(
            |e: EntryView| !overdue(e, retention_days, now),
        ),
{
    let gone = stale_before(s, cutoff_of(now, retention_days) as i64);
    let names = fingerprints_of(gone);
    let keep = |e: EntryView| !names.contains(e.fingerprint);
    let stays = |e: EntryView| !overdue(e, retention_days, now);
    lemma_overdue(s, retention_days, now);
    assert forall|i: int| 0 <= i < s.len() implies keep(#[trigger] s[i]) == stays(s[i]) by {
        assert(s.contains(s[i]));
        if overdue(s[i], retention_days, now) {
            assert(gone.contains(s[i]));
            let k = choose|k: int| 0 <= k < gone.len() && gone[k] == s[i];
            assert(names[k] == s[i].fingerprint);
        }
        if names.contains(s[i].fingerprint) {
            let k = choose|k: int| 0 <= k < names.len() && names[k] == s[i].fingerprint;
            assert(gone.contains(gone[k]));
            let j = choose|j: int| 0 <= j < s.len() && s[j] == gone[k];
            if i < j {
                assert(s[i].fingerprint != s[j].fingerprint);
            }
            if j < i {
                assert(s[j].fingerprint != s[i].fingerprint);
            }
        }
    }
    lemma_filter_same(s, keep, stays);
}

/// An entry that was stale before a cycle, and had been so for more than the retention
/// days of 86400 seconds each, is gone after it, and its file is among those to delete. An
/// entry that was not is there as it was, if the files of all entries are within the limit.
/// Entries whose files were renamed for the cycle are left out of this.
pub proof fn law_retention(
    index: Ghost<&mut CacheIndex>,
    renamed: &Vec<(String, String)>,
    retention_days: u32,
    max_cache_size: u64,
    now: i64,
    res: Eviction,
    e: EntryView,
)
    requires
        call_ensures(
            run_eviction_cycle,
            (index@, renamed, retention_days, max_cache_size, now),
            res,
        ),
        (*index@)@.wf(),
        now >= 0,
        (*index@)@.entries.contains(e),
        forall|k: int| 0 <= k < renamed@.len() ==> (#[trigger] renamed@[k]).0@ != e.fingerprint,
        forall|x: EntryView| #[trigger] (*index@)@.entries.contains(x) ==> x.file_size >= 0,
        weight((*index@)@.entries) <= i64::MAX,
        max_cache_size <= i64::MAX,
    ensures
        ({
            let long_stale = e.status == "stale"@ && e.stale_at is Some && now - e.stale_at->0
                > retention_days * 86400;
            &&& long_stale ==> forall|i: int|
                0 <= i < (*final(index@))@.entries.len() ==> (#[trigger] (*final(
                    index@))@.entries[i]).fingerprint != e.fingerprint
            &&& long_stale ==> views(res.files@).contains(e.file_path)
            &&& !long_stale && weight((*index@)@.entries) <= max_cache_size ==> (*final(
                index@))@.entries.contains(e)
        }),
{
    let s = (*index@)@.entries;
    let t = (*final(index@))@.entries;
    let names = pair_views(renamed@);
    let m = swept(s, names, now);
    let cutoff = cutoff_of(now, retention_days) as i64;
    let rows = after_retention(m, cutoff);
    lemma_swept(s, names, now);
    let n = choose|n: int| 0 <= n < s.len() && s[n] == e;
    assert forall|k: int| 0 <= k < names.len() implies (#[trigger] names[k]).0 != e.fingerprint by {
        assert(renamed@[k].0@ != e.fingerprint);
    }
    assert(m[n] == e);
    assert(m.contains(e));
    assert forall|i: int, j: int| 0 <= i < j < m.len() implies (#[trigger] m[i]).fingerprint != (
    #[trigger] m[j]).fingerprint by {
        assert(s[i].fingerprint != s[j].fingerprint);
    }
    lemma_overdue(m, retention_days, now);
    lemma_retained(m, retention_days, now);
    let stays = |x: EntryView| !overdue(x, retention_days, now);
    lemma_filter_members(m, stays);
    assert forall|x: EntryView| #[trigger] m.contains(x) implies x.file_size >= 0 by {
        let i = choose|i: int| 0 <= i < m.len() && m[i] == x;
        assert(s.contains(s[i]));
    }
    lemma_weight_same(m, s);
    lemma_weight_filter(m, stays);
    assert forall|x: EntryView| #[trigger] rows.contains(x) implies x.file_size >= 0 by {
        assert(m.contains(x));
    }
    lemma_countable(rows);
    let need = need_of(weight(rows) as i64, max_cache_size as i64);
    assert(t == after_need(rows, need));
    if overdue(e, retention_days, now) {
        let old_ones = stale_before(m, cutoff);
        assert(old_ones.contains(e));
        let k = choose|k: int| 0 <= k < old_ones.len() && old_ones[k] == e;
        let files = files_of(old_ones);
        assert(files[k] == e.file_path);
        assert(views(res.files@) == files + need_files(rows, need));
        assert(views(res.files@)[k] == e.file_path);
        lemma_kept_after_need(rows, need);
        assert forall|i: int| 0 <= i < t.len() implies (#[trigger] t[i]).fingerprint
            != e.fingerprint by {
            assert(t.contains(t[i]));
            assert(rows.contains(t[i]));
            assert(m.contains(t[i]));
            let j = choose|j: int| 0 <= j < m.len() && m[j] == t[i];
            assert(stays(m[j]));
            if j < n {
                assert(m[j].fingerprint != m[n].fingerprint);
            }
            if n < j {
                assert(m[n].fingerprint != m[j].fingerprint);
            }
        }
    } else if weight(s) <= max_cache_size {
        law_nothing_needed(rows, weight(rows) as i64, max_cache_size as i64);
        assert(rows.contains(e));
    }
}

/// What is left when a need has been met was there before.
proof fn lemma_kept_after_need(s: Seq<EntryView>, need: int)
    ensures
        forall|e: EntryView| #[trigger] after_need(s, need).contains(e) ==> s.contains(e),
{
    let one = fingerprints_of(stale_victims(s, need));
    let rest = without(s, one);
    let two = fingerprints_of(active_victims(rest, still_needed(s, need)));
    lemma_filter_members(s, |e: EntryView| !one.contains(e.fingerprint));
    lemma_filter_members(rest, |e: EntryView| !two.contains(e.fingerprint));
    assert forall|e: EntryView| #[trigger] after_need(s, need).contains(e) implies s.contains(e) by {
        assert(rest.contains(e));
    }
}

/// A cycle without renamed files deletes what has been stale for more than the retention
/// days, and brings what is left within the limit. The files to delete are those of what
/// went, and no others.
pub proof fn law_cycle(
    index: Ghost<&mut CacheIndex>,
    renamed: &Vec<(String, String)>,
    retention_days: u32,
    max_cache_size: u64,
    now: i64,
    res: Eviction,
)
    requires
        call_ensures(
            run_eviction_cycle,
            (index@, renamed, retention_days, max_cache_size, now),
            res,
        ),
        (*index@)@.wf(),
        now >= 0,
        renamed@.len() == 0,
        forall|x: EntryView| #[trigger] (*index@)@.entries.contains(x) ==> x.file_size >= 0,
        weight((*index@)@.entries) <= i64::MAX,
        max_cache_size <= i64::MAX,
    ensures
        brought_within(
            (*index@)@.entries.filter(
                |e: EntryView|
                    !(e.status == "stale"@ && e.stale_at is Some && now - e.stale_at->0
                        > retention_days * 86400),
            ),
            (*final(index@))@.entries,
            max_cache_size as i64,
        ),
        res.error is None,
        forall|f: Seq<char>| #[trigger]
            views(res.files@).contains(f) <==> exists|e: EntryView| #[trigger]
                went((*index@)@.entries, (*final(index@))@.entries, e) && e.file_path == f,
{
    let s = (*index@)@.entries;
    let t = (*final(index@))@.entries;
    let cutoff = cutoff_of(now, retention_days) as i64;
    let rows = after_retention(s, cutoff);
    assert(pair_views(renamed@) =~= seq![]);
    assert(swept(s, pair_views(renamed@), now) == s);
    lemma_overdue(s, retention_days, now);
    lemma_retained(s, retention_days, now);
    let stays = |x: EntryView| !overdue(x, retention_days, now);
    let same = |e: EntryView|
        !(e.status == "stale"@ && e.stale_at is Some && now - e.stale_at->0 > retention_days
            * 86400);
    lemma_filter_same(s, stays, same);
    lemma_filter_members(s, stays);
    lemma_filter_distinct(s, stays);
    lemma_weight_filter(s, stays);
    assert forall|x: EntryView| #[trigger] rows.contains(x) implies x.file_size >= 0 by {
        assert(s.contains(x));
    }
    lemma_brought_within(rows, max_cache_size as i64);
    let need = need_of(weight(rows) as i64, max_cache_size as i64);
    assert(t == after_need(rows, need));
    let old_ones = stale_before(s, cutoff);
    let first = files_of(old_ones);
    let files = first + need_files(rows, need);
    assert(views(res.files@) == files);
    lemma_kept_after_need(rows, need);
    assert forall|f: Seq<char>| #[trigger] files.contains(f) <==> exists|e: EntryView| #[trigger]
        went(s, t, e) && e.file_path == f by {
        if files.contains(f) {
            let k = choose|k: int| 0 <= k < files.len() && files[k] == f;
            if k < first.len() {
                let e = old_ones[k];
                assert(old_ones.contains(e));
                assert(!rows.contains(e));
                assert(went(s, t, e) && e.file_path == f);
            } else {
                assert(need_files(rows, need)[k - first.len()] == f);
                assert(need_files(rows, need).contains(f));
                let e = choose|e: EntryView| #[trigger] went(rows, t, e) && e.file_path == f;
                assert(rows.contains(e));
                assert(went(s, t, e));
            }
        }
        if exists|e: EntryView| #[trigger] went(s, t, e) && e.file_path == f {
            let e = choose|e: EntryView| #[trigger] went(s, t, e) && e.file_path == f;
            if rows.contains(e) {
                assert(went(rows, t, e));
                assert(need_files(rows, need).contains(f));
                let k = choose|k: int|
                    0 <= k < need_files(rows, need).len() && need_files(rows, need)[k] == f;
                assert(files[first.len() + k] == f);
            } else {
                assert(old_ones.contains(e));
                let k = choose|k: int| 0 <= k < old_ones.len() && old_ones[k] == e;
                assert(files[k] == f);
            }
        }
    }
}

/// An entry that ran out and whose file was renamed is stale from now on and in its new
/// file, if nothing else has a file of that name; the others stay as they are.
pub proof fn law_sweep(
    index: Ghost<&mut CacheIndex>,
    renamed: &Vec<(String, String)>,
    now: i64,
    i: int,
)
    requires
        call_ensures(sweep, (index@, renamed, now), ()),
        0 <= i < (*index@)@.entries.len(),
    ensures
        (*final(index@))@.entries.len() == (*index@)@.entries.len(),
        (forall|k: int|
            0 <= k < renamed@.len() ==> (#[trigger] renamed@[k]).0@
                != (*index@)@.entries[i].fingerprint) ==> (*final(index@))@.entries[i]
            == (*index@)@.entries[i],
        renamed@.len() == 1 && renamed@[0].0@ == (*index@)@.entries[i].fingerprint && (forall|j: int|
            0 <= j < (*index@)@.entries.len() ==> (#[trigger] (*index@)@.entries[j]).file_path
                != renamed@[0].1@) ==> (*final(index@))@.entries[i] == (EntryView {
            status: "stale"@,
            stale_at: Some(now),
            file_path: renamed@[0].1@,
            ..(*index@)@.entries[i]
        }),
{
    let s = (*index@)@.entries;
    let names = pair_views(renamed@);
    lemma_swept(s, names, now);
    if forall|k: int| 0 <= k < renamed@.len() ==> (#[trigger] renamed@[k]).0@ != s[i].fingerprint {
        assert forall|k: int| 0 <= k < names.len() implies (#[trigger] names[k]).0
            != s[i].fingerprint by {
            assert(renamed@[k].0@ != s[i].fingerprint);
        }
    }
    if renamed@.len() == 1 {
        reveal_with_fuel(swept, 2);
        assert(names.drop_last() =~= seq![]);
        assert(names.last() == (renamed@[0].0@, renamed@[0].1@));
    }
}

} // verus!
