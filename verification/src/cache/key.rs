//! Cache keys: the fingerprint of a request, and the request headers that a response
//! varies on.
#[allow(unused_imports)]
use crate::order::{
    in_order, is_total_preorder, lemma_in_order, lemma_order_is_unique, lemma_put_at,
    lemma_text_leq_antisymmetric, lemma_text_leq_total, lemma_text_leq_transitive, text_before,
    text_leq,
};
#[allow(unused_imports)]
use crate::outside::digest::{hex_of, hex_text, is_hex, lemma_hex_text, sha256, sha256_of};
#[allow(unused_imports)]
use crate::text::{
    lemma_same_letters, lower, pair_views, pieces, same, same_letters, split, to_lower, trim, trimmed,
    views,
};
use vstd::prelude::*;
#[allow(unused_imports)]
use vstd::utf8::{encode_utf8, is_ascii_chars};

verus! {

/// A name and a value.
pub type Pair = (Seq<char>, Seq<char>);

/// A list of borrowed names and values as character sequences.
pub open spec fn str_pairs(v: Seq<(&str, &str)>) -> Seq<Pair> {
    v.map_values(|p: (&str, &str)| (p.0@, p.1@))
}

/// The pairs with their names in lower case.
pub open spec fn lower_names(pairs: Seq<Pair>) -> Seq<Pair> {
    pairs.map_values(|p: Pair| (lower(p.0), p.1))
}

/// The order of pairs by name.
pub open spec fn by_name() -> spec_fn(Pair, Pair) -> bool {
    |a: Pair, b: Pair| text_leq(a.0, b.0)
}

/// What the pairs add to the bytes that are hashed: for each a zero byte, the name,
/// an equals sign and the value.
pub open spec fn pair_bytes(pairs: Seq<Pair>) -> Seq<u8>
    decreases pairs.len(),
{
    if pairs.len() == 0 {
        seq![]
    } else {
        pair_bytes(pairs.drop_last()) + seq![0u8] + encode_utf8(pairs.last().0) + seq![61u8]
            + encode_utf8(pairs.last().1)
    }
}

/// The bytes that are hashed: the method, a zero byte, the URL, and the pairs in the
/// order of their lower-case names.
pub open spec fn fingerprint_bytes(
    method: Seq<char>,
    url: Seq<char>,
    vary: Seq<Pair>,
) -> Seq<u8> {
    encode_utf8(method) + seq![0u8] + encode_utf8(url) + pair_bytes(
        in_order(lower_names(vary), by_name()),
    )
}

/// The cache fingerprint of a request.
pub open spec fn fingerprint(method: Seq<char>, url: Seq<char>, vary: Seq<Pair>) -> Seq<char> {
    hex_text(sha256(fingerprint_bytes(method, url, vary)))
}

/// Appends the UTF-8 bytes of a text.
fn add_text(bytes: &mut Vec<u8>, s: &str)
    ensures
        final(bytes)@ == old(bytes)@ + encode_utf8(s@),
{
    let tail = s.as_bytes();
    let ghost start = bytes@;
    let mut i: usize = 0;
    while i < tail.len()
        invariant
            i <= tail@.len(),
            tail@ == encode_utf8(s@),
            bytes@ == start + tail@.subrange(0, i as int),
        decreases tail@.len() - i,
    {
        bytes.push(tail[i]);
        i += 1;
        assert(bytes@ =~= start + tail@.subrange(0, i as int));
    }
    assert(tail@.subrange(0, i as int) =~= tail@);
}

/// The pairs with lower-case names, in the order of those names.
fn sorted_by_name(vary_values: &[(&str, &str)]) -> (res: Vec<(String, String)>)
    ensures
        pair_views(res@) == in_order(lower_names(str_pairs(vary_values@)), by_name()),
{
    let mut sorted: Vec<(String, String)> = Vec::new();
    let ghost all = lower_names(str_pairs(vary_values@));
    assert(pair_views(sorted@) =~= in_order(all.subrange(0, 0), by_name()));
    let mut i: usize = 0;
    while i < vary_values.len()
        invariant
            i <= vary_values@.len(),
            all == lower_names(str_pairs(vary_values@)),
            pair_views(sorted@) == in_order(all.subrange(0, i as int), by_name()),
        decreases vary_values@.len() - i,
    {
        let name = to_lower(vary_values[i].0);
        let value = vary_values[i].1.to_owned();
        let ghost before = pair_views(sorted@);
        let ghost x = (name@, value@);
        let mut at: usize = sorted.len();
        while at > 0 && !text_before(sorted[at - 1].0.as_str(), name.as_str())
            invariant
                at <= sorted@.len(),
                before == pair_views(sorted@),
                x == (name@, value@),
                forall|k: int| at <= k < before.len() ==> !by_name()(#[trigger] before[k], x),
            decreases at,
        {
            at -= 1;
            assert(before[at as int] == (sorted@[at as int].0@, sorted@[at as int].1@));
        }
        proof {
            if at > 0 {
                assert(before[at - 1] == (sorted@[at - 1].0@, sorted@[at - 1].1@));
            }
            lemma_put_at(before, x, by_name(), at as int);
            assert(all.subrange(0, i + 1).drop_last() =~= all.subrange(0, i as int));
            assert(all[i as int] == x);
        }
        sorted.insert(at, (name, value));
        assert(pair_views(sorted@) =~= before.insert(at as int, x));
        i += 1;
    }
    assert(all.subrange(0, i as int) =~= all);
    sorted
}

/// The cache fingerprint of a request, from its method, its URL and the headers that
/// the response varies on: a SHA-256 digest in hexadecimal.
pub fn compute_fingerprint(method: &str, url: &str, vary_values: &[(&str, &str)]) -> (res: String)
    ensures
        res@ == fingerprint(method@, url@, str_pairs(vary_values@)),
        res@.len() == 64,
        forall|i: int| 0 <= i < res@.len() ==> is_hex(#[trigger] res@[i]),
{
    let mut bytes: Vec<u8> = Vec::new();
    add_text(&mut bytes, method);
    bytes.push(0);
    add_text(&mut bytes, url);
    assert(bytes@ =~= encode_utf8(method@) + seq![0u8] + encode_utf8(url@));
    let ghost start = bytes@;
    let sorted = sorted_by_name(vary_values);
    let ghost pairs = pair_views(sorted@);
    assert(bytes@ =~= start + pair_bytes(pairs.subrange(0, 0)));
    let mut i: usize = 0;
    while i < sorted.len()
        invariant
            i <= sorted@.len(),
            pairs == pair_views(sorted@),
            bytes@ == start + pair_bytes(pairs.subrange(0, i as int)),
        decreases sorted@.len() - i,
    {
        bytes.push(0);
        add_text(&mut bytes, sorted[i].0.as_str());
        bytes.push(61);
        add_text(&mut bytes, sorted[i].1.as_str());
        proof {
            let next = pairs.subrange(0, i + 1);
            assert(next.drop_last() =~= pairs.subrange(0, i as int));
            assert(next.last() == (sorted@[i as int].0@, sorted@[i as int].1@));
            assert(bytes@ =~= start + pair_bytes(next));
        }
        i += 1;
    }
    assert(pairs.subrange(0, i as int) =~= pairs);
    let digest = sha256_of(&bytes);
    proof {
        lemma_hex_text(digest@);
    }
    hex_of(&digest)
}

/// The value of the first header with this lower-case name, or nothing.
pub open spec fn header_value(headers: Seq<Pair>, name: Seq<char>) -> Seq<char>
    decreases headers.len(),
{
    if headers.len() == 0 {
        seq![]
    } else if lower(headers[0].0) == name {
        headers[0].1
    } else {
        header_value(headers.subrange(1, headers.len() as int), name)
    }
}

/// The names in a `Vary` header, in lower case, with the request's values for them;
/// none for `*`.
pub open spec fn vary_pairs(vary: Option<Seq<char>>, headers: Seq<Pair>) -> Seq<Pair> {
    match vary {
        None => seq![],
        Some(v) => if v == seq!['*'] {
            seq![]
        } else {
            pieces(v, ',').map_values(
                |p: Seq<char>| (lower(trimmed(p)), header_value(headers, lower(trimmed(p)))),
            )
        },
    }
}

/// The value of the first request header with this lower-case name, or nothing.
fn value_for(name: &str, request_headers: &[(String, String)]) -> (res: String)
    ensures
        res@ == header_value(pair_views(request_headers@), name@),
{
    let ghost all = pair_views(request_headers@);
    assert(all.subrange(0, all.len() as int) =~= all);
    let mut i: usize = 0;
    while i < request_headers.len()
        invariant
            i <= request_headers@.len(),
            all == pair_views(request_headers@),
            header_value(all, name@) == header_value(
                all.subrange(i as int, all.len() as int),
                name@,
            ),
        decreases request_headers@.len() - i,
    {
        proof {
            let rest = all.subrange(i as int, all.len() as int);
            assert(rest[0] == (request_headers@[i as int].0@, request_headers@[i as int].1@));
            assert(rest.subrange(1, rest.len() as int) =~= all.subrange(
                i + 1,
                all.len() as int,
            ));
        }
        if same(to_lower(request_headers[i].0.as_str()).as_str(), name) {
            return request_headers[i].1.clone();
        }
        i += 1;
    }
    assert(all.subrange(i as int, all.len() as int).len() == 0);
    assert(header_value(all, name@) =~= seq![]);
    String::new()
}

/// The names in a response's `Vary` header and the request's values for them.
pub fn extract_vary_values(
    vary_header: Option<&str>,
    request_headers: &[(String, String)],
) -> (res: Vec<(String, String)>)
    ensures
        pair_views(res@) == vary_pairs(
            match vary_header {
                Some(v) => Some(v@),
                None => None,
            },
            pair_views(request_headers@),
        ),
{
    let mut res: Vec<(String, String)> = Vec::new();
    if let Some(vary) = vary_header {
        proof {
            reveal_strlit("*");
            assert("*"@ =~= seq!['*']);
        }
        if !same(vary, "*") {
            let names = split(vary, ',');
            let ghost parts = views(names@);
            let ghost want = vary_pairs(Some(vary@), pair_views(request_headers@));
            let mut i: usize = 0;
            while i < names.len()
                invariant
                    i <= names@.len(),
                    parts == views(names@),
                    parts == pieces(vary@, ','),
                    vary@ != seq!['*'],
                    want == vary_pairs(Some(vary@), pair_views(request_headers@)),
                    pair_views(res@) == want.subrange(0, i as int),
                decreases names@.len() - i,
            {
                let name = to_lower(trim(names[i].as_str()).as_str());
                let value = value_for(name.as_str(), request_headers);
                let ghost pair = (name@, value@);
                let ghost done = pair_views(res@);
                assert(parts[i as int] == names@[i as int]@);
                assert(want[i as int] == pair);
                res.push((name, value));
                i += 1;
                assert(pair_views(res@) =~= done.push(pair));
                assert(pair_views(res@) =~= want.subrange(0, i as int));
            }
            assert(want.subrange(0, i as int) =~= want);
            return res;
        }
    }
    assert(pair_views(res@) =~= seq![]);
    res
}

/// The order by name compares any two pairs, and is transitive.
pub proof fn lemma_by_name()
    ensures
        is_total_preorder(by_name()),
{
    assert forall|a: Pair, b: Pair| #[trigger] by_name()(a, b) || by_name()(b, a) by {
        lemma_text_leq_total(a.0, b.0);
    }
    assert forall|a: Pair, b: Pair, c: Pair| #[trigger]
        by_name()(a, b) && #[trigger] by_name()(b, c) implies by_name()(a, c) by {
        lemma_text_leq_transitive(a.0, b.0, c.0);
    }
}

/// Lower-casing the names of the same pairs gives the same pairs.
proof fn lemma_lower_same(one: Seq<Pair>, other: Seq<Pair>)
    requires
        one.to_multiset() == other.to_multiset(),
    ensures
        lower_names(one).to_multiset() == lower_names(other).to_multiset(),
    decreases one.len(),
{
    broadcast use vstd::seq_lib::group_to_multiset_ensures;

    one.to_multiset_ensures();
    other.to_multiset_ensures();
    if one.len() == 0 {
        assert(lower_names(one) =~= lower_names(other));
    } else {
        let x = one.last();
        let rest = one.drop_last();
        assert(one =~= rest.push(x));
        assert(one.to_multiset() =~= rest.to_multiset().insert(x));
        assert(other.to_multiset().count(x) > 0);
        assert(other.contains(x));
        let k = choose|k: int| 0 <= k < other.len() && other[k] == x;
        let kept = other.remove(k);
        assert(kept.to_multiset() =~= rest.to_multiset());
        lemma_lower_same(rest, kept);
        let y = (lower(x.0), x.1);
        assert(lower_names(one) =~= lower_names(rest).push(y));
        assert(lower_names(kept) =~= lower_names(other).remove(k));
        lower_names(other).to_multiset_ensures();
        assert(lower_names(other)[k] == y);
        assert(lower_names(other).contains(y));
        assert(lower_names(other).to_multiset() =~= lower_names(kept).to_multiset().insert(y));
    }
}

/// If the names of some pairs are distinct, they are so in any order of the pairs.
proof fn lemma_distinct_kept(a: Seq<Pair>, b: Seq<Pair>)
    requires
        a.to_multiset() == b.to_multiset(),
        forall|i: int, j: int| 0 <= i < j < a.len() ==> (#[trigger] a[i]).0 != (#[trigger] a[j]).0,
    ensures
        forall|i: int, j: int| 0 <= i < j < b.len() ==> (#[trigger] b[i]).0 != (#[trigger] b[j]).0,
{
    a.to_multiset_ensures();
    b.to_multiset_ensures();
    a.lemma_multiset_has_no_duplicates();
    b.lemma_multiset_has_no_duplicates_conv();
    assert forall|i: int, j: int| 0 <= i < j < b.len() implies (#[trigger] b[i]).0 != (
    #[trigger] b[j]).0 by {
        assert(b.contains(b[i]) && b.contains(b[j]));
        assert(b.to_multiset().count(b[i]) > 0 && b.to_multiset().count(b[j]) > 0);
        assert(a.contains(b[i]) && a.contains(b[j]));
        let p = choose|p: int| 0 <= p < a.len() && a[p] == b[i];
        let q = choose|q: int| 0 <= q < a.len() && a[q] == b[j];
        assert(p != q);
    }
}

/// The fingerprint does not depend on the order in which the headers that a response
/// varies on are given, nor on the case of their names, as long as no two of them have
/// the same lower-case name.
pub proof fn law_fingerprint_order(
    method: Seq<char>,
    url: Seq<char>,
    one: Seq<Pair>,
    other: Seq<Pair>,
)
    requires
        lower_names(one).to_multiset() == lower_names(other).to_multiset(),
        forall|i: int, j: int|
            0 <= i < j < one.len() ==> lower((#[trigger] one[i]).0) != lower(
                (#[trigger] one[j]).0,
            ),
    ensures
        fingerprint(method, url, one) == fingerprint(method, url, other),
{
    let leq = by_name();
    lemma_by_name();
    let a = lower_names(one);
    let b = lower_names(other);
    lemma_in_order(a, leq);
    lemma_in_order(b, leq);
    let x = in_order(a, leq);
    let y = in_order(b, leq);
    assert(a.to_multiset() == b.to_multiset());
    lemma_distinct_kept(a, x);
    assert forall|i: int, j: int| 0 <= i < x.len() && 0 <= j < x.len() && i != j implies !(
    #[trigger] leq(x[i], x[j]) && leq(x[j], x[i])) by {
        if leq(x[i], x[j]) && leq(x[j], x[i]) {
            lemma_text_leq_antisymmetric(x[i].0, x[j].0);
        }
    }
    lemma_order_is_unique(x, y, leq);
}

/// The fingerprint stays as it is when ASCII names of headers that a response varies on
/// are written in another case and the headers are then put into another order, as long
/// as no two of them have the same lower-case name.
pub proof fn law_fingerprint_case(
    method: Seq<char>,
    url: Seq<char>,
    one: Seq<Pair>,
    written: Seq<Pair>,
    other: Seq<Pair>,
)
    requires
        written.len() == one.len(),
        forall|i: int|
            0 <= i < one.len() ==> is_ascii_chars((#[trigger] one[i]).0) && same_letters(
                one[i].0,
                written[i].0,
            ) && one[i].1 == written[i].1,
        written.to_multiset() == other.to_multiset(),
        forall|i: int, j: int|
            0 <= i < j < one.len() ==> lower((#[trigger] one[i]).0) != lower(
                (#[trigger] one[j]).0,
            ),
    ensures
        fingerprint(method, url, one) == fingerprint(method, url, other),
{
    assert forall|i: int| 0 <= i < one.len() implies lower_names(one)[i] == lower_names(
        written,
    )[i] by {
        assert(one[i].1 == written[i].1);
        lemma_same_letters(one[i].0, written[i].0);
    }
    assert(lower_names(one) =~= lower_names(written));
    lemma_lower_same(written, other);
    law_fingerprint_order(method, url, one, other);
}

} // verus!
