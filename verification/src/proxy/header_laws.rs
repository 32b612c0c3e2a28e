//! What holds of the headers and bodies that are kept.
#[allow(unused_imports)]
use crate::cache::policy::CachedPolicy;
#[allow(unused_imports)]
use crate::outside::codec::{gunzipped, inflated, unbrotlied};
#[allow(unused_imports)]
use crate::outside::header::{header_name_ok, header_value_ok, text_from, text_in};
#[allow(unused_imports)]
use crate::outside::json::{
    all_strings, field_seq, field_views, json_as_str, json_map, json_object, json_string, raw_mark,
};
#[allow(unused_imports)]
use crate::order::{in_order, lemma_in_order_members};
#[allow(unused_imports)]
use crate::proxy::headers::{
    build_cache_policy_bytes, decompress_body, extract_headers_json, header_texts, header_views,
    headers_from_json, lemma_kept_is_sent, map_of, merge_304_headers, merged, response_headers,
    sendable, sendable_headers, strip_encoding_headers, written,
};
#[allow(unused_imports)]
use crate::text::{lower, pair_views};
use vstd::prelude::*;
#[allow(unused_imports)]
use vstd::utf8::encode_utf8;

verus! {

/// The bytes of a text read as the text.
pub proof fn law_text_from(data: &Vec<u8>, text: Seq<char>, res: String)
    requires
        call_ensures(text_from, (data,), res),
        data@ == encode_utf8(text),
    ensures
        res@ == text,
{
    vstd::utf8::encode_utf8_valid_utf8(text);
    vstd::utf8::encode_utf8_decode_utf8(text);
}

/// Whether a header is the last with its name, by what the names are taken as.
pub open spec fn is_last(
    headers: Seq<(Seq<char>, Seq<u8>)>,
    taken_as: spec_fn(Seq<char>) -> Seq<char>,
    i: int,
) -> bool {
    0 <= i < headers.len() && forall|j: int|
        i < j < headers.len() ==> taken_as((#[trigger] headers[j]).0) != taken_as(headers[i].0)
}

/// The last header with a name, without the last of all headers.
proof fn lemma_is_last(
    headers: Seq<(Seq<char>, Seq<u8>)>,
    taken_as: spec_fn(Seq<char>) -> Seq<char>,
    i: int,
)
    requires
        is_last(headers, taken_as, i),
        i < headers.len() - 1,
    ensures
        is_last(headers.drop_last(), taken_as, i),
        headers.drop_last()[i] == headers[i],
        taken_as(headers.last().0) != taken_as(headers[i].0),
{
    let t = headers.drop_last();
    assert forall|j: int| i < j < t.len() implies taken_as((#[trigger] t[j]).0) != taken_as(
        t[i].0,
    ) by {
        assert(t[j] == headers[j]);
    }
    assert(headers[headers.len() - 1] == headers.last());
}

/// The last header with a name counts.
proof fn lemma_last_text(headers: Seq<(Seq<char>, Seq<u8>)>, i: int)
    requires
        is_last(headers, |n: Seq<char>| n, i),
    ensures
        header_texts(headers)[headers[i].0] == text_in(headers[i].1),
    decreases headers.len(),
{
    if i < headers.len() - 1 {
        lemma_is_last(headers, |n: Seq<char>| n, i);
        lemma_last_text(headers.drop_last(), i);
    }
}

/// The names of headers are those that they have.
proof fn lemma_text_names(headers: Seq<(Seq<char>, Seq<u8>)>, name: Seq<char>)
    ensures
        header_texts(headers).contains_key(name) <==> headers.map_values(
            |h: (Seq<char>, Seq<u8>)| h.0,
        ).contains(name),
    decreases headers.len(),
{
    let names = headers.map_values(|h: (Seq<char>, Seq<u8>)| h.0);
    if headers.len() > 0 {
        let t = headers.drop_last();
        lemma_text_names(t, name);
        let rest = t.map_values(|h: (Seq<char>, Seq<u8>)| h.0);
        assert(names =~= rest.push(headers.last().0));
        lemma_push_contains(rest, headers.last().0, name);
    }
}

/// What is there once one more has come.
proof fn lemma_push_contains(s: Seq<Seq<char>>, x: Seq<char>, y: Seq<char>)
    ensures
        s.push(x).contains(y) <==> s.contains(y) || x == y,
{
    let t = s.push(x);
    if s.contains(y) {
        let k = choose|k: int| 0 <= k < s.len() && s[k] == y;
        assert(t[k] == y);
    }
    if x == y {
        assert(t[s.len() as int] == y);
    }
    if t.contains(y) && x != y {
        let k = choose|k: int| 0 <= k < t.len() && t[k] == y;
        assert(s[k] == y);
    }
}

/// All headers of a response are kept, each under its name with what the last one with the
/// name says, and no others.
pub proof fn law_headers_are_kept(
    headers: &Vec<(String, Vec<u8>)>,
    res: String,
    name: Seq<char>,
    i: int,
)
    requires
        call_ensures(extract_headers_json, (headers,), res),
    ensures
        json_map(res@) is Some,
        json_map(res@)->0.contains_key(name) <==> exists|k: int|
            0 <= k < headers@.len() && (#[trigger] headers@[k]).0@ == name,
        0 <= i < headers@.len() && headers@[i].0@ == name && (forall|j: int|
            i < j < headers@.len() ==> (#[trigger] headers@[j]).0@ != name) ==> json_as_str(
            json_map(res@)->0[name],
        ) == Some(text_in(headers@[i].1@)),
{
    let all = header_views(headers@);
    let names = all.map_values(|h: (Seq<char>, Seq<u8>)| h.0);
    lemma_text_names(all, name);
    if names.contains(name) {
        let k = choose|k: int| 0 <= k < names.len() && names[k] == name;
        assert(headers@[k].0@ == name);
    }
    if exists|k: int| 0 <= k < headers@.len() && (#[trigger] headers@[k]).0@ == name {
        let k = choose|k: int| 0 <= k < headers@.len() && (#[trigger] headers@[k]).0@ == name;
        assert(names[k] == name);
    }
    if 0 <= i < headers@.len() && headers@[i].0@ == name && (forall|j: int|
        i < j < headers@.len() ==> (#[trigger] headers@[j]).0@ != name) {
        assert(all[i] == (headers@[i].0@, headers@[i].1@));
        assert(names[i] == name);
        let own = |n: Seq<char>| n;
        assert forall|j: int| i < j < all.len() implies own((#[trigger] all[j]).0) != own(
            all[i].0,
        ) by {
            assert(headers@[j].0@ != name);
        }
        lemma_last_text(all, i);
    }
}

/// Whether a header is renewed when a response is found unchanged.
pub open spec fn renewed(name: Seq<char>) -> bool {
    ||| name == "cache-control"@
    ||| name == "date"@
    ||| name == "etag"@
    ||| name == "expires"@
    ||| name == "last-modified"@
    ||| name == "vary"@
    ||| name == "set-cookie"@
    ||| name == "strict-transport-security"@
    ||| name == "x-github-request-id"@
}

/// The last header with a name, in whatever case it is written, is merged if it is one of
/// those that are renewed.
proof fn lemma_last_merged(
    fields: Map<Seq<char>, Seq<char>>,
    headers: Seq<(Seq<char>, Seq<u8>)>,
    i: int,
)
    requires
        is_last(headers, |n: Seq<char>| lower(n), i),
        renewed(lower(headers[i].0)),
    ensures
        merged(fields, headers)[lower(headers[i].0)] == json_string(text_in(headers[i].1)),
    decreases headers.len(),
{
    if i < headers.len() - 1 {
        lemma_is_last(headers, |n: Seq<char>| lower(n), i);
        lemma_last_merged(fields, headers.drop_last(), i);
    }
}

/// What is not renewed stays.
proof fn lemma_merged_names(
    fields: Map<Seq<char>, Seq<char>>,
    headers: Seq<(Seq<char>, Seq<u8>)>,
    name: Seq<char>,
)
    ensures
        ({
            let m = merged(fields, headers);
            let said = renewed(name) && headers.map_values(
                |h: (Seq<char>, Seq<u8>)| lower(h.0),
            ).contains(name);
            &&& m.contains_key(name) <==> fields.contains_key(name) || said
            &&& fields.contains_key(name) && !said ==> m[name] == fields[name]
        }),
    decreases headers.len(),
{
    let names = headers.map_values(|h: (Seq<char>, Seq<u8>)| lower(h.0));
    if headers.len() > 0 {
        let t = headers.drop_last();
        lemma_merged_names(fields, t, name);
        let rest = t.map_values(|h: (Seq<char>, Seq<u8>)| lower(h.0));
        assert(names =~= rest.push(lower(headers.last().0)));
        lemma_push_contains(rest, lower(headers.last().0), name);
    }
}

/// A response that says that nothing has changed renews what is about how long the kept one
/// is fresh, how it is validated, and what it sets, with what its last header of the name
/// says; all else is kept as it was.
pub proof fn law_merge(
    existing_json: &str,
    headers: &Vec<(String, Vec<u8>)>,
    res: String,
    fields: Map<Seq<char>, Seq<char>>,
    name: Seq<char>,
    i: int,
)
    requires
        call_ensures(merge_304_headers, (existing_json, headers), res),
        json_map(existing_json@) == Some(fields),
        all_strings(fields),
    ensures
        json_map(res@) is Some,
        ({
            let m = json_map(res@)->0;
            let said = exists|k: int|
                0 <= k < headers@.len() && lower((#[trigger] headers@[k]).0@) == name;
            &&& m.contains_key(name) <==> fields.contains_key(name) || (renewed(name) && said)
            &&& fields.contains_key(name) && !(renewed(name) && said) ==> m[name] == fields[name]
        }),
        0 <= i < headers@.len() && renewed(name) && lower(headers@[i].0@) == name && (forall|j: int|
            i < j < headers@.len() ==> lower((#[trigger] headers@[j]).0@) != name) ==> json_map(
            res@,
        )->0[name] == json_string(text_in(headers@[i].1@)),
{
    let all = header_views(headers@);
    let names = all.map_values(|h: (Seq<char>, Seq<u8>)| lower(h.0));
    lemma_merged_names(fields, all, name);
    if names.contains(name) {
        let k = choose|k: int| 0 <= k < names.len() && names[k] == name;
        assert(lower(headers@[k].0@) == name);
    }
    if exists|k: int| 0 <= k < headers@.len() && lower((#[trigger] headers@[k]).0@) == name {
        let k = choose|k: int|
            0 <= k < headers@.len() && lower((#[trigger] headers@[k]).0@) == name;
        assert(names[k] == name);
    }
    if 0 <= i < headers@.len() && renewed(name) && lower(headers@[i].0@) == name && (forall|j: int|
        i < j < headers@.len() ==> lower((#[trigger] headers@[j]).0@) != name) {
        assert(all[i] == (headers@[i].0@, headers@[i].1@));
        let own = |n: Seq<char>| lower(n);
        assert forall|j: int| i < j < all.len() implies own((#[trigger] all[j]).0) != own(
            all[i].0,
        ) by {
            assert(lower(headers@[j].0@) != name);
        }
        lemma_last_merged(fields, all, i);
    }
}

/// Kept headers that cannot be read are replaced by those that a response renews.
pub proof fn law_merge_into_nothing(
    existing_json: &str,
    headers: &Vec<(String, Vec<u8>)>,
    res: String,
    name: Seq<char>,
)
    requires
        call_ensures(merge_304_headers, (existing_json, headers), res),
        json_map(existing_json@) is None,
    ensures
        json_map(res@) is Some,
        json_map(res@)->0.contains_key(name) ==> renewed(name),
{
    lemma_merged_names(map_of(existing_json@), header_views(headers@), name);
}

/// Once a body has no encoding any more, the kept headers say nothing of an encoding or of
/// its length, and all else as before.
pub proof fn law_strip_encoding(
    headers_json: &str,
    res: String,
    fields: Map<Seq<char>, Seq<char>>,
    name: Seq<char>,
)
    requires
        call_ensures(strip_encoding_headers, (headers_json,), res),
        json_object(headers_json@) == Some(fields),
        all_strings(fields),
        !fields.contains_key(raw_mark()),
    ensures
        json_object(res@) is Some,
        json_object(res@)->0.contains_key(name) <==> fields.contains_key(name) && name
            != "content-encoding"@ && name != "content-length"@ && name != "transfer-encoding"@,
        json_object(res@)->0.contains_key(name) ==> json_object(res@)->0[name] == fields[name],
{
}

/// What is sent of a list: each header that may stand in a message, and no other.
proof fn lemma_sendable(
    list: Seq<(Seq<char>, Option<Seq<char>>)>,
    pair: (Seq<char>, Seq<char>),
)
    ensures
        sendable(list).contains(pair) <==> list.contains((pair.0, Some(pair.1))) && header_name_ok(
            pair.0,
        ) && header_value_ok(pair.1),
    decreases list.len(),
{
    if list.len() > 0 {
        let t = list.drop_last();
        lemma_sendable(t, pair);
        let x = (pair.0, Some(pair.1));
        let (a, b) = (sendable(t), sendable(list));
        if list.contains(x) {
            let k = choose|k: int| 0 <= k < list.len() && list[k] == x;
            if k < t.len() {
                assert(t[k] == x);
            }
        }
        if t.contains(x) {
            let k = choose|k: int| 0 <= k < t.len() && t[k] == x;
            assert(list[k] == x);
        }
        if a.contains(pair) {
            let k = choose|k: int| 0 <= k < a.len() && a[k] == pair;
            assert(b[k] == pair);
        }
        if list.last() == x {
            assert(list[list.len() - 1] == x);
            if header_name_ok(pair.0) && header_value_ok(pair.1) {
                assert(b[b.len() - 1] == pair);
            }
        }
        if b.contains(pair) && !a.contains(pair) {
            let k = choose|k: int| 0 <= k < b.len() && b[k] == pair;
            if k < a.len() {
                assert(a[k] == pair);
            }
            assert(list.last() == x);
        }
    }
}

/// Of kept fields, those are sent as headers that have a text and may stand in a message,
/// and no others.
pub proof fn law_sendable(
    list: &Vec<(String, Option<String>)>,
    res: Vec<(String, String)>,
    pair: (Seq<char>, Seq<char>),
)
    requires
        call_ensures(sendable_headers, (list,), res),
    ensures
        pair_views(res@).contains(pair) <==> header_name_ok(pair.0) && header_value_ok(pair.1) && (
        exists|i: int|
            0 <= i < list@.len() && (#[trigger] list@[i]).0@ == pair.0 && list@[i].1.deep_view()
                == Some(pair.1)),
{
    let s = field_views(list@);
    lemma_sendable(s, pair);
    let x = (pair.0, Some(pair.1));
    if s.contains(x) {
        let i = choose|i: int| 0 <= i < s.len() && s[i] == x;
        assert(list@[i].0@ == pair.0);
    }
    if exists|i: int|
        0 <= i < list@.len() && (#[trigger] list@[i]).0@ == pair.0 && list@[i].1.deep_view() == Some(
            pair.1,
        ) {
        let i = choose|i: int|
            0 <= i < list@.len() && (#[trigger] list@[i]).0@ == pair.0 && list@[i].1.deep_view()
                == Some(pair.1);
        assert(s[i] == x);
    }
}

/// Texts are in order one after another.
proof fn lemma_text_order(leq: spec_fn(Seq<char>, Seq<char>) -> bool)
    requires
        forall|a: Seq<char>, b: Seq<char>| #[trigger] leq(a, b) == crate::order::text_leq(a, b),
    ensures
        crate::order::is_total_preorder(leq),
{
    assert forall|a: Seq<char>, b: Seq<char>| #[trigger] leq(a, b) || leq(b, a) by {
        crate::order::lemma_text_leq_total(a, b);
    }
    assert forall|a: Seq<char>, b: Seq<char>, c: Seq<char>| #[trigger]
        leq(a, b) && #[trigger] leq(b, c) implies leq(a, c) by {
        crate::order::lemma_text_leq_transitive(a, b, c);
    }
}

/// Kept headers stand for those with a text that may stand in a message; a response from the
/// cache has them and says that it is one.
pub proof fn law_kept_headers(
    headers_json: &str,
    res: Vec<(String, String)>,
    answer: Vec<(String, String)>,
    pair: (Seq<char>, Seq<char>),
)
    requires
        call_ensures(headers_from_json, (headers_json,), res),
        call_ensures(response_headers, (headers_json,), answer),
    ensures
        json_object(headers_json@) is None ==> res@.len() == 0,
        json_object(headers_json@) matches Some(fields) ==> fields.dom().finite() ==> (pair_views(
            res@,
        ).contains(pair) <==> fields.contains_key(pair.0) && json_as_str(fields[pair.0]) == Some(
            pair.1,
        ) && header_name_ok(pair.0) && header_value_ok(pair.1)),
        pair_views(answer@) == pair_views(res@) + seq![("X-Cache"@, "HIT"@)],
{
    assert(pair_views(answer@) =~= pair_views(res@) + seq![("X-Cache"@, "HIT"@)]);
    assert(pair_views(res@).len() == res@.len());
    if let Some(fields) = json_object(headers_json@) {
        if fields.dom().finite() {
            let s = field_seq(fields);
            lemma_sendable(s, pair);
            if s.contains((pair.0, Some(pair.1))) {
                let leq = |a: Seq<char>, b: Seq<char>| crate::order::text_leq(a, b);
                let names = in_order(fields.dom().to_seq(), leq);
                let i = choose|i: int| 0 <= i < s.len() && s[i] == (pair.0, Some(pair.1));
                assert(names[i] == pair.0);
                assert(names.contains(pair.0));
                lemma_text_order(leq);
                lemma_in_order_members(fields.dom().to_seq(), leq);
                fields.dom().lemma_to_seq_to_set_id();
                assert(fields.dom().to_seq().to_set().contains(pair.0));
            }
            if fields.contains_key(pair.0) && json_as_str(fields[pair.0]) == Some(pair.1)
                && header_name_ok(pair.0) && header_value_ok(pair.1) {
                lemma_kept_is_sent(fields, pair.0, pair.1);
            }
        }
    }
}

/// The policy that is kept is that of a `GET` which was answered with the kept headers and
/// the status 200.
pub proof fn law_kept_policy(
    url: &str,
    headers_json: &str,
    secs: u64,
    nanos: u32,
    res: Vec<u8>,
    none: &Vec<(String, String)>,
    headers: Vec<(String, String)>,
    policy: Option<CachedPolicy>,
)
    requires
        call_ensures(build_cache_policy_bytes, (url, headers_json, secs, nanos), res),
        none@.len() == 0,
        call_ensures(headers_from_json, (headers_json,), headers),
        call_ensures(
            CachedPolicy::from_request_response,
            ("GET", url, none, 200u16, &headers, secs, nanos),
            policy,
        ),
    ensures
        policy matches Some(p) ==> p@ == res@,
{
    assert(pair_views(none@) =~= seq![]);
}

/// A body is decompressed by the encoding that is said of it, and is as it was if it is
/// damaged or the encoding is another or none.
pub proof fn law_decompress(body: Vec<u8>, encoding: Option<&str>, res: (Vec<u8>, bool))
    requires
        call_ensures(decompress_body, (body, encoding), res),
    ensures
        ({
            let (plain, done) = res;
            let said = |name: Seq<char>| encoding is Some && encoding->0@ == name;
            let by = if said("gzip"@) || said("x-gzip"@) {
                gunzipped(body@)
            } else if said("deflate"@) {
                inflated(body@)
            } else if said("br"@) {
                unbrotlied(body@)
            } else {
                None
            };
            &&& done <==> by is Some
            &&& done ==> plain@ == by->0
            &&& !done ==> plain@ == body@
        }),
{
}

} // verus!
