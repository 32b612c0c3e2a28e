//! The headers that are kept of a response, and its body.
use crate::outside::codec::{gunzip, inflate, unbrotli};
#[allow(unused_imports)]
use crate::outside::codec::{gunzipped, inflated, unbrotlied};
use crate::outside::header::{is_header_name, is_header_value, text_from};
#[allow(unused_imports)]
use crate::outside::header::{header_name_ok, header_value_ok, text_in};
use crate::outside::json::{
    compact_text, empty_object, field_list, object_text, parse_map, parse_object, remove_field,
    set_field,
};
#[allow(unused_imports)]
use crate::outside::json::{
    all_strings, field_seq, field_views, json_as_str, json_compact, json_field_str, json_fields,
    json_map, json_object, json_object_text, json_string, no_fields, raw_mark,
};
use crate::outside::policy::policy_of;
#[allow(unused_imports)]
use crate::order::{in_order, is_total_preorder, lemma_in_order, text_leq};
#[allow(unused_imports)]
use crate::outside::policy::policy_text;
use crate::text::{same, to_lower};
#[allow(unused_imports)]
use crate::text::{lower, opt, pair_views};
use vstd::prelude::*;

verus! {

/// The fields of a JSON object: to each name the text of its value.
pub type Fields = Map<Seq<char>, Seq<char>>;

/// Headers by their views.
pub open spec fn header_views(v: Seq<(String, Vec<u8>)>) -> Seq<(Seq<char>, Seq<u8>)> {
    v.map_values(|h: (String, Vec<u8>)| (h.0@, h.1@))
}

/// The texts of headers: to each name its last value.
pub open spec fn header_texts(headers: Seq<(Seq<char>, Seq<u8>)>) -> Map<Seq<char>, Seq<char>>
    decreases headers.len(),
{
    if headers.len() == 0 {
        Map::empty()
    } else {
        header_texts(headers.drop_last()).insert(headers.last().0, text_in(headers.last().1))
    }
}

/// The fields that hold texts as strings.
pub open spec fn written(texts: Map<Seq<char>, Seq<char>>) -> Fields {
    texts.map_values(|v: Seq<char>| json_string(v))
}

/// The headers of a response as a JSON object, which reads back as it was written. Read as
/// any JSON value it does so unless a header is named like the mark of a raw value.
pub fn extract_headers_json(headers: &Vec<(String, Vec<u8>)>) -> (res: String)
    ensures
        res@ == json_object_text(written(header_texts(header_views(headers@)))),
        json_map(res@) == Some(written(header_texts(header_views(headers@)))),
        !header_texts(header_views(headers@)).contains_key(raw_mark()) ==> json_object(res@)
            == Some(written(header_texts(header_views(headers@)))),
        forall|name: Seq<char>| #[trigger]
            header_texts(header_views(headers@)).contains_key(name) ==> json_field_str(
                written(header_texts(header_views(headers@))),
                name,
            ) == Some(header_texts(header_views(headers@))[name]),
        header_texts(header_views(headers@)).dom().finite(),
{
    let ghost all = header_views(headers@);
    let mut object = empty_object();
    let mut i: usize = 0;
    assert(json_fields(object) =~= written(header_texts(all.subrange(0, 0))));
    while i < headers.len()
        invariant
            i <= headers@.len(),
            all == header_views(headers@),
            json_fields(object) == written(header_texts(all.subrange(0, i as int))),
            forall|name: Seq<char>| #[trigger]
                header_texts(all.subrange(0, i as int)).contains_key(name) ==> json_as_str(
                    json_fields(object)[name],
                ) == Some(header_texts(all.subrange(0, i as int))[name]),
            header_texts(all.subrange(0, i as int)).dom().finite(),
        decreases headers@.len() - i,
    {
        let ghost before = header_texts(all.subrange(0, i as int));
        let text = text_from(&headers[i].1);
        set_field(&mut object, headers[i].0.as_str(), text.as_str());
        proof {
            let here = all.subrange(0, i + 1);
            assert(here.drop_last() =~= all.subrange(0, i as int));
            assert(here.last() == (headers@[i as int].0@, headers@[i as int].1@));
            assert(header_texts(here) == before.insert(headers@[i as int].0@, text@));
            assert(json_fields(object) =~= written(header_texts(here)));
        }
        i += 1;
    }
    proof {
        assert(all.subrange(0, i as int) =~= all);
        let texts = header_texts(all);
        assert forall|k: Seq<char>| #[trigger]
            json_fields(object).contains_key(k) implies json_as_str(
            json_fields(object)[k],
        ) is Some by {
            assert(texts.contains_key(k));
        }
    }
    object_text(&object)
}

/// Whether a header is about how long a response stays fresh or how it is validated.
pub open spec fn updatable(name: Seq<char>) -> bool {
    ||| name == "cache-control"@
    ||| name == "date"@
    ||| name == "etag"@
    ||| name == "expires"@
    ||| name == "last-modified"@
    ||| name == "vary"@
    ||| name == "set-cookie"@
    ||| name == "strict-transport-security"@
    ||| name == "x-github-request-id"@
}

/// Whether a header is about how long a response stays fresh or how it is validated.
fn is_updatable(name: &str) -> (res: bool)
    ensures
        res == updatable(name@),
{
    same(name, "cache-control") || same(name, "date") || same(name, "etag") || same(
        name,
        "expires",
    ) || same(name, "last-modified") || same(name, "vary") || same(name, "set-cookie") || same(
        name,
        "strict-transport-security",
    ) || same(name, "x-github-request-id")
}

/// The fields after headers have been taken over into them.
pub open spec fn merged(fields: Fields, headers: Seq<(Seq<char>, Seq<u8>)>) -> Fields
    decreases headers.len(),
{
    if headers.len() == 0 {
        fields
    } else {
        let done = merged(fields, headers.drop_last());
        let name = lower(headers.last().0);
        if updatable(name) {
            done.insert(name, json_string(text_in(headers.last().1)))
        } else {
            done
        }
    }
}

/// The fields of a JSON object; none if the text writes no object.
pub open spec fn fields_of(text: Seq<char>) -> Fields {
    match json_object(text) {
        Some(fields) => fields,
        None => no_fields(),
    }
}

/// The fields of a JSON object, read field by field; none if the text writes no object.
pub open spec fn map_of(text: Seq<char>) -> Fields {
    match json_map(text) {
        Some(fields) => fields,
        None => no_fields(),
    }
}

/// The kept headers after a response that says that nothing has changed: what is about
/// freshness and validation is taken over from it, and all else stays. Where all kept
/// headers are strings, what is then kept reads back as it was written.
pub fn merge_304_headers(existing_json: &str, headers: &Vec<(String, Vec<u8>)>) -> (res: String)
    ensures
        res@ == json_object_text(merged(map_of(existing_json@), header_views(headers@))),
        all_strings(map_of(existing_json@)) ==> json_map(res@) == Some(
            merged(map_of(existing_json@), header_views(headers@)),
        ),
        all_strings(map_of(existing_json@)) && !map_of(existing_json@).contains_key(raw_mark())
            ==> json_object(res@) == Some(
            merged(map_of(existing_json@), header_views(headers@)),
        ),
{
    let ghost all = header_views(headers@);
    let mut object = match parse_map(existing_json) {
        Some(object) => object,
        None => empty_object(),
    };
    let ghost start = json_fields(object);
    let mut i: usize = 0;
    assert(all.subrange(0, 0) =~= seq![]);
    while i < headers.len()
        invariant
            i <= headers@.len(),
            all == header_views(headers@),
            json_fields(object) == merged(start, all.subrange(0, i as int)),
            all_strings(start) ==> all_strings(json_fields(object)),
        decreases headers@.len() - i,
    {
        let ghost before = json_fields(object);
        let name = to_lower(headers[i].0.as_str());
        proof {
            let here = all.subrange(0, i + 1);
            assert(here.drop_last() =~= all.subrange(0, i as int));
            assert(here.last() == (headers@[i as int].0@, headers@[i as int].1@));
        }
        if is_updatable(name.as_str()) {
            let text = text_from(&headers[i].1);
            set_field(&mut object, name.as_str(), text.as_str());
            assert forall|k: Seq<char>| all_strings(start) && #[trigger]
                json_fields(object).contains_key(k) implies json_as_str(
                json_fields(object)[k],
            ) is Some by {
                if k != name@ {
                    assert(before.contains_key(k));
                }
            }
        }
        i += 1;
    }
    proof {
        assert(all.subrange(0, i as int) =~= all);
        lemma_mark_not_updatable();
        law_merge_keeps_others(start, all, raw_mark());
    }
    object_text(&object)
}

/// The mark of a raw value is not about freshness or validation.
proof fn lemma_mark_not_updatable()
    ensures
        !updatable(raw_mark()),
{
    reveal_strlit("$serde_json::private::RawValue");
    reveal_strlit("cache-control");
    reveal_strlit("date");
    reveal_strlit("etag");
    reveal_strlit("expires");
    reveal_strlit("last-modified");
    reveal_strlit("vary");
    reveal_strlit("set-cookie");
    reveal_strlit("strict-transport-security");
    reveal_strlit("x-github-request-id");
    assert(raw_mark().len() == 30);
}

/// The fields without what is said of the encoding of a body.
pub open spec fn without_encoding(fields: Fields) -> Fields {
    fields.remove("content-encoding"@).remove("content-length"@).remove("transfer-encoding"@)
}

/// The text of kept headers without what is said of the encoding of a body.
pub open spec fn stripped(headers_json: Seq<char>) -> Seq<char> {
    match json_object(headers_json) {
        Some(fields) => json_object_text(without_encoding(fields)),
        None => match json_compact(headers_json) {
            Some(text) => text,
            None => headers_json,
        },
    }
}

/// The kept headers without what is said of the encoding of the body, for a body that
/// is no longer encoded.
pub fn strip_encoding_headers(headers_json: &str) -> (res: String)
    ensures
        res@ == stripped(headers_json@),
        json_object(headers_json@) matches Some(f) ==> all_strings(f) && !f.contains_key(raw_mark())
            ==> json_object(res@) == Some(without_encoding(f)),
{
    match parse_object(headers_json) {
        Some(object) => {
            let mut kept = object;
            remove_field(&mut kept, "content-encoding");
            remove_field(&mut kept, "content-length");
            remove_field(&mut kept, "transfer-encoding");
            object_text(&kept)
        },
        None => match compact_text(headers_json) {
            Some(text) => text,
            None => headers_json.to_owned(),
        },
    }
}

/// The headers among fields: those that hold strings and may stand in a message.
pub open spec fn sendable(list: Seq<(Seq<char>, Option<Seq<char>>)>) -> Seq<
    (Seq<char>, Seq<char>),
>
    decreases list.len(),
{
    if list.len() == 0 {
        seq![]
    } else {
        let done = sendable(list.drop_last());
        match list.last() {
            (name, Some(value)) if header_name_ok(name) && header_value_ok(value) => done.push(
                (name, value),
            ),
            _ => done,
        }
    }
}

/// The headers among fields that may stand in a message.
pub fn sendable_headers(list: &Vec<(String, Option<String>)>) -> (res: Vec<(String, String)>)
    ensures
        pair_views(res@) == sendable(field_views(list@)),
{
    let ghost all = field_views(list@);
    let mut res: Vec<(String, String)> = Vec::new();
    let mut i: usize = 0;
    assert(pair_views(res@) =~= sendable(all.subrange(0, 0)));
    while i < list.len()
        invariant
            i <= list@.len(),
            all == field_views(list@),
            pair_views(res@) == sendable(all.subrange(0, i as int)),
        decreases list@.len() - i,
    {
        let ghost done = pair_views(res@);
        proof {
            let here = all.subrange(0, i + 1);
            assert(here.drop_last() =~= all.subrange(0, i as int));
            assert(here.last() == (list@[i as int].0@, list@[i as int].1.deep_view()));
        }
        let name = &list[i].0;
        if let Some(value) = &list[i].1 {
            if is_header_name(name.as_str()) && is_header_value(value.as_str()) {
                res.push((name.clone(), value.clone()));
                assert(pair_views(res@) =~= done.push((name@, value@)));
            }
        }
        i += 1;
    }
    assert(all.subrange(0, i as int) =~= all);
    res
}

/// The headers that kept headers stand for, in the order of their names.
pub open spec fn kept_headers(headers_json: Seq<char>) -> Seq<(Seq<char>, Seq<char>)> {
    match json_object(headers_json) {
        Some(fields) => sendable(field_seq(fields)),
        None => seq![],
    }
}

/// The headers that kept headers stand for.
pub fn headers_from_json(headers_json: &str) -> (res: Vec<(String, String)>)
    ensures
        pair_views(res@) == kept_headers(headers_json@),
{
    match parse_object(headers_json) {
        Some(object) => sendable_headers(&field_list(&object)),
        None => {
            let none: Vec<(String, String)> = Vec::new();
            assert(pair_views(none@) =~= seq![]);
            none
        },
    }
}

/// The headers of a response from the cache.
pub open spec fn cached_response_headers(headers_json: Seq<char>) -> Seq<(Seq<char>, Seq<char>)> {
    kept_headers(headers_json).push(("X-Cache"@, "HIT"@))
}

/// The headers of a response from the cache: those that were kept, and a mark that it
/// came from there.
pub fn response_headers(headers_json: &str) -> (res: Vec<(String, String)>)
    ensures
        pair_views(res@) == cached_response_headers(headers_json@),
{
    let mut res = headers_from_json(headers_json);
    let ghost kept = pair_views(res@);
    res.push(("X-Cache".to_owned(), "HIT".to_owned()));
    assert(pair_views(res@) =~= kept.push(("X-Cache"@, "HIT"@)));
    res
}

/// The policy for a `GET` of a URL that was answered at a time with the status 200 and
/// the kept headers.
pub open spec fn kept_policy(
    url: Seq<char>,
    headers_json: Seq<char>,
    secs: u64,
    nanos: u32,
) -> Seq<u8> {
    policy_text(("GET"@, url, seq![]), 200, kept_headers(headers_json), secs, nanos)
}

/// The policy for a response, from the headers that are kept of it.
pub fn build_cache_policy_bytes(url: &str, headers_json: &str, secs: u64, nanos: u32) -> (res: Vec<
    u8,
>)
    requires
        secs <= i64::MAX,
        nanos < 1_000_000_000,
    ensures
        res@ == kept_policy(url@, headers_json@, secs, nanos),
{
    let headers = headers_from_json(headers_json);
    let none: Vec<(String, String)> = Vec::new();
    assert(pair_views(none@) =~= seq![]);
    policy_of("GET", url, &none, 200, &headers, secs, nanos)
}

/// What a body decompresses to, by the encoding that is said of it; nothing if it is
/// damaged or the encoding is another.
pub open spec fn decompressed(body: Seq<u8>, encoding: Option<Seq<char>>) -> Option<Seq<u8>> {
    match encoding {
        None => None,
        Some(e) => if e == "gzip"@ || e == "x-gzip"@ {
            gunzipped(body)
        } else if e == "deflate"@ {
            inflated(body)
        } else if e == "br"@ {
            unbrotlied(body)
        } else {
            None
        },
    }
}

/// A body decompressed, and whether it could be; else as it was.
pub fn decompress_body(body: Vec<u8>, encoding: Option<&str>) -> (res: (Vec<u8>, bool))
    ensures
        match decompressed(body@, opt(encoding)) {
            Some(d) => res.0@ == d && res.1,
            None => res.0@ == body@ && !res.1,
        },
{
    let decoded = match encoding {
        None => None,
        Some(e) => if same(e, "gzip") || same(e, "x-gzip") {
            gunzip(&body)
        } else if same(e, "deflate") {
            inflate(&body)
        } else if same(e, "br") {
            unbrotli(&body)
        } else {
            None
        },
    };
    match decoded {
        Some(d) => (d, true),
        None => (body, false),
    }
}

/// A header that is kept as a string is among those that are sent.
pub proof fn lemma_kept_is_sent(fields: Fields, name: Seq<char>, value: Seq<char>)
    requires
        fields.dom().finite(),
        fields.contains_key(name),
        json_as_str(fields[name]) == Some(value),
        header_name_ok(name),
        header_value_ok(value),
    ensures
        sendable(field_seq(fields)).contains((name, value)),
{
    let leq = |a: Seq<char>, b: Seq<char>| text_leq(a, b);
    assert(is_total_preorder(leq)) by {
        assert forall|a: Seq<char>, b: Seq<char>| #[trigger] leq(a, b) || leq(b, a) by {
            crate::order::lemma_text_leq_total(a, b);
        }
        assert forall|a: Seq<char>, b: Seq<char>, c: Seq<char>| #[trigger]
            leq(a, b) && #[trigger] leq(b, c) implies leq(a, c) by {
            crate::order::lemma_text_leq_transitive(a, b, c);
        }
    }
    let names = fields.dom().to_seq();
    fields.dom().lemma_to_seq_to_set_id();
    assert(names.to_set().contains(name));
    assert(names.contains(name));
    lemma_in_order(names, leq);
    names.to_multiset_ensures();
    let sorted = in_order(names, leq);
    sorted.to_multiset_ensures();
    assert(names.to_multiset().count(name) > 0);
    assert(sorted.contains(name));
    let i = choose|i: int| 0 <= i < sorted.len() && sorted[i] == name;
    let list = field_seq(fields);
    assert(list[i] == (name, Some(value)));
    lemma_sendable_has(list, i);
}

/// What may stand in a message is sent.
proof fn lemma_sendable_has(list: Seq<(Seq<char>, Option<Seq<char>>)>, i: int)
    requires
        0 <= i < list.len(),
        list[i].1 is Some,
        header_name_ok(list[i].0),
        header_value_ok(list[i].1->0),
    ensures
        sendable(list).contains((list[i].0, list[i].1->0)),
    decreases list.len(),
{
    let x = (list[i].0, list[i].1->0);
    let t = list.drop_last();
    if i < t.len() {
        lemma_sendable_has(t, i);
        let k = choose|k: int| 0 <= k < sendable(t).len() && sendable(t)[k] == x;
        assert(sendable(list)[k] == x);
    } else {
        assert(sendable(list)[sendable(list).len() - 1] == x);
    }
}

/// A response that says that nothing has changed does not change what was said of the
/// body, nor anything else that is not about freshness or validation.
pub proof fn law_merge_keeps_others(
    fields: Fields,
    headers: Seq<(Seq<char>, Seq<u8>)>,
    name: Seq<char>,
)
    requires
        !updatable(name),
    ensures
        merged(fields, headers).contains_key(name) == fields.contains_key(name),
        fields.contains_key(name) ==> merged(fields, headers)[name] == fields[name],
    decreases headers.len(),
{
    if headers.len() > 0 {
        law_merge_keeps_others(fields, headers.drop_last(), name);
    }
}

/// The type, the encoding and the length of a body stay as they were kept, whatever a
/// response says that says that nothing has changed.
pub proof fn law_body_headers_stay(fields: Fields, headers: Seq<(Seq<char>, Seq<u8>)>)
    ensures
        merged(fields, headers).contains_key("content-type"@) == fields.contains_key(
            "content-type"@,
        ),
        fields.contains_key("content-type"@) ==> merged(fields, headers)["content-type"@]
            == fields["content-type"@],
        merged(fields, headers).contains_key("content-encoding"@) == fields.contains_key(
            "content-encoding"@,
        ),
        fields.contains_key("content-encoding"@) ==> merged(fields, headers)["content-encoding"@]
            == fields["content-encoding"@],
        merged(fields, headers).contains_key("content-length"@) == fields.contains_key(
            "content-length"@,
        ),
        fields.contains_key("content-length"@) ==> merged(fields, headers)["content-length"@]
            == fields["content-length"@],
{
    reveal_strlit("content-type");
    reveal_strlit("content-encoding");
    reveal_strlit("content-length");
    reveal_strlit("cache-control");
    reveal_strlit("date");
    reveal_strlit("etag");
    reveal_strlit("expires");
    reveal_strlit("last-modified");
    reveal_strlit("vary");
    reveal_strlit("set-cookie");
    reveal_strlit("strict-transport-security");
    reveal_strlit("x-github-request-id");
    assert("content-type"@.len() == 12);
    assert("content-encoding"@.len() == 16);
    assert("content-length"@.len() == 14);
    law_merge_keeps_others(fields, headers, "content-type"@);
    law_merge_keeps_others(fields, headers, "content-encoding"@);
    law_merge_keeps_others(fields, headers, "content-length"@);
}

/// What the last header with a name says is what is kept of it, if it is about freshness
/// or validation.
pub proof fn law_merge_takes_over(
    fields: Fields,
    headers: Seq<(Seq<char>, Seq<u8>)>,
    i: int,
)
    requires
        0 <= i < headers.len(),
        updatable(lower(headers[i].0)),
        forall|j: int|
            i < j < headers.len() ==> lower((#[trigger] headers[j]).0) != lower(
                headers[i].0,
            ),
    ensures
        merged(fields, headers).contains_key(lower(headers[i].0)),
        merged(fields, headers)[lower(headers[i].0)] == json_string(text_in(headers[i].1)),
    decreases headers.len(),
{
    let t = headers.drop_last();
    if i < headers.len() - 1 {
        assert(t[i] == headers[i]);
        assert forall|j: int| i < j < t.len() implies lower((#[trigger] t[j]).0) != lower(
            t[i].0,
        ) by {
            assert(t[j] == headers[j]);
        }
        law_merge_takes_over(fields, t, i);
        assert(lower(headers[headers.len() - 1].0) != lower(headers[i].0));
    }
}

/// Nothing is said of the encoding of a body any more once that has been left out, and
/// all else is still said.
pub proof fn law_encoding_left_out(fields: Fields, name: Seq<char>)
    ensures
        !without_encoding(fields).contains_key("content-encoding"@),
        !without_encoding(fields).contains_key("content-length"@),
        !without_encoding(fields).contains_key("transfer-encoding"@),
        name != "content-encoding"@ && name != "content-length"@ && name != "transfer-encoding"@
            ==> without_encoding(fields).contains_key(name) == fields.contains_key(name) && (
        fields.contains_key(name) ==> without_encoding(fields)[name] == fields[name]),
{
}

} // verus!
