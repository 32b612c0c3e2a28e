//! What holds of the addresses of videos and of the policies of entries.
#[allow(unused_imports)]
use crate::cache::policy::CachedPolicy;
#[allow(unused_imports)]
use crate::cache::youtube::{
    closed_range, is_youtube_videoplayback, itag_to_ext, kept_parameter, kept_parameters, normalize,
    normalize_parts, parameter, Normalized,
};
#[allow(unused_imports)]
use crate::error::Error;
#[allow(unused_imports)]
use crate::number::{decimal, lemma_decimal_reads_back, lemma_decimal_unsigned};
#[allow(unused_imports)]
use crate::outside::policy::{
    policy_age_header, policy_matches, policy_ok, policy_stale, policy_storable, policy_text,
    policy_time_to_live, quotes,
};
#[allow(unused_imports)]
use crate::outside::url::{url_host, url_ok, url_pairs, url_path};
#[allow(unused_imports)]
use crate::text::{has_text, joined, opt, pair_views};
use vstd::prelude::*;

verus! {

/// The address of a video has the path of one and a format.
pub proof fn law_is_video(url: &str, res: bool)
    requires
        call_ensures(is_youtube_videoplayback, (url,), res),
    ensures
        res <==> has_text(url@, "/videoplayback"@) && has_text(url@, "itag="@),
{
}

/// Each known format has the extension of its files, and all others that of bytes.
#[verifier::rlimit(60)]
pub proof fn law_formats(itag: &str, res: &'static str)
    requires
        call_ensures(itag_to_ext, (itag,), res),
    ensures
        res@ == ".m4a"@ <==> ({
            ||| itag@ == "139"@
            ||| itag@ == "140"@
            ||| itag@ == "141"@
        }),
        res@ == ".webm"@ <==> ({
            ||| itag@ == "171"@
            ||| itag@ == "249"@
            ||| itag@ == "250"@
            ||| itag@ == "251"@
            ||| itag@ == "43"@
            ||| itag@ == "44"@
            ||| itag@ == "45"@
            ||| itag@ == "46"@
        }),
        res@ == ".mp4"@ <==> ({
            ||| itag@ == "242"@
            ||| itag@ == "243"@
            ||| itag@ == "244"@
            ||| itag@ == "247"@
            ||| itag@ == "248"@
            ||| itag@ == "271"@
            ||| itag@ == "313"@
            ||| itag@ == "394"@
            ||| itag@ == "395"@
            ||| itag@ == "396"@
            ||| itag@ == "397"@
            ||| itag@ == "398"@
            ||| itag@ == "399"@
            ||| itag@ == "400"@
            ||| itag@ == "401"@
            ||| itag@ == "18"@
            ||| itag@ == "22"@
            ||| itag@ == "37"@
            ||| itag@ == "38"@
        }),
        res@ == ".m4a"@ || res@ == ".webm"@ || res@ == ".mp4"@ || res@ == ".bin"@,
{
    reveal_strlit(".m4a");
    assert(".m4a"@.len() == 4 && ".m4a"@[2] == '4');
    reveal_strlit(".webm");
    assert(".webm"@.len() == 5);
    reveal_strlit(".mp4");
    assert(".mp4"@.len() == 4 && ".mp4"@[2] == 'p');
    reveal_strlit(".bin");
    assert(".bin"@.len() == 4 && ".bin"@[2] == 'i');
    reveal_strlit("242");
    assert("242"@.len() == 3 && "242"@[0] == '2' && "242"@[1] == '4' && "242"@[2] == '2');
    reveal_strlit("243");
    assert("243"@.len() == 3 && "243"@[0] == '2' && "243"@[1] == '4' && "243"@[2] == '3');
    reveal_strlit("244");
    assert("244"@.len() == 3 && "244"@[0] == '2' && "244"@[1] == '4' && "244"@[2] == '4');
    reveal_strlit("247");
    assert("247"@.len() == 3 && "247"@[0] == '2' && "247"@[1] == '4' && "247"@[2] == '7');
    reveal_strlit("248");
    assert("248"@.len() == 3 && "248"@[0] == '2' && "248"@[1] == '4' && "248"@[2] == '8');
    reveal_strlit("271");
    assert("271"@.len() == 3 && "271"@[0] == '2' && "271"@[1] == '7' && "271"@[2] == '1');
    reveal_strlit("313");
    assert("313"@.len() == 3 && "313"@[0] == '3' && "313"@[1] == '1' && "313"@[2] == '3');
    reveal_strlit("394");
    assert("394"@.len() == 3 && "394"@[0] == '3' && "394"@[1] == '9' && "394"@[2] == '4');
    reveal_strlit("395");
    assert("395"@.len() == 3 && "395"@[0] == '3' && "395"@[1] == '9' && "395"@[2] == '5');
    reveal_strlit("396");
    assert("396"@.len() == 3 && "396"@[0] == '3' && "396"@[1] == '9' && "396"@[2] == '6');
    reveal_strlit("397");
    assert("397"@.len() == 3 && "397"@[0] == '3' && "397"@[1] == '9' && "397"@[2] == '7');
    reveal_strlit("398");
    assert("398"@.len() == 3 && "398"@[0] == '3' && "398"@[1] == '9' && "398"@[2] == '8');
    reveal_strlit("399");
    assert("399"@.len() == 3 && "399"@[0] == '3' && "399"@[1] == '9' && "399"@[2] == '9');
    reveal_strlit("400");
    assert("400"@.len() == 3 && "400"@[0] == '4' && "400"@[1] == '0' && "400"@[2] == '0');
    reveal_strlit("401");
    assert("401"@.len() == 3 && "401"@[0] == '4' && "401"@[1] == '0' && "401"@[2] == '1');
    reveal_strlit("18");
    assert("18"@.len() == 2 && "18"@[0] == '1' && "18"@[1] == '8');
    reveal_strlit("22");
    assert("22"@.len() == 2 && "22"@[0] == '2' && "22"@[1] == '2');
    reveal_strlit("37");
    assert("37"@.len() == 2 && "37"@[0] == '3' && "37"@[1] == '7');
    reveal_strlit("38");
    assert("38"@.len() == 2 && "38"@[0] == '3' && "38"@[1] == '8');
    reveal_strlit("139");
    assert("139"@.len() == 3 && "139"@[0] == '1' && "139"@[1] == '3' && "139"@[2] == '9');
    reveal_strlit("140");
    assert("140"@.len() == 3 && "140"@[0] == '1' && "140"@[1] == '4' && "140"@[2] == '0');
    reveal_strlit("141");
    assert("141"@.len() == 3 && "141"@[0] == '1' && "141"@[1] == '4' && "141"@[2] == '1');
    reveal_strlit("171");
    assert("171"@.len() == 3 && "171"@[0] == '1' && "171"@[1] == '7' && "171"@[2] == '1');
    reveal_strlit("249");
    assert("249"@.len() == 3 && "249"@[0] == '2' && "249"@[1] == '4' && "249"@[2] == '9');
    reveal_strlit("250");
    assert("250"@.len() == 3 && "250"@[0] == '2' && "250"@[1] == '5' && "250"@[2] == '0');
    reveal_strlit("251");
    assert("251"@.len() == 3 && "251"@[0] == '2' && "251"@[1] == '5' && "251"@[2] == '1');
    reveal_strlit("43");
    assert("43"@.len() == 2 && "43"@[0] == '4' && "43"@[1] == '3');
    reveal_strlit("44");
    assert("44"@.len() == 2 && "44"@[0] == '4' && "44"@[1] == '4');
    reveal_strlit("45");
    assert("45"@.len() == 2 && "45"@[0] == '4' && "45"@[1] == '5');
    reveal_strlit("46");
    assert("46"@.len() == 2 && "46"@[0] == '4' && "46"@[1] == '6');
}

/// Whether a parameter has a value: the last with its name counts, and without one it has
/// none.
pub open spec fn has_value(
    pairs: Seq<(String, String)>,
    key: Seq<char>,
    value: Option<Seq<char>>,
) -> bool {
    match value {
        Some(v) => exists|i: int|
            0 <= i < pairs.len() && (#[trigger] pairs[i]).0@ == key && pairs[i].1@ == v && (forall|
                j: int,
            |
                i < j < pairs.len() ==> (#[trigger] pairs[j]).0@ != key),
        None => forall|i: int| 0 <= i < pairs.len() ==> (#[trigger] pairs[i]).0@ != key,
    }
}

/// The last pair with a name.
proof fn lemma_parameter(pairs: Seq<(Seq<char>, Seq<char>)>, key: Seq<char>, i: int)
    requires
        forall|j: int| i < j < pairs.len() ==> (#[trigger] pairs[j]).0 != key,
        -1 <= i < pairs.len(),
        i >= 0 ==> pairs[i].0 == key,
    ensures
        i >= 0 ==> parameter(pairs, key) == Some(pairs[i].1),
        i < 0 ==> parameter(pairs, key) is None,
    decreases pairs.len(),
{
    if pairs.len() > 0 && i < pairs.len() - 1 {
        let t = pairs.drop_last();
        assert(pairs[pairs.len() - 1] == pairs.last());
        assert forall|j: int| i < j < t.len() implies (#[trigger] t[j]).0 != key by {
            assert(t[j] == pairs[j]);
        }
        lemma_parameter(t, key, i);
    }
}

/// What a parameter has is what is read of it.
proof fn lemma_has_value(pairs: Seq<(String, String)>, key: Seq<char>, value: Option<Seq<char>>)
    requires
        has_value(pairs, key, value),
    ensures
        parameter(pair_views(pairs), key) == value,
{
    let s = pair_views(pairs);
    assert forall|j: int| 0 <= j < s.len() implies s[j] == (
    (#[trigger] pairs[j]).0@, pairs[j].1@) by {}
    match value {
        Some(v) => {
            let i = choose|i: int|
                0 <= i < pairs.len() && (#[trigger] pairs[i]).0@ == key && pairs[i].1@ == v && (
                forall|j: int| i < j < pairs.len() ==> (#[trigger] pairs[j]).0@ != key);
            assert forall|j: int| i < j < s.len() implies (#[trigger] s[j]).0 != key by {
                assert(pairs[j].0@ != key);
            }
            assert(s[i] == (key, v));
            lemma_parameter(s, key, i);
        },
        None => {
            assert forall|j: int| -1 < j < s.len() implies (#[trigger] s[j]).0 != key by {
                assert(pairs[j].0@ != key);
            }
            lemma_parameter(s, key, -1);
        },
    }
}

/// A parameter and its value, with what stands before and behind it, if it has one.
pub open spec fn written_with(
    before: Seq<char>,
    key: Seq<char>,
    value: Option<Seq<char>>,
    behind: Seq<char>,
) -> Seq<char> {
    match value {
        Some(v) => before + key + "="@ + v + behind,
        None => seq![],
    }
}

/// What is kept of the address of a video names its host, its length, its name and its
/// format, as far as they are there, and nothing else. Nothing is kept of an address with
/// another path, or without a format or a host.
pub proof fn law_kept_of_video(
    host: Option<&str>,
    path: &str,
    pairs: &Vec<(String, String)>,
    res: Option<Normalized>,
    clen: Option<Seq<char>>,
    id: Option<Seq<char>>,
    itag: Option<Seq<char>>,
    video_id: Option<Seq<char>>,
)
    requires
        call_ensures(normalize_parts, (host, path, pairs), res),
        has_value(pairs@, "clen"@, clen),
        has_value(pairs@, "id"@, id),
        has_value(pairs@, "itag"@, itag),
        has_value(pairs@, "video_id"@, video_id),
    ensures
        res is Some <==> has_text(path@, "videoplayback"@) && host is Some && itag is Some,
        res matches Some((text, format, _)) ==> {
            &&& text@ == "https://"@ + host->0@ + "/videoplayback?"@ + written_with(
                seq![],
                "clen"@,
                clen,
                seq!['&'],
            ) + written_with(seq![], "id"@, id, seq!['&']) + "itag="@ + itag->0 + written_with(
                seq!['&'],
                "video_id"@,
                video_id,
                seq![],
            )
            &&& format.deep_view() == itag
        },
{
    lemma_has_value(pairs@, "clen"@, clen);
    lemma_has_value(pairs@, "id"@, id);
    lemma_has_value(pairs@, "itag"@, itag);
    lemma_has_value(pairs@, "video_id"@, video_id);
    let all = pair_views(pairs@);
    if let Some((text, _, _)) = res {
        let i = itag->0;
        reveal_strlit("&");
        reveal_strlit("=");
        reveal_strlit("itag");
        reveal_strlit("itag=");
        assert("itag"@ + "="@ =~= "itag="@);
        assert("&"@ =~= seq!['&']);
        let a = kept_parameter(all, "clen"@);
        let b = kept_parameter(all, "id"@);
        let c = kept_parameter(all, "itag"@);
        let d = kept_parameter(all, "video_id"@);
        lemma_joined(a, b, "itag"@ + "="@ + i, d);
        let said = written_with(seq![], "clen"@, clen, seq!['&']) + written_with(
            seq![],
            "id"@,
            id,
            seq!['&'],
        ) + "itag="@ + i + written_with(seq!['&'], "video_id"@, video_id, seq![]);
        assert(joined(kept_parameters(all), "&"@) =~= said);
        let h = "https://"@ + host->0@ + "/videoplayback?"@;
        assert(text@ == h + said);
        assert(h + said =~= h + written_with(seq![], "clen"@, clen, seq!['&']) + written_with(
            seq![],
            "id"@,
            id,
            seq!['&'],
        ) + "itag="@ + i + written_with(seq!['&'], "video_id"@, video_id, seq![]));
    }
}

/// The range of a part of a video is that of its own parameter.
pub proof fn law_range_of_video(
    host: Option<&str>,
    path: &str,
    pairs: &Vec<(String, String)>,
    res: Option<Normalized>,
    range: Option<Seq<char>>,
    a: u64,
    b: u64,
)
    requires
        call_ensures(normalize_parts, (host, path, pairs), res),
        has_value(pairs@, "range"@, range),
    ensures
        res matches Some((_, _, part)) ==> {
            &&& range is None ==> part is None
            &&& range == Some(decimal(a as nat) + seq!['-'] + decimal(b as nat)) ==> part == Some(
                (a, b),
            )
        },
{
    lemma_has_value(pairs@, "range"@, range);
    lemma_range_reads_back(a, b);
}

/// Texts of which the first two and the last may be missing, joined.
proof fn lemma_joined(a: Seq<Seq<char>>, b: Seq<Seq<char>>, c: Seq<char>, d: Seq<Seq<char>>)
    requires
        a.len() <= 1,
        b.len() <= 1,
        d.len() <= 1,
    ensures
        joined(a + b + seq![c] + d, "&"@) == (if a.len() == 1 {
            a[0] + "&"@
        } else {
            seq![]
        }) + (if b.len() == 1 {
            b[0] + "&"@
        } else {
            seq![]
        }) + c + (if d.len() == 1 {
            "&"@ + d[0]
        } else {
            seq![]
        }),
{
    reveal_with_fuel(joined, 5);
    let e = a + b + seq![c] + d;
    let f = a + b + seq![c];
    let g = a + b;
    if d.len() == 1 {
        assert(e.drop_last() =~= f);
        assert(e.last() == d[0]);
    } else {
        assert(e =~= f);
    }
    assert(f.drop_last() =~= g);
    assert(f.last() == c);
    if b.len() == 1 {
        assert(g.drop_last() =~= a);
        assert(g.last() == b[0]);
    } else {
        assert(g =~= a);
    }
    if a.len() == 1 {
        assert(a.drop_last() =~= seq![]);
        assert(a.last() == a[0]);
    }
}

/// A range that is written reads back.
proof fn lemma_range_reads_back(a: u64, b: u64)
    ensures
        closed_range(decimal(a as nat) + seq!['-'] + decimal(b as nat)) == Some((a, b)),
{
    lemma_decimal_unsigned(a as nat, u64::MAX as nat);
    lemma_decimal_unsigned(b as nat, u64::MAX as nat);
    lemma_decimal_reads_back(a as nat);
    let d = decimal(a as nat);
    assert(!d.contains('-')) by {
        if d.contains('-') {
            let i = choose|i: int| 0 <= i < d.len() && d[i] == '-';
            assert(crate::number::is_digit(d[i]));
        }
    }
    crate::cache::content_range::lemma_cut_between(d, '-', decimal(b as nat));
}

/// What is kept of the address of a video goes by its host, its path and its parameters.
pub proof fn law_kept_of_url(
    url: &str,
    res: Option<Normalized>,
    host: Option<&str>,
    path: &str,
    pairs: &Vec<(String, String)>,
    same: Option<Normalized>,
)
    requires
        call_ensures(normalize, (url,), res),
        opt(host) == url_host(url@),
        path@ == url_path(url@),
        pair_views(pairs@) == url_pairs(url@),
        call_ensures(normalize_parts, (host, path, pairs), same),
    ensures
        !url_ok(url@) ==> res is None,
        url_ok(url@) ==> (res is Some <==> same is Some),
        url_ok(url@) && res is Some ==> (res matches Some((text, itag, range)) && (same matches Some(
            (text_2, itag_2, range_2),
        ) && text@ == text_2@ && itag.deep_view() == itag_2.deep_view() && range == range_2)),
{
}

/// A policy that is written and read again is the same, and bytes that are none are an
/// error that says why.
pub proof fn law_policy_reads_back(
    policy: &CachedPolicy,
    bytes: Result<Vec<u8>, Error>,
    again: Result<CachedPolicy, Error>,
    other: &Vec<u8>,
    read: Result<CachedPolicy, Error>,
    back: Result<Vec<u8>, Error>,
)
    requires
        call_ensures(CachedPolicy::to_bytes, (policy,), bytes),
        bytes matches Ok(b) ==> call_ensures(CachedPolicy::from_bytes, (&b,), again),
        call_ensures(CachedPolicy::from_bytes, (other,), read),
        read matches Ok(p) ==> call_ensures(CachedPolicy::to_bytes, (&p,), back),
    ensures
        bytes is Ok,
        again is Ok && again->Ok_0@ == policy@,
        read is Ok <==> policy_ok(other@),
        read is Ok ==> back is Ok && back->Ok_0@ == other@,
        read is Err ==> read->Err_0 is Proxy,
{
}

/// The policy of a request and its answer is what the rules of caches make of them.
pub proof fn law_policy_of(
    method: &str,
    target: &str,
    request_headers: &Vec<(String, String)>,
    status: u16,
    response_headers: &Vec<(String, String)>,
    secs: u64,
    nanos: u32,
    res: Option<CachedPolicy>,
)
    requires
        call_ensures(
            CachedPolicy::from_request_response,
            (method, target, request_headers, status, response_headers, secs, nanos),
            res,
        ),
    ensures
        res matches Some(p) ==> p@ == policy_text(
            (method@, target@, pair_views(request_headers@)),
            status,
            pair_views(response_headers@),
            secs,
            nanos,
        ),
{
}

/// Whether the age of what a policy is about can be counted at a time.
pub open spec fn countable(policy: Seq<u8>, secs: u64, nanos: u32) -> bool {
    secs <= 0x7fff_ffff_ffff_ffff && nanos < 1_000_000_000 && policy_age_header(policy) + secs
        < 0xffff_ffff_ffff_ffff
}

/// A response is fresh at a time if its policy fits the request and has not gone stale.
/// No answer is given at times at which the age cannot be counted; one is always given of
/// a policy that has gone stale and, in the years that dates can say, of one with few
/// quotation marks.
pub proof fn law_freshness(policy: &CachedPolicy, secs: u64, nanos: u32, res: Option<bool>)
    requires
        call_ensures(CachedPolicy::freshness, (policy, secs, nanos), res),
    ensures
        res matches Some(b) ==> (b <==> policy_matches(policy@) && !policy_stale(
            policy@,
            secs,
            nanos,
        )),
        res is Some ==> countable(policy@, secs, nanos),
        countable(policy@, secs, nanos) && policy_stale(policy@, secs, nanos) ==> res == Some(
            false,
        ),
        countable(policy@, secs, nanos) && secs < 253_402_300_800 && quotes(policy@) <= 26_000
            ==> res is Some,
{
}

/// Where an answer is given, it is whether the response is fresh.
pub proof fn law_is_fresh(
    policy: &CachedPolicy,
    secs: u64,
    nanos: u32,
    res: bool,
    answer: Option<bool>,
)
    requires
        call_ensures(CachedPolicy::is_fresh, (policy, secs, nanos), res),
        call_ensures(CachedPolicy::freshness, (policy, secs, nanos), answer),
    ensures
        answer is Some ==> answer == Some(res),
{
}

/// What is left of the time for which a response is fresh, where the age can be counted.
pub proof fn law_remaining(
    policy: &CachedPolicy,
    secs: u64,
    nanos: u32,
    res: Option<(u64, u32)>,
    left: (u64, u32),
    storable: bool,
)
    requires
        call_ensures(CachedPolicy::remaining, (policy, secs, nanos), res),
        call_ensures(CachedPolicy::time_to_live, (policy, secs, nanos), left),
        call_ensures(CachedPolicy::is_storable, (policy,), storable),
    ensures
        res is Some <==> countable(policy@, secs, nanos),
        res is Some ==> res == Some(left),
        left == policy_time_to_live(policy@, secs, nanos),
        storable == policy_storable(policy@),
{
}

} // verus!
