//! Cache policies of `http_cache_semantics`, kept as the JSON text that writes them.
use http::{Request, Response};
use http_cache_semantics::{BeforeRequest, CachePolicy};
use std::time::{Duration, UNIX_EPOCH};
use vstd::prelude::*;

verus! {

/// The first second that `http_cache_semantics` does not date.
pub const END_OF_TIME: u64 = 253_402_300_800;

/// The most quotation marks around texts in a policy of which a response is put together.
pub const MOST_QUOTES: u64 = 26_000;

/// Why bytes are not the JSON text of a cache policy, as `serde_json` says it; none if
/// they are.
pub uninterp spec fn policy_error(data: Seq<u8>) -> Option<Seq<char>>;

/// Whether bytes are the JSON text of a cache policy.
pub open spec fn policy_ok(data: Seq<u8>) -> bool {
    policy_error(data) is None
}

/// The seconds in the policy's `Age` header.
pub uninterp spec fn policy_age_header(data: Seq<u8>) -> u64;

/// Whether the policy is that of a `GET` without headers for the policy's own address.
pub uninterp spec fn policy_matches(data: Seq<u8>) -> bool;

/// Whether the policy's response is stale at a time, given in seconds and nanoseconds
/// since 1970.
pub uninterp spec fn policy_stale(data: Seq<u8>, secs: u64, nanos: u32) -> bool;

/// Whether the policy lets the response be stored.
pub uninterp spec fn policy_storable(data: Seq<u8>) -> bool;

/// The seconds and nanoseconds that the policy's response stays fresh from a time on.
pub uninterp spec fn policy_time_to_live(data: Seq<u8>, secs: u64, nanos: u32) -> (u64, u32);

/// The JSON text of the policy of a request that was answered at a time.
pub uninterp spec fn policy_text(
    request: (Seq<char>, Seq<char>, Seq<(Seq<char>, Seq<char>)>),
    status: u16,
    headers: Seq<(Seq<char>, Seq<char>)>,
    secs: u64,
    nanos: u32,
) -> Seq<u8>;

/// Whether what comes after bytes of a JSON text is escaped by a backslash at their end.
pub open spec fn escapes(data: Seq<u8>) -> bool
    decreases data.len(),
{
    data.len() > 0 && data.last() == 92 && !escapes(data.drop_last())
}

/// The number of quotation marks in a JSON text that begin or end a text in it.
pub open spec fn quotes(data: Seq<u8>) -> nat
    decreases data.len(),
{
    if data.len() == 0 {
        0
    } else {
        quotes(data.drop_last()) + if data.last() == 34 && !escapes(data.drop_last()) {
            1nat
        } else {
            0nat
        }
    }
}

/// `http_cache_semantics::CachePolicy::new_options` for a request (method, address,
/// headers) that was answered at a time with a status and headers, as the text that
/// `serde_json` writes, its fields ordered by name.
#[verifier::external_body]
pub(crate) fn policy_of(
    method: &str,
    target: &str,
    asked: &Vec<(String, String)>,
    status: u16,
    headers: &Vec<(String, String)>,
    secs: u64,
    nanos: u32,
) -> (res: Vec<u8>)
    requires
        secs <= i64::MAX,
        nanos < 1_000_000_000,
    ensures
        res@ == policy_text(
            (method@, target@, crate::text::pair_views(asked@)),
            status,
            crate::text::pair_views(headers@),
            secs,
            nanos,
        ),
{
    let req = Request::builder().method(method).uri(target);
    let req = asked.iter().fold(req, |b, h| b.header(&h.0, &h.1)).body(());
    let res = Response::builder().status(status);
    let res = headers.iter().fold(res, |b, h| b.header(&h.0, &h.1)).body(());
    let (req, res) = (req.unwrap_or_default(), res.unwrap_or_default());
    let at = UNIX_EPOCH + Duration::new(secs, nanos);
    let policy = CachePolicy::new_options(&req, &res, at, Default::default());
    serde_json::to_value(&policy).and_then(|v| serde_json::to_vec(&v)).unwrap_or_default()
}

/// `serde_json::from_slice` into a `http_cache_semantics::CachePolicy`: what the error
/// says; none if the bytes write a policy.
#[verifier::external_body]
pub(crate) fn error_in_policy(data: &Vec<u8>) -> (res: Option<String>)
    ensures
        res.deep_view() == policy_error(data@),
{
    serde_json::from_slice::<CachePolicy>(data).err().map(|e| e.to_string())
}

/// `http_cache_semantics::CachePolicy::age` at the start of 1970, to which no time
/// spent in the cache has been added: the value of the `Age` header.
#[verifier::external_body]
pub(crate) fn age_header(data: &Vec<u8>) -> (res: u64)
    requires
        policy_ok(data@),
    ensures
        res == policy_age_header(data@),
{
    let policy: CachePolicy = serde_json::from_slice(data).unwrap();
    policy.age(UNIX_EPOCH).as_secs()
}

/// `http_cache_semantics::CachePolicy::is_stale`. It fails on an age beyond all seconds.
#[verifier::external_body]
pub(crate) fn is_policy_stale(data: &Vec<u8>, secs: u64, nanos: u32) -> (res: bool)
    requires
        policy_ok(data@),
        secs <= i64::MAX,
        nanos < 1_000_000_000,
        policy_age_header(data@) + secs < u64::MAX,
    ensures
        res == policy_stale(data@, secs, nanos),
{
    let policy: CachePolicy = serde_json::from_slice(data).unwrap();
    policy.is_stale(UNIX_EPOCH + Duration::new(secs, nanos))
}

/// `http_cache_semantics::CachePolicy::before_request` for a `GET` without headers of the
/// policy's own address, which a first call hands out: whether the policy is that of the
/// request, which does not depend on the time. A response that matches and is not stale is
/// put together, and that fails on a time that cannot be dated and where the headers cannot
/// be copied: a header map can be refused to grow once it holds 6554 names, and in a
/// policy's text every name and every value stands between quotation marks. Nothing is put
/// together where the response is stale.
#[verifier::external_body]
pub(crate) fn matches_policy(data: &Vec<u8>, secs: u64, nanos: u32) -> (res: bool)
    requires
        policy_ok(data@),
        secs <= i64::MAX,
        nanos < 1_000_000_000,
        policy_age_header(data@) + secs < u64::MAX,
        policy_stale(data@, secs, nanos) || (secs < END_OF_TIME && quotes(data@) <= MOST_QUOTES),
    ensures
        res == policy_matches(data@),
{
    let policy: CachePolicy = serde_json::from_slice(data).unwrap();
    let now = UNIX_EPOCH + Duration::new(secs, nanos);
    let mut req = Request::new(());
    if let BeforeRequest::Stale { request, .. } = policy.before_request(&req, now) {
        *req.uri_mut() = request.uri;
    }
    match policy.before_request(&req, now) {
        BeforeRequest::Fresh(_) => true,
        BeforeRequest::Stale { matches, .. } => matches,
    }
}

/// `http_cache_semantics::CachePolicy::is_storable`.
#[verifier::external_body]
pub(crate) fn is_policy_storable(data: &Vec<u8>) -> (res: bool)
    requires
        policy_ok(data@),
    ensures
        res == policy_storable(data@),
{
    let policy: CachePolicy = serde_json::from_slice(data).unwrap();
    policy.is_storable()
}

/// `http_cache_semantics::CachePolicy::time_to_live`. It fails on an age beyond all
/// seconds.
#[verifier::external_body]
pub(crate) fn time_to_live_of(data: &Vec<u8>, secs: u64, nanos: u32) -> (res: (u64, u32))
    requires
        policy_ok(data@),
        secs <= i64::MAX,
        nanos < 1_000_000_000,
        policy_age_header(data@) + secs < u64::MAX,
    ensures
        res == policy_time_to_live(data@, secs, nanos),
{
    let policy: CachePolicy = serde_json::from_slice(data).unwrap();
    let now = UNIX_EPOCH + Duration::new(secs, nanos);
    let left = policy.time_to_live(now);
    (left.as_secs(), left.subsec_nanos())
}

} // verus!
