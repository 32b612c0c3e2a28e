//! Cache policies: how long a response may be served from the cache.
use crate::cache::entry::clone_bytes;
use crate::error::Error;
use crate::outside::policy::{
    age_header, error_in_policy, is_policy_stale, is_policy_storable, matches_policy, policy_of,
    time_to_live_of, END_OF_TIME, MOST_QUOTES,
};
#[allow(unused_imports)]
use crate::outside::policy::{
    escapes, policy_age_header, policy_error, policy_matches, policy_ok, policy_stale, policy_storable,
    policy_text, policy_time_to_live, quotes,
};
#[allow(unused_imports)]
use crate::text::pair_views;
use vstd::prelude::*;

verus! {

/// A cache policy, as the text that writes it.
#[derive(Debug)]
pub struct CachedPolicy {
    bytes: Vec<u8>,
}

impl View for CachedPolicy {
    type V = Seq<u8>;

    closed spec fn view(&self) -> Seq<u8> {
        self.bytes@
    }
}

/// Whether a policy can say how old its response is at a time: the time can be counted,
/// and so can the age.
pub open spec fn has_age_at(policy: Seq<u8>, secs: u64, nanos: u32) -> bool {
    secs <= i64::MAX && nanos < 1_000_000_000 && policy_age_header(policy) + secs < u64::MAX
}

/// The last second that can be counted.
pub const LAST_SECOND: u64 = 0x7fff_ffff_ffff_ffff;

/// Whether a response is stale at some time that can be counted.
pub open spec fn ends(policy: Seq<u8>) -> bool {
    has_age_at(policy, LAST_SECOND, 0) && policy_stale(policy, LAST_SECOND, 0)
}

/// Whether a policy can say if its response is fresh at a time: it has an age, and the
/// response is stale then or at the end of all time. Of a response that never ends, the
/// time has to be one that can be dated, and the headers so few that they can be copied.
pub open spec fn answers_at(policy: Seq<u8>, secs: u64, nanos: u32) -> bool {
    has_age_at(policy, secs, nanos) && (policy_stale(policy, secs, nanos) || ends(policy) || (secs
        < END_OF_TIME && quotes(policy) <= MOST_QUOTES))
}

/// Whether a response is fresh at a time: the policy is that of the request, and the
/// response is not stale.
pub open spec fn policy_fresh(policy: Seq<u8>, secs: u64, nanos: u32) -> bool {
    policy_matches(policy) && !policy_stale(policy, secs, nanos)
}

/// Whether at most `MOST_QUOTES` quotation marks begin or end a text.
fn few_quotes(data: &Vec<u8>) -> (res: bool)
    ensures
        res == (quotes(data@) <= MOST_QUOTES),
{
    let mut n: u64 = 0;
    let mut escaped: bool = false;
    let mut i: usize = 0;
    while i < data.len()
        invariant
            i <= data@.len(),
            n <= MOST_QUOTES,
            escaped == escapes(data@.subrange(0, i as int)),
            n == quotes(data@.subrange(0, i as int)),
        decreases data@.len() - i,
    {
        assert(data@.subrange(0, i + 1).drop_last() =~= data@.subrange(0, i as int));
        if data[i] == 34 && !escaped {
            if n == MOST_QUOTES {
                proof {
                    lemma_quotes_grow(data@, i + 1);
                }
                return false;
            }
            n += 1;
        }
        escaped = data[i] == 92 && !escaped;
        i += 1;
    }
    assert(data@.subrange(0, i as int) =~= data@);
    true
}

/// There are at least as many quotation marks as among the first bytes.
proof fn lemma_quotes_grow(s: Seq<u8>, n: int)
    requires
        0 <= n <= s.len(),
    ensures
        quotes(s.subrange(0, n)) <= quotes(s),
    decreases s.len() - n,
{
    if n == s.len() {
        assert(s.subrange(0, n) =~= s);
    } else {
        assert(s.subrange(0, n + 1).drop_last() =~= s.subrange(0, n));
        lemma_quotes_grow(s, n + 1);
    }
}

impl CachedPolicy {
    /// The bytes write a policy.
    #[verifier::type_invariant]
    spec fn valid(self) -> bool {
        policy_ok(self.bytes@)
    }

    /// The policy of a request that was answered at a time; none if its text does not
    /// read back. The text leaves out header values that are not visible ASCII.
    pub fn from_request_response(
        method: &str,
        target: &str,
        request_headers: &Vec<(String, String)>,
        status: u16,
        response_headers: &Vec<(String, String)>,
        secs: u64,
        nanos: u32,
    ) -> (res: Option<CachedPolicy>)
        requires
            secs <= i64::MAX,
            nanos < 1_000_000_000,
        ensures
            ({
                let text = policy_text(
                    (method@, target@, pair_views(request_headers@)),
                    status,
                    pair_views(response_headers@),
                    secs,
                    nanos,
                );
                match res {
                    Some(p) => policy_ok(text) && p@ == text,
                    None => !policy_ok(text),
                }
            }),
    {
        let bytes = policy_of(
            method,
            target,
            request_headers,
            status,
            response_headers,
            secs,
            nanos,
        );
        if error_in_policy(&bytes).is_none() {
            Some(CachedPolicy { bytes })
        } else {
            None
        }
    }

    /// Whether the policy can say how old its response is at a time.
    fn counts(&self, secs: u64, nanos: u32) -> (res: bool)
        ensures
            res == has_age_at(self@, secs, nanos),
    {
        proof {
            use_type_invariant(self);
        }
        secs <= LAST_SECOND && nanos < 1_000_000_000 && age_header(&self.bytes) < u64::MAX - secs
    }

    /// Whether the response is stale at some time that can be counted.
    fn has_end(&self) -> (res: bool)
        ensures
            res == ends(self@),
    {
        proof {
            use_type_invariant(self);
        }
        self.counts(LAST_SECOND, 0) && is_policy_stale(&self.bytes, LAST_SECOND, 0)
    }

    /// Whether the response is still fresh at a time.
    pub fn is_fresh(&self, secs: u64, nanos: u32) -> (res: bool)
        requires
            answers_at(self@, secs, nanos),
        ensures
            res == policy_fresh(self@, secs, nanos),
    {
        proof {
            use_type_invariant(self);
        }
        if is_policy_stale(&self.bytes, secs, nanos) {
            false
        } else if self.has_end() {
            matches_policy(&self.bytes, LAST_SECOND, 0)
        } else {
            matches_policy(&self.bytes, secs, nanos)
        }
    }

    /// Whether the response is still fresh at a time; none if the policy cannot say.
    pub fn freshness(&self, secs: u64, nanos: u32) -> (res: Option<bool>)
        ensures
            res == if answers_at(self@, secs, nanos) {
                Some(policy_fresh(self@, secs, nanos))
            } else {
                None
            },
    {
        proof {
            use_type_invariant(self);
        }
        if self.counts(secs, nanos) && (is_policy_stale(&self.bytes, secs, nanos) || self.has_end()
            || (secs < END_OF_TIME && few_quotes(&self.bytes))) {
            Some(self.is_fresh(secs, nanos))
        } else {
            None
        }
    }

    /// Whether the response may be stored.
    pub fn is_storable(&self) -> (res: bool)
        ensures
            res == policy_storable(self@),
    {
        proof {
            use_type_invariant(self);
        }
        is_policy_storable(&self.bytes)
    }

    /// How long the response stays fresh from a time on, in seconds and nanoseconds.
    pub fn time_to_live(&self, secs: u64, nanos: u32) -> (res: (u64, u32))
        requires
            has_age_at(self@, secs, nanos),
        ensures
            res == policy_time_to_live(self@, secs, nanos),
    {
        proof {
            use_type_invariant(self);
        }
        time_to_live_of(&self.bytes, secs, nanos)
    }

    /// How long the response stays fresh from a time on; none if the policy cannot say.
    pub fn remaining(&self, secs: u64, nanos: u32) -> (res: Option<(u64, u32)>)
        ensures
            res == if has_age_at(self@, secs, nanos) {
                Some(policy_time_to_live(self@, secs, nanos))
            } else {
                None
            },
    {
        if self.counts(secs, nanos) {
            Some(self.time_to_live(secs, nanos))
        } else {
            None
        }
    }

    /// The bytes that write the policy. They read back as it.
    pub fn to_bytes(&self) -> (res: Result<Vec<u8>, Error>)
        ensures
            res matches Ok(bytes) && bytes@ == self@ && policy_ok(bytes@),
    {
        proof {
            use_type_invariant(self);
        }
        Ok(clone_bytes(&self.bytes))
    }

    /// The policy that bytes write, or an error that says why they write none.
    pub fn from_bytes(bytes: &Vec<u8>) -> (res: Result<CachedPolicy, Error>)
        ensures
            match (policy_error(bytes@), res) {
                (None, Ok(p)) => p@ == bytes@,
                (Some(why), Err(Error::Proxy(text))) => text@
                    == "Failed to deserialize cache policy: "@ + why,
                _ => false,
            },
    {
        match error_in_policy(bytes) {
            None => Ok(CachedPolicy { bytes: clone_bytes(bytes) }),
            Some(why) => {
                let mut text: String = "Failed to deserialize cache policy: ".to_owned();
                text.append(why.as_str());
                Err(Error::Proxy(text))
            },
        }
    }
}

impl Clone for CachedPolicy {
    fn clone(&self) -> (res: Self)
        ensures
            res@ == self@,
    {
        proof {
            use_type_invariant(self);
        }
        CachedPolicy { bytes: clone_bytes(&self.bytes) }
    }
}

} // verus!
