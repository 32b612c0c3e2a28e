//! Parsing URLs.
use vstd::prelude::*;

verus! {

/// Whether a text is a URL, by `url::Url::parse`.
pub uninterp spec fn url_ok(s: Seq<char>) -> bool;

/// The host of a URL, by `url::Url::host_str`.
pub uninterp spec fn url_host(s: Seq<char>) -> Option<Seq<char>>;

/// The path of a URL, by `url::Url::path`.
pub uninterp spec fn url_path(s: Seq<char>) -> Seq<char>;

/// The query of a URL, by `url::Url::query`.
pub uninterp spec fn url_query(s: Seq<char>) -> Option<Seq<char>>;

/// The names and values of the query of a URL, decoded, in the order in which they
/// stand there, by `url::Url::query_pairs`.
pub uninterp spec fn url_pairs(s: Seq<char>) -> Seq<(Seq<char>, Seq<char>)>;

/// The URL that a reference stands for on a page, by `url::Url::join`; none if the
/// page's own address is not a URL or the two do not make one.
pub uninterp spec fn url_join(base: Seq<char>, reference: Seq<char>) -> Option<Seq<char>>;

/// The parts of a URL that this library reads.
pub struct UrlParts {
    pub host: Option<String>,
    pub path: String,
    pub query: Option<String>,
    pub pairs: Vec<(String, String)>,
}

/// `url::Url::parse` and, of the URL, `host_str`, `path`, `query` and `query_pairs`.
/// The query is percent-encoded ASCII text.
#[verifier::external_body]
pub(crate) fn parse_url(s: &str) -> (res: Option<UrlParts>)
    ensures
        res is Some == url_ok(s@),
        res matches Some(u) ==> u.host.deep_view() == url_host(s@),
        res matches Some(u) ==> u.path@ == url_path(s@),
        res matches Some(u) ==> u.query.deep_view() == url_query(s@),
        res matches Some(u) ==> crate::text::pair_views(u.pairs@) == url_pairs(s@),
        res matches Some(u) ==> (u.query matches Some(q) ==> vstd::utf8::is_ascii_chars(q@)),
{
    let u = url::Url::parse(s).ok()?;
    Some(
        UrlParts {
            host: u.host_str().map(str::to_string),
            path: u.path().to_string(),
            query: u.query().map(str::to_string),
            pairs: u.query_pairs().map(|(k, v)| (k.to_string(), v.to_string())).collect(),
        },
    )
}

/// `url::Url::parse` of the page's address and `url::Url::join` with the reference.
#[verifier::external_body]
pub(crate) fn join_url(base: &str, reference: &str) -> (res: Option<String>)
    ensures
        res.deep_view() == url_join(base@, reference@),
{
    url::Url::parse(base).ok()?.join(reference).ok().map(|u| u.to_string())
}

} // verus!
