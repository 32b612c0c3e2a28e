//! The addresses of YouTube videos.
use crate::number::parse_u64;
#[allow(unused_imports)]
use crate::number::unsigned;
use crate::outside::url::parse_url;
#[allow(unused_imports)]
use crate::outside::url::{url_host, url_ok, url_pairs, url_path};
use crate::text::{contains, join, same, split_once};
#[allow(unused_imports)]
use crate::text::{cut, has_text, joined, opt, pair_views, views};
use vstd::prelude::*;

verus! {

/// What is kept of the address of a video: the address without what changes from
/// request to request, the format, and the range that is asked for.
pub type Normalized = (String, Option<String>, Option<(u64, u64)>);

/// The last value of a parameter.
pub open spec fn parameter(pairs: Seq<(Seq<char>, Seq<char>)>, key: Seq<char>) -> Option<Seq<char>>
    decreases pairs.len(),
{
    if pairs.len() == 0 {
        None
    } else if pairs.last().0 == key {
        Some(pairs.last().1)
    } else {
        parameter(pairs.drop_last(), key)
    }
}

/// The range that a text like `0-65535` writes.
pub open spec fn closed_range(s: Seq<char>) -> Option<(u64, u64)> {
    match cut(s, '-') {
        None => None,
        Some((a, b)) => match (
            unsigned(a, u64::MAX as nat),
            unsigned(b, u64::MAX as nat),
        ) {
            (Some(start), Some(end)) => Some((start as u64, end as u64)),
            _ => None,
        },
    }
}

/// The parameter `key` as it stands in an address, if there is one.
pub open spec fn kept_parameter(
    pairs: Seq<(Seq<char>, Seq<char>)>,
    key: Seq<char>,
) -> Seq<Seq<char>> {
    match parameter(pairs, key) {
        Some(v) => seq![key + "="@ + v],
        None => seq![],
    }
}

/// The parameters that stay the same from request to request, ordered by name.
pub open spec fn kept_parameters(pairs: Seq<(Seq<char>, Seq<char>)>) -> Seq<Seq<char>> {
    kept_parameter(pairs, "clen"@) + kept_parameter(pairs, "id"@) + kept_parameter(pairs, "itag"@)
        + kept_parameter(pairs, "video_id"@)
}

/// The address of a video, its format and the range that is asked for, from the parts
/// of the address.
pub open spec fn normalized_parts(
    host: Option<Seq<char>>,
    path: Seq<char>,
    pairs: Seq<(Seq<char>, Seq<char>)>,
) -> Option<(Seq<char>, Seq<char>, Option<(u64, u64)>)> {
    if !has_text(path, "videoplayback"@) {
        None
    } else {
        match (parameter(pairs, "itag"@), host) {
            (Some(itag), Some(h)) => Some(
                (
                    "https://"@ + h + "/videoplayback?"@ + joined(kept_parameters(pairs), "&"@),
                    itag,
                    match parameter(pairs, "range"@) {
                        Some(r) => closed_range(r),
                        None => None,
                    },
                ),
            ),
            _ => None,
        }
    }
}

/// What is kept of the address of a video; none if it is not the address of one.
pub open spec fn normalized(url: Seq<char>) -> Option<
    (Seq<char>, Seq<char>, Option<(u64, u64)>),
> {
    if url_ok(url) {
        normalized_parts(url_host(url), url_path(url), url_pairs(url))
    } else {
        None
    }
}

/// Whether an address looks like that of a video.
pub fn is_youtube_videoplayback(url: &str) -> (res: bool)
    ensures
        res == (has_text(url@, "/videoplayback"@) && has_text(url@, "itag="@)),
{
    contains(url, "/videoplayback") && contains(url, "itag=")
}

/// The last value of a parameter.
fn find_parameter<'a>(pairs: &'a Vec<(String, String)>, key: &str) -> (res: Option<&'a str>)
    ensures
        opt(res) == parameter(pair_views(pairs@), key@),
{
    let ghost all = pair_views(pairs@);
    let mut i: usize = pairs.len();
    assert(all.subrange(0, i as int) =~= all);
    while i > 0
        invariant
            i <= pairs@.len(),
            all == pair_views(pairs@),
            parameter(all, key@) == parameter(all.subrange(0, i as int), key@),
        decreases i,
    {
        proof {
            let here = all.subrange(0, i as int);
            assert(here.drop_last() =~= all.subrange(0, i - 1));
            assert(here.last() == (pairs@[i - 1].0@, pairs@[i - 1].1@));
        }
        i -= 1;
        if same(pairs[i].0.as_str(), key) {
            return Some(pairs[i].1.as_str());
        }
    }
    None
}

/// The range that a text like `0-65535` writes.
fn parse_closed_range(s: &str) -> (res: Option<(u64, u64)>)
    ensures
        res == closed_range(s@),
{
    let (a, b) = split_once(s, '-')?;
    let start = parse_u64(a.as_str())?;
    let end = parse_u64(b.as_str())?;
    Some((start, end))
}

/// Adds a parameter, if there is one, to those that are kept.
fn keep_parameter(kept: &mut Vec<String>, pairs: &Vec<(String, String)>, key: &str)
    ensures
        views(final(kept)@) == views(old(kept)@) + kept_parameter(pair_views(pairs@), key@),
{
    let ghost before = views(kept@);
    if let Some(v) = find_parameter(pairs, key) {
        let mut text: String = key.to_owned();
        text.append("=");
        text.append(v);
        let ghost t = text@;
        kept.push(text);
        assert(views(kept@) =~= before + seq![t]);
    } else {
        assert(views(kept@) =~= before + seq![]);
    }
}

/// What is kept of the address of a video, from the parts of the address.
pub fn normalize_parts(
    host: Option<&str>,
    path: &str,
    pairs: &Vec<(String, String)>,
) -> (res: Option<Normalized>)
    ensures
        match res {
            Some((text, Some(itag), range)) => normalized_parts(
                opt(host),
                path@,
                pair_views(pairs@),
            ) == Some((text@, itag@, range)),
            Some((_, None, _)) => false,
            None => normalized_parts(opt(host), path@, pair_views(pairs@)) is None,
        },
{
    if !contains(path, "videoplayback") {
        return None;
    }
    let itag = find_parameter(pairs, "itag")?.to_owned();
    let range = match find_parameter(pairs, "range") {
        Some(r) => parse_closed_range(r),
        None => None,
    };
    let h = host?;
    let mut kept: Vec<String> = Vec::new();
    assert(views(kept@) =~= seq![]);
    keep_parameter(&mut kept, pairs, "clen");
    keep_parameter(&mut kept, pairs, "id");
    keep_parameter(&mut kept, pairs, "itag");
    keep_parameter(&mut kept, pairs, "video_id");
    assert(views(kept@) =~= kept_parameters(pair_views(pairs@)));
    let mut text: String = "https://".to_owned();
    text.append(h);
    text.append("/videoplayback?");
    text.append(join(&kept, "&").as_str());
    Some((text, Some(itag), range))
}

/// What is kept of the address of a video: the address without what changes from
/// request to request, the format, and the range that is asked for.
pub fn normalize(url: &str) -> (res: Option<Normalized>)
    ensures
        match res {
            Some((text, Some(itag), range)) => normalized(url@) == Some((text@, itag@, range)),
            Some((_, None, _)) => false,
            None => normalized(url@) is None,
        },
{
    let u = parse_url(url)?;
    let host = match &u.host {
        Some(h) => Some(h.as_str()),
        None => None,
    };
    normalize_parts(host, u.path.as_str(), &u.pairs)
}

/// The file extension for a format of a video.
pub open spec fn itag_ext(itag: Seq<char>) -> Seq<char> {
    if itag == "242"@ || itag == "243"@ || itag == "244"@ || itag == "247"@ || itag == "248"@ || itag
        == "271"@ || itag == "313"@ {
        ".mp4"@
    } else if itag == "394"@ || itag == "395"@ || itag == "396"@ || itag == "397"@ || itag
        == "398"@ || itag == "399"@ || itag == "400"@ || itag == "401"@ {
        ".mp4"@
    } else if itag == "139"@ || itag == "140"@ || itag == "141"@ {
        ".m4a"@
    } else if itag == "171"@ || itag == "249"@ || itag == "250"@ || itag == "251"@ {
        ".webm"@
    } else if itag == "18"@ || itag == "22"@ || itag == "37"@ || itag == "38"@ {
        ".mp4"@
    } else if itag == "43"@ || itag == "44"@ || itag == "45"@ || itag == "46"@ {
        ".webm"@
    } else {
        ".bin"@
    }
}

/// The file extension for a format of a video.
pub fn itag_to_ext(itag: &str) -> (res: &'static str)
    ensures
        res@ == itag_ext(itag@),
{
    if same(itag, "242") || same(itag, "243") || same(itag, "244") || same(itag, "247") || same(
        itag,
        "248",
    ) || same(itag, "271") || same(itag, "313") {
        ".mp4"
    } else if same(itag, "394") || same(itag, "395") || same(itag, "396") || same(itag, "397")
        || same(itag, "398") || same(itag, "399") || same(itag, "400") || same(itag, "401") {
        ".mp4"
    } else if same(itag, "139") || same(itag, "140") || same(itag, "141") {
        ".m4a"
    } else if same(itag, "171") || same(itag, "249") || same(itag, "250") || same(itag, "251") {
        ".webm"
    } else if same(itag, "18") || same(itag, "22") || same(itag, "37") || same(itag, "38") {
        ".mp4"
    } else if same(itag, "43") || same(itag, "44") || same(itag, "45") || same(itag, "46") {
        ".webm"
    } else {
        ".bin"
    }
}

/// Two addresses of a video that differ only in what changes from request to request
/// (the parameters besides `clen`, `id`, `itag` and `video_id`) are kept as the same
/// address.
pub proof fn law_same_video(
    host: Seq<char>,
    path: Seq<char>,
    one: Seq<(Seq<char>, Seq<char>)>,
    other: Seq<(Seq<char>, Seq<char>)>,
)
    requires
        has_text(path, "videoplayback"@),
        parameter(one, "itag"@) is Some,
        parameter(one, "clen"@) == parameter(other, "clen"@),
        parameter(one, "id"@) == parameter(other, "id"@),
        parameter(one, "itag"@) == parameter(other, "itag"@),
        parameter(one, "video_id"@) == parameter(other, "video_id"@),
    ensures
        match (
            normalized_parts(Some(host), path, one),
            normalized_parts(Some(host), path, other),
        ) {
            (Some((url, itag, _)), Some((same_url, same_itag, _))) => url == same_url && itag
                == same_itag,
            _ => false,
        },
{
}

} // verus!
