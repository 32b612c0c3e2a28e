//! Decompression.
use vstd::prelude::*;

verus! {

/// What a gzip stream decompresses to, by `flate2`; none if it is damaged.
pub uninterp spec fn gunzipped(data: Seq<u8>) -> Option<Seq<u8>>;

/// What a raw deflate stream decompresses to, by `flate2`; none if it is damaged.
pub uninterp spec fn inflated(data: Seq<u8>) -> Option<Seq<u8>>;

/// What a Brotli stream decompresses to, by `brotli`; none if it is damaged.
pub uninterp spec fn unbrotlied(data: Seq<u8>) -> Option<Seq<u8>>;

/// `flate2::read::GzDecoder`, read to its end.
#[verifier::external_body]
pub(crate) fn gunzip(data: &Vec<u8>) -> (res: Option<Vec<u8>>)
    ensures
        match res {
            Some(d) => gunzipped(data@) == Some(d@),
            None => gunzipped(data@) is None,
        },
{
    let mut out = Vec::new();
    let mut decoder = flate2::read::GzDecoder::new(data.as_slice());
    std::io::Read::read_to_end(&mut decoder, &mut out).ok().map(|_| out)
}

/// `flate2::read::DeflateDecoder`, read to its end.
#[verifier::external_body]
pub(crate) fn inflate(data: &Vec<u8>) -> (res: Option<Vec<u8>>)
    ensures
        match res {
            Some(d) => inflated(data@) == Some(d@),
            None => inflated(data@) is None,
        },
{
    let mut out = Vec::new();
    let mut decoder = flate2::read::DeflateDecoder::new(data.as_slice());
    std::io::Read::read_to_end(&mut decoder, &mut out).ok().map(|_| out)
}

/// `brotli::Decompressor`, read to its end.
#[verifier::external_body]
pub(crate) fn unbrotli(data: &Vec<u8>) -> (res: Option<Vec<u8>>)
    ensures
        match res {
            Some(d) => unbrotlied(data@) == Some(d@),
            None => unbrotlied(data@) is None,
        },
{
    let mut out = Vec::new();
    let mut decoder = brotli::Decompressor::new(data.as_slice(), 4096);
    std::io::Read::read_to_end(&mut decoder, &mut out).ok().map(|_| out)
}

} // verus!
