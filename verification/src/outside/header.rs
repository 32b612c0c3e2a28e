//! What may stand in an HTTP message: header names, header values, and the text in them.
use vstd::prelude::*;

verus! {

/// Whether a text is a header name, by `http::HeaderName::from_bytes`.
pub uninterp spec fn header_name_ok(s: Seq<char>) -> bool;

/// What `String::from_utf8_lossy` of the standard library makes of bytes.
pub uninterp spec fn lossy_text(data: Seq<u8>) -> Seq<char>;

/// Whether a byte may stand in a header value.
pub open spec fn is_value_byte(b: u8) -> bool {
    b >= 32 && b != 127 || b == 9
}

/// Whether a byte is a visible ASCII character, a space or a tab.
pub open spec fn is_visible_byte(b: u8) -> bool {
    b >= 32 && b < 127 || b == 9
}

/// Whether a text may be a header value.
pub open spec fn header_value_ok(s: Seq<char>) -> bool {
    forall|i: int|
        0 <= i < vstd::utf8::encode_utf8(s).len() ==> is_value_byte(
            #[trigger] vstd::utf8::encode_utf8(s)[i],
        )
}

/// `http::HeaderName::from_bytes`: whether the text is a header name.
#[verifier::external_body]
pub(crate) fn is_header_name(s: &str) -> (res: bool)
    ensures
        res == header_name_ok(s@),
{
    http::HeaderName::from_bytes(s.as_bytes()).is_ok()
}

/// `http::HeaderValue::from_str`: it takes a text of whose bytes each is a tab or at
/// least 32 and not 127.
#[verifier::external_body]
pub(crate) fn is_header_value(s: &str) -> (res: bool)
    ensures
        res == header_value_ok(s@),
{
    http::HeaderValue::from_str(s).is_ok()
}

/// `String::from_utf8_lossy` of the standard library: what is valid UTF-8 is decoded
/// as it is.
#[verifier::external_body]
fn text_of_bytes(data: &Vec<u8>) -> (res: String)
    ensures
        res@ == lossy_text(data@),
        vstd::utf8::valid_utf8(data@) ==> res@ == vstd::utf8::decode_utf8(data@),
{
    String::from_utf8_lossy(data).to_string()
}

/// The text of bytes: what they write in UTF-8, or else what `String::from_utf8_lossy`
/// makes of them.
pub open spec fn text_in(data: Seq<u8>) -> Seq<char> {
    if vstd::utf8::valid_utf8(data) {
        vstd::utf8::decode_utf8(data)
    } else {
        lossy_text(data)
    }
}

/// The text of bytes, whatever they are.
pub fn text_from(data: &Vec<u8>) -> (res: String)
    ensures
        res@ == text_in(data@),
        res@ == lossy_text(data@),
{
    text_of_bytes(data)
}

/// The text of a header value; none if a byte of it is not visible ASCII.
pub open spec fn visible(data: Seq<u8>) -> Option<Seq<char>> {
    if forall|i: int| 0 <= i < data.len() ==> is_visible_byte(#[trigger] data[i]) {
        Some(Seq::new(data.len(), |i: int| data[i] as char))
    } else {
        None
    }
}

/// The text of a header value, if it is visible ASCII.
pub fn visible_text(data: &Vec<u8>) -> (res: Option<String>)
    ensures
        res.deep_view() == visible(data@),
{
    let mut s: String = String::new();
    let mut i: usize = 0;
    while i < data.len()
        invariant
            i <= data@.len(),
            forall|k: int| 0 <= k < i ==> is_visible_byte(#[trigger] data@[k]),
            s@ == Seq::new(i as nat, |k: int| data@[k] as char),
        decreases data@.len() - i,
    {
        let b: u8 = data[i];
        if !(b >= 32 && b < 127 || b == 9) {
            assert(!is_visible_byte(data@[i as int]));
            return None;
        }
        s.push(b as char);
        i += 1;
        assert(s@ =~= Seq::new(i as nat, |k: int| data@[k] as char));
    }
    assert(s@ =~= Seq::new(data@.len(), |k: int| data@[k] as char));
    Some(s)
}

} // verus!
