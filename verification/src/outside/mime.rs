//! Media types by file name.
use vstd::prelude::*;

verus! {

/// The media type that a path's extension stands for, by `mime_guess`.
pub uninterp spec fn guessed_mime(path: Seq<char>) -> Seq<char>;

/// `mime_guess::from_path`, of which the first guess is taken, or
/// `application/octet-stream` if there is none.
#[verifier::external_body]
pub(crate) fn guess_mime(path: &str) -> (res: String)
    ensures
        res@ == guessed_mime(path@),
{
    mime_guess::from_path(path).first_or_octet_stream().to_string()
}

} // verus!
