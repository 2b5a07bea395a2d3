//! The textual side of the protocol: the request message and the reading of
//! a received body as text.

use vstd::prelude::*;
use vstd::string::*;
use vstd::utf8::{decode_utf8, valid_utf8};

verus! {

/// What comes before the target in a request message.
pub const REQUEST_PREFIX: &'static str = "GET:";

/// The text `String::from_utf8_lossy` makes of `b`.
pub uninterp spec fn lossy_utf8(b: Seq<u8>) -> Seq<char>;

/// Relies on `String::from_utf8_lossy`: the text of the bytes, where each
/// invalid sequence is replaced by U+FFFD; valid UTF-8 is read as it stands.
#[verifier::external_body]
fn from_utf8_lossy(bytes: &[u8]) -> (r: String)
    ensures
        r@ == lossy_utf8(bytes@),
        valid_utf8(bytes@) ==> r@ == decode_utf8(bytes@),
{
    String::from_utf8_lossy(bytes).into_owned()
}

/// The request message for the target `url`: the prefix, then the target,
/// with no separator.
pub fn generate_request_from_url(url: &str) -> (r: String)
    ensures
        r@ == REQUEST_PREFIX@ + url@,
{
    REQUEST_PREFIX.to_owned().concat(url)
}

/// A received body read as text, invalid UTF-8 replaced.
pub fn response_to_string(content: Vec<u8>) -> (r: String)
    ensures
        r@ == lossy_utf8(content@),
        valid_utf8(content@) ==> r@ == decode_utf8(content@),
{
    from_utf8_lossy(content.as_slice())
}

} // verus!
