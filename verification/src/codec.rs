//! Encodings of bytes and texts.
use vstd::prelude::*;
use vstd::utf8::*;

use base64ct::Encoding;

verus! {

/// `String::from_utf8`: the text that the bytes encode, or `None` where they are
/// not valid UTF-8.
#[verifier::external_body]
pub(crate) fn text_of(bytes: Vec<u8>) -> (r: Option<String>)
    ensures
        match r {
            Some(s) => valid_utf8(bytes@) && s@ == decode_utf8(bytes@),
            None => !valid_utf8(bytes@),
        },
{
    String::from_utf8(bytes).ok()
}

/// The text that `String::from_utf8_lossy` makes of bytes.
pub uninterp spec fn lossy(bytes: Seq<u8>) -> Seq<char>;

/// `String::from_utf8_lossy`: the text that the bytes encode where they are valid
/// UTF-8; otherwise invalid parts are replaced.
#[verifier::external_body]
pub(crate) fn text_of_lossy(bytes: &[u8]) -> (r: String)
    ensures
        r@ == lossy(bytes@),
        valid_utf8(bytes@) ==> r@ == decode_utf8(bytes@),
{
    String::from_utf8_lossy(bytes).into_owned()
}

/// The text that the `Debug` formatting of a `str` writes: the text in double
/// quotes, with its special characters escaped.
pub uninterp spec fn debug_text(s: Seq<char>) -> Seq<char>;

/// `format!("{:?}", ..)` of a `str`.
#[verifier::external_body]
pub(crate) fn quoted(s: &str) -> (r: String)
    ensures
        r@ == debug_text(s@),
{
    format!("{s:?}")
}

/// What `base64ct::Base64UrlUnpadded::decode_vec` decodes a text to: its bytes,
/// or nothing where it is not the URL-safe Base64 notation without padding.
pub uninterp spec fn base64_url(s: Seq<char>) -> Option<Seq<u8>>;

/// `base64ct::Base64UrlUnpadded::decode_vec`: the decoded bytes, or `None` for
/// its error.
#[verifier::external_body]
pub(crate) fn decode_base64_url(s: &str) -> (r: Option<Vec<u8>>)
    ensures
        match r {
            Some(bytes) => base64_url(s@) == Some(bytes@),
            None => base64_url(s@) is None,
        },
{
    base64ct::Base64UrlUnpadded::decode_vec(s).ok()
}

/// What `base64ct::Base64::decode_vec` decodes a text to: its bytes, or nothing
/// where it is not the standard Base64 notation with padding.
pub uninterp spec fn base64_standard(s: Seq<char>) -> Option<Seq<u8>>;

/// `base64ct::Base64::decode_vec`: the decoded bytes, or `None` for its error.
#[verifier::external_body]
pub(crate) fn decode_base64(s: &str) -> (r: Option<Vec<u8>>)
    ensures
        match r {
            Some(bytes) => base64_standard(s@) == Some(bytes@),
            None => base64_standard(s@) is None,
        },
{
    base64ct::Base64::decode_vec(s).ok()
}

} // verus!
