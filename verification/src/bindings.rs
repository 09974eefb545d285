//! Calls into code that is not verified here.
//!
//! Each function below is believed to behave as its contract says; nothing in
//! this crate proves it. The contracts are held to what the called functions
//! document.

use vstd::prelude::*;
use vstd::string::*;
use vstd::utf8::*;

verus! {

/// The failure value of `base64::decode`. Nothing is read from it: callers
/// only tell it apart from a success.
#[verifier::external_type_specification]
#[verifier::external_body]
pub struct ExDecodeError(base64::DecodeError);

/// The text that `base64::encode` returns for `payload`.
pub uninterp spec fn base64_text(payload: Seq<u8>) -> Seq<char>;

/// What `base64::decode` makes of `text`: the bytes it returns, or `None`
/// where it reports an error.
pub uninterp spec fn base64_payload(text: Seq<char>) -> Option<Seq<u8>>;

/// The characters of padded standard base-64: the sixty-four symbols of the
/// alphabet and the padding mark.
pub open spec fn is_base64_symbol(c: char) -> bool {
    ||| 'A' <= c <= 'Z'
    ||| 'a' <= c <= 'z'
    ||| '0' <= c <= '9'
    ||| c == '+'
    ||| c == '/'
    ||| c == '='
}

/// The length of the padded base-64 text of `n` bytes: four characters for
/// every three bytes, the last group filled up.
pub open spec fn base64_len(n: nat) -> nat {
    4 * ((n + 2) / 3)
}

/// What is taken for granted of the text that the encoder returns for
/// `payload`: it has the padded length, it is made of base-64 symbols only,
/// and the decoder takes it back to `payload`.
pub open spec fn encodes(payload: Seq<u8>, text: Seq<char>) -> bool {
    &&& text.len() == base64_len(payload.len())
    &&& forall|i: int| 0 <= i < text.len() ==> is_base64_symbol(#[trigger] text[i])
    &&& base64_payload(text) == Some(payload)
}

/// `base64::encode`, which encodes with the standard alphabet and padding.
///
/// Claimed: the result is `base64_text` of the input and satisfies
/// [`encodes`]. The encoder panics where the length of the text overflows
/// `usize`, and allocates a buffer of that length, which panics beyond
/// `isize::MAX` bytes: the call is kept below that.
#[verifier::external_body]
pub(crate) fn base64_encode(payload: &[u8]) -> (text: String)
    requires
        base64_len(payload@.len()) <= isize::MAX,
    ensures
        text@ == base64_text(payload@),
        encodes(payload@, text@),
{
    base64::encode(payload)
}

/// `base64::decode`, which decodes the standard alphabet.
///
/// Claimed: success and failure, and the bytes on success, are those named by
/// `base64_payload` for the text. The decoder rounds the length of the text
/// up to whole chunks with checked arithmetic, and allocates three bytes for
/// every four of the text; with a text of at most `isize::MAX` bytes neither
/// panics.
#[verifier::external_body]
pub(crate) fn base64_decode(text: &str) -> (outcome: Result<Vec<u8>, base64::DecodeError>)
    requires
        text.spec_bytes().len() <= isize::MAX,
    ensures
        match outcome {
            Ok(payload) => base64_payload(text@) == Some(payload@),
            Err(_) => base64_payload(text@) is None,
        },
{
    base64::decode(text)
}

/// `std::str::from_utf8`, with the position of a failure dropped.
///
/// Claimed: the bytes are accepted exactly when they are well-formed UTF-8,
/// and the text returned has those same bytes.
#[verifier::external_body]
pub(crate) fn utf8_text<'a>(bytes: &'a [u8]) -> (text: Option<&'a str>)
    ensures
        text is Some <==> valid_utf8(bytes@),
        text matches Some(s) ==> s.spec_bytes() == bytes@,
{
    match std::str::from_utf8(bytes) {
        Ok(text) => Some(text),
        Err(_) => None,
    }
}

} // verus!
