//! Encoded strings: base-64 text closed by a sentinel.
//!
//! `encode_with_termination` turns a payload into an encoded string and
//! refuses payloads whose encoded string would exceed
//! [`MAX_ENCODED_LENGTH`]. `decode_with_termination` takes the bytes of an
//! encoded string back to the payload. The base-64 transform itself is the
//! `base64` crate's; this module owns its composition with the sentinel.

use vstd::prelude::*;
use vstd::string::*;
use vstd::utf8::*;

use crate::bindings::{
    base64_decode, base64_encode, base64_len, base64_payload, base64_text, encodes,
    is_base64_symbol, utf8_text,
};
use crate::error::ExchangeError;

verus! {

/// The byte that ends every encoded string: `-`, which no base-64 text holds.
pub const SENTINEL_BYTE: u8 = 0x2d;

/// The most bytes an encoded string may have, sentinel included.
pub const MAX_ENCODED_LENGTH: u8 = 64;

/// The longest input that `decode_with_termination` looks at: the most bytes
/// one allocation can hold.
pub open spec fn decode_limit() -> nat {
    isize::MAX as nat
}

/// The sentinel as text.
pub open spec fn sentinel() -> Seq<char> {
    seq!['-']
}

/// The sentinel as it appears among the bytes of an encoded string.
pub open spec fn sentinel_bytes() -> Seq<u8> {
    seq![SENTINEL_BYTE]
}

/// The length of the encoded string of a payload of `n` bytes.
pub open spec fn encoded_len(n: nat) -> nat {
    base64_len(n) + sentinel().len()
}

/// The encoded string of `payload`: its base-64 text and the sentinel, or
/// `EncodingTooLarge` where that is longer than [`MAX_ENCODED_LENGTH`].
pub open spec fn encoded(payload: Seq<u8>) -> Result<Seq<char>, ExchangeError> {
    if encoded_len(payload.len()) > MAX_ENCODED_LENGTH {
        Err(ExchangeError::EncodingTooLarge)
    } else {
        Ok(base64_text(payload) + sentinel())
    }
}

/// True when the base-64 encoder has kept its word for `payload`: its text
/// for `payload` is as [`encodes`] says.
pub open spec fn well_encoded(payload: Seq<u8>) -> bool {
    encodes(payload, base64_text(payload))
}

/// True when `text` is the encoded string of `payload` and the base-64
/// encoder has kept its word for `payload`: what `encode_with_termination`
/// establishes of every text it returns.
pub open spec fn is_encoding_of(text: Seq<char>, payload: Seq<u8>) -> bool {
    &&& encoded(payload) == Ok::<Seq<char>, ExchangeError>(text)
    &&& well_encoded(payload)
}

/// `text` closed by the sentinel, or `EncodingTooLarge` where the bytes of
/// the two together are more than [`MAX_ENCODED_LENGTH`].
pub open spec fn terminated(text: Seq<char>) -> Result<Seq<char>, ExchangeError> {
    if encode_utf8(text).len() + sentinel_bytes().len() > MAX_ENCODED_LENGTH {
        Err(ExchangeError::EncodingTooLarge)
    } else {
        Ok(text + sentinel())
    }
}

/// True when the last characters of `text` are the sentinel.
pub open spec fn ends_with_sentinel(text: Seq<char>) -> bool {
    &&& text.len() >= sentinel().len()
    &&& text.subrange(text.len() - sentinel().len(), text.len() as int) == sentinel()
}

/// `text` without its last characters, as many as the sentinel has.
pub open spec fn without_sentinel(text: Seq<char>) -> Seq<char> {
    text.subrange(0, text.len() - sentinel().len())
}

/// The base-64 part of the encoded string that the bytes `wire` spell:
/// `MalformedUtf8` where they are not text, `MissingSentinel` where the text
/// does not end in the sentinel.
pub open spec fn body_of(wire: Seq<u8>) -> Result<Seq<char>, ExchangeError> {
    if !valid_utf8(wire) {
        Err(ExchangeError::MalformedUtf8)
    } else if !ends_with_sentinel(decode_utf8(wire)) {
        Err(ExchangeError::MissingSentinel)
    } else {
        Ok(without_sentinel(decode_utf8(wire)))
    }
}

/// The payload that the bytes `wire` of an encoded string stand for, or the
/// reason why they stand for none.
pub open spec fn decoded(wire: Seq<u8>) -> Result<Seq<u8>, ExchangeError> {
    match body_of(wire) {
        Err(e) => Err(e),
        Ok(body) => match base64_payload(body) {
            Some(payload) => Ok(payload),
            None => Err(ExchangeError::BadBase64),
        },
    }
}

/// A text result seen as a sequence of characters.
pub open spec fn text_outcome(r: Result<String, ExchangeError>) -> Result<Seq<char>, ExchangeError> {
    match r {
        Ok(text) => Ok(text@),
        Err(e) => Err(e),
    }
}

/// A byte result seen as a sequence of bytes.
pub open spec fn bytes_outcome(r: Result<Vec<u8>, ExchangeError>) -> Result<Seq<u8>, ExchangeError> {
    match r {
        Ok(bytes) => Ok(bytes@),
        Err(e) => Err(e),
    }
}

/// The text that ends every encoded string.
pub fn get_termination_sequence() -> (s: String)
    ensures
        s@ == sentinel(),
{
    let lit: &str = "-";
    proof {
        reveal_strlit("-");
    }
    lit.to_owned()
}

/// The upper bound on the length of an encoded string.
pub fn get_max_length() -> (n: u8)
    ensures
        n == MAX_ENCODED_LENGTH,
{
    MAX_ENCODED_LENGTH
}

/// Closes base-64 text with the sentinel, unless the result would be longer
/// than an encoded string may be.
pub fn append_termination(text: String) -> (r: Result<String, ExchangeError>)
    ensures
        text_outcome(r) == terminated(text@),
{
    let len: usize = text.as_str().as_bytes().len();
    if len > (MAX_ENCODED_LENGTH - 1) as usize {
        return Err(ExchangeError::EncodingTooLarge);
    }
    proof {
        reveal_strlit("-");
        assert("-"@ =~= sentinel());
    }
    Ok(text.concat("-"))
}

/// Encodes `input` as base-64 text closed by the sentinel.
///
/// Fails with `EncodingTooLarge`, and encodes nothing, where the text and the
/// sentinel together would be longer than [`MAX_ENCODED_LENGTH`].
pub fn encode_with_termination(input: &[u8]) -> (r: Result<String, ExchangeError>)
    ensures
        text_outcome(r) == encoded(input@),
        r matches Ok(text) ==> is_encoding_of(text@, input@),
{
    let n: usize = input.len();
    // The text is not shorter than the payload, so this payload is too long;
    // what is left is short enough to have its length worked out.
    if n > MAX_ENCODED_LENGTH as usize {
        return Err(ExchangeError::EncodingTooLarge);
    }
    let text_len: usize = 4 * ((n + 2) / 3);
    if text_len + 1 > MAX_ENCODED_LENGTH as usize {
        return Err(ExchangeError::EncodingTooLarge);
    }
    let text = base64_encode(input);
    proof {
        lemma_base64_symbols(text@);
    }
    append_termination(text)
}

/// Checks that `input` is text closed by the sentinel and hands out the text
/// before the sentinel.
pub fn strip_termination<'a>(input: &'a [u8]) -> (r: Result<&'a str, ExchangeError>)
    ensures
        match r {
            Ok(body) => body_of(input@) == Ok::<Seq<char>, ExchangeError>(body@)
                && body.spec_bytes() == input@.drop_last(),
            Err(e) => body_of(input@) == Err::<Seq<char>, ExchangeError>(e),
        },
{
    let text: &str = match utf8_text(input) {
        Some(t) => t,
        None => {
            return Err(ExchangeError::MalformedUtf8);
        },
    };
    let n: usize = input.len();
    if n == 0 || input[n - 1] != SENTINEL_BYTE {
        proof {
            lemma_sentinel_byte_missing(input@);
        }
        return Err(ExchangeError::MissingSentinel);
    }
    proof {
        lemma_sentinel_byte_closes(input@);
    }
    let (body, _sentinel) = text.split_at(n - 1);
    proof {
        encode_utf8_decode_utf8(body@);
    }
    Ok(body)
}

/// What a decode returns once the base-64 decoder has spoken: its bytes, or
/// `BadBase64` in place of its error.
pub fn payload_of(outcome: Result<Vec<u8>, base64::DecodeError>) -> (r: Result<
    Vec<u8>,
    ExchangeError,
>)
    ensures
        match outcome {
            Ok(payload) => r == Ok::<Vec<u8>, ExchangeError>(payload),
            Err(_) => r == Err::<Vec<u8>, ExchangeError>(ExchangeError::BadBase64),
        },
{
    match outcome {
        Ok(payload) => Ok(payload),
        Err(_) => Err(ExchangeError::BadBase64),
    }
}

/// Recovers the payload from the bytes of an encoded string.
///
/// Fails with `MalformedUtf8` where the bytes are not text, with
/// `MissingSentinel` where the text does not end in the sentinel, and with
/// `BadBase64` where what precedes the sentinel is not base-64. No bound is
/// put on the length, except that an input of more than [`decode_limit`]
/// bytes, which no buffer holds, is refused as `BadBase64` unread.
pub fn decode_with_termination(input: &Vec<u8>) -> (r: Result<Vec<u8>, ExchangeError>)
    ensures
        input@.len() <= decode_limit() ==> bytes_outcome(r) == decoded(input@),
        input@.len() > decode_limit() ==> r == Err::<Vec<u8>, ExchangeError>(
            ExchangeError::BadBase64,
        ),
{
    if input.len() > isize::MAX as usize {
        return Err(ExchangeError::BadBase64);
    }
    match strip_termination(input.as_slice()) {
        Err(e) => Err(e),
        Ok(body) => payload_of(base64_decode(body)),
    }
}

/// Base-64 text is ASCII and holds no sentinel.
pub proof fn lemma_base64_symbols(text: Seq<char>)
    requires
        forall|i: int| 0 <= i < text.len() ==> is_base64_symbol(#[trigger] text[i]),
    ensures
        is_ascii_chars(text),
        encode_utf8(text).len() == text.len(),
        forall|i: int| 0 <= i < text.len() ==> #[trigger] encode_utf8(text)[i] == text[i] as u8,
        forall|i: int| 0 <= i < text.len() ==> #[trigger] text[i] != '-',
        forall|i: int| 0 <= i < text.len() ==> #[trigger] encode_utf8(text)[i] != SENTINEL_BYTE,
{
    is_ascii_chars_encode_utf8(text);
}

/// The sentinel is one ASCII character, so its text and its bytes are each
/// other's UTF-8 reading.
pub proof fn lemma_sentinel_utf8()
    ensures
        encode_utf8(sentinel()) == sentinel_bytes(),
        valid_utf8(sentinel_bytes()),
        decode_utf8(sentinel_bytes()) == sentinel(),
{
    reveal_with_fuel(encode_utf8, 2);
    let c: u32 = '-' as u32;
    assert((c & 0x7F) as u8 == 0x2du8) by (bit_vector)
        requires
            c == 0x2d,
    ;
    encode_utf8_valid_utf8(sentinel());
    encode_utf8_decode_utf8(sentinel());
}

/// The bytes of two texts in a row are the bytes of the first followed by
/// the bytes of the second.
pub proof fn lemma_encode_utf8_concat(a: Seq<char>, b: Seq<char>)
    ensures
        encode_utf8(a + b) == encode_utf8(a) + encode_utf8(b),
    decreases a.len(),
{
    if a.len() > 0 {
        assert((a + b).drop_first() =~= a.drop_first() + b);
        lemma_encode_utf8_concat(a.drop_first(), b);
    }
}

/// The bytes of a text that ends in the sentinel are the bytes of what
/// precedes it, followed by the sentinel byte.
pub proof fn lemma_sentinel_char_closes(text: Seq<char>)
    requires
        ends_with_sentinel(text),
    ensures
        encode_utf8(text) == encode_utf8(without_sentinel(text)) + sentinel_bytes(),
{
    assert(text =~= without_sentinel(text) + sentinel());
    lemma_encode_utf8_concat(without_sentinel(text), sentinel());
    lemma_sentinel_utf8();
}

/// Well-formed bytes whose last one is the sentinel byte spell a text that
/// ends in the sentinel; the bytes before it are well-formed and spell the
/// rest.
pub proof fn lemma_sentinel_byte_closes(wire: Seq<u8>)
    requires
        valid_utf8(wire),
        wire.len() > 0,
        wire.last() == SENTINEL_BYTE,
    ensures
        is_char_boundary(wire, wire.len() - 1),
        valid_utf8(wire.drop_last()),
        ends_with_sentinel(decode_utf8(wire)),
        without_sentinel(decode_utf8(wire)) == decode_utf8(wire.drop_last()),
{
    let n: int = wire.len() as int;
    is_char_boundary_iff_not_is_continuation_byte(wire, n - 1);
    valid_utf8_split(wire, n - 1);
    decode_utf8_split(wire, n - 1);
    assert(wire.subrange(n - 1, n) =~= sentinel_bytes());
    lemma_sentinel_utf8();
    let text: Seq<char> = decode_utf8(wire);
    assert(text.subrange(text.len() - sentinel().len(), text.len() as int) =~= sentinel());
}

/// Well-formed bytes that are empty, or whose last one is not the sentinel
/// byte, spell a text that does not end in the sentinel.
pub proof fn lemma_sentinel_byte_missing(wire: Seq<u8>)
    requires
        valid_utf8(wire),
        wire.len() == 0 || wire.last() != SENTINEL_BYTE,
    ensures
        !ends_with_sentinel(decode_utf8(wire)),
{
    let text: Seq<char> = decode_utf8(wire);
    if ends_with_sentinel(text) {
        decode_utf8_encode_utf8(wire);
        lemma_sentinel_char_closes(text);
    }
}

/// Decoding takes the bytes of an encoded string back to the payload it was
/// made from.
pub proof fn lemma_decode_inverts_encode(payload: Seq<u8>, text: Seq<char>)
    requires
        is_encoding_of(text, payload),
    ensures
        decoded(encode_utf8(text)) == Ok::<Seq<u8>, ExchangeError>(payload),
{
    encode_utf8_valid_utf8(text);
    encode_utf8_decode_utf8(text);
    assert(text.subrange(text.len() - sentinel().len(), text.len() as int) =~= sentinel());
    assert(without_sentinel(text) =~= base64_text(payload));
}

/// An encoded string is at most [`MAX_ENCODED_LENGTH`] characters long, all
/// of them ASCII, and holds the sentinel once: as its last character.
pub proof fn lemma_single_sentinel(payload: Seq<u8>, text: Seq<char>)
    requires
        is_encoding_of(text, payload),
    ensures
        text.len() == encoded_len(payload.len()),
        text.len() <= MAX_ENCODED_LENGTH,
        is_ascii_chars(text),
        encode_utf8(text).len() == text.len(),
        ends_with_sentinel(text),
        forall|i: int| 0 <= i < text.len() - 1 ==> #[trigger] text[i] != '-',
        forall|i: int| 0 <= i < text.len() - 1 ==> #[trigger] encode_utf8(text)[i] != SENTINEL_BYTE,
        encode_utf8(text).last() == SENTINEL_BYTE,
{
    let body: Seq<char> = base64_text(payload);
    lemma_base64_symbols(body);
    lemma_encode_utf8_concat(body, sentinel());
    lemma_sentinel_utf8();
    assert(text.subrange(text.len() - sentinel().len(), text.len() as int) =~= sentinel());
}

/// The encoded string of a payload is its base-64 text closed by the
/// sentinel, and it is refused exactly when that text, measured in bytes, has
/// no room for the sentinel.
pub proof fn lemma_encoded_is_terminated(payload: Seq<u8>)
    requires
        well_encoded(payload),
    ensures
        encoded(payload) == terminated(base64_text(payload)),
{
    lemma_base64_symbols(base64_text(payload));
}

/// A payload whose encoded string would be one character longer than an
/// encoded string may be is refused.
pub proof fn lemma_boundary_rejection(payload: Seq<u8>)
    requires
        encoded_len(payload.len()) == MAX_ENCODED_LENGTH + 1,
    ensures
        encoded(payload) == Err::<Seq<char>, ExchangeError>(ExchangeError::EncodingTooLarge),
{
}

/// The payloads that fit are those of at most forty-five bytes.
pub proof fn lemma_largest_payload(payload: Seq<u8>)
    ensures
        encoded(payload) is Ok <==> payload.len() <= 45,
{
}

/// The bytes of a text that does not end in the sentinel decode to
/// `MissingSentinel`.
pub proof fn lemma_missing_sentinel(text: Seq<char>)
    requires
        !ends_with_sentinel(text),
    ensures
        decoded(encode_utf8(text)) == Err::<Seq<u8>, ExchangeError>(
            ExchangeError::MissingSentinel,
        ),
{
    encode_utf8_valid_utf8(text);
    encode_utf8_decode_utf8(text);
}

/// The bytes of a text that ends in the sentinel, but whose part before the
/// sentinel the base-64 decoder rejects, decode to `BadBase64`.
pub proof fn lemma_bad_base64(text: Seq<char>)
    requires
        ends_with_sentinel(text),
        base64_payload(without_sentinel(text)) is None,
    ensures
        decoded(encode_utf8(text)) == Err::<Seq<u8>, ExchangeError>(ExchangeError::BadBase64),
{
    encode_utf8_valid_utf8(text);
    encode_utf8_decode_utf8(text);
}

/// Bytes that are not text decode to `MalformedUtf8`.
pub proof fn lemma_malformed_utf8(wire: Seq<u8>)
    requires
        !valid_utf8(wire),
    ensures
        decoded(wire) == Err::<Seq<u8>, ExchangeError>(ExchangeError::MalformedUtf8),
{
}

} // verus!
