//! What a guest computes on the buffers it is handed.
//!
//! A guest function receives the address of an encoded string and returns the
//! address of another. Between reading the one from its memory and leaving the
//! other there, it works on plain bytes: that work is here.

use vstd::prelude::*;
use vstd::string::*;
use vstd::utf8::*;

use crate::codec::{
    bytes_outcome, decode_limit, decode_with_termination, decoded, encode_with_termination,
    encoded, is_encoding_of, lemma_decode_inverts_encode,
};
use crate::error::ExchangeError;

verus! {

/// The greeting for `subject`: `Hello, `, the subject, and `!`.
pub open spec fn greeting(subject: Seq<u8>) -> Seq<u8> {
    encode_utf8("Hello, "@) + subject + encode_utf8("!"@)
}

/// The bytes of the encoded string whose payload is the payload of `subject`
/// back to front, or the reason why `subject` cannot be decoded or the
/// reversed payload cannot be encoded.
pub open spec fn reversed_exchange(subject: Seq<u8>) -> Result<Seq<u8>, ExchangeError> {
    match decoded(subject) {
        Err(e) => Err(e),
        Ok(payload) => match encoded(payload.reverse()) {
            Err(e) => Err(e),
            Ok(text) => Ok(encode_utf8(text)),
        },
    }
}

/// Greets `subject`.
pub fn greet(subject: &[u8]) -> (output: Vec<u8>)
    ensures
        output@ == greeting(subject@),
{
    let mut output: Vec<u8> = Vec::new();
    output.extend_from_slice("Hello, ".as_bytes());
    output.extend_from_slice(subject);
    output.extend_from_slice("!".as_bytes());
    output
}

/// The bytes of `bytes` in reverse order.
pub fn reversed(bytes: &[u8]) -> (output: Vec<u8>)
    ensures
        output@ == bytes@.reverse(),
{
    let mut output: Vec<u8> = Vec::new();
    let mut left: usize = bytes.len();
    while left > 0
        invariant
            left <= bytes.len(),
            output@.len() == bytes.len() - left,
            forall|i: int| 0 <= i < output@.len() ==> output@[i] == bytes@[bytes.len() - 1 - i],
        decreases left,
    {
        left -= 1;
        output.push(bytes[left]);
    }
    output
}

/// Decodes the encoded string `subject`, reverses its payload, and encodes
/// the result.
///
/// Fails as the decoding of `subject` fails, and with `EncodingTooLarge` where
/// the payload is too long to be encoded again.
pub fn reverse_array(subject: &Vec<u8>) -> (r: Result<Vec<u8>, ExchangeError>)
    ensures
        subject@.len() <= decode_limit() ==> bytes_outcome(r) == reversed_exchange(subject@),
        subject@.len() > decode_limit() ==> r == Err::<Vec<u8>, ExchangeError>(
            ExchangeError::BadBase64,
        ),
{
    let payload: Vec<u8> = match decode_with_termination(subject) {
        Ok(payload) => payload,
        Err(e) => {
            return Err(e);
        },
    };
    let backwards: Vec<u8> = reversed(payload.as_slice());
    match encode_with_termination(backwards.as_slice()) {
        Ok(text) => Ok(text.as_str().as_bytes_vec()),
        Err(e) => Err(e),
    }
}

/// The greeting spelled out: the seven bytes of `Hello, `, the subject, and
/// the byte of `!`.
pub proof fn lemma_greeting_bytes(subject: Seq<u8>)
    ensures
        greeting(subject) == seq![0x48u8, 0x65, 0x6c, 0x6c, 0x6f, 0x2c, 0x20] + subject + seq![
            0x21u8,
        ],
{
    reveal_strlit("Hello, ");
    reveal_strlit("!");
    let hello: Seq<char> = "Hello, "@;
    let bang: Seq<char> = "!"@;
    is_ascii_chars_encode_utf8(hello);
    is_ascii_chars_encode_utf8(bang);
}

/// Handed the encoded string of a payload, `reverse_array` answers with the
/// encoded string of the payload back to front.
pub proof fn lemma_reversed_exchange(payload: Seq<u8>, text: Seq<char>)
    requires
        is_encoding_of(text, payload),
    ensures
        encoded(payload.reverse()) is Ok,
        reversed_exchange(encode_utf8(text)) == Ok::<Seq<u8>, ExchangeError>(
            encode_utf8(encoded(payload.reverse())->Ok_0),
        ),
{
    lemma_decode_inverts_encode(payload, text);
}

} // verus!
