//! Finding the end of an encoded string in guest memory.
//!
//! A guest function returns one integer: the address at which the encoded
//! string of its result starts. The host recovers the byte range by reading
//! forward from that address until it meets the sentinel. Encoded strings are
//! at most [`MAX_ENCODED_LENGTH`] bytes long, so the scan gives up after one
//! probe more than that; it also gives up where guest memory ends.

use vstd::prelude::*;
use vstd::utf8::*;

use crate::codec::{
    bytes_outcome, is_encoding_of, lemma_single_sentinel, MAX_ENCODED_LENGTH, SENTINEL_BYTE,
};
use crate::error::ExchangeError;

verus! {

/// The most bytes one scan reads.
pub open spec fn probe_limit() -> nat {
    (MAX_ENCODED_LENGTH + 1) as nat
}

/// The bytes within reach of a scan that starts at `start`: the next
/// [`probe_limit`] bytes, or fewer where `memory` ends before.
pub open spec fn window(memory: Seq<u8>, start: nat) -> Seq<u8> {
    if start >= memory.len() {
        Seq::empty()
    } else if start + probe_limit() <= memory.len() {
        memory.subrange(start as int, (start + probe_limit()) as int)
    } else {
        memory.subrange(start as int, memory.len() as int)
    }
}

/// How far into a memory of `len` bytes a scan from `start` reaches, counted
/// from address zero.
pub open spec fn reach(start: nat, len: nat) -> nat {
    if start + probe_limit() <= len {
        start + probe_limit()
    } else {
        len
    }
}

/// True when `bytes[i]` is the sentinel byte and no byte before it is.
pub open spec fn is_first_sentinel(bytes: Seq<u8>, i: int) -> bool {
    &&& 0 <= i < bytes.len()
    &&& bytes[i] == SENTINEL_BYTE
    &&& forall|j: int| 0 <= j < i ==> bytes[j] != SENTINEL_BYTE
}

/// The index of the first sentinel byte of `bytes`, where there is one.
pub open spec fn first_sentinel(bytes: Seq<u8>) -> int {
    choose|i: int| is_first_sentinel(bytes, i)
}

/// What a scan of `memory` from `start` yields: the bytes from `start` up to
/// and including the first sentinel byte within reach, or `ScanExhausted`
/// where no sentinel byte is within reach.
pub open spec fn scanned(memory: Seq<u8>, start: nat) -> Result<Seq<u8>, ExchangeError> {
    let reach = window(memory, start);
    if exists|i: int| is_first_sentinel(reach, i) {
        Ok(reach.take(first_sentinel(reach) + 1))
    } else {
        Err(ExchangeError::ScanExhausted)
    }
}

/// Where `bytes[i]` is the first sentinel byte, `first_sentinel` is `i`.
pub proof fn lemma_first_sentinel_is(bytes: Seq<u8>, i: int)
    requires
        is_first_sentinel(bytes, i),
    ensures
        first_sentinel(bytes) == i,
{
    assert(is_first_sentinel(bytes, first_sentinel(bytes)));
}

/// Reads `memory` forward from `ptr` until the sentinel and returns what was
/// read, sentinel included.
///
/// One byte is read at a time; after each, the scan stops if that byte is the
/// sentinel. It reads at most `MAX_ENCODED_LENGTH + 1` bytes and none beyond
/// the end of `memory`; where it has met no sentinel by then it fails with
/// `ScanExhausted`. `memory` is left as it is.
pub fn read_until_sequence(memory: &[u8], ptr: usize) -> (r: Result<Vec<u8>, ExchangeError>)
    ensures
        bytes_outcome(r) == scanned(memory@, ptr as nat),
{
    let ghost reach: Seq<u8> = window(memory@, ptr as nat);
    let mut sequence: Vec<u8> = Vec::new();
    let mut i: usize = 0;
    while i <= MAX_ENCODED_LENGTH as usize
        invariant
            reach == window(memory@, ptr as nat),
            i <= MAX_ENCODED_LENGTH + 1,
            i <= reach.len(),
            sequence@ == reach.take(i as int),
            forall|j: int| 0 <= j < i ==> reach[j] != SENTINEL_BYTE,
        decreases MAX_ENCODED_LENGTH + 1 - i,
    {
        if ptr >= memory.len() || i >= memory.len() - ptr {
            return Err(ExchangeError::ScanExhausted);
        }
        let val: u8 = memory[ptr + i];
        sequence.push(val);
        assert(sequence@ =~= reach.take(i + 1));
        if val == SENTINEL_BYTE {
            proof {
                lemma_first_sentinel_is(reach, i as int);
            }
            return Ok(sequence);
        }
        i += 1;
    }
    Err(ExchangeError::ScanExhausted)
}

/// How many bytes of a guest memory of `memory_len` bytes, counted from
/// address zero, a scan from `ptr` can depend on: see [`lemma_scan_of_prefix`].
pub fn scan_reach(ptr: usize, memory_len: usize) -> (cut: usize)
    ensures
        cut == reach(ptr as nat, memory_len as nat),
{
    let limit: usize = MAX_ENCODED_LENGTH as usize + 1;
    if memory_len >= limit && ptr <= memory_len - limit {
        ptr + limit
    } else {
        memory_len
    }
}

/// What a successful scan returns: at least one and at most [`probe_limit`]
/// bytes, exactly as they stand in memory from `start`, the last of them the
/// sentinel byte and none before it.
pub proof fn lemma_scan_result(memory: Seq<u8>, start: nat, bytes: Seq<u8>)
    requires
        scanned(memory, start) == Ok::<Seq<u8>, ExchangeError>(bytes),
    ensures
        1 <= bytes.len() <= probe_limit(),
        start + bytes.len() <= memory.len(),
        bytes == memory.subrange(start as int, (start + bytes.len()) as int),
        bytes.last() == SENTINEL_BYTE,
        forall|i: int| 0 <= i < bytes.len() - 1 ==> bytes[i] != SENTINEL_BYTE,
{
}

/// A scan over memory that holds an encoded string at `start` returns exactly
/// the bytes of that string, whatever bytes follow it.
pub proof fn lemma_scan_recovers_encoded(
    memory: Seq<u8>,
    start: nat,
    payload: Seq<u8>,
    text: Seq<char>,
)
    requires
        is_encoding_of(text, payload),
        start + encode_utf8(text).len() <= memory.len(),
        memory.subrange(start as int, (start + encode_utf8(text).len()) as int) == encode_utf8(text),
    ensures
        scanned(memory, start) == Ok::<Seq<u8>, ExchangeError>(encode_utf8(text)),
{
    let wire: Seq<u8> = encode_utf8(text);
    lemma_single_sentinel(payload, text);
    let last: int = wire.len() - 1;
    let reach: Seq<u8> = window(memory, start);
    lemma_first_sentinel_is(reach, last);
    assert(reach.take(last + 1) =~= wire);
}

/// Where no sentinel byte stands among the bytes within reach, the scan fails
/// with `ScanExhausted`.
pub proof fn lemma_scan_exhausted(memory: Seq<u8>, start: nat)
    requires
        forall|i: int|
            start <= i < start + probe_limit() && i < memory.len() ==> memory[i] != SENTINEL_BYTE,
    ensures
        scanned(memory, start) == Err::<Seq<u8>, ExchangeError>(ExchangeError::ScanExhausted),
{
}

/// A scan depends on nothing but the bytes within reach: memory cut off
/// where the reach of the scan ends, or later, is scanned as the whole.
pub proof fn lemma_scan_of_prefix(memory: Seq<u8>, start: nat, cut: int)
    requires
        reach(start, memory.len()) <= cut <= memory.len(),
    ensures
        scanned(memory.take(cut), start) == scanned(memory, start),
{
    assert(window(memory.take(cut), start) =~= window(memory, start));
}

} // verus!
