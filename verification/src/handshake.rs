//! One call into the guest, decided step by step.
//!
//! The host cannot hand a buffer to the guest, nor get one back: it reserves a
//! range in guest memory, writes the encoded string of its payload there,
//! invokes the guest function with the address, scans guest memory from the
//! address that the function returns, decodes what it found, and releases both
//! ranges. Reserving, writing, invoking, reading guest memory and releasing
//! are the engine's work; what to do next, and with which numbers, is decided
//! here.
//!
//! [`begin`] and [`step`] are that decision as a function from the state of
//! the handshake and the outcome of the last thing the host did (an
//! [`Event`]) to the next state and the next thing to do (an [`Action`]). A
//! driver carries out each action against the engine and reports back:
//!
//! | action       | answered by                             |
//! | ------------ | --------------------------------------- |
//! | `Allocate`   | `Allocated(ptr)` or `AllocationFailed`  |
//! | `Write`      | `Written` or `WriteFailed`              |
//! | `Invoke`     | `Returned(ptr)` or `Trapped`            |
//! | `Scan`       | `Region(bytes)`, guest memory as it is  |
//! | `Deallocate` | `Released`                              |
//! | `Return`     | nothing: the handshake has ended        |
//! | `Fail`       | nothing: the handshake has ended        |
//!
//! A state names the last milestone reached, while the host carries out the
//! transition that follows it. Scanning and decoding need nothing from the
//! engine once guest memory is in hand, so one step leads from `Invoked`
//! through both to `Decoded`, or to `Faulted`. Every range the handshake comes
//! to hold is released before it ends, on failure as on success; an event that
//! does not answer the action in flight changes nothing.

use vstd::prelude::*;
use vstd::string::*;
use vstd::utf8::*;

use crate::codec::{
    decode_with_termination, decoded, encode_with_termination, encoded, is_encoding_of,
    lemma_decode_inverts_encode, lemma_single_sentinel, MAX_ENCODED_LENGTH,
};
use crate::error::ExchangeError;
use crate::transport::{
    lemma_scan_recovers_encoded, lemma_scan_result, read_until_sequence, scanned,
};

verus! {

/// A range of guest memory: where it starts and how many bytes it has.
#[derive(Debug, Clone, Copy, PartialEq, Eq, Structural)]
pub struct GuestRange {
    pub ptr: u32,
    pub capacity: u32,
}

/// How far a handshake has come.
#[derive(Debug, PartialEq, Eq)]
pub enum HandshakeState {
    /// No call is in flight.
    Idle,
    /// The payload is encoded as `wire` and a range of `length` bytes has been
    /// asked for.
    Requested { wire: Vec<u8>, length: u32 },
    /// The guest has reserved `src`; the encoded string is being written
    /// there.
    Allocated { src: GuestRange },
    /// The encoded string stands in `src`; the guest function is running.
    Written { src: GuestRange },
    /// The guest function has returned `result_ptr`; guest memory is being
    /// fetched for the scan.
    Invoked { src: GuestRange, result_ptr: u32 },
    /// The result is decoded; `releasing` is being released, and `then`
    /// after it.
    Decoded { result: Vec<u8>, releasing: GuestRange, then: Option<GuestRange> },
    /// The call has failed with `error`. What the handshake still holds is
    /// being released: `cleanup`, and `then` after it. With nothing left to
    /// release the handshake has ended.
    Faulted { error: ExchangeError, cleanup: Option<GuestRange>, then: Option<GuestRange> },
}

/// What the host reports of the action it carried out.
#[derive(Debug, PartialEq, Eq)]
pub enum Event {
    /// The guest reserved the range that starts at this address.
    Allocated(u32),
    /// The guest could not reserve the range.
    AllocationFailed,
    /// Every byte was written.
    Written,
    /// Some byte could not be written.
    WriteFailed,
    /// The guest function returned this address.
    Returned(u32),
    /// The guest function faulted.
    Trapped,
    /// Guest memory, byte for byte from address zero: all of it, or as much
    /// as `scan_reach` says the scan can depend on.
    Region(Vec<u8>),
    /// `deallocate` was called.
    Released,
}

/// What the host is to do next.
#[derive(Debug, PartialEq, Eq)]
pub enum Action {
    /// Call the guest's `allocate` for `length` bytes.
    Allocate { length: u32 },
    /// Write `bytes` into guest memory from `ptr` on, one byte per cell, in
    /// order.
    Write { ptr: u32, bytes: Vec<u8> },
    /// Call the guest function with `ptr` as its argument.
    Invoke { ptr: u32 },
    /// Fetch guest memory, to be scanned from `ptr`.
    Scan { ptr: u32 },
    /// Call the guest's `deallocate` for the range.
    Deallocate { ptr: u32, capacity: u32 },
    /// Hand `result` to the caller: the handshake has succeeded.
    Return { result: Vec<u8> },
    /// Hand `error` to the caller: the handshake has failed.
    Fail { error: ExchangeError },
    /// Nothing: the event did not answer the action in flight.
    Ignore,
}

/// [`HandshakeState`] with its buffers as sequences.
pub enum StateModel {
    Idle,
    Requested { wire: Seq<u8>, length: u32 },
    Allocated { src: GuestRange },
    Written { src: GuestRange },
    Invoked { src: GuestRange, result_ptr: u32 },
    Decoded { result: Seq<u8>, releasing: GuestRange, then: Option<GuestRange> },
    Faulted { error: ExchangeError, cleanup: Option<GuestRange>, then: Option<GuestRange> },
}

/// [`Event`] with its buffer as a sequence.
pub enum EventModel {
    Allocated(u32),
    AllocationFailed,
    Written,
    WriteFailed,
    Returned(u32),
    Trapped,
    Region(Seq<u8>),
    Released,
}

/// [`Action`] with its buffers as sequences.
pub enum ActionModel {
    Allocate { length: u32 },
    Write { ptr: u32, bytes: Seq<u8> },
    Invoke { ptr: u32 },
    Scan { ptr: u32 },
    Deallocate { ptr: u32, capacity: u32 },
    Return { result: Seq<u8> },
    Fail { error: ExchangeError },
    Ignore,
}

impl View for HandshakeState {
    type V = StateModel;

    open spec fn view(&self) -> StateModel {
        match *self {
            HandshakeState::Idle => StateModel::Idle,
            HandshakeState::Requested { wire, length } => StateModel::Requested {
                wire: wire@,
                length,
            },
            HandshakeState::Allocated { src } => StateModel::Allocated { src },
            HandshakeState::Written { src } => StateModel::Written { src },
            HandshakeState::Invoked { src, result_ptr } => StateModel::Invoked { src, result_ptr },
            HandshakeState::Decoded { result, releasing, then } => StateModel::Decoded {
                result: result@,
                releasing,
                then,
            },
            HandshakeState::Faulted { error, cleanup, then } => StateModel::Faulted {
                error,
                cleanup,
                then,
            },
        }
    }
}

impl View for Event {
    type V = EventModel;

    open spec fn view(&self) -> EventModel {
        match *self {
            Event::Allocated(ptr) => EventModel::Allocated(ptr),
            Event::AllocationFailed => EventModel::AllocationFailed,
            Event::Written => EventModel::Written,
            Event::WriteFailed => EventModel::WriteFailed,
            Event::Returned(ptr) => EventModel::Returned(ptr),
            Event::Trapped => EventModel::Trapped,
            Event::Region(memory) => EventModel::Region(memory@),
            Event::Released => EventModel::Released,
        }
    }
}

impl View for Action {
    type V = ActionModel;

    open spec fn view(&self) -> ActionModel {
        match *self {
            Action::Allocate { length } => ActionModel::Allocate { length },
            Action::Write { ptr, bytes } => ActionModel::Write { ptr, bytes: bytes@ },
            Action::Invoke { ptr } => ActionModel::Invoke { ptr },
            Action::Scan { ptr } => ActionModel::Scan { ptr },
            Action::Deallocate { ptr, capacity } => ActionModel::Deallocate { ptr, capacity },
            Action::Return { result } => ActionModel::Return { result: result@ },
            Action::Fail { error } => ActionModel::Fail { error },
            Action::Ignore => ActionModel::Ignore,
        }
    }
}

/// True when no call is in flight and nothing is left to release: before the
/// first handshake, after a success, after a failure once cleaned up.
pub open spec fn ended(state: StateModel) -> bool {
    match state {
        StateModel::Idle => true,
        StateModel::Faulted { cleanup, .. } => cleanup is None,
        _ => false,
    }
}

/// Where a failure leads: to the release of `first`, and of `then` after it,
/// or straight to the end where nothing is held.
pub open spec fn faulted(error: ExchangeError, first: Option<GuestRange>, then: Option<GuestRange>) -> (
    StateModel,
    ActionModel,
) {
    match first {
        Some(range) => (
            StateModel::Faulted { error, cleanup: Some(range), then },
            ActionModel::Deallocate { ptr: range.ptr, capacity: range.capacity },
        ),
        None => (
            StateModel::Faulted { error, cleanup: None, then: None },
            ActionModel::Fail { error },
        ),
    }
}

/// Where the start of a call with `payload` leads.
///
/// From a state in which a handshake has ended, the payload is encoded, and a
/// range as long as its encoded string is asked for; a payload that does not
/// fit fails the call before anything is reserved. While a handshake is in
/// flight no other is started.
pub open spec fn begun(state: StateModel, payload: Seq<u8>) -> (StateModel, ActionModel) {
    if ended(state) {
        match encoded(payload) {
            Err(error) => faulted(error, None, None),
            Ok(text) => {
                let wire = encode_utf8(text);
                let length = wire.len() as u32;
                (StateModel::Requested { wire, length }, ActionModel::Allocate { length })
            },
        }
    } else {
        (state, ActionModel::Ignore)
    }
}

/// Where guest memory leads once the guest function has returned
/// `result_ptr`: the scan from there, then the decoding of what it found.
///
/// A failed scan leaves the result range unknown, so only `src` is released.
/// After a successful scan the result range is known and is released too,
/// whether or not its bytes decode.
pub open spec fn examined(src: GuestRange, result_ptr: u32, memory: Seq<u8>) -> (
    StateModel,
    ActionModel,
) {
    match scanned(memory, result_ptr as nat) {
        Err(error) => faulted(error, Some(src), None),
        Ok(found) => {
            let result_range = GuestRange { ptr: result_ptr, capacity: found.len() as u32 };
            match decoded(found) {
                Err(error) => faulted(error, Some(src), Some(result_range)),
                Ok(result) => (
                    StateModel::Decoded { result, releasing: src, then: Some(result_range) },
                    ActionModel::Deallocate { ptr: src.ptr, capacity: src.capacity },
                ),
            }
        },
    }
}

/// Where `event` leads from `state`.
pub open spec fn next(state: StateModel, event: EventModel) -> (StateModel, ActionModel) {
    match state {
        StateModel::Requested { wire, length } => match event {
            EventModel::Allocated(ptr) => (
                StateModel::Allocated { src: GuestRange { ptr, capacity: length } },
                ActionModel::Write { ptr, bytes: wire },
            ),
            EventModel::AllocationFailed => faulted(ExchangeError::AllocationFailed, None, None),
            _ => (state, ActionModel::Ignore),
        },
        StateModel::Allocated { src } => match event {
            EventModel::Written => (StateModel::Written { src }, ActionModel::Invoke { ptr: src.ptr }),
            EventModel::WriteFailed => faulted(ExchangeError::MemoryWriteFailed, Some(src), None),
            _ => (state, ActionModel::Ignore),
        },
        StateModel::Written { src } => match event {
            EventModel::Returned(result_ptr) => (
                StateModel::Invoked { src, result_ptr },
                ActionModel::Scan { ptr: result_ptr },
            ),
            EventModel::Trapped => faulted(ExchangeError::GuestTrap, Some(src), None),
            _ => (state, ActionModel::Ignore),
        },
        StateModel::Invoked { src, result_ptr } => match event {
            EventModel::Region(memory) => examined(src, result_ptr, memory),
            _ => (state, ActionModel::Ignore),
        },
        StateModel::Decoded { result, releasing, then } => match event {
            EventModel::Released => match then {
                Some(range) => (
                    StateModel::Decoded { result, releasing: range, then: None },
                    ActionModel::Deallocate { ptr: range.ptr, capacity: range.capacity },
                ),
                None => (StateModel::Idle, ActionModel::Return { result }),
            },
            _ => (state, ActionModel::Ignore),
        },
        StateModel::Faulted { error, cleanup, then } => match event {
            EventModel::Released => match cleanup {
                Some(_) => faulted(error, then, None),
                None => (state, ActionModel::Ignore),
            },
            _ => (state, ActionModel::Ignore),
        },
        StateModel::Idle => (state, ActionModel::Ignore),
    }
}

impl HandshakeState {
    /// The state before the first call.
    pub fn new() -> (state: HandshakeState)
        ensures
            state@ == StateModel::Idle,
    {
        HandshakeState::Idle
    }

    /// True when no call is in flight and nothing is left to release.
    pub fn has_ended(&self) -> (b: bool)
        ensures
            b == ended(self@),
    {
        match self {
            HandshakeState::Idle => true,
            HandshakeState::Faulted { cleanup, .. } => cleanup.is_none(),
            _ => false,
        }
    }
}

/// The state and the action of a failure: see [`faulted`].
fn fault(error: ExchangeError, first: Option<GuestRange>, then: Option<GuestRange>) -> (r: (
    HandshakeState,
    Action,
))
    ensures
        (r.0@, r.1@) == faulted(error, first, then),
{
    match first {
        Some(range) => (
            HandshakeState::Faulted { error, cleanup: Some(range), then },
            Action::Deallocate { ptr: range.ptr, capacity: range.capacity },
        ),
        None => (HandshakeState::Faulted { error, cleanup: None, then: None }, Action::Fail {
            error,
        }),
    }
}

/// Starts a call that is to carry `payload` to the guest: see [`begun`].
pub fn begin(state: HandshakeState, payload: &[u8]) -> (r: (HandshakeState, Action))
    ensures
        (r.0@, r.1@) == begun(state@, payload@),
{
    if !state.has_ended() {
        return (state, Action::Ignore);
    }
    match encode_with_termination(payload) {
        Err(error) => fault(error, None, None),
        Ok(text) => {
            let wire: Vec<u8> = text.as_str().as_bytes_vec();
            // An encoded string is short: the conversion loses nothing.
            assert(wire.len() <= MAX_ENCODED_LENGTH) by {
                lemma_single_sentinel(payload@, text@);
            }
            let length: u32 = wire.len() as u32;
            (HandshakeState::Requested { wire, length }, Action::Allocate { length })
        },
    }
}

/// Scans guest memory from `result_ptr` and decodes what the scan finds: see
/// [`examined`].
pub fn examine(src: GuestRange, result_ptr: u32, memory: &[u8]) -> (r: (HandshakeState, Action))
    ensures
        (r.0@, r.1@) == examined(src, result_ptr, memory@),
{
    match read_until_sequence(memory, result_ptr as usize) {
        Err(error) => fault(error, Some(src), None),
        Ok(found) => {
            // A scan returns few bytes: the conversion loses nothing.
            assert(found.len() <= MAX_ENCODED_LENGTH + 1) by {
                lemma_scan_result(memory@, result_ptr as nat, found@);
            }
            let result_range = GuestRange { ptr: result_ptr, capacity: found.len() as u32 };
            match decode_with_termination(&found) {
                Err(error) => fault(error, Some(src), Some(result_range)),
                Ok(result) => (
                    HandshakeState::Decoded { result, releasing: src, then: Some(result_range) },
                    Action::Deallocate { ptr: src.ptr, capacity: src.capacity },
                ),
            }
        },
    }
}

/// Takes the handshake one event further: see [`next`].
pub fn step(state: HandshakeState, event: Event) -> (r: (HandshakeState, Action))
    ensures
        (r.0@, r.1@) == next(state@, event@),
{
    match state {
        HandshakeState::Requested { wire, length } => match event {
            Event::Allocated(ptr) => (
                HandshakeState::Allocated { src: GuestRange { ptr, capacity: length } },
                Action::Write { ptr, bytes: wire },
            ),
            Event::AllocationFailed => fault(ExchangeError::AllocationFailed, None, None),
            _ => (HandshakeState::Requested { wire, length }, Action::Ignore),
        },
        HandshakeState::Allocated { src } => match event {
            Event::Written => (HandshakeState::Written { src }, Action::Invoke { ptr: src.ptr }),
            Event::WriteFailed => fault(ExchangeError::MemoryWriteFailed, Some(src), None),
            _ => (HandshakeState::Allocated { src }, Action::Ignore),
        },
        HandshakeState::Written { src } => match event {
            Event::Returned(result_ptr) => (
                HandshakeState::Invoked { src, result_ptr },
                Action::Scan { ptr: result_ptr },
            ),
            Event::Trapped => fault(ExchangeError::GuestTrap, Some(src), None),
            _ => (HandshakeState::Written { src }, Action::Ignore),
        },
        HandshakeState::Invoked { src, result_ptr } => match event {
            Event::Region(memory) => examine(src, result_ptr, memory.as_slice()),
            _ => (HandshakeState::Invoked { src, result_ptr }, Action::Ignore),
        },
        HandshakeState::Decoded { result, releasing, then } => match event {
            Event::Released => match then {
                Some(range) => (
                    HandshakeState::Decoded { result, releasing: range, then: None },
                    Action::Deallocate { ptr: range.ptr, capacity: range.capacity },
                ),
                None => (HandshakeState::Idle, Action::Return { result }),
            },
            _ => (HandshakeState::Decoded { result, releasing, then }, Action::Ignore),
        },
        HandshakeState::Faulted { error, cleanup, then } => match event {
            Event::Released => match cleanup {
                Some(_) => fault(error, then, None),
                None => (HandshakeState::Faulted { error, cleanup, then }, Action::Ignore),
            },
            _ => (HandshakeState::Faulted { error, cleanup, then }, Action::Ignore),
        },
        HandshakeState::Idle => (HandshakeState::Idle, Action::Ignore),
    }
}

/// An upper bound on the actions a handshake in `state` has yet to see
/// answered before it ends.
pub open spec fn remaining(state: StateModel) -> nat {
    match state {
        StateModel::Idle => 0,
        StateModel::Requested { .. } => 6,
        StateModel::Allocated { .. } => 5,
        StateModel::Written { .. } => 4,
        StateModel::Invoked { .. } => 3,
        StateModel::Decoded { then, .. } => if then is Some {
            2
        } else {
            1
        },
        StateModel::Faulted { cleanup, then, .. } => if cleanup is None {
            0
        } else if then is Some {
            2
        } else {
            1
        },
    }
}

/// An event that is ignored changes nothing, and a handshake that has ended
/// ignores every event.
pub proof fn lemma_ignored_event(state: StateModel, event: EventModel)
    ensures
        next(state, event).1 is Ignore ==> next(state, event).0 == state,
        ended(state) ==> next(state, event).1 is Ignore,
{
}

/// Every event that is not ignored brings the handshake closer to its end:
/// from its start, a handshake ends within six answered actions.
pub proof fn lemma_progress(state: StateModel, event: EventModel)
    ensures
        !(next(state, event).1 is Ignore) ==> remaining(next(state, event).0) < remaining(state),
        remaining(state) <= 6,
        remaining(state) == 0 <==> ended(state),
{
}

/// The handshake hands out its outcome in the step in which it ends, and in
/// no other: the result it decoded, or the error it failed with.
pub proof fn lemma_outcome_at_end(state: StateModel, event: EventModel)
    ensures
        ({
            let (after, action) = next(state, event);
            &&& (action is Return || action is Fail) <==> (!ended(state) && ended(after))
            &&& action matches ActionModel::Return { result } ==> state matches StateModel::Decoded {
                result: decoded,
                ..
            } && decoded == result
            &&& action matches ActionModel::Fail { error } ==> after matches StateModel::Faulted {
                error: kept,
                ..
            } && kept == error
        }),
{
}

/// Nothing is tried again: a handshake that has failed stays failed with the
/// same error, and asks for nothing but the release of what it holds.
pub proof fn lemma_fault_is_final(state: StateModel, event: EventModel)
    requires
        state is Faulted,
    ensures
        ({
            let (after, action) = next(state, event);
            &&& after is Faulted
            &&& after->error == state->error
            &&& action is Deallocate || action is Fail || action is Ignore
        }),
{
}

/// A call is started exactly where no other is in flight.
pub proof fn lemma_one_call_at_a_time(state: StateModel, payload: Seq<u8>)
    ensures
        begun(state, payload).1 is Ignore <==> !ended(state),
        !ended(state) ==> begun(state, payload).0 == state,
{
}

/// The course of a handshake when all goes well.
///
/// The guest grants a range at `src_ptr`, the write succeeds, the guest
/// function returns `result_ptr`, and guest memory holds at `result_ptr` the
/// encoded string of `answer`. Then the handshake asks, in this order, for a
/// range as long as the encoded string of `payload`, for that string to be
/// written at `src_ptr`, for the guest function to be called with `src_ptr`,
/// for guest memory, for the release of the range at `src_ptr` with the
/// capacity it asked for, for the release of the range at `result_ptr` with
/// the length of the encoded string found there, and for `answer` to be
/// returned; and it ends in `Idle`.
pub proof fn lemma_successful_handshake(
    payload: Seq<u8>,
    text: Seq<char>,
    src_ptr: u32,
    result_ptr: u32,
    memory: Seq<u8>,
    answer: Seq<u8>,
    answer_text: Seq<char>,
)
    requires
        is_encoding_of(text, payload),
        is_encoding_of(answer_text, answer),
        result_ptr + encode_utf8(answer_text).len() <= memory.len(),
        memory.subrange(
            result_ptr as int,
            (result_ptr + encode_utf8(answer_text).len()) as int,
        ) == encode_utf8(answer_text),
    ensures
        ({
            let wire = encode_utf8(text);
            let src = GuestRange { ptr: src_ptr, capacity: wire.len() as u32 };
            let found = GuestRange {
                ptr: result_ptr,
                capacity: encode_utf8(answer_text).len() as u32,
            };
            let (requested, first) = begun(StateModel::Idle, payload);
            let (allocated, second) = next(requested, EventModel::Allocated(src_ptr));
            let (written, third) = next(allocated, EventModel::Written);
            let (invoked, fourth) = next(written, EventModel::Returned(result_ptr));
            let (decoded, fifth) = next(invoked, EventModel::Region(memory));
            let (half_released, sixth) = next(decoded, EventModel::Released);
            let (last, seventh) = next(half_released, EventModel::Released);
            &&& wire.len() == src.capacity
            &&& encode_utf8(answer_text).len() == found.capacity
            &&& first == ActionModel::Allocate { length: src.capacity }
            &&& second == ActionModel::Write { ptr: src_ptr, bytes: wire }
            &&& third == ActionModel::Invoke { ptr: src_ptr }
            &&& fourth == ActionModel::Scan { ptr: result_ptr }
            &&& fifth == ActionModel::Deallocate { ptr: src_ptr, capacity: src.capacity }
            &&& sixth == ActionModel::Deallocate { ptr: result_ptr, capacity: found.capacity }
            &&& seventh == ActionModel::Return { result: answer }
            &&& last == StateModel::Idle
        }),
{
    lemma_single_sentinel(payload, text);
    lemma_scan_recovers_encoded(memory, result_ptr as nat, answer, answer_text);
    lemma_decode_inverts_encode(answer, answer_text);
}

} // verus!
