use base64_helper::codec::encode_with_termination;
use base64_helper::guest::reverse_array;
use base64_helper::handshake::{begin, examine, step, Action, Event, GuestRange, HandshakeState};
use base64_helper::transport::read_until_sequence;
use base64_helper::ExchangeError;

/// What the guest was asked to do with its memory.
#[derive(Debug, PartialEq, Eq, Clone, Copy)]
enum Call {
    Allocate(u32, u32),
    Deallocate(u32, u32),
}

/// A guest that reverses buffers, with a memory of its own.
struct Guest {
    memory: Vec<u8>,
    next_free: u32,
    calls: Vec<Call>,
    refuse_allocations: bool,
    refuse_writes: bool,
    trap: bool,
    forget_sentinel: bool,
    answer_garbage: bool,
    answer_in_place: bool,
}

impl Guest {
    fn new() -> Guest {
        Guest {
            memory: vec![0x41; 1024],
            next_free: 128,
            calls: Vec::new(),
            refuse_allocations: false,
            refuse_writes: false,
            trap: false,
            forget_sentinel: false,
            answer_garbage: false,
            answer_in_place: false,
        }
    }

    fn reserve(&mut self, length: u32) -> u32 {
        let ptr: u32 = self.next_free;
        self.next_free += length + 8;
        ptr
    }

    fn allocate(&mut self, length: u32) -> Option<u32> {
        if self.refuse_allocations {
            return None;
        }
        let ptr: u32 = self.reserve(length);
        self.calls.push(Call::Allocate(length, ptr));
        Some(ptr)
    }

    fn deallocate(&mut self, ptr: u32, capacity: u32) {
        self.calls.push(Call::Deallocate(ptr, capacity));
    }

    fn write(&mut self, ptr: u32, bytes: &[u8]) -> bool {
        if self.refuse_writes {
            return false;
        }
        let start: usize = ptr as usize;
        self.memory[start..start + bytes.len()].copy_from_slice(bytes);
        true
    }

    fn reverse_array(&mut self, ptr: u32) -> Option<u32> {
        if self.trap {
            return None;
        }
        let subject = read_until_sequence(&self.memory, ptr as usize).unwrap();
        let mut answer = reverse_array(&subject).unwrap();
        if self.forget_sentinel {
            answer.pop();
        }
        if self.answer_garbage {
            answer = b"?!?!-".to_vec();
        }
        let result_ptr: u32 =
            if self.answer_in_place { ptr } else { self.reserve(answer.len() as u32) };
        let start: usize = result_ptr as usize;
        self.memory[start..start + answer.len()].copy_from_slice(&answer);
        Some(result_ptr)
    }
}

/// Carries out a handshake against `guest` and returns its outcome with every
/// action that was asked for.
fn drive(guest: &mut Guest, payload: &[u8]) -> (Result<Vec<u8>, ExchangeError>, Vec<String>) {
    let mut asked: Vec<String> = Vec::new();
    let (mut state, mut action) = begin(HandshakeState::new(), payload);
    for _ in 0..20 {
        asked.push(format!("{:?}", action));
        let event = match action {
            Action::Allocate { length } => match guest.allocate(length) {
                Some(ptr) => Event::Allocated(ptr),
                None => Event::AllocationFailed,
            },
            Action::Write { ptr, bytes } => {
                if guest.write(ptr, &bytes) {
                    Event::Written
                } else {
                    Event::WriteFailed
                }
            }
            Action::Invoke { ptr } => match guest.reverse_array(ptr) {
                Some(result_ptr) => Event::Returned(result_ptr),
                None => Event::Trapped,
            },
            Action::Scan { .. } => Event::Region(guest.memory.clone()),
            Action::Deallocate { ptr, capacity } => {
                guest.deallocate(ptr, capacity);
                Event::Released
            }
            Action::Return { result } => {
                assert!(state.has_ended());
                assert_eq!(state, HandshakeState::Idle);
                return (Ok(result), asked);
            }
            Action::Fail { error } => {
                assert!(state.has_ended());
                assert_eq!(state, HandshakeState::Faulted { error, cleanup: None, then: None });
                return (Err(error), asked);
            }
            Action::Ignore => panic!("the driver answers every action"),
        };
        let (after, next_action) = step(state, event);
        state = after;
        action = next_action;
    }
    panic!("the handshake did not end");
}

#[test]
fn handshake_reverses_ten_bytes() {
    let mut guest = Guest::new();
    let (outcome, asked) = drive(&mut guest, &[1, 2, 3, 4, 5, 6, 7, 8, 9, 10]);
    assert_eq!(outcome, Ok(vec![10, 9, 8, 7, 6, 5, 4, 3, 2, 1]));
    assert_eq!(
        asked,
        vec![
            String::from("Allocate { length: 17 }"),
            format!("Write {{ ptr: 128, bytes: {:?} }}", b"AQIDBAUGBwgJCg==-"),
            String::from("Invoke { ptr: 128 }"),
            String::from("Scan { ptr: 153 }"),
            String::from("Deallocate { ptr: 128, capacity: 17 }"),
            String::from("Deallocate { ptr: 153, capacity: 17 }"),
            String::from("Return { result: [10, 9, 8, 7, 6, 5, 4, 3, 2, 1] }"),
        ]
    );
    assert_eq!(&guest.memory[128..145], b"AQIDBAUGBwgJCg==-");
    assert_eq!(&guest.memory[153..170], b"CgkIBwYFBAMCAQ==-");
}

#[test]
fn handshake_releases_what_it_allocated() {
    for n in 0..=45usize {
        let payload: Vec<u8> = (0..n).map(|i| (i * 29 + 3) as u8).collect();
        let written: u32 = encode_with_termination(&payload).unwrap().len() as u32;
        let mut guest = Guest::new();
        let (outcome, _) = drive(&mut guest, &payload);
        let mut backwards = payload.clone();
        backwards.reverse();
        assert_eq!(outcome, Ok(backwards));
        let allocations: Vec<Call> =
            guest.calls.iter().copied().filter(|call| matches!(call, Call::Allocate(..))).collect();
        assert_eq!(allocations, vec![Call::Allocate(written, 128)]);
        let releases: Vec<Call> = guest
            .calls
            .iter()
            .copied()
            .filter(|call| matches!(call, Call::Deallocate(128, _)))
            .collect();
        assert_eq!(releases, vec![Call::Deallocate(128, written)]);
        assert_eq!(guest.calls.len(), 3);
        assert_eq!(guest.calls[0], Call::Allocate(written, 128));
        assert_eq!(guest.calls[1], Call::Deallocate(128, written));
        assert_eq!(guest.calls[2], Call::Deallocate(128 + written + 8, written));
    }
}

#[test]
fn handshake_with_a_payload_that_does_not_fit() {
    let mut guest = Guest::new();
    let (outcome, asked) = drive(&mut guest, &[0u8; 46]);
    assert_eq!(outcome, Err(ExchangeError::EncodingTooLarge));
    assert_eq!(asked, vec![String::from("Fail { error: EncodingTooLarge }")]);
    assert!(guest.calls.is_empty());
}

#[test]
fn handshake_when_the_guest_cannot_allocate() {
    let mut guest = Guest::new();
    guest.refuse_allocations = true;
    let (outcome, asked) = drive(&mut guest, b"abc");
    assert_eq!(outcome, Err(ExchangeError::AllocationFailed));
    assert_eq!(
        asked,
        vec![
            String::from("Allocate { length: 5 }"),
            String::from("Fail { error: AllocationFailed }"),
        ]
    );
    assert!(guest.calls.is_empty());
}

#[test]
fn handshake_when_the_write_fails() {
    let mut guest = Guest::new();
    guest.refuse_writes = true;
    let (outcome, asked) = drive(&mut guest, b"abc");
    assert_eq!(outcome, Err(ExchangeError::MemoryWriteFailed));
    assert_eq!(asked.len(), 4);
    assert_eq!(asked[2], "Deallocate { ptr: 128, capacity: 5 }");
    assert_eq!(asked[3], "Fail { error: MemoryWriteFailed }");
    assert_eq!(guest.calls, vec![Call::Allocate(5, 128), Call::Deallocate(128, 5)]);
}

#[test]
fn handshake_when_the_guest_traps() {
    let mut guest = Guest::new();
    guest.trap = true;
    let (outcome, asked) = drive(&mut guest, b"abc");
    assert_eq!(outcome, Err(ExchangeError::GuestTrap));
    assert_eq!(asked.len(), 5);
    assert_eq!(asked[2], "Invoke { ptr: 128 }");
    assert_eq!(asked[3], "Deallocate { ptr: 128, capacity: 5 }");
    assert_eq!(asked[4], "Fail { error: GuestTrap }");
    assert_eq!(guest.calls, vec![Call::Allocate(5, 128), Call::Deallocate(128, 5)]);
}

#[test]
fn handshake_when_the_answer_has_no_sentinel() {
    let mut guest = Guest::new();
    guest.forget_sentinel = true;
    let (outcome, asked) = drive(&mut guest, b"abc");
    assert_eq!(outcome, Err(ExchangeError::ScanExhausted));
    assert_eq!(asked.len(), 6);
    assert_eq!(asked[3], "Scan { ptr: 141 }");
    assert_eq!(asked[4], "Deallocate { ptr: 128, capacity: 5 }");
    assert_eq!(asked[5], "Fail { error: ScanExhausted }");
    assert_eq!(guest.calls, vec![Call::Allocate(5, 128), Call::Deallocate(128, 5)]);
}

#[test]
fn handshake_when_the_answer_does_not_decode() {
    let mut guest = Guest::new();
    guest.answer_garbage = true;
    let (outcome, asked) = drive(&mut guest, b"abc");
    assert_eq!(outcome, Err(ExchangeError::BadBase64));
    assert_eq!(asked.len(), 7);
    assert_eq!(asked[4], "Deallocate { ptr: 128, capacity: 5 }");
    assert_eq!(asked[5], "Deallocate { ptr: 141, capacity: 5 }");
    assert_eq!(asked[6], "Fail { error: BadBase64 }");
    assert_eq!(
        guest.calls,
        vec![Call::Allocate(5, 128), Call::Deallocate(128, 5), Call::Deallocate(141, 5)]
    );
}

#[test]
fn handshake_when_the_answer_stands_where_the_payload_stood() {
    // Both ranges are released, the one of the payload and the one of the
    // answer: here they start at the same address.
    let mut guest = Guest::new();
    guest.answer_in_place = true;
    let (outcome, asked) = drive(&mut guest, b"abc");
    assert_eq!(outcome, Ok(b"cba".to_vec()));
    assert_eq!(asked.len(), 7);
    assert_eq!(asked[3], "Scan { ptr: 128 }");
    assert_eq!(asked[4], "Deallocate { ptr: 128, capacity: 5 }");
    assert_eq!(asked[5], "Deallocate { ptr: 128, capacity: 5 }");
    assert_eq!(
        guest.calls,
        vec![Call::Allocate(5, 128), Call::Deallocate(128, 5), Call::Deallocate(128, 5)]
    );
}

#[test]
fn begin_asks_for_the_length_of_the_encoded_string() {
    let (state, action) = begin(HandshakeState::new(), &[1, 2, 3]);
    assert_eq!(state, HandshakeState::Requested { wire: b"AQID-".to_vec(), length: 5 });
    assert_eq!(action, Action::Allocate { length: 5 });
    assert!(!state.has_ended());

    let (_, action) = begin(HandshakeState::Idle, &[7u8; 45]);
    assert_eq!(action, Action::Allocate { length: 61 });
}

#[test]
fn begin_refuses_while_a_handshake_is_in_flight() {
    let (state, _) = begin(HandshakeState::new(), &[1, 2, 3]);
    let (state, action) = begin(state, &[4, 5, 6]);
    assert_eq!(action, Action::Ignore);
    assert_eq!(state, HandshakeState::Requested { wire: b"AQID-".to_vec(), length: 5 });

    let src = GuestRange { ptr: 8, capacity: 5 };
    let (state, action) = begin(HandshakeState::Written { src }, &[4, 5, 6]);
    assert_eq!(action, Action::Ignore);
    assert_eq!(state, HandshakeState::Written { src });

    let cleaning = HandshakeState::Faulted {
        error: ExchangeError::GuestTrap,
        cleanup: Some(src),
        then: None,
    };
    let (_, action) = begin(cleaning, &[4, 5, 6]);
    assert_eq!(action, Action::Ignore);
}

#[test]
fn begin_again_after_a_failure() {
    let failed =
        HandshakeState::Faulted { error: ExchangeError::GuestTrap, cleanup: None, then: None };
    assert!(failed.has_ended());
    let (state, action) = begin(failed, &[1]);
    assert_eq!(state, HandshakeState::Requested { wire: b"AQ==-".to_vec(), length: 5 });
    assert_eq!(action, Action::Allocate { length: 5 });
}

#[test]
fn step_by_step() {
    let (state, _) = begin(HandshakeState::new(), &[1, 2, 3]);
    let (state, action) = step(state, Event::Allocated(40));
    let src = GuestRange { ptr: 40, capacity: 5 };
    assert_eq!(state, HandshakeState::Allocated { src });
    assert_eq!(action, Action::Write { ptr: 40, bytes: b"AQID-".to_vec() });

    let (state, action) = step(state, Event::Written);
    assert_eq!(state, HandshakeState::Written { src });
    assert_eq!(action, Action::Invoke { ptr: 40 });

    let (state, action) = step(state, Event::Returned(3));
    assert_eq!(state, HandshakeState::Invoked { src, result_ptr: 3 });
    assert_eq!(action, Action::Scan { ptr: 3 });

    let (state, action) = step(state, Event::Region(b"xyzAwIB-tail".to_vec()));
    let result_range = GuestRange { ptr: 3, capacity: 5 };
    assert_eq!(
        state,
        HandshakeState::Decoded { result: vec![3, 2, 1], releasing: src, then: Some(result_range) }
    );
    assert_eq!(action, Action::Deallocate { ptr: 40, capacity: 5 });
    assert!(!state.has_ended());

    let (state, action) = step(state, Event::Released);
    assert_eq!(
        state,
        HandshakeState::Decoded { result: vec![3, 2, 1], releasing: result_range, then: None }
    );
    assert_eq!(action, Action::Deallocate { ptr: 3, capacity: 5 });

    let (state, action) = step(state, Event::Released);
    assert_eq!(state, HandshakeState::Idle);
    assert_eq!(action, Action::Return { result: vec![3, 2, 1] });
    assert!(state.has_ended());
}

#[test]
fn step_ignores_what_does_not_answer() {
    let src = GuestRange { ptr: 40, capacity: 5 };
    let strays = || {
        vec![
            Event::Allocated(1),
            Event::AllocationFailed,
            Event::Written,
            Event::WriteFailed,
            Event::Returned(2),
            Event::Trapped,
            Event::Region(b"AQID-".to_vec()),
            Event::Released,
        ]
    };
    let answers = |state: &HandshakeState, event: &Event| match state {
        HandshakeState::Idle => false,
        HandshakeState::Requested { .. } => {
            matches!(event, Event::Allocated(_) | Event::AllocationFailed)
        }
        HandshakeState::Allocated { .. } => matches!(event, Event::Written | Event::WriteFailed),
        HandshakeState::Written { .. } => matches!(event, Event::Returned(_) | Event::Trapped),
        HandshakeState::Invoked { .. } => matches!(event, Event::Region(_)),
        HandshakeState::Decoded { .. } => matches!(event, Event::Released),
        HandshakeState::Faulted { cleanup, .. } => {
            cleanup.is_some() && matches!(event, Event::Released)
        }
    };
    let states = || {
        vec![
            HandshakeState::Idle,
            HandshakeState::Requested { wire: b"AQID-".to_vec(), length: 5 },
            HandshakeState::Allocated { src },
            HandshakeState::Written { src },
            HandshakeState::Invoked { src, result_ptr: 0 },
            HandshakeState::Decoded { result: vec![1], releasing: src, then: None },
            HandshakeState::Faulted {
                error: ExchangeError::GuestTrap,
                cleanup: Some(src),
                then: None,
            },
            HandshakeState::Faulted { error: ExchangeError::GuestTrap, cleanup: None, then: None },
        ]
    };
    let mut ignored: usize = 0;
    for (at, state) in states().into_iter().enumerate() {
        for event in strays() {
            if answers(&state, &event) {
                continue;
            }
            let before = states().remove(at);
            let (after, action) = step(states().remove(at), event);
            assert_eq!(action, Action::Ignore);
            assert_eq!(after, before);
            ignored += 1;
        }
    }
    assert_eq!(ignored, 8 * 8 - 9);
}

#[test]
fn examine_scans_and_decodes() {
    let src = GuestRange { ptr: 40, capacity: 5 };
    let (state, action) = examine(src, 2, b"..AQID-..");
    assert_eq!(
        state,
        HandshakeState::Decoded {
            result: vec![1, 2, 3],
            releasing: src,
            then: Some(GuestRange { ptr: 2, capacity: 5 }),
        }
    );
    assert_eq!(action, Action::Deallocate { ptr: 40, capacity: 5 });
}

#[test]
fn examine_failures() {
    let src = GuestRange { ptr: 40, capacity: 5 };
    let (state, action) = examine(src, 0, b"AQID");
    assert_eq!(
        state,
        HandshakeState::Faulted {
            error: ExchangeError::ScanExhausted,
            cleanup: Some(src),
            then: None
        }
    );
    assert_eq!(action, Action::Deallocate { ptr: 40, capacity: 5 });

    let (state, _) = examine(src, 1, b"A===-");
    assert_eq!(
        state,
        HandshakeState::Faulted {
            error: ExchangeError::BadBase64,
            cleanup: Some(src),
            then: Some(GuestRange { ptr: 1, capacity: 4 }),
        }
    );

    let (state, _) = examine(src, 0, &[0xff, b'-']);
    assert_eq!(
        state,
        HandshakeState::Faulted {
            error: ExchangeError::MalformedUtf8,
            cleanup: Some(src),
            then: Some(GuestRange { ptr: 0, capacity: 2 }),
        }
    );

    let (state, _) = examine(src, u32::MAX, b"AQID-");
    assert_eq!(
        state,
        HandshakeState::Faulted {
            error: ExchangeError::ScanExhausted,
            cleanup: Some(src),
            then: None
        }
    );
}

#[test]
fn failure_releases_in_order() {
    let src = GuestRange { ptr: 40, capacity: 5 };
    let found = GuestRange { ptr: 9, capacity: 3 };
    let state =
        HandshakeState::Faulted { error: ExchangeError::BadBase64, cleanup: Some(src), then: Some(found) };
    let (state, action) = step(state, Event::Released);
    assert_eq!(
        state,
        HandshakeState::Faulted { error: ExchangeError::BadBase64, cleanup: Some(found), then: None }
    );
    assert_eq!(action, Action::Deallocate { ptr: 9, capacity: 3 });
    let (state, action) = step(state, Event::Released);
    assert_eq!(
        state,
        HandshakeState::Faulted { error: ExchangeError::BadBase64, cleanup: None, then: None }
    );
    assert_eq!(action, Action::Fail { error: ExchangeError::BadBase64 });
    assert!(state.has_ended());
}
