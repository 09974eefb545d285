//! Every range a handshake reserves is released once.
//!
//! A handshake is followed here from its start through any sequence of
//! events, and the actions it asks for are collected in order. Over such
//! histories this module proves that a handshake asks for one range; that it
//! writes only to the start of that range and no more bytes than the range
//! has; that it never asks for a release before the range was granted; and
//! that, once it has ended, it has asked for the release of that range exactly
//! once, by the address that `allocate` returned and with the capacity that was
//! asked of `allocate`, whether the call succeeded or failed.

use vstd::prelude::*;

use crate::codec::{encoded, lemma_single_sentinel, well_encoded};
use crate::handshake::{begun, ended, next, ActionModel, EventModel, GuestRange, StateModel};

verus! {

/// The handshake for `payload` after `events`: the state it is in, and every
/// action it has asked for, the first being the answer to the start of the
/// call.
pub open spec fn handshake(payload: Seq<u8>, events: Seq<EventModel>) -> (
    StateModel,
    Seq<ActionModel>,
)
    decreases events.len(),
{
    if events.len() == 0 {
        let (state, action) = begun(StateModel::Idle, payload);
        (state, seq![action])
    } else {
        let (before, actions) = handshake(payload, events.drop_last());
        let (after, action) = next(before, events.last());
        (after, actions.push(action))
    }
}

/// The ranges whose release `actions` ask for, in the order asked.
pub open spec fn released(actions: Seq<ActionModel>) -> Seq<GuestRange>
    decreases actions.len(),
{
    if actions.len() == 0 {
        Seq::empty()
    } else {
        match actions.last() {
            ActionModel::Deallocate { ptr, capacity } => released(actions.drop_last()).push(
                GuestRange { ptr, capacity },
            ),
            _ => released(actions.drop_last()),
        }
    }
}

/// How many of `actions` ask for the release of a range at `ptr`.
pub open spec fn releases(actions: Seq<ActionModel>, ptr: u32) -> nat
    decreases actions.len(),
{
    if actions.len() == 0 {
        0
    } else {
        match actions.last() {
            ActionModel::Deallocate { ptr: at, .. } if at == ptr => releases(
                actions.drop_last(),
                ptr,
            ) + 1,
            _ => releases(actions.drop_last(), ptr),
        }
    }
}

/// True when every write among `actions` goes to the start of `src` and is no
/// longer than `src`.
pub open spec fn writes_within(actions: Seq<ActionModel>, src: GuestRange) -> bool {
    forall|i: int|
        0 <= i < actions.len() ==> (#[trigger] actions[i] matches ActionModel::Write { ptr, bytes }
            ==> ptr == src.ptr && bytes.len() <= src.capacity)
}

/// True when `actions` begin with the request for `length` bytes and ask for
/// no other range.
pub open spec fn reserves_once(actions: Seq<ActionModel>, length: u32) -> bool {
    &&& actions.len() >= 1
    &&& actions[0] == ActionModel::Allocate { length }
    &&& forall|i: int| 1 <= i < actions.len() ==> !(#[trigger] actions[i] is Allocate)
}

/// True when `actions` ask for no write and no release.
pub open spec fn touches_nothing(actions: Seq<ActionModel>) -> bool {
    forall|i: int|
        0 <= i < actions.len() ==> !(#[trigger] actions[i] is Write) && !(actions[i] is Deallocate)
}

/// True when `events[grant]` is the guest's grant of the range that the
/// handshake for `payload` has asked for.
pub open spec fn granted_at(payload: Seq<u8>, events: Seq<EventModel>, grant: int) -> bool {
    &&& 0 <= grant < events.len()
    &&& handshake(payload, events.take(grant)).0 is Requested
    &&& events[grant] is Allocated
}

/// The range granted by `events[grant]`: the address that the guest
/// returned, and the capacity that was asked of it.
pub open spec fn granted(payload: Seq<u8>, events: Seq<EventModel>, grant: int) -> GuestRange {
    GuestRange {
        ptr: events[grant]->Allocated_0,
        capacity: handshake(payload, events.take(grant)).0->length,
    }
}

/// True when the guest function never returns the address granted by
/// `events[grant]` as the address of its result.
pub open spec fn keeps_apart(events: Seq<EventModel>, grant: int) -> bool {
    forall|j: int|
        0 <= j < events.len() ==> #[trigger] events[j] != EventModel::Returned(
            events[grant]->Allocated_0,
        )
}

/// What holds while no range has been granted: the handshake waits for the
/// grant or has ended without it, and has touched nothing.
spec fn ungranted(state: StateModel, actions: Seq<ActionModel>) -> bool {
    &&& state is Requested || ended(state)
    &&& touches_nothing(actions)
}

/// What holds while the request for a range is unanswered: the range asked
/// for is as long as the encoded string, and nothing else has been asked of
/// the host.
spec fn waiting(state: StateModel, actions: Seq<ActionModel>) -> bool {
    &&& state matches StateModel::Requested { wire, length }
    &&& length == wire.len()
    &&& actions.len() >= 1
    &&& actions[0] == ActionModel::Allocate { length }
    &&& forall|i: int| 1 <= i < actions.len() ==> #[trigger] actions[i] == ActionModel::Ignore
}

/// What holds of the releases while `src` is in use: there are none.
spec fn unreleased(actions: Seq<ActionModel>, src: GuestRange) -> bool {
    released(actions).len() == 0 && releases(actions, src.ptr) == 0
}

/// What holds of the releases once the release of `src` has been asked for.
///
/// `src` was the first to go. A second range, that of the result, may follow
/// it. With `apart`, the case of a guest function that does not return the
/// address of `src`, the release of `src` is the only one at its address.
spec fn releasing(
    cleanup: Option<GuestRange>,
    then: Option<GuestRange>,
    actions: Seq<ActionModel>,
    src: GuestRange,
    apart: bool,
) -> bool {
    let gone = released(actions);
    &&& 1 <= gone.len() <= 2
    &&& gone[0] == src
    &&& apart ==> releases(actions, src.ptr) == 1
    &&& match cleanup {
        Some(range) => if gone.len() == 1 {
            &&& range == src
            &&& apart ==> (then matches Some(later) ==> later.ptr != src.ptr)
        } else {
            gone[1] == range && then is None
        },
        None => true,
    }
}

/// What holds from the moment the guest has granted `src`.
spec fn holding(state: StateModel, actions: Seq<ActionModel>, src: GuestRange, apart: bool) -> bool {
    &&& reserves_once(actions, src.capacity)
    &&& writes_within(actions, src)
    &&& match state {
        StateModel::Allocated { src: held } => held == src && unreleased(actions, src),
        StateModel::Written { src: held } => held == src && unreleased(actions, src),
        StateModel::Invoked { src: held, result_ptr } => {
            &&& held == src
            &&& unreleased(actions, src)
            &&& apart ==> result_ptr != src.ptr
        },
        StateModel::Decoded { releasing: range, then, .. } => releasing(
            Some(range),
            then,
            actions,
            src,
            apart,
        ),
        StateModel::Faulted { cleanup, then, .. } => releasing(cleanup, then, actions, src, apart),
        StateModel::Idle => releasing(None, None, actions, src, apart),
        StateModel::Requested { .. } => false,
    }
}

/// One more action adds its range to the releases if it asks for a release,
/// and nothing otherwise.
proof fn lemma_push(actions: Seq<ActionModel>, action: ActionModel, ptr: u32)
    ensures
        released(actions.push(action)) == match action {
            ActionModel::Deallocate { ptr, capacity } => released(actions).push(
                GuestRange { ptr, capacity },
            ),
            _ => released(actions),
        },
        releases(actions.push(action), ptr) == match action {
            ActionModel::Deallocate { ptr: at, .. } if at == ptr => releases(actions, ptr) + 1,
            _ => releases(actions, ptr),
        },
{
    assert(actions.push(action).drop_last() =~= actions);
}

/// Actions that touch nothing release nothing.
proof fn lemma_nothing_released(actions: Seq<ActionModel>, ptr: u32)
    requires
        touches_nothing(actions),
    ensures
        released(actions).len() == 0,
        releases(actions, ptr) == 0,
    decreases actions.len(),
{
    if actions.len() > 0 {
        lemma_nothing_released(actions.drop_last(), ptr);
    }
}

/// Without a grant, the handshake stays where nothing is held.
proof fn lemma_ungranted(payload: Seq<u8>, events: Seq<EventModel>)
    requires
        forall|j: int| 0 <= j < events.len() ==> !(#[trigger] events[j] is Allocated),
    ensures
        ungranted(handshake(payload, events).0, handshake(payload, events).1),
    decreases events.len(),
{
    if events.len() > 0 {
        lemma_ungranted(payload, events.drop_last());
    }
}

/// While the handshake is in `Requested`, it has been there since its start.
proof fn lemma_waiting(payload: Seq<u8>, events: Seq<EventModel>)
    requires
        well_encoded(payload),
        handshake(payload, events).0 is Requested,
    ensures
        waiting(handshake(payload, events).0, handshake(payload, events).1),
    decreases events.len(),
{
    if events.len() == 0 {
        lemma_single_sentinel(payload, encoded(payload)->Ok_0);
    } else {
        lemma_waiting(payload, events.drop_last());
    }
}

/// One event further, `src` is still accounted for.
proof fn lemma_holding_step(
    state: StateModel,
    actions: Seq<ActionModel>,
    src: GuestRange,
    apart: bool,
    event: EventModel,
)
    requires
        holding(state, actions, src, apart),
        apart ==> event != EventModel::Returned(src.ptr),
    ensures
        holding(next(state, event).0, actions.push(next(state, event).1), src, apart),
{
    lemma_push(actions, next(state, event).1, src.ptr);
}

/// From the event that grants the range on, the range is accounted for.
proof fn lemma_holding_after_grant(
    payload: Seq<u8>,
    events: Seq<EventModel>,
    grant: int,
    upto: int,
    apart: bool,
)
    requires
        well_encoded(payload),
        0 <= grant < upto <= events.len(),
        granted_at(payload, events, grant),
        apart ==> keeps_apart(events, grant),
    ensures
        holding(
            handshake(payload, events.take(upto)).0,
            handshake(payload, events.take(upto)).1,
            granted(payload, events, grant),
            apart,
        ),
    decreases upto - grant,
{
    let src = granted(payload, events, grant);
    let (before, actions) = handshake(payload, events.take(upto - 1));
    assert(events.take(upto).drop_last() =~= events.take(upto - 1));
    if upto == grant + 1 {
        lemma_waiting(payload, events.take(grant));
        lemma_nothing_released(actions, src.ptr);
        lemma_push(actions, next(before, events[grant]).1, src.ptr);
    } else {
        lemma_holding_after_grant(payload, events, grant, upto - 1, apart);
        lemma_holding_step(before, actions, src, apart, events[upto - 1]);
    }
}

/// A handshake that has ended has asked for the release of the range it was
/// granted, before any other release and by the address and the capacity of
/// the grant. It has asked for at most one release more, has asked for no
/// other range, and has written nowhere but at the start of the granted
/// range, and no more bytes than the range has.
///
/// The first premise holds of every payload that `encode_with_termination`
/// accepts.
pub proof fn lemma_granted_range_released(payload: Seq<u8>, events: Seq<EventModel>, grant: int)
    requires
        well_encoded(payload),
        granted_at(payload, events, grant),
        ended(handshake(payload, events).0),
    ensures
        ({
            let src = granted(payload, events, grant);
            let actions = handshake(payload, events).1;
            &&& reserves_once(actions, src.capacity)
            &&& writes_within(actions, src)
            &&& 1 <= released(actions).len() <= 2
            &&& released(actions)[0] == src
        }),
{
    lemma_holding_after_grant(payload, events, grant, events.len() as int, false);
    assert(events.take(events.len() as int) =~= events);
}

/// A handshake that has ended has asked exactly once for a release at the
/// address of the range it was granted.
///
/// The guest function is taken not to return that address as the address of
/// its result. A handshake releases the range of the result too: a guest
/// function that returns the address it was given has that address released
/// twice.
pub proof fn lemma_allocation_released_once(payload: Seq<u8>, events: Seq<EventModel>, grant: int)
    requires
        well_encoded(payload),
        granted_at(payload, events, grant),
        keeps_apart(events, grant),
        ended(handshake(payload, events).0),
    ensures
        releases(handshake(payload, events).1, granted(payload, events, grant).ptr) == 1,
{
    lemma_holding_after_grant(payload, events, grant, events.len() as int, true);
    assert(events.take(events.len() as int) =~= events);
}

/// While a handshake runs, it asks at most once for a release at the address
/// of the range it was granted, and for at most two releases in all; the
/// first of them is that of the granted range.
///
/// The premises are those of [`lemma_allocation_released_once`], but for the
/// handshake having ended.
pub proof fn lemma_allocation_released_at_most_once(
    payload: Seq<u8>,
    events: Seq<EventModel>,
    grant: int,
)
    requires
        well_encoded(payload),
        granted_at(payload, events, grant),
        keeps_apart(events, grant),
    ensures
        ({
            let src = granted(payload, events, grant);
            let actions = handshake(payload, events).1;
            &&& releases(actions, src.ptr) <= 1
            &&& released(actions).len() <= 2
            &&& released(actions).len() >= 1 ==> released(actions)[0] == src
        }),
{
    lemma_holding_after_grant(payload, events, grant, events.len() as int, true);
    assert(events.take(events.len() as int) =~= events);
}

/// A handshake that is granted no range asks for no release and no write.
pub proof fn lemma_nothing_released_without_grant(payload: Seq<u8>, events: Seq<EventModel>)
    requires
        forall|j: int| 0 <= j < events.len() ==> !(#[trigger] events[j] is Allocated),
    ensures
        touches_nothing(handshake(payload, events).1),
        released(handshake(payload, events).1).len() == 0,
{
    lemma_ungranted(payload, events);
    lemma_nothing_released(handshake(payload, events).1, 0);
}

} // verus!
