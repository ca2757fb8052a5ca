//! The thread that hands the events of running macros to the system, one at a time.

use crate::plugin::Delay;
use vstd::prelude::*;

verus! {

/// The longest delay after an event, in milliseconds.
pub const MAX_KEYPRESS_DELAY: Delay = 20;

/// What happened last in the sender.
#[derive(Debug, Clone, Copy, PartialEq, Eq, Structural)]
pub enum SenderEvent {
    /// The sender started.
    Started,
    /// The wait for an event ended, with an event or without one.
    Received { event: bool },
    /// The event was handed to the system, successfully or not.
    Sent { ok: bool },
    /// The delay after an event is over.
    Delayed,
}

/// What the sender does next.
#[derive(Debug, Clone, Copy, PartialEq, Eq, Structural)]
pub enum SenderAction {
    /// Wait for the next event.
    Receive,
    /// Hand the received event to the system.
    Send,
    /// Wait this many milliseconds, until the system has caught up.
    Delay(Delay),
}

/// The delay after an event, where the platform asks for `standard` milliseconds: at most
/// `MAX_KEYPRESS_DELAY`.
pub open spec fn delay_length(standard: Delay) -> Delay {
    if standard <= MAX_KEYPRESS_DELAY {
        standard
    } else {
        MAX_KEYPRESS_DELAY
    }
}

/// The length of the delay after an event, where the platform asks for `standard` milliseconds.
pub fn keypress_delay(standard: Delay) -> (delay: Delay)
    ensures
        delay == delay_length(standard),
        delay <= 20,
        standard <= 20 ==> delay == standard,
{
    if standard <= MAX_KEYPRESS_DELAY {
        standard
    } else {
        MAX_KEYPRESS_DELAY
    }
}

/// What the sender does after `last`.
pub open spec fn next_action(last: SenderEvent, standard: Delay) -> SenderAction {
    match last {
        SenderEvent::Started => SenderAction::Receive,
        SenderEvent::Received { event } => if event {
            SenderAction::Send
        } else {
            SenderAction::Receive
        },
        SenderEvent::Sent { .. } => SenderAction::Delay(delay_length(standard)),
        SenderEvent::Delayed => SenderAction::Receive,
    }
}

/// The next action of the sender, where the platform asks for a delay of `standard` milliseconds.
/// After every event that was handed over comes the delay, also if the system refused it; without
/// an event the sender just waits again.  The sender never ends.
pub fn keypress_executor_sender(last: SenderEvent, standard: Delay) -> (next: SenderAction)
    ensures
        next == next_action(last, standard),
{
    match last {
        SenderEvent::Received { event: true } => SenderAction::Send,
        SenderEvent::Sent { .. } => SenderAction::Delay(keypress_delay(standard)),
        _ => SenderAction::Receive,
    }
}

/// Whether `event` is what can happen when the sender does `action`.
pub open spec fn results_in(action: SenderAction, event: SenderEvent) -> bool {
    match action {
        SenderAction::Receive => event is Received,
        SenderAction::Send => event is Sent,
        SenderAction::Delay(_) => event is Delayed,
    }
}

/// Whether `events` are what happens in the sender from its start on.
pub open spec fn is_run(events: Seq<SenderEvent>, standard: Delay) -> bool {
    &&& events.len() > 0 ==> events[0] is Started
    &&& forall|i: int|
        0 < i < events.len() ==> results_in(
            next_action(events[i - 1], standard),
            #[trigger] events[i],
        )
}

/// The action that follows the event at `i` of a run.
pub open spec fn action_at(events: Seq<SenderEvent>, standard: Delay, i: int) -> SenderAction {
    next_action(events[i], standard)
}

/// Between an event that is handed to the system and the next one comes exactly one delay, of the
/// platform's length and of 20 milliseconds at most, whether the first event was taken or refused.
///
/// `i` and `j` are the places in a run at which two events are sent, with none sent between them.
pub proof fn law_one_delay_between_sends(
    events: Seq<SenderEvent>,
    standard: Delay,
    i: int,
    j: int,
)
    requires
        is_run(events, standard),
        0 <= i < j < events.len(),
        action_at(events, standard, i) is Send,
        action_at(events, standard, j) is Send,
        forall|k: int| i < k < j ==> !(#[trigger] action_at(events, standard, k) is Send),
    ensures
        i + 1 < j,
        action_at(events, standard, i + 1) == SenderAction::Delay(delay_length(standard)),
        delay_length(standard) <= 20,
        standard <= 20 ==> delay_length(standard) == standard,
        forall|k: int| i + 1 < k < j ==> #[trigger] action_at(events, standard, k) is Receive,
{
    assert(events[i + 1] is Sent);
    assert forall|k: int| i + 1 < k < j implies #[trigger] action_at(
        events,
        standard,
        k,
    ) is Receive by {
        lemma_waits_after_delay(events, standard, i, k);
    }
}

/// After the delay that follows a send the sender waits until it sends again.
proof fn lemma_waits_after_delay(events: Seq<SenderEvent>, standard: Delay, i: int, k: int)
    requires
        is_run(events, standard),
        0 <= i,
        i + 1 < k < events.len(),
        action_at(events, standard, i) is Send,
        forall|n: int| i < n <= k ==> !(#[trigger] action_at(events, standard, n) is Send),
    ensures
        action_at(events, standard, k) is Receive,
    decreases k,
{
    assert(events[i + 1] is Sent);
    assert(results_in(next_action(events[k - 1], standard), events[k]));
    if k > i + 2 {
        lemma_waits_after_delay(events, standard, i, k - 1);
    }
    assert(!(action_at(events, standard, k) is Send));
}

/// The sender waits for an event at the start, after a wait without one, and after a delay; it
/// sends what it received; and after sending, taken or refused, it waits as long as the platform
/// asks, but no longer than 20 milliseconds.
pub proof fn law_sender_steps(standard: Delay, ok: bool)
    ensures
        next_action(SenderEvent::Started, standard) is Receive,
        next_action(SenderEvent::Received { event: false }, standard) is Receive,
        next_action(SenderEvent::Received { event: true }, standard) is Send,
        next_action(SenderEvent::Delayed, standard) is Receive,
        next_action(SenderEvent::Sent { ok }, standard) is Delay,
        standard <= 20 ==> next_action(SenderEvent::Sent { ok }, standard) == SenderAction::Delay(
            standard,
        ),
        standard > 20 ==> next_action(SenderEvent::Sent { ok }, standard) == SenderAction::Delay(
            20,
        ),
        standard <= 20 ==> delay_length(standard) == standard,
        standard > 20 ==> delay_length(standard) == 20,
{
}

} // verus!
