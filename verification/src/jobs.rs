//! The completion side of the background job pool: non-blocking draining of
//! the single channel on which worker threads send results back.

use vstd::prelude::*;

verus! {

/// Declares crossbeam_channel's `Receiver` so that the completion channel
/// can stand in verified signatures; its contents stay opaque here.
#[verifier::external_type_specification]
#[verifier::external_body]
#[verifier::reject_recursive_types(T)]
pub struct ExReceiver<T>(crossbeam_channel::Receiver<T>);

/// One non-blocking look at the completion channel: a message, or an empty
/// channel, or a channel whose every sender is gone.
pub enum RecvStep<T> {
    Got(T),
    Empty,
    Disconnected,
}

/// Relies on crossbeam_channel's `Receiver::try_recv`: without blocking it
/// either yields one message or reports the channel empty or disconnected.
/// Which of the three happens depends on the sending workers, so nothing
/// more is promised of the outcome; what the drain does with each outcome
/// is pinned by `apply_recv_step`.
#[verifier::external_body]
fn try_recv_step<T>(rx: &crossbeam_channel::Receiver<T>) -> RecvStep<T> {
    match rx.try_recv() {
        Ok(message) => RecvStep::Got(message),
        Err(crossbeam_channel::TryRecvError::Empty) => RecvStep::Empty,
        Err(crossbeam_channel::TryRecvError::Disconnected) => RecvStep::Disconnected,
    }
}

/// Applies one look at the channel to the drain's state, for every possible
/// outcome: a message is appended after everything drained before it and
/// the drain goes on; an empty channel stops the drain quietly; a
/// disconnected channel — every worker gone — stops it and is fatal. The
/// flags returned are (stop, fatal, received a message).
pub fn apply_recv_step<T>(out: &mut Vec<T>, step: RecvStep<T>) -> (r: (bool, bool, bool))
    ensures
        step matches RecvStep::Got(m) ==> final(out)@ == old(out)@.push(m) && r == ((
            false,
            false,
            true,
        )),
        step is Empty ==> final(out)@ == old(out)@ && r == ((true, false, false)),
        step is Disconnected ==> final(out)@ == old(out)@ && r == ((true, true, false)),
{
    match step {
        RecvStep::Got(message) => {
            out.push(message);
            (false, false, true)
        },
        RecvStep::Empty => (true, false, false),
        RecvStep::Disconnected => (true, true, false),
    }
}

/// Drains the completion channel without blocking, handing every outcome to
/// `apply_recv_step`: each ready message is appended, in the order the
/// channel yields them, at most `max` per call (the loop drains again on
/// its next iteration); an empty channel stops the drain, and a
/// disconnected channel is reported as fatal. Which messages are ready is
/// the workers' to decide, so this contract states only what holds of every
/// outcome; the handling of each single outcome, the returned flag
/// included, is `apply_recv_step`'s contract.
pub fn drain_completions<T>(
    rx: &crossbeam_channel::Receiver<T>,
    out: &mut Vec<T>,
    max: usize,
) -> (disconnected: bool)
    ensures
        final(out)@.len() >= old(out)@.len(),
        final(out)@.len() <= old(out)@.len() + max,
        forall|k: int| 0 <= k < old(out)@.len() ==> final(out)@[k] == old(out)@[k],
        max == 0 ==> !disconnected && final(out)@ == old(out)@,
{
    let mut done = false;
    let mut disconnected = false;
    let mut budget = max;
    while !done && budget > 0
        invariant
            out@.len() >= old(out)@.len(),
            out@.len() + budget <= old(out)@.len() + max,
            budget <= max,
            forall|k: int| 0 <= k < old(out)@.len() ==> out@[k] == old(out)@[k],
            max == 0 ==> !disconnected && out@ == old(out)@,
        decreases budget, (if done {
            0int
        } else {
            1int
        }),
    {
        let step = try_recv_step(rx);
        let (stop, fatal, received) = apply_recv_step(out, step);
        done = stop;
        disconnected = fatal;
        if received {
            budget = budget - 1;
        }
    }
    disconnected
}

} // verus!
