//! The stop/go signal shared by the decoding task and the rendering task, and
//! the rules by which the rendering task sets it.

use vstd::prelude::*;

verus! {

/// Remaining capacity at or below which the decoding task is asked to pause.
pub const LOW_WATERMARK: usize = 10;

/// What the rendering task asks of the decoding task.
#[derive(PartialEq, Eq, Structural, Debug, Copy, Clone)]
pub enum ControlSignal {
    Stop,
    Go,
}

/// The outcome of one capacity evaluation by the rendering task.
#[derive(PartialEq, Eq, Structural, Debug, Copy, Clone)]
pub struct Evaluation {
    /// The signal the rendering task wants the decoding task to see.
    pub action: ControlSignal,
    /// The refill flag after the evaluation.
    pub reached_max_capacity: bool,
}

/// Free slots of a queue of `capacity` slots that holds `len` frames.
pub open spec fn remaining_slots(capacity: nat, len: nat) -> int {
    capacity - len
}

/// The signal wanted at a given fill level: `Stop` exactly when no more than
/// `LOW_WATERMARK` slots are free.
pub open spec fn desired_action(capacity: nat, len: nat) -> ControlSignal {
    if remaining_slots(capacity, len) <= LOW_WATERMARK {
        ControlSignal::Stop
    } else {
        ControlSignal::Go
    }
}

/// The refill flag after an evaluation: it is cleared exactly when the flag
/// was set, more than `LOW_WATERMARK` slots are free and at least half of the
/// queue is free; otherwise it keeps its value.
pub open spec fn refill_flag_after(capacity: nat, len: nat, flag: bool) -> bool {
    flag && !(remaining_slots(capacity, len) > LOW_WATERMARK && remaining_slots(capacity, len)
        >= capacity / 2)
}

/// Whether the rendering task writes `action` into the shared signal and wakes
/// the decoding task: always for `Stop`, and for `Go` only while the shared
/// signal still reads `Stop`.
pub open spec fn publishes(action: ControlSignal, shared: ControlSignal) -> bool {
    action == ControlSignal::Stop || shared == ControlSignal::Stop
}

/// The shared signal after the rendering task has applied `action` to it.
pub open spec fn shared_after(action: ControlSignal, shared: ControlSignal) -> ControlSignal {
    if publishes(action, shared) {
        action
    } else {
        shared
    }
}

/// Evaluates the fill level of the queue once, as the rendering task does at
/// the start of every iteration.
pub fn evaluate_capacity(capacity: usize, len: usize, reached_max_capacity: bool) -> (e: Evaluation)
    requires
        len <= capacity,
    ensures
        e.action == desired_action(capacity as nat, len as nat),
        e.reached_max_capacity == refill_flag_after(capacity as nat, len as nat, reached_max_capacity),
{
    let remaining: usize = capacity - len;
    if remaining <= LOW_WATERMARK {
        Evaluation { action: ControlSignal::Stop, reached_max_capacity }
    } else if reached_max_capacity && remaining >= capacity / 2 {
        Evaluation { action: ControlSignal::Go, reached_max_capacity: false }
    } else {
        Evaluation { action: ControlSignal::Go, reached_max_capacity }
    }
}

/// Decides whether `action` must be written to the shared signal and the
/// decoding task woken.
pub fn should_publish(action: ControlSignal, shared: ControlSignal) -> (b: bool)
    ensures
        b == publishes(action, shared),
{
    action == ControlSignal::Stop || shared == ControlSignal::Stop
}

/// Applies `action` to the shared signal and reports whether the decoding task
/// has to be woken.
pub fn set_and_maybe_notify(shared: &mut ControlSignal, action: ControlSignal) -> (notify: bool)
    ensures
        notify == publishes(action, *old(shared)),
        *final(shared) == shared_after(action, *old(shared)),
        notify ==> *final(shared) == action,
{
    if should_publish(action, *shared) {
        *shared = action;
        true
    } else {
        false
    }
}

/// Whether the decoding task has to keep waiting on the shared signal before
/// it encodes the frame it holds.
pub fn must_wait(shared: ControlSignal) -> (b: bool)
    ensures
        b == (shared == ControlSignal::Stop),
{
    shared == ControlSignal::Stop
}

/// While no more than `LOW_WATERMARK` slots are free the wanted signal is
/// `Stop`, whatever the refill flag says, and the flag is left alone.
pub proof fn lemma_stop_holds_at_low_watermark(capacity: nat, len: nat, flag: bool)
    requires
        len <= capacity,
        remaining_slots(capacity, len) <= LOW_WATERMARK,
    ensures
        desired_action(capacity, len) == ControlSignal::Stop,
        refill_flag_after(capacity, len, flag) == flag,
{
}

/// Resuming at half capacity. At a fill level that does not lie strictly
/// between the low watermark and half of the capacity, `Go` is wanted only
/// when at least half of the queue is free.
pub proof fn lemma_go_needs_half_capacity(capacity: nat, len: nat)
    requires
        len <= capacity,
        !(LOW_WATERMARK < remaining_slots(capacity, len) < capacity / 2),
    ensures
        desired_action(capacity, len) == ControlSignal::Go ==> remaining_slots(capacity, len)
            >= capacity / 2,
{
}

/// The refill flag is cleared only when at least half of the queue is free,
/// and never set by an evaluation.
pub proof fn lemma_refill_flag_clears_at_half(capacity: nat, len: nat, flag: bool)
    requires
        len <= capacity,
    ensures
        flag && !refill_flag_after(capacity, len, flag) ==> remaining_slots(capacity, len)
            >= capacity / 2,
        refill_flag_after(capacity, len, flag) ==> flag,
{
}

/// A `Stop` always reaches the shared signal, and the shared signal reads `Go`
/// after an update exactly when `Go` was wanted.
pub proof fn lemma_shared_follows_action(action: ControlSignal, shared: ControlSignal)
    ensures
        shared_after(action, shared) == action,
        action == ControlSignal::Stop ==> publishes(action, shared),
{
}

} // verus!
