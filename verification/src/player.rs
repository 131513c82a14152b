//! The rendering side of a session: a bounded first-in-first-out queue of text
//! frames, the capacity evaluation that drives the stop/go signal, pacing
//! against the frame interval, and the end-of-stream handshake.
//!
//! The player never blocks, sleeps or prints. Its caller owns the channel, the
//! clock and the terminal, and hands the player what it observed.

use std::collections::VecDeque;
use vstd::prelude::*;
use crate::config::Config;
use crate::control::{evaluate_capacity, desired_action, refill_flag_after, ControlSignal, LOW_WATERMARK};
use crate::globals::FRAME_BACKLOG;

verus! {

/// One item sent from the decoding task to the rendering task.
#[derive(Debug)]
pub enum Message {
    /// One encoded text frame.
    Frame(String),
    /// The source has no more frames; nothing follows.
    StreamEnded,
}

/// What one pacing tick of the player asks its caller to do.
#[derive(Debug)]
pub enum Step {
    /// The frame interval has not elapsed: render nothing.
    Skip,
    /// A frame is due but none is buffered and the stream is still open.
    Idle,
    /// Clear the screen, write this frame and restart the pacing clock.
    Render(String),
    /// The stream has ended and every buffered frame was rendered.
    Finished,
}

/// The mathematical state of a player.
pub struct PlayerState {
    /// Buffered frames, oldest first.
    pub pending: Seq<String>,
    /// The most frames the queue is meant to hold.
    pub capacity: nat,
    /// The shortest time between two renders, in milliseconds.
    pub frame_interval_ms: nat,
    /// The rendering loop has started: set by the first capacity evaluation.
    pub playing: bool,
    /// The session has ended: the stream was exhausted and nothing was left
    /// to render.
    pub finished: bool,
    /// The end-of-stream marker or a closed channel was seen.
    pub stream_exhausted: bool,
    /// The queue was full after a render and has not drained to half since.
    pub reached_max_capacity: bool,
    /// The signal chosen by the latest capacity evaluation.
    pub action: ControlSignal,
    /// The latest evaluation allows one receive that has not happened yet.
    pub awaiting: bool,
    /// Every frame accepted so far, in order of arrival.
    pub received: Seq<String>,
    /// Every frame handed out for rendering so far, in order.
    pub rendered: Seq<String>,
}

impl PlayerState {
    /// The state of a fresh player.
    pub open spec fn initial(capacity: nat, frame_interval_ms: nat) -> PlayerState {
        PlayerState {
            pending: Seq::empty(),
            capacity,
            frame_interval_ms,
            playing: false,
            finished: false,
            stream_exhausted: false,
            reached_max_capacity: false,
            action: ControlSignal::Go,
            awaiting: false,
            received: Seq::empty(),
            rendered: Seq::empty(),
        }
    }

    /// What holds of every state a player can get into.
    pub open spec fn inv(self) -> bool {
        &&& self.pending.len() <= self.capacity
        &&& self.received == self.rendered + self.pending
        &&& self.awaiting ==> !self.stream_exhausted && self.action == ControlSignal::Go
            && self.pending.len() + LOW_WATERMARK < self.capacity
        &&& self.finished ==> self.stream_exhausted && self.pending.len() == 0
    }

    /// The state after one capacity evaluation.
    pub open spec fn evaluated(self) -> PlayerState {
        let action = desired_action(self.capacity, self.pending.len());
        PlayerState {
            action,
            reached_max_capacity: refill_flag_after(
                self.capacity,
                self.pending.len(),
                self.reached_max_capacity,
            ),
            awaiting: !self.stream_exhausted && action == ControlSignal::Go,
            playing: true,
            ..self
        }
    }

    /// The state after the awaited receive has returned `incoming`; `None`
    /// stands for a closed channel.
    pub open spec fn accepted(self, incoming: Option<Message>) -> PlayerState {
        match incoming {
            Some(Message::Frame(frame)) => PlayerState {
                pending: self.pending.push(frame),
                received: self.received.push(frame),
                awaiting: false,
                ..self
            },
            _ => PlayerState { stream_exhausted: true, awaiting: false, ..self },
        }
    }

    /// Whether a tick after `elapsed_ms` milliseconds renders nothing because
    /// the frame interval has not passed.
    pub open spec fn skips(self, elapsed_ms: nat) -> bool {
        elapsed_ms < self.frame_interval_ms
    }

    /// The state after a tick, `elapsed_ms` milliseconds after the last render.
    pub open spec fn ticked(self, elapsed_ms: nat) -> PlayerState {
        if self.skips(elapsed_ms) {
            self
        } else if self.pending.len() > 0 {
            PlayerState {
                pending: self.pending.drop_first(),
                rendered: self.rendered.push(self.pending[0]),
                reached_max_capacity: self.reached_max_capacity || self.pending.len() - 1
                    == self.capacity,
                ..self
            }
        } else if self.stream_exhausted {
            PlayerState { finished: true, ..self }
        } else {
            self
        }
    }

    /// What a tick after `elapsed_ms` milliseconds asks of the caller.
    pub open spec fn tick_step(self, elapsed_ms: nat) -> Step {
        if self.skips(elapsed_ms) {
            Step::Skip
        } else if self.pending.len() > 0 {
            Step::Render(self.pending[0])
        } else if self.stream_exhausted {
            Step::Finished
        } else {
            Step::Idle
        }
    }
}

/// One thing that can happen to a player.
pub enum Event {
    /// The capacity evaluation at the start of an iteration.
    Evaluate,
    /// The result of a blocking receive; `None` stands for a closed channel.
    /// It has no effect unless the latest evaluation asked for it.
    Receive(Option<Message>),
    /// A pacing tick so many milliseconds after the last render.
    Tick(nat),
}

impl PlayerState {
    /// The state after one event.
    pub open spec fn after(self, event: Event) -> PlayerState {
        match event {
            Event::Evaluate => self.evaluated(),
            Event::Receive(incoming) => if self.awaiting {
                self.accepted(incoming)
            } else {
                self
            },
            Event::Tick(elapsed_ms) => self.ticked(elapsed_ms),
        }
    }

    /// The state after a sequence of events, taken in order.
    pub open spec fn after_all(self, events: Seq<Event>) -> PlayerState
        decreases events.len(),
    {
        if events.len() == 0 {
            self
        } else {
            self.after_all(events.drop_last()).after(events.last())
        }
    }

    /// The state after one whole iteration of the rendering loop: evaluate,
    /// receive `incoming` if the evaluation asks for it, then tick.
    pub open spec fn iterated(self, incoming: Option<Message>, elapsed_ms: nat) -> PlayerState {
        self.evaluated().after(Event::Receive(incoming)).ticked(elapsed_ms)
    }

    /// What the tick of one whole iteration asks of the caller.
    pub open spec fn iteration_step(self, incoming: Option<Message>, elapsed_ms: nat) -> Step {
        self.evaluated().after(Event::Receive(incoming)).tick_step(elapsed_ms)
    }

    /// Whether one whole iteration takes an item from the channel.
    pub open spec fn iteration_receives(self) -> bool {
        self.evaluated().awaiting
    }

    /// Work that separates a player from the end of its session when the
    /// channel and the decoding task still hold `unreceived` items, the
    /// end-of-stream marker included.
    pub open spec fn work_left(self, unreceived: nat) -> nat {
        2 * unreceived + self.pending.len()
    }
}

/// Every event keeps the invariant of the player.
pub proof fn lemma_event_keeps_inv(s: PlayerState, event: Event)
    requires
        s.inv(),
    ensures
        s.after(event).inv(),
{
    match event {
        Event::Evaluate => {},
        Event::Receive(incoming) => {
            if s.awaiting {
                match incoming {
                    Some(Message::Frame(frame)) => {
                        assert(s.received.push(frame) =~= s.rendered + s.pending.push(frame));
                    },
                    _ => {},
                }
            }
        },
        Event::Tick(elapsed_ms) => {
            if !s.skips(elapsed_ms) && s.pending.len() > 0 {
                assert(s.rendered.push(s.pending[0]) + s.pending.drop_first() =~= s.rendered
                    + s.pending);
            }
        },
    }
}

/// Every state that a fresh player reaches, by whatever events in whatever
/// order, satisfies the invariant.
pub proof fn lemma_reachable_states_keep_inv(
    capacity: nat,
    frame_interval_ms: nat,
    events: Seq<Event>,
)
    ensures
        PlayerState::initial(capacity, frame_interval_ms).after_all(events).inv(),
    decreases events.len(),
{
    let start = PlayerState::initial(capacity, frame_interval_ms);
    if events.len() == 0 {
        assert(start.received =~= start.rendered + start.pending);
    } else {
        lemma_reachable_states_keep_inv(capacity, frame_interval_ms, events.drop_last());
        lemma_event_keeps_inv(start.after_all(events.drop_last()), events.last());
    }
}

/// In every reachable state the queue holds no more frames than its capacity,
/// and so stays within the one frame of slack that a send racing the capacity
/// reading is allowed.
pub proof fn lemma_queue_within_capacity(
    capacity: nat,
    frame_interval_ms: nat,
    events: Seq<Event>,
)
    ensures
        PlayerState::initial(capacity, frame_interval_ms).after_all(events).pending.len()
            <= capacity,
        PlayerState::initial(capacity, frame_interval_ms).after_all(events).pending.len()
            <= capacity + 1,
        PlayerState::initial(capacity, frame_interval_ms).after_all(events).capacity == capacity,
    decreases events.len(),
{
    lemma_reachable_states_keep_inv(capacity, frame_interval_ms, events);
    if events.len() > 0 {
        lemma_queue_within_capacity(capacity, frame_interval_ms, events.drop_last());
    }
}

/// Frames leave in the order in which they arrived: in every reachable state
/// the frames rendered so far, followed by the buffered ones, are exactly the
/// frames received so far; and once the session has ended the rendered frames
/// are the received frames, each once and in the same order.
pub proof fn lemma_frames_keep_their_order(
    capacity: nat,
    frame_interval_ms: nat,
    events: Seq<Event>,
)
    ensures
        ({
            let s = PlayerState::initial(capacity, frame_interval_ms).after_all(events);
            &&& s.received == s.rendered + s.pending
            &&& s.rendered.is_prefix_of(s.received)
            &&& s.finished ==> s.rendered == s.received && s.pending.len() == 0
        }),
{
    lemma_reachable_states_keep_inv(capacity, frame_interval_ms, events);
    let s = PlayerState::initial(capacity, frame_interval_ms).after_all(events);
    if s.finished {
        assert(s.rendered + s.pending =~= s.rendered);
    }
    assert(s.rendered.is_prefix_of(s.rendered + s.pending));
}

/// A tick hands out a frame only when at least one frame interval has passed
/// since the last render, so two renders are never closer than that; a tick
/// that comes earlier changes nothing.
pub proof fn lemma_renders_are_paced(s: PlayerState, elapsed_ms: nat)
    ensures
        s.tick_step(elapsed_ms) is Render ==> elapsed_ms >= s.frame_interval_ms,
        s.ticked(elapsed_ms).rendered != s.rendered ==> elapsed_ms >= s.frame_interval_ms,
        elapsed_ms < s.frame_interval_ms ==> s.ticked(elapsed_ms) == s && s.tick_step(elapsed_ms)
            is Skip,
{
}

/// The session ends exactly at a due tick that finds the stream exhausted and
/// nothing buffered; by then every received frame has been rendered.
pub proof fn lemma_finishes_when_drained(s: PlayerState, elapsed_ms: nat)
    requires
        s.inv(),
    ensures
        s.tick_step(elapsed_ms) is Finished <==> elapsed_ms >= s.frame_interval_ms
            && s.stream_exhausted && s.pending.len() == 0,
        s.tick_step(elapsed_ms) is Finished ==> s.ticked(elapsed_ms).rendered == s.received
            && s.ticked(elapsed_ms).finished,
{
    if s.tick_step(elapsed_ms) is Finished {
        assert(s.rendered + s.pending =~= s.rendered);
    }
}

/// Progress of a due iteration. With a queue of more than `LOW_WATERMARK`
/// slots, an iteration whose tick is due either ends the session or renders
/// the oldest frame, and the work left strictly shrinks; it never idles.
/// `unreceived` counts the items the iteration can still take.
pub proof fn lemma_due_iteration_makes_progress(
    s: PlayerState,
    incoming: Option<Message>,
    elapsed_ms: nat,
    unreceived: nat,
)
    requires
        s.inv(),
        !s.finished,
        s.capacity > LOW_WATERMARK,
        elapsed_ms >= s.frame_interval_ms,
        s.iteration_receives() ==> unreceived >= 1,
    ensures
        ({
            let next = s.iterated(incoming, elapsed_ms);
            let step = s.iteration_step(incoming, elapsed_ms);
            let left: nat = if s.iteration_receives() {
                (unreceived - 1) as nat
            } else {
                unreceived
            };
            &&& next.inv()
            &&& step is Render || step is Finished
            &&& step is Finished ==> next.finished && next.rendered == next.received
            &&& step is Render ==> !next.finished && next.rendered.len() == s.rendered.len() + 1
                && next.work_left(left) < s.work_left(unreceived)
        }),
{
    let e = s.evaluated();
    lemma_event_keeps_inv(s, Event::Evaluate);
    let r = e.after(Event::Receive(incoming));
    lemma_event_keeps_inv(e, Event::Receive(incoming));
    lemma_event_keeps_inv(r, Event::Tick(elapsed_ms));
    lemma_finishes_when_drained(r, elapsed_ms);
}

/// An iteration whose tick is not yet due renders nothing and never adds to
/// the work left.
pub proof fn lemma_early_iteration_keeps_work(
    s: PlayerState,
    incoming: Option<Message>,
    elapsed_ms: nat,
    unreceived: nat,
)
    requires
        s.inv(),
        elapsed_ms < s.frame_interval_ms,
        s.iteration_receives() ==> unreceived >= 1,
    ensures
        ({
            let next = s.iterated(incoming, elapsed_ms);
            let left: nat = if s.iteration_receives() {
                (unreceived - 1) as nat
            } else {
                unreceived
            };
            &&& next.inv()
            &&& s.iteration_step(incoming, elapsed_ms) is Skip
            &&& next.rendered == s.rendered
            &&& next.work_left(left) <= s.work_left(unreceived)
        }),
{
    let e = s.evaluated();
    lemma_event_keeps_inv(s, Event::Evaluate);
    lemma_event_keeps_inv(e, Event::Receive(incoming));
}

/// What a receive returns from a source that still holds `frames`: the first
/// of them, or the end-of-stream marker once they are used up.
pub open spec fn incoming_from(frames: Seq<String>) -> Option<Message> {
    if frames.len() > 0 {
        Some(Message::Frame(frames[0]))
    } else {
        Some(Message::StreamEnded)
    }
}

/// Items a player can still receive from a source that holds `frames`: the
/// frames and, until it was seen, the end-of-stream marker.
pub open spec fn unreceived(s: PlayerState, frames: Seq<String>) -> nat {
    if s.stream_exhausted {
        frames.len()
    } else {
        frames.len() + 1
    }
}

/// How many of the clock readings let a frame through: those that are no
/// shorter than the frame interval.
pub open spec fn due_ticks(frame_interval_ms: nat, clock: Seq<nat>) -> nat
    decreases clock.len(),
{
    if clock.len() == 0 {
        0
    } else if clock[0] >= frame_interval_ms {
        1 + due_ticks(frame_interval_ms, clock.drop_first())
    } else {
        due_ticks(frame_interval_ms, clock.drop_first())
    }
}

impl PlayerState {
    /// The state after the rendering loop has run against a source that holds
    /// `frames`, one iteration for each reading of `clock`, or fewer if the
    /// session ends before.
    pub open spec fn played(self, frames: Seq<String>, clock: Seq<nat>) -> PlayerState
        decreases clock.len(),
    {
        if clock.len() == 0 || self.finished {
            self
        } else {
            let rest = if self.iteration_receives() && frames.len() > 0 {
                frames.drop_first()
            } else {
                frames
            };
            self.iterated(incoming_from(frames), clock[0]).played(rest, clock.drop_first())
        }
    }
}

/// The session of a finite stream ends, and renders the stream. Take a queue
/// of more than `LOW_WATERMARK` slots and a source that holds `frames` and
/// then the end-of-stream marker. Whatever the clock reads in each iteration,
/// once more readings were due than there was work left, the session has
/// ended, and what it rendered is what was rendered before, then what was
/// buffered, then `frames`: every frame once, in order, and nothing else.
pub proof fn lemma_finite_stream_is_played_out(
    s: PlayerState,
    frames: Seq<String>,
    clock: Seq<nat>,
)
    requires
        s.inv(),
        !s.finished,
        s.capacity > LOW_WATERMARK,
        s.stream_exhausted ==> frames.len() == 0,
        due_ticks(s.frame_interval_ms, clock) > s.work_left(unreceived(s, frames)),
    ensures
        s.played(frames, clock).finished,
        s.played(frames, clock).rendered == s.rendered + s.pending + frames,
        s.played(frames, clock).pending.len() == 0,
    decreases clock.len(),
{
    let incoming = incoming_from(frames);
    let next = s.iterated(incoming, clock[0]);
    let rest = if s.iteration_receives() && frames.len() > 0 {
        frames.drop_first()
    } else {
        frames
    };
    let e = s.evaluated();
    lemma_event_keeps_inv(s, Event::Evaluate);
    let r = e.after(Event::Receive(incoming));
    lemma_event_keeps_inv(e, Event::Receive(incoming));
    lemma_event_keeps_inv(r, Event::Tick(clock[0]));
    assert(r.rendered + r.pending + rest =~= s.rendered + s.pending + frames) by {
        if s.iteration_receives() && frames.len() > 0 {
            assert(frames =~= seq![frames[0]] + rest);
        }
    }
    assert(next.rendered + next.pending + rest =~= r.rendered + r.pending + rest) by {
        if r.tick_step(clock[0]) is Render {
            assert(r.pending =~= seq![r.pending[0]] + r.pending.drop_first());
        }
    }
    if !next.finished {
        lemma_finite_stream_is_played_out(next, rest, clock.drop_first());
    } else {
        assert(next.rendered + next.pending + rest =~= next.rendered);
        assert(next.played(rest, clock.drop_first()) == next);
    }
}

/// The rendering side of one playback session.
pub struct Player {
    queue: VecDeque<String>,
    queue_size: usize,
    is_playing: bool,
    finished: bool,
    config: Config,
    stream_exhausted: bool,
    reached_max_capacity: bool,
    action: ControlSignal,
    awaiting: bool,
    received: Ghost<Seq<String>>,
    rendered: Ghost<Seq<String>>,
}

impl View for Player {
    type V = PlayerState;

    closed spec fn view(&self) -> PlayerState {
        PlayerState {
            pending: self.queue@,
            capacity: self.queue_size as nat,
            frame_interval_ms: self.config.delta_t_ms as nat,
            playing: self.is_playing,
            finished: self.finished,
            stream_exhausted: self.stream_exhausted,
            reached_max_capacity: self.reached_max_capacity,
            action: self.action,
            awaiting: self.awaiting,
            received: self.received@,
            rendered: self.rendered@,
        }
    }
}

impl Player {
    /// The configuration this player paces by.
    pub closed spec fn spec_config(&self) -> Config {
        self.config
    }

    /// A player with an empty queue of `FRAME_BACKLOG` slots, pacing by the
    /// frame interval of `cfg`.
    pub fn new(cfg: Config) -> (p: Player)
        ensures
            p@ == PlayerState::initial(FRAME_BACKLOG as nat, cfg.delta_t_ms as nat),
            p@.inv(),
            p.spec_config() == cfg,
    {
        let p = Player {
            queue: VecDeque::with_capacity(FRAME_BACKLOG),
            queue_size: FRAME_BACKLOG,
            is_playing: false,
            finished: false,
            config: cfg,
            stream_exhausted: false,
            reached_max_capacity: false,
            action: ControlSignal::Go,
            awaiting: false,
            received: Ghost(Seq::empty()),
            rendered: Ghost(Seq::empty()),
        };
        assert(p@.received =~= p@.rendered + p@.pending);
        p
    }

    /// Evaluates the fill level of the queue, as every iteration does first,
    /// and returns the signal the decoding task should see.
    pub fn evaluate(&mut self) -> (action: ControlSignal)
        requires
            old(self)@.inv(),
        ensures
            final(self)@ == old(self)@.evaluated(),
            final(self).spec_config() == old(self).spec_config(),
            action == final(self)@.action,
            final(self)@.inv(),
    {
        let e = evaluate_capacity(self.queue_size, self.queue.len(), self.reached_max_capacity);
        self.action = e.action;
        self.reached_max_capacity = e.reached_max_capacity;
        self.awaiting = !self.stream_exhausted && e.action == ControlSignal::Go;
        self.is_playing = true;
        e.action
    }

    /// Whether the caller has to perform one blocking receive and hand its
    /// result to `accept` before the next tick.
    pub fn wants_receive(&self) -> (b: bool)
        ensures
            b == self@.awaiting,
    {
        self.awaiting
    }

    /// Takes what the awaited receive returned: a frame joins the tail of the
    /// queue; the end-of-stream marker or a closed channel (`None`) ends
    /// receiving for good.
    pub fn accept(&mut self, incoming: Option<Message>)
        requires
            old(self)@.inv(),
            old(self)@.awaiting,
        ensures
            final(self)@ == old(self)@.accepted(incoming),
            final(self).spec_config() == old(self).spec_config(),
            final(self)@.inv(),
    {
        self.awaiting = false;
        match incoming {
            Some(Message::Frame(frame)) => {
                proof {
                    self.received@ = self.received@.push(frame);
                    assert(self.received@ =~= self.rendered@ + self.queue@.push(frame));
                }
                self.queue.push_back(frame);
            },
            _ => {
                self.stream_exhausted = true;
            },
        }
    }

    /// Whether a frame that became due `elapsed_ms` milliseconds after the
    /// last render has to wait: true exactly when less than one frame interval
    /// has elapsed.
    pub fn should_skip_rendering(&self, elapsed_ms: u64) -> (skip: bool)
        ensures
            skip == self@.skips(elapsed_ms as nat),
            skip == (elapsed_ms < self.spec_config().delta_t_ms),
    {
        elapsed_ms < self.config.delta_t_ms
    }

    /// One pacing tick, `elapsed_ms` milliseconds after the last render: hands
    /// out the oldest buffered frame if one is due, and ends the session once
    /// the stream is exhausted and nothing is buffered.
    pub fn tick(&mut self, elapsed_ms: u64) -> (step: Step)
        requires
            old(self)@.inv(),
        ensures
            final(self)@ == old(self)@.ticked(elapsed_ms as nat),
            final(self).spec_config() == old(self).spec_config(),
            step == old(self)@.tick_step(elapsed_ms as nat),
            final(self)@.inv(),
    {
        if self.should_skip_rendering(elapsed_ms) {
            return Step::Skip;
        }
        match self.queue.pop_front() {
            None => {
                if self.stream_exhausted {
                    self.finished = true;
                    Step::Finished
                } else {
                    Step::Idle
                }
            },
            Some(frame) => {
                proof {
                    self.rendered@ = self.rendered@.push(frame);
                    assert(old(self)@.rendered.push(frame) + old(self)@.pending.drop_first()
                        =~= old(self)@.rendered + old(self)@.pending);
                }
                if !self.reached_max_capacity && self.queue.len() == self.queue_size {
                    self.reached_max_capacity = true;
                }
                Step::Render(frame)
            },
        }
    }

    /// Number of buffered frames.
    pub fn queue_len(&self) -> (n: usize)
        ensures
            n == self@.pending.len(),
    {
        self.queue.len()
    }

    /// The most frames the queue is meant to hold.
    pub fn capacity(&self) -> (n: usize)
        ensures
            n == self@.capacity,
    {
        self.queue_size
    }

    /// Whether the rendering loop has started.
    pub fn is_playing(&self) -> (b: bool)
        ensures
            b == self@.playing,
    {
        self.is_playing
    }

    /// Whether the session has ended.
    pub fn is_finished(&self) -> (b: bool)
        ensures
            b == self@.finished,
    {
        self.finished
    }

    /// Whether the end of the stream has been seen.
    pub fn is_stream_exhausted(&self) -> (b: bool)
        ensures
            b == self@.stream_exhausted,
    {
        self.stream_exhausted
    }

    /// The configuration this player paces by.
    pub fn config(&self) -> (cfg: &Config)
        ensures
            *cfg == self.spec_config(),
            cfg.delta_t_ms == self@.frame_interval_ms,
    {
        &self.config
    }
}

} // verus!
