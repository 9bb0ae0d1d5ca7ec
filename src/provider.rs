use vstd::prelude::*;
use crate::capture::CaptureError;
use crate::registry::{kept, offers_of, Registry, Sink, UpdateScreen};

verus! {

/// A pull-based query for the current frame.
pub struct GetScreen;

/// A request to attach a new sink to the broadcast.
pub struct SubscribeScreen<S>(pub S);

/// The frame cell holds this placeholder until the first capture succeeds.
pub open spec fn placeholder_frame() -> Seq<u8> {
    seq![0u8]
}

/// Whether a tick asks the capture worker for a frame: only while someone is
/// subscribed and no earlier capture is still outstanding.
pub open spec fn tick_requests(subscribed: bool, capturing: bool) -> bool {
    subscribed && !capturing
}

/// Whether the capture worker's answer is a frame that can be published: a
/// non-empty one.
pub open spec fn usable_frame(result: Result<Vec<u8>, CaptureError>) -> bool {
    match result {
        Ok(frame) => frame@.len() > 0,
        Err(_) => false,
    }
}

/// Whether an answer of the capture worker is published and broadcast: only
/// a usable frame, and only as the answer to an outstanding capture.
pub open spec fn answer_broadcasts(capturing: bool, has_frame: bool) -> bool {
    capturing && has_frame
}

/// How many captures `n` consecutive ticks ask for, when no capture result
/// comes back in between.
pub open spec fn requests_over_ticks<S>(sinks: Seq<S>, capturing: bool, n: nat) -> nat
    decreases n,
{
    if n == 0 {
        0
    } else {
        let asks = tick_requests(sinks.len() > 0, capturing);
        (if asks {
            1nat
        } else {
            0nat
        }) + requests_over_ticks(sinks, capturing || asks, (n - 1) as nat)
    }
}

/// What the scheduler is told, as its contracts see it: a tick of the timer
/// (with whether anyone was subscribed at that moment), or the capture
/// worker's answer (with whether it held a frame).
pub enum SchedulerEvent {
    /// A tick; true when the registry was not empty.
    Tick(bool),
    /// The capture worker answered; true when the answer was a frame.
    Answer(bool),
}

/// Runs `events` from the given state (whether a capture is outstanding), in
/// the way `update` and `handle_capture` state it, and counts the ticks and the
/// broadcasts: `(ticks, broadcasts, capture still outstanding at the end)`.
pub open spec fn run(capturing: bool, events: Seq<SchedulerEvent>) -> (nat, nat, bool)
    decreases events.len(),
{
    if events.len() == 0 {
        (0, 0, capturing)
    } else {
        let (ticks, broadcasts, now) = run(capturing, events.drop_last());
        match events.last() {
            SchedulerEvent::Tick(subscribed) => (
                ticks + 1,
                broadcasts,
                now || tick_requests(subscribed, now),
            ),
            SchedulerEvent::Answer(has_frame) => if answer_broadcasts(now, has_frame) {
                (ticks, broadcasts + 1, false)
            } else {
                (ticks, broadcasts, false)
            },
        }
    }
}

/// The capture scheduler and broadcaster: it owns the frame cell and the
/// registry of subscribers, decides on each tick whether to capture, and
/// publishes and broadcasts each capture that succeeds.
pub struct ScreenProvider<S> {
    interval: u64,
    current: FrameCell,
    subscribers: Registry<S>,
    capturing: bool,
}

/// The slot that holds the latest frame. It is never empty: it holds the
/// placeholder until the first frame is published.
pub struct FrameCell {
    frame: UpdateScreen,
}

impl FrameCell {
    #[verifier::type_invariant]
    spec fn frame_present(&self) -> bool {
        self.frame.0@.len() > 0
    }

    /// The frame in the cell.
    pub closed spec fn view_frame(&self) -> Seq<u8> {
        self.frame.0@
    }

    /// A cell that holds the placeholder frame.
    pub fn new() -> (r: Self)
        ensures
            r.view_frame() == placeholder_frame(),
    {
        let cell = FrameCell { frame: UpdateScreen(vec![0u8]) };
        proof {
            assert(cell.frame.0@ =~= placeholder_frame());
        }
        cell
    }

    /// Publishes `frame`, which replaces the one in the cell.
    pub fn publish(&mut self, frame: Vec<u8>)
        requires
            frame@.len() > 0,
        ensures
            final(self).view_frame() == frame@,
    {
        self.frame = UpdateScreen(frame);
    }

    /// The frame in the cell, which is never empty.
    pub fn current(&self) -> (r: &UpdateScreen)
        ensures
            r.0@ == self.view_frame(),
            r.0@.len() > 0,
    {
        proof {
            use_type_invariant(self);
        }
        &self.frame
    }
}

impl<S: Sink> ScreenProvider<S> {
    /// The frame in the frame cell.
    pub closed spec fn frame(&self) -> Seq<u8> {
        self.current.view_frame()
    }

    /// The registered subscribers.
    pub closed spec fn sinks(&self) -> Seq<S> {
        self.subscribers.sinks()
    }

    /// Every delivery made so far: the sink, and the frame it was offered.
    pub closed spec fn offers(&self) -> Seq<(S, Seq<u8>)> {
        self.subscribers.offers()
    }

    /// Whether a capture was requested and its result has not come back yet.
    pub closed spec fn capturing(&self) -> bool {
        self.capturing
    }

    /// The tick period in milliseconds.
    pub closed spec fn interval_spec(&self) -> u64 {
        self.interval
    }

    /// A provider that ticks every `interval` milliseconds, with no subscriber,
    /// no capture outstanding, and the placeholder frame in its frame cell.
    pub fn new(interval: u64) -> (r: Self)
        ensures
            r.interval_spec() == interval,
            r.frame() == placeholder_frame(),
            r.sinks().len() == 0,
            r.offers().len() == 0,
            !r.capturing(),
    {
        ScreenProvider {
            interval,
            current: FrameCell::new(),
            subscribers: Registry::new(),
            capturing: false,
        }
    }

    /// The tick period in milliseconds.
    pub fn interval(&self) -> (r: u64)
        ensures
            r == self.interval_spec(),
    {
        self.interval
    }

    /// The number of registered subscribers.
    pub fn subscriber_count(&self) -> (r: usize)
        ensures
            r == self.sinks().len(),
    {
        self.subscribers.len()
    }

    /// Whether a capture is outstanding.
    pub fn is_capturing(&self) -> (r: bool)
        ensures
            r == self.capturing(),
    {
        self.capturing
    }

    /// One tick of the timer. Returns whether the capture worker is to be asked
    /// for a frame now: never while nobody is subscribed, and never while an
    /// earlier capture is outstanding, so captures do not overlap.
    pub fn update(&mut self) -> (request: bool)
        ensures
            request == tick_requests(old(self).sinks().len() > 0, old(self).capturing()),
            final(self).capturing() == (old(self).capturing() || request),
            final(self).frame() == old(self).frame(),
            final(self).sinks() == old(self).sinks(),
            final(self).offers() == old(self).offers(),
            final(self).interval_spec() == old(self).interval_spec(),
    {
        let request = !self.subscribers.is_empty() && !self.capturing;
        if request {
            self.capturing = true;
        }
        request
    }

    /// Takes the capture worker's answer. A non-empty frame replaces the frame
    /// cell and is offered once to every subscriber; each subscriber that does
    /// not take it is dropped, and the outcome of each delivery is returned. An
    /// error or an empty frame leaves the frame cell and the subscribers as they
    /// were, delivers nothing and returns `None`. Either way the capture is no
    /// longer outstanding. An answer that comes when no capture is outstanding
    /// is ignored in the same way.
    pub fn handle_capture(&mut self, result: Result<Vec<u8>, CaptureError>) -> (delivered: Option<
        Vec<bool>,
    >)
        ensures
            !final(self).capturing(),
            final(self).interval_spec() == old(self).interval_spec(),
            final(self).frame().len() > 0,
            delivered.is_some() == answer_broadcasts(old(self).capturing(), usable_frame(result)),
            !answer_broadcasts(old(self).capturing(), usable_frame(result)) ==> final(self).frame()
                == old(self).frame() && final(self).sinks() == old(self).sinks()
                && final(self).offers() == old(self).offers(),
            answer_broadcasts(old(self).capturing(), usable_frame(result)) ==> match result {
                Ok(frame) => final(self).frame() == frame@ && final(self).offers() == old(
                    self,
                ).offers() + offers_of(old(self).sinks(), frame@) && match delivered {
                    Some(ok) => ok@.len() == old(self).sinks().len() && final(self).sinks() == kept(
                        old(self).sinks(),
                        ok@,
                    ),
                    None => false,
                },
                Err(_) => false,
            },
    {
        proof {
            use_type_invariant(&self.current);
        }
        if !self.capturing {
            return None;
        }
        self.capturing = false;
        match result {
            Ok(frame) => {
                if frame.len() == 0 {
                    return None;
                }
                self.current.publish(frame);
                let ok = self.subscribers.broadcast_and_prune(self.current.current());
                Some(ok)
            },
            Err(_) => None,
        }
    }

    /// Attaches a sink and offers it the current frame at once, before any later
    /// tick. The sink stays subscribed only if it took that frame; returns
    /// whether it did. The frame cell is not touched.
    pub fn handle_subscribe(&mut self, message: SubscribeScreen<S>) -> (accepted: bool)
        ensures
            final(self).sinks() == if accepted {
                old(self).sinks().push(message.0)
            } else {
                old(self).sinks()
            },
            final(self).offers() == old(self).offers().push((message.0, old(self).frame())),
            final(self).frame() == old(self).frame(),
            final(self).capturing() == old(self).capturing(),
            final(self).interval_spec() == old(self).interval_spec(),
            final(self).frame().len() > 0,
    {
        proof {
            use_type_invariant(&self.current);
        }
        self.subscribers.subscribe(message.0, self.current.current())
    }

    /// The current frame, for clients that poll instead of subscribing.
    pub fn handle_get_screen(&self, _query: GetScreen) -> (r: &UpdateScreen)
        ensures
            r.0@ == self.frame(),
            r.0@.len() > 0,
    {
        self.current.current()
    }
}

/// While nobody is subscribed, no number of ticks asks for a capture.
pub proof fn lemma_no_idle_capture<S>(sinks: Seq<S>, capturing: bool, n: nat)
    requires
        sinks.len() == 0,
    ensures
        requests_over_ticks(sinks, capturing, n) == 0,
    decreases n,
{
    if n > 0 {
        lemma_no_idle_capture(sinks, capturing, (n - 1) as nat);
    }
}

/// Ticks that see no capture result ask for at most one capture in all, however
/// many they are: a tick never requests a frame while another is outstanding.
pub proof fn lemma_one_capture_outstanding<S>(sinks: Seq<S>, capturing: bool, n: nat)
    ensures
        requests_over_ticks(sinks, capturing, n) <= 1,
        capturing ==> requests_over_ticks(sinks, capturing, n) == 0,
    decreases n,
{
    if n > 0 {
        lemma_one_capture_outstanding(sinks, true, (n - 1) as nat);
        lemma_one_capture_outstanding(sinks, capturing, (n - 1) as nat);
    }
}

/// Over any run that starts with no capture outstanding, there are no more
/// broadcasts than ticks: every broadcast answers a capture that its own tick
/// requested, so each subscriber is offered at most one frame per tick, and
/// only a frame that a capture produced.
pub proof fn lemma_one_broadcast_per_tick(events: Seq<SchedulerEvent>)
    ensures
        run(false, events).1 <= run(false, events).0,
{
    lemma_run_counts(events);
}

proof fn lemma_run_counts(events: Seq<SchedulerEvent>)
    ensures
        run(false, events).1 + (if run(false, events).2 {
            1nat
        } else {
            0nat
        }) <= run(false, events).0,
    decreases events.len(),
{
    if events.len() > 0 {
        lemma_run_counts(events.drop_last());
    }
}

/// The event model takes one step exactly as the contracts of `update` and
/// `handle_capture` do: a tick leaves a capture outstanding when one was, or
/// when the tick requests one; an answer is broadcast exactly when
/// `handle_capture` returns `Some`, and leaves no capture outstanding.
pub proof fn lemma_run_step(capturing: bool, event: SchedulerEvent)
    ensures
        match event {
            SchedulerEvent::Tick(subscribed) => run(capturing, seq![event]) == (
                1nat,
                0nat,
                capturing || tick_requests(subscribed, capturing),
            ),
            SchedulerEvent::Answer(has_frame) => run(capturing, seq![event]) == (
                0nat,
                if answer_broadcasts(capturing, has_frame) {
                    1nat
                } else {
                    0nat
                },
                false,
            ),
        },
{
    assert(seq![event].drop_last() =~= Seq::<SchedulerEvent>::empty());
    assert(run(capturing, Seq::<SchedulerEvent>::empty()) == (0nat, 0nat, capturing));
    assert(seq![event].last() == event);
}

} // verus!
