//! A stream paced by an interval: the inner stream is polled for one item only after the
//! interval has ticked, and the next tick is awaited only after that item has arrived.
//!
//! The timer and the inner stream are polled by the caller; this state machine decides
//! which of the two is polled next and keeps count of ticks taken and items delivered.
use vstd::prelude::*;

verus! {

/// Which poll comes next.
#[derive(PartialEq, Eq, Structural, Clone, Copy, Debug)]
pub enum Phase {
    /// The next poll waits for a tick of the interval.
    Waiting,
    /// A tick was taken; the next poll asks the inner stream for an item.
    Polling,
}

/// What a poll of the interval gave.
#[derive(PartialEq, Eq, Structural, Clone, Copy, Debug)]
pub enum IntervalPoll {
    /// The interval has not ticked yet.
    Pending,
    /// The interval has no ticks left.
    Exhausted,
    /// The interval ticked.
    Ticked,
}

/// What a poll of the inner stream gave.
#[derive(PartialEq, Eq, Structural, Clone, Copy, Debug)]
pub enum StreamPoll {
    /// The inner stream has nothing yet.
    Pending,
    /// The inner stream produced an item or ended.
    Ready,
}

/// An event of a poll.
#[derive(PartialEq, Eq, Structural, Clone, Copy, Debug)]
pub enum PollEvent {
    /// A poll of the paced stream begins.
    Start,
    /// The interval was polled.
    Interval(IntervalPoll),
    /// The inner stream was polled.
    Stream(StreamPoll),
}

/// What to do next in a poll.
#[derive(PartialEq, Eq, Structural, Clone, Copy, Debug)]
pub enum PollAction {
    /// Poll the interval.
    PollInterval,
    /// Poll the inner stream.
    PollStream,
    /// Report that nothing is ready yet.
    ReturnPending,
    /// Report that the paced stream has ended.
    ReturnEnd,
    /// Hand on what the inner stream produced.
    ReturnStreamResult,
}

/// The events that can follow in a phase: a poll may always begin, the interval is polled
/// only while waiting for a tick, and the inner stream only after one.
pub open spec fn admissible(phase: Phase, event: PollEvent) -> bool {
    match event {
        PollEvent::Start => true,
        PollEvent::Interval(_) => phase == Phase::Waiting,
        PollEvent::Stream(_) => phase == Phase::Polling,
    }
}

/// The next phase and the action for an event.
pub open spec fn next_step(phase: Phase, event: PollEvent) -> (Phase, PollAction) {
    match event {
        PollEvent::Start => (
            phase,
            if phase == Phase::Polling {
                PollAction::PollStream
            } else {
                PollAction::PollInterval
            },
        ),
        PollEvent::Interval(IntervalPoll::Pending) => (phase, PollAction::ReturnPending),
        PollEvent::Interval(IntervalPoll::Exhausted) => (phase, PollAction::ReturnEnd),
        PollEvent::Interval(IntervalPoll::Ticked) => (Phase::Polling, PollAction::PollStream),
        PollEvent::Stream(StreamPoll::Pending) => (phase, PollAction::ReturnPending),
        PollEvent::Stream(StreamPoll::Ready) => (Phase::Waiting, PollAction::ReturnStreamResult),
    }
}

/// An inner stream together with the pacing state.
pub struct StreamGen<S> {
    stream: S,
    phase: Phase,
    ticks: Ghost<nat>,
    delivered: Ghost<nat>,
}

impl<S> StreamGen<S> {
    /// The inner stream.
    pub closed spec fn inner(&self) -> S {
        self.stream
    }

    /// Which poll comes next.
    pub closed spec fn phase(&self) -> Phase {
        self.phase
    }

    /// How many ticks of the interval have been taken.
    pub closed spec fn ticks(&self) -> nat {
        self.ticks@
    }

    /// How many results of the inner stream have been handed on.
    pub closed spec fn delivered(&self) -> nat {
        self.delivered@
    }

    /// Every tick but the last one is matched by a delivered result, and the last one is
    /// matched too unless an item is being waited for.
    pub closed spec fn wf(&self) -> bool {
        self.ticks@ == self.delivered@ + (if self.phase == Phase::Polling { 1nat } else { 0nat })
    }

    /// Wraps `stream`; the first poll waits for a tick.
    pub fn new(stream: S) -> (g: Self)
        ensures
            g.wf(),
            g.inner() == stream,
            g.phase() == Phase::Waiting,
            g.ticks() == 0,
            g.delivered() == 0,
    {
        StreamGen { stream, phase: Phase::Waiting, ticks: Ghost(0), delivered: Ghost(0) }
    }

    /// Mutable access to the inner stream, for instance to replace it; the pacing state is
    /// left as it is.
    pub fn stream_mut(&mut self) -> (s: &mut S)
        ensures
            *s == old(self).inner(),
            final(self).inner() == *final(s),
            final(self).phase() == old(self).phase(),
            final(self).ticks() == old(self).ticks(),
            final(self).delivered() == old(self).delivered(),
            old(self).wf() ==> final(self).wf(),
    {
        &mut self.stream
    }

    /// Whether a tick has been taken and the inner stream is to be polled next.
    pub fn is_polling(&self) -> (b: bool)
        ensures
            b == (self.phase() == Phase::Polling),
    {
        self.phase == Phase::Polling
    }

    /// Takes the next step of a poll: `event` is the start of a poll or the outcome of the
    /// poll that the previous step asked for; the result says what to do next.
    pub fn step(&mut self, event: PollEvent) -> (action: PollAction)
        requires
            old(self).wf(),
            admissible(old(self).phase(), event),
        ensures
            final(self).wf(),
            (final(self).phase(), action) == next_step(old(self).phase(), event),
            final(self).inner() == old(self).inner(),
            final(self).ticks() == old(self).ticks() + (if event == PollEvent::Interval(
                IntervalPoll::Ticked,
            ) {
                1nat
            } else {
                0nat
            }),
            final(self).delivered() == old(self).delivered() + (if event == PollEvent::Stream(
                StreamPoll::Ready,
            ) {
                1nat
            } else {
                0nat
            }),
    {
        match event {
            PollEvent::Start => {
                if self.phase == Phase::Polling {
                    PollAction::PollStream
                } else {
                    PollAction::PollInterval
                }
            },
            PollEvent::Interval(IntervalPoll::Pending) => PollAction::ReturnPending,
            PollEvent::Interval(IntervalPoll::Exhausted) => PollAction::ReturnEnd,
            PollEvent::Interval(IntervalPoll::Ticked) => {
                self.phase = Phase::Polling;
                self.ticks = Ghost(self.ticks@ + 1);
                PollAction::PollStream
            },
            PollEvent::Stream(StreamPoll::Pending) => PollAction::ReturnPending,
            PollEvent::Stream(StreamPoll::Ready) => {
                self.phase = Phase::Waiting;
                self.delivered = Ghost(self.delivered@ + 1);
                PollAction::ReturnStreamResult
            },
        }
    }
}

/// Results of the inner stream never outrun the ticks of the interval: every result handed
/// on was asked for after its own tick, so at most one result follows each tick.
pub proof fn lemma_results_follow_ticks<S>(g: &StreamGen<S>)
    requires
        g.wf(),
    ensures
        g.delivered() <= g.ticks() <= g.delivered() + 1,
        g.ticks() == g.delivered() + 1 <==> g.phase() == Phase::Polling,
{
}

/// The machine never asks for a poll whose outcome it could not take next: after it asks
/// for the interval, every outcome of the interval is admissible, and after it asks for
/// the inner stream, every outcome of the inner stream is; so a poll that follows the
/// actions never reaches a state in which the stream is missing.
pub proof fn lemma_requested_polls_admissible(phase: Phase, event: PollEvent)
    requires
        admissible(phase, event),
    ensures
        ({
            let (next, action) = next_step(phase, event);
            &&& action == PollAction::PollInterval ==> forall|o: IntervalPoll|
                #[trigger] admissible(next, PollEvent::Interval(o))
            &&& action == PollAction::PollStream ==> forall|o: StreamPoll|
                #[trigger] admissible(next, PollEvent::Stream(o))
        }),
{
}

/// The phase reached and the actions taken over a sequence of events, from `Waiting`.
pub open spec fn pace_run(events: Seq<PollEvent>) -> (Phase, Seq<PollAction>)
    decreases events.len(),
{
    if events.len() == 0 {
        (Phase::Waiting, seq![])
    } else {
        let (phase, actions) = pace_run(events.drop_last());
        let (next, action) = next_step(phase, events.last());
        (next, actions.push(action))
    }
}

/// Every event of the sequence is admissible in the phase that the events before it reach.
pub open spec fn admissible_run(events: Seq<PollEvent>) -> bool
    decreases events.len(),
{
    events.len() == 0 || (admissible_run(events.drop_last()) && admissible(
        pace_run(events.drop_last()).0,
        events.last(),
    ))
}

/// How often `event` occurs in `events`.
pub open spec fn occurrences(events: Seq<PollEvent>, event: PollEvent) -> nat
    decreases events.len(),
{
    if events.len() == 0 {
        0
    } else {
        occurrences(events.drop_last(), event) + (if events.last() == event {
            1nat
        } else {
            0nat
        })
    }
}

/// Ticks taken in `events`.
pub open spec fn tick_count(events: Seq<PollEvent>) -> nat {
    occurrences(events, PollEvent::Interval(IntervalPoll::Ticked))
}

/// Results of the inner stream handed on in `events`.
pub open spec fn ready_count(events: Seq<PollEvent>) -> nat {
    occurrences(events, PollEvent::Stream(StreamPoll::Ready))
}

/// Over any admissible run: the machine takes one action per event; it hands a result on
/// exactly at the events where the inner stream was ready, so results come in the order
/// and number the inner stream produced them; and each result follows a tick of its own,
/// so ticks and results alternate, starting with a tick.
pub proof fn lemma_pacing_run(events: Seq<PollEvent>)
    requires
        admissible_run(events),
    ensures
        pace_run(events).1.len() == events.len(),
        forall|i: int|
            0 <= i < events.len() ==> (#[trigger] pace_run(events).1[i]
                == PollAction::ReturnStreamResult <==> events[i] == PollEvent::Stream(
                StreamPoll::Ready,
            )),
        ready_count(events) <= tick_count(events) <= ready_count(events) + 1,
        tick_count(events) == ready_count(events) + 1 <==> pace_run(events).0 == Phase::Polling,
        forall|i: int|
            0 <= i < events.len() && #[trigger] events[i] == PollEvent::Stream(StreamPoll::Ready)
                ==> tick_count(events.take(i)) == ready_count(events.take(i)) + 1,
    decreases events.len(),
{
    if events.len() > 0 {
        let init = events.drop_last();
        lemma_pacing_run(init);
        let (phase, actions) = pace_run(init);
        let (next, action) = next_step(phase, events.last());
        assert forall|i: int|
            0 <= i < events.len() implies (#[trigger] pace_run(events).1[i]
            == PollAction::ReturnStreamResult <==> events[i] == PollEvent::Stream(
            StreamPoll::Ready,
        )) by {
            if i < init.len() {
                assert(pace_run(events).1[i] == actions[i]);
                assert(events[i] == init[i]);
            }
        }
        assert forall|i: int|
            0 <= i < events.len() && #[trigger] events[i] == PollEvent::Stream(StreamPoll::Ready)
                implies tick_count(events.take(i)) == ready_count(events.take(i)) + 1 by {
            if i < init.len() {
                assert(events.take(i) =~= init.take(i));
                assert(init[i] == events[i]);
            } else {
                assert(events.take(i) =~= init);
            }
        }
    }
}

/// What one poll gives when the interval ticks at once while it has ticks left and the
/// inner stream answers at once with the first of `items` (or its end, once `items` are
/// used up): the phase, ticks and items left afterwards, and the result (`None` for the
/// end of the paced stream).
pub open spec fn prompt_poll<T>(phase: Phase, ticks: nat, items: Seq<T>) -> (
    Phase,
    nat,
    Seq<T>,
    Option<T>,
) {
    let (p1, a1) = next_step(phase, PollEvent::Start);
    let (p2, a2, t2) = if a1 == PollAction::PollInterval {
        if ticks > 0 {
            let (p, a) = next_step(p1, PollEvent::Interval(IntervalPoll::Ticked));
            (p, a, (ticks - 1) as nat)
        } else {
            let (p, a) = next_step(p1, PollEvent::Interval(IntervalPoll::Exhausted));
            (p, a, ticks)
        }
    } else {
        (p1, a1, ticks)
    };
    if a2 == PollAction::PollStream {
        let (p3, a3) = next_step(p2, PollEvent::Stream(StreamPoll::Ready));
        if a3 == PollAction::ReturnStreamResult && items.len() > 0 {
            (p3, t2, items.drop_first(), Some(items[0]))
        } else {
            (p3, t2, items, None)
        }
    } else {
        (p2, t2, items, None)
    }
}

/// The results of `polls` successive polls under the conditions of `prompt_poll`.
pub open spec fn prompt_run<T>(phase: Phase, ticks: nat, items: Seq<T>, polls: nat) -> Seq<
    Option<T>,
>
    decreases polls,
{
    if polls == 0 {
        seq![]
    } else {
        let (p, t, rest, out) = prompt_poll(phase, ticks, items);
        seq![out] + prompt_run(p, t, rest, (polls - 1) as nat)
    }
}

/// A freshly made paced stream whose interval has `count` ticks, over an inner stream that
/// has at least `count` items ready, yields exactly the first `count` items, each once and
/// in order, and then ends.
pub proof fn lemma_paced_stream_yields<T>(count: nat, items: Seq<T>)
    requires
        count <= items.len(),
    ensures
        prompt_run(Phase::Waiting, count, items, count + 1) == items.take(count as int).map_values(
            |v: T| Some(v),
        ) + seq![None::<T>],
    decreases count,
{
    let run = prompt_run(Phase::Waiting, count, items, count + 1);
    if count == 0 {
        assert(prompt_run(Phase::Waiting, 0, items, 0) == Seq::<Option<T>>::empty());
        assert(run =~= seq![None::<T>]);
        assert(items.take(0).map_values(|v: T| Some(v)) =~= Seq::<Option<T>>::empty());
        assert(run =~= items.take(count as int).map_values(|v: T| Some(v)) + seq![None::<T>]);
    } else {
        let rest = items.drop_first();
        lemma_paced_stream_yields((count - 1) as nat, rest);
        assert(prompt_poll(Phase::Waiting, count, items) == (
            Phase::Waiting,
            (count - 1) as nat,
            rest,
            Some(items[0]),
        ));
        assert(run == seq![Some(items[0])] + prompt_run(
            Phase::Waiting,
            (count - 1) as nat,
            rest,
            count,
        ));
        assert(run =~= items.take(count as int).map_values(|v: T| Some(v)) + seq![None::<T>]);
    }
}

/// A paced stream over a stream that repeats `x`, with an interval of `count` ticks,
/// yields `x` exactly `count` times and then ends.
pub proof fn lemma_paced_repeat_yields<T>(count: nat, x: T)
    ensures
        prompt_run(Phase::Waiting, count, Seq::new(count, |i: int| x), count + 1) == Seq::new(
            count,
            |i: int| Some(x),
        ) + seq![None::<T>],
{
    let same = Seq::new(count, |i: int| x);
    lemma_paced_stream_yields(count, same);
    assert(same.take(count as int).map_values(|v: T| Some(v)) =~= Seq::new(count, |i: int| Some(x)));
}

} // verus!
