//! Forwarding the items of a stream that an actor owns to that actor, one message at a
//! time, holding only a weak address so that the actor can stop before the stream ends.
//!
//! The forwarding task first tells the actor that the stream has started; then, for every
//! item it awaits, it upgrades the weak address: if the actor is gone it stops silently,
//! if the stream has ended it tells the actor so and stops, and otherwise it forwards the
//! value. A supervisor drives the actor and the forwarding task together and stops when
//! the actor stops.
use vstd::prelude::*;
use crate::messages::FromSwarm;

verus! {

/// What the forwarding task tells the actor.
#[derive(PartialEq, Eq, Structural, Clone, Copy, Debug)]
pub enum FromStreamInner {
    /// The stream has started.
    Started,
    /// The stream has ended.
    Finished,
    /// The stream produced a value.
    Value(usize),
}

/// The stream-handler callback that a forwarded message becomes.
#[derive(PartialEq, Eq, Structural, Clone, Copy, Debug)]
pub enum StreamHandlerCall {
    /// `started` is called.
    Started,
    /// `handle` is called with the item.
    Handle(FromSwarm),
    /// `finished` is called.
    Finished,
}

/// The callback for a message.
pub open spec fn handler_call(msg: FromStreamInner) -> StreamHandlerCall {
    match msg {
        FromStreamInner::Started => StreamHandlerCall::Started,
        FromStreamInner::Finished => StreamHandlerCall::Finished,
        FromStreamInner::Value(value) => StreamHandlerCall::Handle(FromSwarm { value }),
    }
}

impl FromStreamInner {
    /// The stream-handler callback that the actor runs for this message.
    pub fn dispatch(self) -> (call: StreamHandlerCall)
        ensures
            call == handler_call(self),
            self == FromStreamInner::Started <==> call == StreamHandlerCall::Started,
            self == FromStreamInner::Finished <==> call == StreamHandlerCall::Finished,
            forall|v: usize|
                self == FromStreamInner::Value(v) ==> call == StreamHandlerCall::Handle(
                    FromSwarm { value: v },
                ),
    {
        match self {
            FromStreamInner::Started => StreamHandlerCall::Started,
            FromStreamInner::Finished => StreamHandlerCall::Finished,
            FromStreamInner::Value(value) => StreamHandlerCall::Handle(FromSwarm { value }),
        }
    }
}

/// Every forwarded value reaches the actor's `handle` unchanged, as `FromSwarm { value }`;
/// only the start of the stream reaches `started` and only its end reaches `finished`.
/// So no value is lost to another callback, and distinct messages reach distinct calls.
pub proof fn lemma_dispatch_delivers_values(msg: FromStreamInner, other: FromStreamInner, v: usize)
    ensures
        handler_call(FromStreamInner::Value(v)) == StreamHandlerCall::Handle(FromSwarm { value: v }),
        handler_call(msg) == StreamHandlerCall::Started <==> msg == FromStreamInner::Started,
        handler_call(msg) == StreamHandlerCall::Finished <==> msg == FromStreamInner::Finished,
        handler_call(msg) == StreamHandlerCall::Handle(FromSwarm { value: v }) <==> msg
            == FromStreamInner::Value(v),
        handler_call(msg) == handler_call(other) ==> msg == other,
{
}

/// Where the forwarding task stands.
#[derive(PartialEq, Eq, Structural, Clone, Copy, Debug)]
pub enum ForwardPhase {
    /// Not started yet.
    Idle,
    /// Awaiting items.
    Forwarding,
    /// Stopped for good.
    Done,
}

/// An event of the forwarding task.
#[derive(PartialEq, Eq, Structural, Clone, Copy, Debug)]
pub enum ForwardEvent {
    /// The task is spawned.
    Start,
    /// The stream produced `item` (`None` at its end); `actor_alive` tells whether the
    /// weak address of the actor could still be upgraded.
    Item { actor_alive: bool, item: Option<usize> },
}

/// The next phase, and the message to send (if any), after an event.
pub open spec fn forward_step(phase: ForwardPhase, event: ForwardEvent) -> (
    ForwardPhase,
    Option<FromStreamInner>,
) {
    match (phase, event) {
        (ForwardPhase::Idle, ForwardEvent::Start) => (
            ForwardPhase::Forwarding,
            Some(FromStreamInner::Started),
        ),
        (ForwardPhase::Forwarding, ForwardEvent::Item { actor_alive, item }) => {
            if !actor_alive {
                (ForwardPhase::Done, None)
            } else {
                match item {
                    None => (ForwardPhase::Done, Some(FromStreamInner::Finished)),
                    Some(value) => (ForwardPhase::Forwarding, Some(FromStreamInner::Value(value))),
                }
            }
        },
        _ => (phase, None),
    }
}

/// The phase reached and the messages sent after a sequence of events, from `Idle`.
pub open spec fn forward_run(events: Seq<ForwardEvent>) -> (ForwardPhase, Seq<FromStreamInner>)
    decreases events.len(),
{
    if events.len() == 0 {
        (ForwardPhase::Idle, seq![])
    } else {
        let (phase, sent) = forward_run(events.drop_last());
        let (next, msg) = forward_step(phase, events.last());
        (
            next,
            match msg {
                Some(m) => sent.push(m),
                None => sent,
            },
        )
    }
}

/// The order in which a stream handler expects its callbacks: `Started` first and only
/// first, then values, and `Finished` only last.
pub open spec fn lifecycle_ordered(sent: Seq<FromStreamInner>) -> bool {
    &&& sent.len() > 0 ==> sent[0] == FromStreamInner::Started
    &&& forall|i: int| 0 < i < sent.len() ==> #[trigger] sent[i] != FromStreamInner::Started
    &&& forall|i: int| 0 <= i < sent.len() - 1 ==> #[trigger] sent[i] != FromStreamInner::Finished
}

/// The forwarding task's decisions.
pub struct Forwarder {
    phase: ForwardPhase,
}

impl Forwarder {
    /// Where the task stands.
    pub closed spec fn phase(&self) -> ForwardPhase {
        self.phase
    }

    /// A task that has not started.
    pub fn new() -> (f: Self)
        ensures
            f.phase() == ForwardPhase::Idle,
    {
        Forwarder { phase: ForwardPhase::Idle }
    }

    /// Takes an event and says which message, if any, to send to the actor.
    pub fn step(&mut self, event: ForwardEvent) -> (msg: Option<FromStreamInner>)
        ensures
            (final(self).phase(), msg) == forward_step(old(self).phase(), event),
    {
        match (self.phase, event) {
            (ForwardPhase::Idle, ForwardEvent::Start) => {
                self.phase = ForwardPhase::Forwarding;
                Some(FromStreamInner::Started)
            },
            (ForwardPhase::Forwarding, ForwardEvent::Item { actor_alive, item }) => {
                if !actor_alive {
                    self.phase = ForwardPhase::Done;
                    None
                } else {
                    match item {
                        None => {
                            self.phase = ForwardPhase::Done;
                            Some(FromStreamInner::Finished)
                        },
                        Some(value) => Some(FromStreamInner::Value(value)),
                    }
                }
            },
            _ => None,
        }
    }

    /// Whether the task has stopped for good.
    pub fn is_done(&self) -> (b: bool)
        ensures
            b == (self.phase() == ForwardPhase::Done),
    {
        self.phase == ForwardPhase::Done
    }
}

proof fn lemma_forward_run_shape(events: Seq<ForwardEvent>)
    ensures
        ({
            let (phase, sent) = forward_run(events);
            &&& lifecycle_ordered(sent)
            &&& phase == ForwardPhase::Idle <==> sent.len() == 0
            &&& phase == ForwardPhase::Forwarding ==> sent.last() != FromStreamInner::Finished
        }),
    decreases events.len(),
{
    if events.len() > 0 {
        lemma_forward_run_shape(events.drop_last());
        let (phase, sent) = forward_run(events.drop_last());
        let (next, msg) = forward_step(phase, events.last());
        match msg {
            Some(m) => {
                let out = sent.push(m);
                assert forall|i: int| 0 < i < out.len() implies #[trigger] out[i]
                    != FromStreamInner::Started by {
                    if i < sent.len() {
                        assert(out[i] == sent[i]);
                    }
                }
                assert forall|i: int| 0 <= i < out.len() - 1 implies #[trigger] out[i]
                    != FromStreamInner::Finished by {
                    assert(out[i] == sent[i]);
                }
                if sent.len() > 0 {
                    assert(out[0] == sent[0]);
                }
            },
            None => {},
        }
    }
}

/// Whatever the stream and the actor do, the actor sees `Started` first and only once,
/// then values, and `Finished` at most once and only last; once the task has stopped
/// (the stream ended or the actor went away) it sends nothing more.
pub proof fn lemma_forwarding_lifecycle(events: Seq<ForwardEvent>, more: ForwardEvent)
    ensures
        lifecycle_ordered(forward_run(events).1),
        forward_run(events).0 == ForwardPhase::Done ==> forward_step(forward_run(events).0, more)
            == (ForwardPhase::Done, None::<FromStreamInner>),
        forward_run(events).1.len() > 0 && forward_run(events).1.last()
            == FromStreamInner::Finished ==> forward_run(events).0 == ForwardPhase::Done,
{
    lemma_forward_run_shape(events);
}

/// The events of a stream that yields `values` while the actor stays alive.
pub open spec fn live_items(values: Seq<usize>) -> Seq<ForwardEvent> {
    values.map_values(|v: usize| ForwardEvent::Item { actor_alive: true, item: Some(v) })
}

/// The messages that forward `values`.
pub open spec fn value_messages(values: Seq<usize>) -> Seq<FromStreamInner> {
    values.map_values(|v: usize| FromStreamInner::Value(v))
}

proof fn lemma_forward_values(values: Seq<usize>)
    ensures
        forward_run(seq![ForwardEvent::Start] + live_items(values)) == (
            ForwardPhase::Forwarding,
            seq![FromStreamInner::Started] + value_messages(values),
        ),
    decreases values.len(),
{
    let events = seq![ForwardEvent::Start] + live_items(values);
    if values.len() == 0 {
        assert(events =~= seq![ForwardEvent::Start]);
        assert(events.drop_last() =~= Seq::<ForwardEvent>::empty());
        assert(forward_run(events.drop_last()) == (ForwardPhase::Idle, Seq::<FromStreamInner>::empty()));
        assert(events.last() == ForwardEvent::Start);
        assert(Seq::<FromStreamInner>::empty().push(FromStreamInner::Started) =~= seq![
            FromStreamInner::Started,
        ]);
        assert(seq![FromStreamInner::Started] + value_messages(values) =~= seq![
            FromStreamInner::Started,
        ]);
    } else {
        let init = values.drop_last();
        lemma_forward_values(init);
        assert(events.drop_last() =~= seq![ForwardEvent::Start] + live_items(init));
        assert(events.last() == ForwardEvent::Item { actor_alive: true, item: Some(values.last()) });
        assert(forward_run(events.drop_last()) == (
            ForwardPhase::Forwarding,
            seq![FromStreamInner::Started] + value_messages(init),
        ));
        assert(seq![FromStreamInner::Started] + value_messages(values) =~= (seq![
            FromStreamInner::Started,
        ] + value_messages(init)).push(FromStreamInner::Value(values.last())));
    }
}

/// A stream that yields `v1, ..., vk` and then ends, to an actor that stays alive, is
/// forwarded as exactly `Started, Value(v1), ..., Value(vk), Finished`: every value once,
/// in order. If instead the actor is gone when the stream yields next, the actor has seen
/// `Started` and the values so far, and nothing more is sent.
pub proof fn lemma_forwarding_whole_stream(values: Seq<usize>, next: Option<usize>)
    ensures
        forward_run(
            seq![ForwardEvent::Start] + live_items(values) + seq![
                ForwardEvent::Item { actor_alive: true, item: None },
            ],
        ) == (
            ForwardPhase::Done,
            seq![FromStreamInner::Started] + value_messages(values) + seq![
                FromStreamInner::Finished,
            ],
        ),
        forward_run(
            seq![ForwardEvent::Start] + live_items(values) + seq![
                ForwardEvent::Item { actor_alive: false, item: next },
            ],
        ) == (ForwardPhase::Done, seq![FromStreamInner::Started] + value_messages(values)),
{
    lemma_forward_values(values);
    let prefix = seq![ForwardEvent::Start] + live_items(values);
    let ended = prefix + seq![ForwardEvent::Item { actor_alive: true, item: None }];
    assert(ended.drop_last() =~= prefix);
    let gone = prefix + seq![ForwardEvent::Item { actor_alive: false, item: next }];
    assert(gone.drop_last() =~= prefix);
    assert((seq![FromStreamInner::Started] + value_messages(values)).push(
        FromStreamInner::Finished,
    ) =~= seq![FromStreamInner::Started] + value_messages(values) + seq![
        FromStreamInner::Finished,
    ]);
}

/// What woke the supervisor.
#[derive(PartialEq, Eq, Structural, Clone, Copy, Debug)]
pub enum SupervisorEvent {
    /// The actor's future completed: the actor has stopped.
    ActorStopped,
    /// The forwarding task completed.
    ForwardingDone,
}

/// What the supervisor does next.
#[derive(PartialEq, Eq, Structural, Clone, Copy, Debug)]
pub enum SupervisorAction {
    /// Keep driving the actor.
    Continue,
    /// Stop: the actor has shut down.
    Stop,
}

/// Drives the actor and its forwarding task together.
pub struct Supervisor {
    forwarding: bool,
}

impl Supervisor {
    /// Whether the forwarding task is still being driven.
    pub closed spec fn forwarding(&self) -> bool {
        self.forwarding
    }

    /// A supervisor that drives both the actor and the forwarding task.
    pub fn new() -> (s: Self)
        ensures
            s.forwarding(),
    {
        Supervisor { forwarding: true }
    }

    /// Whether the forwarding task is still being driven.
    pub fn is_forwarding(&self) -> (b: bool)
        ensures
            b == self.forwarding(),
    {
        self.forwarding
    }

    /// Takes an event: the supervisor stops exactly when the actor has stopped; when the
    /// forwarding task completes, it is dropped and only the actor is driven from then on.
    pub fn step(&mut self, event: SupervisorEvent) -> (action: SupervisorAction)
        requires
            event == SupervisorEvent::ForwardingDone ==> old(self).forwarding(),
        ensures
            action == SupervisorAction::Stop <==> event == SupervisorEvent::ActorStopped,
            final(self).forwarding() == (old(self).forwarding() && event
                == SupervisorEvent::ActorStopped),
    {
        match event {
            SupervisorEvent::ActorStopped => SupervisorAction::Stop,
            SupervisorEvent::ForwardingDone => {
                self.forwarding = false;
                SupervisorAction::Continue
            },
        }
    }
}

} // verus!
