use self_stream::forwarding::{
    ForwardEvent, Forwarder, FromStreamInner, StreamHandlerCall, Supervisor, SupervisorAction,
    SupervisorEvent,
};
use self_stream::messages::FromSwarm;

fn item(actor_alive: bool, item: Option<usize>) -> ForwardEvent {
    ForwardEvent::Item { actor_alive, item }
}

#[test]
fn forwards_started_values_and_finished_in_order() {
    let mut f = Forwarder::new();
    assert_eq!(f.step(ForwardEvent::Start), Some(FromStreamInner::Started));
    assert_eq!(f.step(item(true, Some(0))), Some(FromStreamInner::Value(0)));
    assert_eq!(f.step(item(true, Some(10))), Some(FromStreamInner::Value(10)));
    assert!(!f.is_done());
    assert_eq!(f.step(item(true, None)), Some(FromStreamInner::Finished));
    assert!(f.is_done());
    assert_eq!(f.step(item(true, Some(3))), None);
    assert_eq!(f.step(ForwardEvent::Start), None);
}

#[test]
fn stops_silently_when_the_actor_is_gone() {
    let mut f = Forwarder::new();
    f.step(ForwardEvent::Start);
    assert_eq!(f.step(item(false, Some(4))), None);
    assert!(f.is_done());
    assert_eq!(f.step(item(true, None)), None);
}

#[test]
fn items_before_start_are_ignored() {
    let mut f = Forwarder::new();
    assert_eq!(f.step(item(true, Some(1))), None);
    assert_eq!(f.step(ForwardEvent::Start), Some(FromStreamInner::Started));
    assert_eq!(f.step(ForwardEvent::Start), None);
}

#[test]
fn messages_dispatch_to_stream_handler_calls() {
    assert_eq!(FromStreamInner::Started.dispatch(), StreamHandlerCall::Started);
    assert_eq!(FromStreamInner::Finished.dispatch(), StreamHandlerCall::Finished);
    assert_eq!(
        FromStreamInner::Value(20).dispatch(),
        StreamHandlerCall::Handle(FromSwarm { value: 20 })
    );
}

#[test]
fn supervisor_stops_only_with_the_actor() {
    let mut s = Supervisor::new();
    assert!(s.is_forwarding());
    assert_eq!(s.step(SupervisorEvent::ForwardingDone), SupervisorAction::Continue);
    assert!(!s.is_forwarding());
    assert_eq!(s.step(SupervisorEvent::ActorStopped), SupervisorAction::Stop);
}

#[test]
fn supervisor_stops_while_still_forwarding() {
    let mut s = Supervisor::new();
    assert_eq!(s.step(SupervisorEvent::ActorStopped), SupervisorAction::Stop);
}
