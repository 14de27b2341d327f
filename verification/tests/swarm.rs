use self_stream::messages::ToSwarm;
use self_stream::swarm::Swarm;

#[test]
fn ticks_yield_the_current_value() {
    let s = Swarm::new(0);
    assert_eq!(s.on_tick(Some(())), Some(0));
    assert_eq!(s.on_tick(None), None);
}

#[test]
fn later_ticks_yield_the_requested_value() {
    let mut s = Swarm::new(0);
    s.apply(ToSwarm { value: 10 });
    assert_eq!(s.on_tick(Some(())), Some(10));
    s.apply(ToSwarm { value: 20 });
    assert_eq!(s.on_tick(Some(())), Some(20));
    assert_eq!(s.on_tick(None), None);
}
