use self_stream::stream_gen::{IntervalPoll, PollAction, PollEvent, StreamGen, StreamPoll};

#[test]
fn first_poll_waits_for_a_tick() {
    let mut g = StreamGen::new(5u32);
    assert!(!g.is_polling());
    assert_eq!(g.step(PollEvent::Start), PollAction::PollInterval);
    assert_eq!(g.step(PollEvent::Interval(IntervalPoll::Pending)), PollAction::ReturnPending);
    assert!(!g.is_polling());
}

#[test]
fn tick_then_item_then_wait_again() {
    let mut g = StreamGen::new(());
    assert_eq!(g.step(PollEvent::Start), PollAction::PollInterval);
    assert_eq!(g.step(PollEvent::Interval(IntervalPoll::Ticked)), PollAction::PollStream);
    assert!(g.is_polling());
    assert_eq!(g.step(PollEvent::Stream(StreamPoll::Ready)), PollAction::ReturnStreamResult);
    assert!(!g.is_polling());
    assert_eq!(g.step(PollEvent::Start), PollAction::PollInterval);
}

#[test]
fn pending_stream_keeps_the_tick() {
    let mut g = StreamGen::new(());
    g.step(PollEvent::Start);
    g.step(PollEvent::Interval(IntervalPoll::Ticked));
    assert_eq!(g.step(PollEvent::Stream(StreamPoll::Pending)), PollAction::ReturnPending);
    assert!(g.is_polling());
    assert_eq!(g.step(PollEvent::Start), PollAction::PollStream);
}

#[test]
fn exhausted_interval_ends_the_stream() {
    let mut g = StreamGen::new(());
    g.step(PollEvent::Start);
    assert_eq!(g.step(PollEvent::Interval(IntervalPoll::Exhausted)), PollAction::ReturnEnd);
    assert!(!g.is_polling());
}

#[test]
fn replacing_the_stream_keeps_the_pacing() {
    let mut g = StreamGen::new(1u64);
    g.step(PollEvent::Start);
    g.step(PollEvent::Interval(IntervalPoll::Ticked));
    *g.stream_mut() = 20;
    assert_eq!(*g.stream_mut(), 20);
    assert!(g.is_polling());
    assert_eq!(g.step(PollEvent::Start), PollAction::PollStream);
}

/// One poll of a paced stream whose interval ticks at once while ticks remain and whose
/// inner stream answers at once.
fn poll_once(g: &mut StreamGen<Vec<u32>>, ticks: &mut usize) -> Option<u32> {
    let mut event = PollEvent::Start;
    let mut ready = None;
    loop {
        match g.step(event) {
            PollAction::PollInterval => {
                event = if *ticks > 0 {
                    *ticks -= 1;
                    PollEvent::Interval(IntervalPoll::Ticked)
                } else {
                    PollEvent::Interval(IntervalPoll::Exhausted)
                };
            }
            PollAction::PollStream => {
                let items = g.stream_mut();
                ready = if items.is_empty() { None } else { Some(items.remove(0)) };
                event = PollEvent::Stream(StreamPoll::Ready);
            }
            PollAction::ReturnPending => panic!("nothing is pending here"),
            PollAction::ReturnEnd => return None,
            PollAction::ReturnStreamResult => return ready,
        }
    }
}

#[test]
fn yields_one_item_per_tick_then_ends() {
    let mut g = StreamGen::new(vec![7u32, 8, 9, 10]);
    let mut ticks = 3;
    let mut out = Vec::new();
    for _ in 0..5 {
        out.push(poll_once(&mut g, &mut ticks));
    }
    assert_eq!(out, vec![Some(7), Some(8), Some(9), None, None]);
}
