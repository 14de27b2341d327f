//! The swarm of the network actor: a stream that, on every tick of its interval, yields
//! the value it currently holds; the actor changes that value on request.
use vstd::prelude::*;
use crate::messages::ToSwarm;

verus! {

/// The item that a tick yields: the current value on a tick, nothing once the ticks have
/// run out.
pub open spec fn tick_item(value: usize, tick: Option<()>) -> Option<usize> {
    match tick {
        Some(_) => Some(value),
        None => None,
    }
}

/// The value side of the swarm.
pub struct Swarm {
    pub value: usize,
}

impl Swarm {
    /// A swarm that yields `value`.
    pub fn new(value: usize) -> (s: Self)
        ensures
            s.value == value,
    {
        Swarm { value }
    }

    /// Maps what the interval gave to what the swarm yields.
    pub fn on_tick(&self, tick: Option<()>) -> (item: Option<usize>)
        ensures
            item == tick_item(self.value, tick),
            tick is Some ==> item == Some(self.value),
            tick is None ==> item is None,
    {
        match tick {
            Some(_) => Some(self.value),
            None => None,
        }
    }

    /// Handles a request to change the value: every later tick yields the new value.
    pub fn apply(&mut self, msg: ToSwarm)
        ensures
            final(self).value == msg.value,
    {
        self.value = msg.value;
    }
}

/// Every tick yields exactly the value the swarm holds, whatever that value is, and the
/// end of the ticks ends the swarm; so after a request to change the value to `v`, the
/// next tick yields `v` itself, and two ticks yield the same item only if the swarm held
/// the same value.
pub proof fn lemma_tick_yields_held_value(value: usize, other: usize, tick: Option<()>)
    ensures
        tick_item(value, Some(())) == Some(value),
        tick_item(value, None) == None::<usize>,
        tick is Some ==> tick_item(value, tick) == Some(value),
        tick_item(value, Some(())) == tick_item(other, Some(())) ==> value == other,
{
}

} // verus!
