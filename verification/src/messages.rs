//! The messages that the network and context actors accept, and the items that the paced
//! streams hand to them.
use vstd::prelude::*;

verus! {

/// The actor that manages contexts.
pub struct ContextManager {}

/// Asks the network to listen on an address.
pub struct ListenOn {
    pub address: String,
}

/// Asks the network to bootstrap itself.
pub struct Bootstrap {}

/// Why bootstrapping failed.
#[derive(PartialEq, Eq, Structural, Clone, Copy, Debug)]
pub enum BootstrapError {
    /// No peer answered in time.
    Timeout,
}

/// Asks how many peers there are, on one topic or on all of them.
pub struct PeerCount {
    pub topic: Option<String>,
}

/// Asks the network to subscribe to a topic.
pub struct Subscribe {
    pub topic: String,
}

/// Asks the network to leave a topic.
pub struct Unsubscribe {
    pub topic: String,
}

/// Asks the network to publish data on a topic.
pub struct Publish {
    pub topic: String,
    pub data: Vec<u8>,
}

/// A value that the swarm produced.
#[derive(PartialEq, Eq, Structural, Clone, Copy, Debug)]
pub struct FromSwarm {
    pub value: usize,
}

/// Sets the value that the swarm produces from now on.
#[derive(PartialEq, Eq, Structural, Clone, Copy, Debug)]
pub struct ToSwarm {
    pub value: usize,
}

/// A value that the repeating stream produced.
#[derive(PartialEq, Eq, Structural, Clone, Copy, Debug)]
pub struct FromRepeatingStream {
    pub value: usize,
}

/// A value that the counting stream produced.
#[derive(PartialEq, Eq, Structural, Clone, Copy, Debug)]
pub struct FromCounter {
    pub value: usize,
}

/// Sets the value that the repeating stream repeats from now on.
#[derive(PartialEq, Eq, Structural, Clone, Copy, Debug)]
pub struct UpdateRepeatingStreamValue {
    pub value: usize,
}

impl From<usize> for FromSwarm {
    fn from(value: usize) -> (item: Self) {
        FromSwarm { value }
    }
}

impl vstd::std_specs::convert::FromSpecImpl<usize> for FromSwarm {
    open spec fn obeys_from_spec() -> bool {
        true
    }

    open spec fn from_spec(value: usize) -> Self {
        FromSwarm { value }
    }
}

impl From<usize> for FromRepeatingStream {
    fn from(value: usize) -> (item: Self) {
        FromRepeatingStream { value }
    }
}

impl vstd::std_specs::convert::FromSpecImpl<usize> for FromRepeatingStream {
    open spec fn obeys_from_spec() -> bool {
        true
    }

    open spec fn from_spec(value: usize) -> Self {
        FromRepeatingStream { value }
    }
}

impl From<usize> for FromCounter {
    fn from(value: usize) -> (item: Self) {
        FromCounter { value }
    }
}

impl vstd::std_specs::convert::FromSpecImpl<usize> for FromCounter {
    open spec fn obeys_from_spec() -> bool {
        true
    }

    open spec fn from_spec(value: usize) -> Self {
        FromCounter { value }
    }
}

} // verus!
