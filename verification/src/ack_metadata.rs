//! The acknowledgement senders that travel with a message through a transformation graph.
//!
//! A message that enters the graph carries the sender of its acknowledgement. Where the
//! graph merges messages, their senders are gathered, so that the result reaches every
//! message that contributed to it.

use vstd::prelude::*;

verus! {

/// The acknowledgement senders carried by a message, in the order they were gathered.
#[derive(Clone)]
pub struct Metadata<S> {
    senders: Vec<S>,
}

impl<S> View for Metadata<S> {
    type V = Seq<S>;

    closed spec fn view(&self) -> Seq<S> {
        self.senders@
    }
}

impl<S> Metadata<S> {
    /// The metadata of a message that enters the graph: its own sender alone.
    pub fn new(ack: S) -> (m: Metadata<S>)
        ensures
            m@ == seq![ack],
    {
        let mut senders = Vec::new();
        senders.push(ack);
        Metadata { senders }
    }

    /// Gathers the senders of `one` after those already held.
    pub fn extend(&mut self, one: Metadata<S>)
        ensures
            final(self)@ == old(self)@ + one@,
    {
        let mut more = one.senders;
        self.senders.append(&mut more);
    }

    /// The senders that the result of the message is owed to, in the order they were gathered.
    pub fn senders(&self) -> (r: &Vec<S>)
        ensures
            r@ == self@,
    {
        &self.senders
    }
}

} // verus!
