//! The buffer that pairs messages received from a peer with the requests to
//! receive them, per record, whichever of the two comes first.
//!
//! The event loop that feeds it runs outside; the buffer only decides, for
//! each request or message, whether something can be delivered now.
use vstd::prelude::*;
use std::collections::HashMap;

verus! {

broadcast use vstd::std_specs::hash::group_hash_axioms;

/// What is buffered for one record.
pub enum BufItem<S> {
    /// There is an outstanding request to receive the message, which has not
    /// arrived yet; `S` answers the request.
    Requested(S),
    /// The message has arrived but nobody requested it yet.
    Received(Vec<u8>),
}

/// The requests and messages of one channel that wait for their match,
/// keyed by record id.
pub struct MessageBuffer<S> {
    buf: HashMap<u32, BufItem<S>>,
}

impl<S> MessageBuffer<S> {
    /// What waits, by record id.
    pub closed spec fn items(&self) -> Map<u32, BufItem<S>> {
        self.buf@
    }

    /// A request for `record_id` waits.
    pub open spec fn is_requested(&self, record_id: u32) -> bool {
        self.items().contains_key(record_id) && self.items()[record_id] is Requested
    }

    /// A message for `record_id` waits.
    pub open spec fn is_received(&self, record_id: u32) -> bool {
        self.items().contains_key(record_id) && self.items()[record_id] is Received
    }

    /// An empty buffer.
    pub fn new() -> (r: Self)
        ensures
            r.items() == Map::<u32, BufItem<S>>::empty(),
    {
        MessageBuffer { buf: HashMap::new() }
    }

    /// Tells whether a request for `record_id` waits.
    pub fn has_request(&self, record_id: u32) -> (r: bool)
        ensures
            r == self.is_requested(record_id),
    {
        match self.buf.get(&record_id) {
            Some(BufItem::Requested(_)) => true,
            _ => false,
        }
    }

    /// Tells whether a message for `record_id` waits.
    pub fn has_message(&self, record_id: u32) -> (r: bool)
        ensures
            r == self.is_received(record_id),
    {
        match self.buf.get(&record_id) {
            Some(BufItem::Received(_)) => true,
            _ => false,
        }
    }

    /// Processes a request to receive the message of `record_id`, answered by
    /// `s`. If the message is already here, it leaves the buffer and is
    /// returned with `s` for delivery; otherwise the request waits.
    pub fn receive_request(&mut self, record_id: u32, s: S) -> (r: Option<(S, Vec<u8>)>)
        requires
            !old(self).is_requested(record_id),
        ensures
            old(self).is_received(record_id) ==> r == Some((s, old(self).items()[record_id]->Received_0))
                && final(self).items() == old(self).items().remove(record_id),
            !old(self).items().contains_key(record_id) ==> r is None
                && final(self).items() == old(self).items().insert(record_id, BufItem::Requested(s)),
    {
        match self.buf.remove(&record_id) {
            Some(BufItem::Received(payload)) => Some((s, payload)),
            Some(BufItem::Requested(waiting)) => {
                assert(false);
                self.buf.insert(record_id, BufItem::Requested(waiting));
                None
            },
            None => {
                self.buf.insert(record_id, BufItem::Requested(s));
                None
            },
        }
    }

    /// Processes the message `payload` of `record_id`. If a request for it
    /// waits, the request leaves the buffer and its answer is returned with
    /// the payload for delivery; otherwise the message waits.
    pub fn receive_message(&mut self, record_id: u32, payload: Vec<u8>) -> (r: Option<(S, Vec<u8>)>)
        requires
            !old(self).is_received(record_id),
        ensures
            old(self).is_requested(record_id) ==> r == Some((old(self).items()[record_id]->Requested_0, payload))
                && final(self).items() == old(self).items().remove(record_id),
            !old(self).items().contains_key(record_id) ==> r is None
                && final(self).items() == old(self).items().insert(record_id, BufItem::Received(payload)),
    {
        match self.buf.remove(&record_id) {
            Some(BufItem::Requested(s)) => Some((s, payload)),
            Some(BufItem::Received(earlier)) => {
                assert(false);
                self.buf.insert(record_id, BufItem::Received(earlier));
                None
            },
            None => {
                self.buf.insert(record_id, BufItem::Received(payload));
                None
            },
        }
    }
}

} // verus!
