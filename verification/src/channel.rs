//! The inter-layer transport: bounded, single-producer single-consumer,
//! first-in first-out message queues, one per direction, carried by the
//! `rtrb` ring buffer. Each queue type keeps both ring-buffer endpoints
//! together so that its whole content can be spoken of in contracts; the
//! thread-wakeup discipline around it lives with the callers.
use vstd::prelude::*;

use crate::dl::SNUnitDataRequest;
use crate::n::clnp::ClnpError;
use crate::n::NUnitDataIndication;

verus! {

/// The bounded queue carrying unit-data requests from the network layer down
/// to the subnetwork layer.
#[verifier::external_body]
pub struct SnChannel {
    producer: rtrb::Producer<SNUnitDataRequest>,
    consumer: rtrb::Consumer<SNUnitDataRequest>,
}

/// The messages queued in an `SnChannel`, oldest first, each as its
/// (source, destination, userdata) byte content.
pub uninterp spec fn sn_contents(c: &SnChannel) -> Seq<(Seq<u8>, Seq<u8>, Seq<u8>)>;

/// The fixed capacity the channel was created with.
pub uninterp spec fn sn_capacity(c: &SnChannel) -> nat;

impl SnChannel {
    /// Relies on rtrb::RingBuffer::new: a ring buffer of exactly the given
    /// capacity, initially empty, split into its two endpoints.
    #[verifier::external_body]
    pub fn new(capacity: usize) -> (c: SnChannel)
        ensures
            sn_capacity(&c) == capacity,
            sn_contents(&c) == Seq::<(Seq<u8>, Seq<u8>, Seq<u8>)>::empty(),
    {
        let (producer, consumer) = rtrb::RingBuffer::new(capacity);
        SnChannel { producer, consumer }
    }

    /// Relies on rtrb::Producer::push: appends at the tail when a slot is
    /// free, and returns the value in `PushError::Full` without changing the
    /// queue when none is.
    #[verifier::external_body]
    pub fn push(&mut self, req: SNUnitDataRequest) -> (r: Result<(), ClnpError>)
        ensures
            sn_contents(old(self)).len() < sn_capacity(old(self)) ==> r is Ok && sn_capacity(
                final(self),
            ) == sn_capacity(old(self)) && sn_contents(
                final(self),
            ) == sn_contents(old(self)).push(req.model()),
            sn_contents(old(self)).len() >= sn_capacity(old(self)) ==> r is Err && r->Err_0
                == ClnpError::Congestion && sn_capacity(final(self)) == sn_capacity(old(self))
                && sn_contents(final(self)) == sn_contents(old(self)),
    {
        match self.producer.push(req) {
            Ok(()) => Ok(()),
            Err(rtrb::PushError::Full(_)) => Err(ClnpError::Congestion),
        }
    }

    /// Relies on rtrb::Consumer::pop: removes and returns the value at the
    /// head when the queue is non-empty, and reports `PopError::Empty`
    /// without changing the queue when it is empty.
    #[verifier::external_body]
    pub fn pop(&mut self) -> (r: Option<SNUnitDataRequest>)
        ensures
            sn_contents(old(self)).len() > 0 ==> r is Some && sn_capacity(final(self))
                == sn_capacity(old(self)) && r->0.model() == sn_contents(
                old(self),
            )[0] && sn_contents(final(self)) == sn_contents(old(self)).drop_first(),
            sn_contents(old(self)).len() == 0 ==> r is None && sn_capacity(final(self))
                == sn_capacity(old(self)) && sn_contents(final(self)) == sn_contents(old(self)),
    {
        match self.consumer.pop() {
            Ok(v) => Some(v),
            Err(rtrb::PopError::Empty) => None,
        }
    }
}

/// The bounded queue carrying unit-data indications from the subnetwork
/// layer up to the network layer.
#[verifier::external_body]
pub struct NChannel {
    producer: rtrb::Producer<NUnitDataIndication>,
    consumer: rtrb::Consumer<NUnitDataIndication>,
}

/// The messages queued in an `NChannel`, oldest first, each as its
/// (source, destination, userdata) byte content.
pub uninterp spec fn n_contents(c: &NChannel) -> Seq<(Seq<u8>, Seq<u8>, Seq<u8>)>;

/// The fixed capacity the channel was created with.
pub uninterp spec fn n_capacity(c: &NChannel) -> nat;

impl NChannel {
    /// Relies on rtrb::RingBuffer::new: a ring buffer of exactly the given
    /// capacity, initially empty, split into its two endpoints.
    #[verifier::external_body]
    pub fn new(capacity: usize) -> (c: NChannel)
        ensures
            n_capacity(&c) == capacity,
            n_contents(&c) == Seq::<(Seq<u8>, Seq<u8>, Seq<u8>)>::empty(),
    {
        let (producer, consumer) = rtrb::RingBuffer::new(capacity);
        NChannel { producer, consumer }
    }

    /// Relies on rtrb::Producer::push: appends at the tail when a slot is
    /// free, and returns the value in `PushError::Full` without changing the
    /// queue when none is.
    #[verifier::external_body]
    pub fn push(&mut self, ind: NUnitDataIndication) -> (r: Result<(), ClnpError>)
        ensures
            n_contents(old(self)).len() < n_capacity(old(self)) ==> r is Ok && n_capacity(
                final(self),
            ) == n_capacity(old(self)) && n_contents(
                final(self),
            ) == n_contents(old(self)).push(ind.model()),
            n_contents(old(self)).len() >= n_capacity(old(self)) ==> r is Err && r->Err_0
                == ClnpError::Congestion && n_capacity(final(self)) == n_capacity(old(self))
                && n_contents(final(self)) == n_contents(old(self)),
    {
        match self.producer.push(ind) {
            Ok(()) => Ok(()),
            Err(rtrb::PushError::Full(_)) => Err(ClnpError::Congestion),
        }
    }

    /// Relies on rtrb::Consumer::pop: removes and returns the value at the
    /// head when the queue is non-empty, and reports `PopError::Empty`
    /// without changing the queue when it is empty.
    #[verifier::external_body]
    pub fn pop(&mut self) -> (r: Option<NUnitDataIndication>)
        ensures
            n_contents(old(self)).len() > 0 ==> r is Some && n_capacity(final(self))
                == n_capacity(old(self)) && r->0.model() == n_contents(
                old(self),
            )[0] && n_contents(final(self)) == n_contents(old(self)).drop_first(),
            n_contents(old(self)).len() == 0 ==> r is None && n_capacity(final(self))
                == n_capacity(old(self)) && n_contents(final(self)) == n_contents(old(self)),
    {
        match self.consumer.pop() {
            Ok(v) => Some(v),
            Err(rtrb::PopError::Empty) => None,
        }
    }
}

} // verus!
