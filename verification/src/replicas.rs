//! The replica registry: the sinks of the replicas that are attached, in
//! the order in which they came, and the fan-out of a write to all of them.

use bytes::Bytes;
use tokio::sync::mpsc::{Receiver, Sender};
use vstd::prelude::*;

verus! {

/// tokio's `mpsc::Sender`, carried through the proofs as an opaque value.
#[verifier::external_type_specification]
#[verifier::external_body]
#[verifier::reject_recursive_types(T)]
pub struct ExSender<T>(Sender<T>);

/// tokio's `mpsc::Receiver`, carried through the proofs as an opaque value.
#[verifier::external_type_specification]
#[verifier::external_body]
#[verifier::reject_recursive_types(T)]
pub struct ExReceiver<T>(Receiver<T>);

/// The `Bytes` of the bytes crate: a shared, immutable run of bytes, known
/// to the proofs by `payload_bytes` alone.
#[verifier::external_type_specification]
#[verifier::external_body]
pub struct ExBytes(Bytes);

/// The writable end of one replica's queue.
pub type Sink = Sender<Bytes>;

/// The readable end of one replica's queue.
pub type Source = Receiver<Bytes>;

/// The bytes that a payload holds.
pub uninterp spec fn payload_bytes(payload: Bytes) -> Seq<u8>;

/// `Bytes::copy_from_slice` of the bytes crate: a payload that holds a copy
/// of the slice.
#[verifier::external_body]
fn payload_of(bytes: &[u8]) -> (payload: Bytes)
    ensures
        payload_bytes(payload) == bytes@,
{
    Bytes::copy_from_slice(bytes)
}

/// `Bytes::clone` of the bytes crate: another handle on the same bytes,
/// made without copying them.
#[verifier::external_body]
fn share(payload: &Bytes) -> (other: Bytes)
    ensures
        payload_bytes(other) == payload_bytes(*payload),
{
    payload.clone()
}

/// The largest queue that a sink can be given.
pub open spec fn max_capacity() -> nat {
    (usize::MAX / 8) as nat
}

/// `tokio::sync::mpsc::channel`: a new bounded queue and its two ends. The
/// queue must hold at least one message and no more than tokio's semaphore
/// counts. Nothing is claimed of the ends.
#[verifier::external_body]
fn open_queue(capacity: usize) -> (ends: (Sender<Bytes>, Receiver<Bytes>))
    requires
        0 < capacity <= max_capacity(),
{
    tokio::sync::mpsc::channel(capacity)
}

/// `Sender::try_send` of tokio: offers a message to the queue without
/// waiting, and says whether the queue took it. A full or closed queue
/// refuses. Which of the two happens depends on the other end, so nothing is
/// claimed of the answer.
#[verifier::external_body]
fn offer(sink: &Sender<Bytes>, message: Bytes) -> (accepted: bool) {
    sink.try_send(message).is_ok()
}

/// `Sender::is_closed` of tokio: whether the reading end is gone. Nothing is
/// claimed of the answer.
#[verifier::external_body]
fn closed(sink: &Sender<Bytes>) -> (gone: bool) {
    sink.is_closed()
}

/// The sinks that a verdict keeps: those at whose position `keep` says
/// true, in their order.
pub open spec fn kept<S>(sinks: Seq<S>, keep: Seq<bool>) -> Seq<S>
    recommends
        keep.len() == sinks.len(),
    decreases sinks.len(),
{
    if sinks.len() == 0 {
        Seq::empty()
    } else {
        let before = kept(sinks.drop_last(), keep.drop_last());
        if keep.last() {
            before.push(sinks.last())
        } else {
            before
        }
    }
}

/// The sinks of the attached replicas, oldest first, each with a queue of
/// the same bounded capacity, and the record of what has been offered to
/// them.
pub struct ReplicaRegistry {
    sinks: Vec<Sink>,
    capacity: usize,
    offered: Ghost<Seq<Seq<u8>>>,
}

impl View for ReplicaRegistry {
    type V = Seq<Sink>;

    closed spec fn view(&self) -> Seq<Sink> {
        self.sinks@
    }
}

impl ReplicaRegistry {
    #[verifier::type_invariant]
    spec fn well_formed(&self) -> bool {
        0 < self.capacity <= max_capacity()
    }

    /// The capacity of each replica's queue.
    pub closed spec fn queue_capacity(&self) -> nat {
        self.capacity as nat
    }

    /// The messages that have been put before the replicas so far, oldest
    /// first, whichever replicas were attached at the time. Whether a queue
    /// took a message is for its other end to say.
    pub closed spec fn offered(&self) -> Seq<Seq<u8>> {
        self.offered@
    }

    /// A registry without replicas whose queues will hold `capacity`
    /// messages each. Nothing where no queue can have that capacity.
    pub fn new(capacity: usize) -> (r: Option<ReplicaRegistry>)
        ensures
            r is Some <==> 0 < capacity <= max_capacity(),
            r matches Some(registry) ==> registry@.len() == 0 && registry.queue_capacity()
                == capacity && registry.offered().len() == 0,
    {
        if capacity == 0 || capacity > usize::MAX / 8 {
            None
        } else {
            Some(ReplicaRegistry { sinks: Vec::new(), capacity, offered: Ghost(Seq::empty()) })
        }
    }

    /// The number of attached replicas.
    pub fn len(&self) -> (n: usize)
        ensures
            n == self@.len(),
    {
        self.sinks.len()
    }

    /// Registers a new replica behind those already attached, and returns
    /// the readable end of its queue.
    pub fn attach(&mut self) -> (source: Source)
        ensures
            final(self)@.len() == old(self)@.len() + 1,
            final(self)@.drop_last() == old(self)@,
            final(self).queue_capacity() == old(self).queue_capacity(),
            final(self).offered() == old(self).offered(),
    {
        proof {
            use_type_invariant(&*self);
        }
        let (sink, source) = open_queue(self.capacity);
        let mut sinks: Vec<Sink> = Vec::new();
        core::mem::swap(&mut self.sinks, &mut sinks);
        sinks.push(sink);
        assert(sinks@.drop_last() =~= old(self)@);
        self.sinks = sinks;
        source
    }

    /// Offers a copy of `bytes` to every attached replica, oldest first,
    /// and reports which took it. No replica is waited for, and none is
    /// detached.
    pub fn offer_all(&mut self, bytes: &[u8]) -> (accepted: Vec<bool>)
        ensures
            accepted@.len() == old(self)@.len(),
            final(self)@ == old(self)@,
            final(self).queue_capacity() == old(self).queue_capacity(),
            final(self).offered() == old(self).offered().push(bytes@),
    {
        proof {
            use_type_invariant(&*self);
        }
        self.offered = Ghost(self.offered@.push(bytes@));
        let payload: Bytes = payload_of(bytes);
        let count: usize = self.sinks.len();
        let mut accepted: Vec<bool> = Vec::new();
        let mut i: usize = 0;
        while i < count
            invariant
                count == self.sinks@.len(),
                i <= count,
                accepted@.len() == i,
                payload_bytes(payload) == bytes@,
            decreases count - i,
        {
            let message: Bytes = share(&payload);
            assert(payload_bytes(message) == bytes@);
            let took: bool = offer(&self.sinks[i], message);
            accepted.push(took);
            i = i + 1;
        }
        accepted
    }

    /// Reports for every attached replica, oldest first, whether its queue
    /// is still read.
    pub fn probe_all(&self) -> (open: Vec<bool>)
        ensures
            open@.len() == self@.len(),
    {
        let count: usize = self.sinks.len();
        let mut open: Vec<bool> = Vec::new();
        let mut i: usize = 0;
        while i < count
            invariant
                count == self.sinks@.len(),
                i <= count,
                open@.len() == i,
            decreases count - i,
        {
            let gone: bool = closed(&self.sinks[i]);
            open.push(!gone);
            i = i + 1;
        }
        open
    }

    /// Detaches every replica at whose position `keep` says false. The
    /// others stay, in their order.
    pub fn prune(&mut self, keep: &Vec<bool>)
        requires
            keep@.len() == old(self)@.len(),
        ensures
            final(self)@ == kept(old(self)@, keep@),
            final(self).queue_capacity() == old(self).queue_capacity(),
            final(self).offered() == old(self).offered(),
    {
        proof {
            use_type_invariant(&*self);
        }
        let mut sinks: Vec<Sink> = Vec::new();
        core::mem::swap(&mut self.sinks, &mut sinks);
        let ghost all = sinks@;
        assert(all.len() == sinks.len());
        let mut staying: Vec<Sink> = Vec::new();
        let mut i: usize = 0;
        for sink in it: sinks.into_iter()
            invariant
                i == it.index(),
                it.seq() == all,
                keep@.len() == all.len(),
                all.len() <= usize::MAX,
                staying@ == kept(all.take(i as int), keep@.take(i as int)),
        {
            proof {
                assert(all.take(i + 1).drop_last() =~= all.take(i as int));
                assert(keep@.take(i + 1).drop_last() =~= keep@.take(i as int));
            }
            if keep[i] {
                staying.push(sink);
            }
            i = i + 1;
        }
        proof {
            assert(all.take(i as int) =~= all);
            assert(keep@.take(i as int) =~= keep@);
        }
        self.sinks = staying;
    }

    /// Sends a copy of `bytes` to every attached replica and detaches each
    /// one whose queue is full or closed. Returns how many took the
    /// message. The registry afterwards holds exactly those, in their order.
    pub fn broadcast(&mut self, bytes: &[u8]) -> (delivered: usize)
        ensures
            exists|accepted: Seq<bool>|
                accepted.len() == old(self)@.len() && final(self)@ == #[trigger] kept(
                    old(self)@,
                    accepted,
                ),
            delivered == final(self)@.len(),
            final(self).queue_capacity() == old(self).queue_capacity(),
            final(self).offered() == old(self).offered().push(bytes@),
    {
        let accepted: Vec<bool> = self.offer_all(bytes);
        self.prune(&accepted);
        self.sinks.len()
    }

    /// Detaches every replica whose queue is no longer read.
    pub fn prune_closed(&mut self)
        ensures
            exists|open: Seq<bool>|
                open.len() == old(self)@.len() && final(self)@ == #[trigger] kept(
                    old(self)@,
                    open,
                ),
            final(self).queue_capacity() == old(self).queue_capacity(),
            final(self).offered() == old(self).offered(),
    {
        let open: Vec<bool> = self.probe_all();
        self.prune(&open);
    }
}

} // verus!
