//! The bounded MPMC value pipe between providers, endpoints and
//! loggers.
//!
//! A channel owns a FIFO queue bounded by a `Limit`. An `Auto` limit
//! grows by one each time a send observes a full queue, up to a hard
//! cap. Senders blocked by a `Block` auto-return park their values in
//! a waiting line that refills the queue as the consumer drains it, so
//! the queue itself never exceeds its capacity.

use crate::json::{views_of, lemma_views_of, ValV, Value};
use vstd::prelude::*;

verus! {

/// Where an `Auto` limit starts.
pub const AUTO_START: usize = 5;

/// The hard cap an `Auto` limit may grow to.
pub const AUTO_CAP: usize = 65536;

/// The capacity policy of a channel: a fixed bound, or an adaptive one
/// that widens under observed fullness.
#[derive(Debug, Clone, Copy, PartialEq, Eq)]
pub enum Limit {
    /// Adaptive; holds the current depth.
    Auto(usize),
    /// Fixed bound, at least one.
    Integer(usize),
}

impl Limit {
    /// The number of values the queue may hold right now.
    pub open spec fn spec_capacity(self) -> nat {
        match self {
            Limit::Auto(d) => d as nat,
            Limit::Integer(n) => n as nat,
        }
    }

    /// A limit is well formed when its capacity is at least one; an
    /// adaptive one also stays within the hard cap it grows toward.
    pub open spec fn wf(self) -> bool {
        match self {
            Limit::Auto(d) => 1 <= d <= AUTO_CAP,
            Limit::Integer(n) => n >= 1,
        }
    }

    /// A fresh adaptive limit.
    pub fn auto() -> (r: Limit)
        ensures
            r == Limit::Auto(AUTO_START),
            r.wf(),
    {
        Limit::Auto(AUTO_START)
    }

    /// The current capacity.
    pub fn capacity(&self) -> (r: usize)
        ensures
            r as nat == self.spec_capacity(),
    {
        match self {
            Limit::Auto(d) => *d,
            Limit::Integer(n) => *n,
        }
    }
}

/// What a non-blocking send came to.
#[derive(Debug)]
pub enum SendState {
    /// The value was enqueued.
    Success,
    /// The queue was full at its current capacity; the value comes
    /// back unmodified.
    Full(Value),
    /// No receiver is attached any more.
    Closed,
}

/// What a receive came to.
#[derive(Debug)]
pub enum RecvState {
    /// The oldest buffered value.
    Value(Value),
    /// Nothing buffered, but senders remain attached.
    Empty,
    /// Nothing buffered and every sender is gone: end of stream.
    Disconnected,
}

/// A bounded FIFO channel of JSON values.
pub struct Channel {
    /// The capacity policy.
    pub limit: Limit,
    /// Buffered values, oldest first.
    pub queue: Vec<Value>,
    /// Values of blocked `Block`-mode senders, oldest first; they move
    /// into the queue as the consumer makes room.
    pub waiting: Vec<Value>,
    /// Attached sender handles.
    pub senders: usize,
    /// Attached receiver handles.
    pub receivers: usize,
}

impl Channel {
    /// The buffered values, as mathematical values, oldest first.
    pub open spec fn contents(self) -> Seq<ValV> {
        views_of(self.queue@)
    }

    /// The values parked by blocked senders, oldest first.
    pub open spec fn pending(self) -> Seq<ValV> {
        views_of(self.waiting@)
    }

    /// The current capacity.
    pub open spec fn capacity(self) -> nat {
        self.limit.spec_capacity()
    }

    /// The channel invariant: the queue never exceeds the capacity,
    /// and values wait outside only while the queue is full.
    pub open spec fn wf(self) -> bool {
        &&& self.limit.wf()
        &&& self.queue@.len() <= self.capacity()
        &&& (self.waiting@.len() > 0 ==> self.queue@.len() == self.capacity())
    }

    /// A fresh channel with one sender and one receiver.
    pub fn new(limit: Limit) -> (r: Channel)
        requires
            limit.wf(),
        ensures
            r.wf(),
            r.limit == limit,
            r.contents() == Seq::<ValV>::empty(),
            r.pending() == Seq::<ValV>::empty(),
            r.senders == 1,
            r.receivers == 1,
    {
        Channel { limit, queue: Vec::new(), waiting: Vec::new(), senders: 1, receivers: 1 }
    }

    /// Whether every receiver handle has been dropped: the probe used
    /// for termination detection.
    pub fn no_receivers(&self) -> (r: bool)
        ensures
            r == (self.receivers == 0),
    {
        self.receivers == 0
    }

    /// Attaches one more sender handle.
    pub fn add_sender(&mut self)
        requires
            old(self).senders < usize::MAX,
        ensures
            *final(self) == (Channel { senders: (old(self).senders + 1) as usize, ..*old(self) }),
    {
        self.senders = self.senders + 1;
    }

    /// Drops one sender handle.
    pub fn drop_sender(&mut self)
        requires
            old(self).senders > 0,
        ensures
            *final(self) == (Channel { senders: (old(self).senders - 1) as usize, ..*old(self) }),
    {
        self.senders = self.senders - 1;
    }

    /// Attaches one more receiver handle.
    pub fn add_receiver(&mut self)
        requires
            old(self).receivers < usize::MAX,
        ensures
            *final(self) == (Channel {
                receivers: (old(self).receivers + 1) as usize,
                ..*old(self)
            }),
    {
        self.receivers = self.receivers + 1;
    }

    /// Drops one receiver handle.
    pub fn drop_receiver(&mut self)
        requires
            old(self).receivers > 0,
        ensures
            *final(self) == (Channel {
                receivers: (old(self).receivers - 1) as usize,
                ..*old(self)
            }),
    {
        self.receivers = self.receivers - 1;
    }

    /// A non-blocking send. On a closed channel nothing changes. With
    /// room in the queue the value is appended. A full `Auto` queue
    /// below the hard cap widens by one and takes the value. Otherwise
    /// the send reports `Full` and hands the value back unmodified.
    pub fn try_send(&mut self, v: Value) -> (r: SendState)
        requires
            old(self).wf(),
        ensures
            final(self).wf(),
            final(self).senders == old(self).senders,
            final(self).receivers == old(self).receivers,
            final(self).waiting@ == old(self).waiting@,
            old(self).receivers == 0 ==> r is Closed && *final(self) == *old(self),
            old(self).receivers > 0 && old(self).contents().len() < old(self).capacity() ==> {
                &&& r is Success
                &&& final(self).queue@ == old(self).queue@.push(v)
                &&& final(self).limit == old(self).limit
            },
            old(self).receivers > 0 && old(self).contents().len() >= old(self).capacity() && (
            old(self).limit matches Limit::Auto(d) && d < AUTO_CAP) ==> {
                &&& r is Success
                &&& final(self).queue@ == old(self).queue@.push(v)
                &&& final(self).capacity() == old(self).capacity() + 1
                &&& final(self).limit == Limit::Auto((old(self).capacity() + 1) as usize)
            },
            old(self).receivers > 0 && old(self).contents().len() >= old(self).capacity() && !(
            old(self).limit matches Limit::Auto(d) && d < AUTO_CAP) ==> {
                &&& r matches SendState::Full(w) && w == v
                &&& *final(self) == *old(self)
            },
            r is Success ==> final(self).contents() == old(self).contents().push(v@),
            final(self).pending() == old(self).pending(),
            !(r is Success) ==> final(self).limit == old(self).limit,
    {
        proof {
            lemma_views_of(self.queue@);
        }
        if self.receivers == 0 {
            return SendState::Closed;
        }
        let cap = self.limit.capacity();
        if self.queue.len() < cap {
            self.queue.push(v);
            proof {
                lemma_views_of(old(self).queue@);
                lemma_views_of(self.queue@);
                assert(self.contents() =~= old(self).contents().push(v@));
            }
            return SendState::Success;
        }
        match self.limit {
            Limit::Auto(d) => {
                if d < AUTO_CAP {
                    self.limit = Limit::Auto(d + 1);
                    self.queue.push(v);
                    proof {
                        lemma_views_of(old(self).queue@);
                        lemma_views_of(self.queue@);
                        assert(self.contents() =~= old(self).contents().push(v@));
                    }
                    return SendState::Success;
                }
                SendState::Full(v)
            },
            Limit::Integer(_) => SendState::Full(v),
        }
    }

    /// A `Force`-mode send: on a full queue the oldest value is
    /// dropped to make room; a closed channel discards the value.
    pub fn force_send(&mut self, v: Value) -> (dropped: Option<Value>)
        requires
            old(self).wf(),
        ensures
            final(self).wf(),
            final(self).senders == old(self).senders,
            final(self).receivers == old(self).receivers,
            final(self).waiting@ == old(self).waiting@,
            final(self).limit == old(self).limit,
            old(self).receivers == 0 ==> *final(self) == *old(self) && dropped is None,
            old(self).receivers > 0 && old(self).contents().len() < old(self).capacity() ==> {
                &&& final(self).queue@ == old(self).queue@.push(v)
                &&& final(self).contents() == old(self).contents().push(v@)
                &&& dropped is None
            },
            old(self).receivers > 0 && old(self).contents().len() >= old(self).capacity() ==> {
                &&& final(self).queue@ == old(self).queue@.drop_first().push(v)
                &&& final(self).contents() == old(self).contents().drop_first().push(v@)
                &&& dropped matches Some(w) && w == old(self).queue@[0]
            },
            final(self).pending() == old(self).pending(),
    {
        proof {
            lemma_views_of(self.queue@);
        }
        if self.receivers == 0 {
            return None;
        }
        let cap = self.limit.capacity();
        if self.queue.len() < cap {
            self.queue.push(v);
            proof {
                lemma_views_of(self.queue@);
                lemma_views_of(old(self).queue@);
                assert(self.contents() =~= old(self).contents().push(v@));
            }
            None
        } else {
            proof {
                lemma_views_of(self.queue@);
            }
            let dropped = self.queue.remove(0);
            self.queue.push(v);
            proof {
                assert(self.queue@ =~= old(self).queue@.drop_first().push(v));
                lemma_views_of(self.queue@);
                lemma_views_of(old(self).queue@);
                assert(self.contents() =~= old(self).contents().drop_first().push(v@));
            }
            Some(dropped)
        }
    }

    /// A `Block`-mode send, as the auto-return path uses it: with room
    /// the value joins the queue, else it parks in the waiting line
    /// until the consumer makes room. A closed channel discards it.
    pub fn block_send(&mut self, v: Value) -> (accepted: bool)
        requires
            old(self).wf(),
        ensures
            final(self).wf(),
            final(self).senders == old(self).senders,
            final(self).receivers == old(self).receivers,
            final(self).limit == old(self).limit,
            old(self).receivers == 0 ==> *final(self) == *old(self) && !accepted,
            old(self).receivers > 0 ==> accepted && final(self).contents() + final(self).pending() == old(self).contents() + old(self).pending() + seq![v@],
            old(self).receivers > 0 && old(self).contents().len() < old(self).capacity() && old(self).pending().len() == 0 ==> final(self).contents() == old(self).contents().push(v@)
                && final(self).pending() == old(self).pending(),
            old(self).receivers > 0 && !(old(self).contents().len() < old(self).capacity() && old(self).pending().len() == 0) ==> final(self).contents() == old(self).contents() && final(self).pending() == old(self).pending().push(v@),
    {
        proof {
            lemma_views_of(self.queue@);
            lemma_views_of(self.waiting@);
        }
        if self.receivers == 0 {
            return false;
        }
        let cap = self.limit.capacity();
        if self.queue.len() < cap && self.waiting.len() == 0 {
            self.queue.push(v);
            proof {
                lemma_views_of(self.queue@);
                lemma_views_of(old(self).queue@);
                assert(self.contents() =~= old(self).contents().push(v@));
                assert(self.contents() + self.pending() =~= old(self).contents() + old(self).pending() + seq![v@]);
            }
        } else {
            self.waiting.push(v);
            proof {
                lemma_views_of(self.waiting@);
                lemma_views_of(old(self).waiting@);
                assert(self.pending() =~= old(self).pending().push(v@));
                assert(self.contents() + self.pending() =~= old(self).contents() + old(self).pending() + seq![v@]);
            }
        }
        true
    }

    /// Receives the oldest buffered value. When a value leaves a full
    /// queue, the oldest waiting value moves in behind it, waking one
    /// blocked sender. An empty queue distinguishes a quiet channel
    /// from a finished one by whether senders remain.
    pub fn recv(&mut self) -> (r: RecvState)
        requires
            old(self).wf(),
        ensures
            final(self).wf(),
            final(self).senders == old(self).senders,
            final(self).receivers == old(self).receivers,
            final(self).limit == old(self).limit,
            old(self).contents().len() == 0 && old(self).senders == 0 ==> r is Disconnected
                && *final(self) == *old(self),
            old(self).contents().len() == 0 && old(self).senders > 0 ==> r is Empty && *final(self) == *old(self),
            old(self).contents().len() > 0 ==> {
                &&& r matches RecvState::Value(w) && w == old(self).queue@[0]
                &&& final(self).contents() + final(self).pending() == (old(self).contents() + old(self).pending()).drop_first()
            },
    {
        proof {
            lemma_views_of(self.queue@);
            lemma_views_of(self.waiting@);
        }
        if self.queue.len() == 0 {
            if self.senders == 0 {
                return RecvState::Disconnected;
            }
            return RecvState::Empty;
        }
        let v = self.queue.remove(0);
        if self.waiting.len() > 0 {
            let w = self.waiting.remove(0);
            self.queue.push(w);
            proof {
                lemma_views_of(self.queue@);
                lemma_views_of(self.waiting@);
                lemma_views_of(old(self).queue@.drop_first());
                lemma_views_of(old(self).waiting@.drop_first());
                assert(self.contents() + self.pending() =~= (old(self).contents() + old(self).pending()).drop_first());
            }
        } else {
            proof {
                lemma_views_of(self.queue@);
                lemma_views_of(old(self).queue@.drop_first());
                assert(self.contents() + self.pending() =~= (old(self).contents() + old(self).pending()).drop_first());
            }
        }
        RecvState::Value(v)
    }
}

/// The pacing primitive paired with a provider's channel: the request
/// engine announces that it is about to need a value, the provider
/// side emits one trigger, and the engine acknowledges whether it
/// consumed. A negative acknowledgement re-arms the trigger at once.
pub struct OnDemand {
    /// A demand token is set and not yet turned into a trigger.
    pub armed: bool,
    /// A trigger was handed out and awaits its acknowledgement.
    pub awaiting_ack: bool,
}

impl OnDemand {
    /// A fresh receiver with no demand signalled.
    pub fn new() -> (r: OnDemand)
        ensures
            r == (OnDemand { armed: false, awaiting_ack: false }),
    {
        OnDemand { armed: false, awaiting_ack: false }
    }

    /// The downstream announces it is about to need a value.
    pub fn signal_demand(&mut self)
        ensures
            *final(self) == (OnDemand { armed: true, ..*old(self) }),
    {
        self.armed = true;
    }

    /// Polls for a trigger. One is emitted exactly when demand is
    /// armed, no earlier trigger awaits its acknowledgement, and the
    /// paired channel could still produce (a buffered value or an
    /// attached sender).
    pub fn poll_trigger(&mut self, channel_live: bool) -> (r: bool)
        ensures
            r == (old(self).armed && !old(self).awaiting_ack && channel_live),
            r ==> *final(self) == (OnDemand { armed: false, awaiting_ack: true }),
            !r ==> *final(self) == *old(self),
    {
        if self.armed && !self.awaiting_ack && channel_live {
            self.armed = false;
            self.awaiting_ack = true;
            true
        } else {
            false
        }
    }

    /// The downstream acknowledges the outstanding trigger, saying
    /// whether it consumed a value. On `false` the token re-arms, so
    /// the next poll re-emits at once.
    pub fn ack(&mut self, consumed: bool)
        requires
            old(self).awaiting_ack,
        ensures
            *final(self) == (OnDemand { armed: old(self).armed || !consumed, awaiting_ack: false }),
    {
        self.awaiting_ack = false;
        if !consumed {
            self.armed = true;
        }
    }
}

} // verus!
