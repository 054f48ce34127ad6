//! Providers: named sources of JSON values backed by bounded channels.
//!
//! A provider couples a channel with its re-insertion policy and its
//! on-demand pacer, and — for the literal, range and file kinds — with
//! the producer that feeds the channel. The producer here is a value
//! source stepped explicitly; the asynchronous pump around it only
//! repeats `pump_step` whenever the channel has room.

use crate::channel::{Channel, Limit, OnDemand, SendState};
use crate::json::{lemma_views_of, views_of, ValV, Value};
use vstd::arithmetic::div_mod::{lemma_mod_multiples_vanish, lemma_small_mod};
use vstd::prelude::*;

verus! {

/// The re-insertion policy for values captured back into a provider.
#[derive(Debug, Clone, Copy, PartialEq, Eq)]
pub enum SendBehavior {
    /// Apply backpressure: the tick blocks while the target is full.
    Block,
    /// Replace the oldest value when the target is full.
    Force,
    /// Drop the value when the target is full.
    IfNotFull,
    /// Drop the value silently.
    NoOp,
}

/// An endless round-robin over a fixed list of values. An empty list
/// ends the stream at once.
pub struct RepeaterStream {
    /// The next index to emit.
    pub i: usize,
    /// The values cycled over.
    pub values: Vec<Value>,
}

/// The value `vals` cycles to at step `j`.
pub open spec fn spec_cycle(vals: Seq<ValV>, j: int) -> ValV {
    vals[j % (vals.len() as int)]
}

/// `vals` concatenated `n` times over.
pub open spec fn spec_repeats(vals: Seq<ValV>, n: nat) -> Seq<ValV>
    decreases n,
{
    if n == 0 {
        Seq::empty()
    } else {
        spec_repeats(vals, (n - 1) as nat) + vals
    }
}

/// The length of `n` concatenations of `vals`.
pub proof fn lemma_repeats_len(vals: Seq<ValV>, n: nat)
    ensures
        spec_repeats(vals, n).len() == n * vals.len(),
    decreases n,
{
    if n == 0 {
        assert(n * vals.len() == 0) by (nonlinear_arith)
            requires
                n == 0,
        ;
    } else {
        let m = (n - 1) as nat;
        lemma_repeats_len(vals, m);
        assert(n * vals.len() == m * vals.len() + vals.len()) by (nonlinear_arith)
            requires
                n == m + 1,
        ;
    }
}

/// Consuming `n · K` values from the cyclic sequence over a `K`-value
/// list gives exactly `n` concatenations of the list.
pub proof fn lemma_cycle_concat(vals: Seq<ValV>, n: nat)
    requires
        vals.len() > 0,
    ensures
        Seq::new(n * vals.len(), |j: int| spec_cycle(vals, j)) == spec_repeats(vals, n),
    decreases n,
{
    let len = vals.len() as int;
    lemma_repeats_len(vals, n);
    if n == 0 {
        assert(Seq::new(0, |j: int| spec_cycle(vals, j)) =~= spec_repeats(vals, 0));
    } else {
        let m = (n - 1) as nat;
        lemma_cycle_concat(vals, m);
        lemma_repeats_len(vals, m);
        assert((m + 1) * vals.len() == m * vals.len() + vals.len()) by (nonlinear_arith);
        assert(Seq::new(n * vals.len(), |j: int| spec_cycle(vals, j)) =~= spec_repeats(vals, m)
            + vals) by {
            assert forall|j: int| 0 <= j < n * vals.len() implies Seq::new(
                n * vals.len(),
                |j: int| spec_cycle(vals, j),
            )[j] == (spec_repeats(vals, m) + vals)[j] by {
                if j < m * vals.len() {
                    assert(Seq::new(m * vals.len(), |j: int| spec_cycle(vals, j))[j]
                        == spec_cycle(vals, j));
                } else {
                    let k = j - m * len;
                    assert(0 <= k < len);
                    assert(j % len == k) by {
                        assert(j == len * (m as int) + k);
                        lemma_mod_multiples_vanish(m as int, k, len);
                        lemma_small_mod(k as nat, len as nat);
                    }
                }
            }
        }
    }
}

impl RepeaterStream {
    /// The stream invariant: the cursor stays inside the list.
    pub open spec fn wf(self) -> bool {
        self.values@.len() > 0 ==> self.i < self.values@.len()
    }

    /// A fresh round-robin starting at the first value.
    pub fn new(values: Vec<Value>) -> (r: RepeaterStream)
        ensures
            r.wf(),
            r.i == 0,
            r.values == values,
    {
        RepeaterStream { i: 0, values }
    }

    /// Emits the value under the cursor and steps the cursor round;
    /// an empty list yields `None`, ending the stream.
    pub fn poll(&mut self) -> (r: Option<Value>)
        requires
            old(self).wf(),
        ensures
            final(self).wf(),
            final(self).values == old(self).values,
            old(self).values@.len() == 0 ==> r is None && *final(self) == *old(self),
            old(self).values@.len() > 0 ==> {
                &&& (r matches Some(v) && v@ == views_of(old(self).values@)[old(self).i as int])
                &&& final(self).i as int == (old(self).i + 1) % (old(self).values@.len() as int)
            },
    {
        proof {
            lemma_views_of(self.values@);
        }
        if self.values.len() == 0 {
            return None;
        }
        let i = self.i;
        self.i = (i + 1) % self.values.len();
        Some(self.values[i].dup())
    }
}

/// A finite ascending run of integers.
pub struct RangeSource {
    /// The next integer to emit.
    pub cur: i64,
    /// The last integer to emit.
    pub end: i64,
    /// The run is exhausted.
    pub done: bool,
}

impl RangeSource {
    /// A fresh run over `start..=end`.
    pub fn new(start: i64, end: i64) -> (r: RangeSource)
        ensures
            r == (RangeSource { cur: start, end, done: start > end }),
    {
        RangeSource { cur: start, end, done: start > end }
    }

    /// Emits the next integer, or `None` once the run is done.
    pub fn poll(&mut self) -> (r: Option<Value>)
        ensures
            final(self).end == old(self).end,
            old(self).done || old(self).cur > old(self).end ==> r is None && *final(self) == *old(self),
            !old(self).done && old(self).cur <= old(self).end ==> {
                &&& (r matches Some(v) && v@ == ValV::Int(old(self).cur as int))
                &&& final(self).done == (old(self).cur == old(self).end)
                &&& (old(self).cur < old(self).end ==> final(self).cur == old(self).cur + 1)
            },
    {
        if self.done || self.cur > self.end {
            return None;
        }
        let v = Value::Int(self.cur);
        if self.cur == self.end {
            self.done = true;
        } else {
            self.cur = self.cur + 1;
        }
        Some(v)
    }
}

/// The values read from one file, replayed in order; with `repeat`
/// the sequence restarts after its last value, else it ends.
pub struct FileSource {
    /// The parsed values, in file order.
    pub values: Vec<Value>,
    /// How many have been emitted in the current pass.
    pub pos: usize,
    /// Start over at the end instead of ending the stream.
    pub repeat: bool,
}

impl FileSource {
    /// The source invariant: the cursor never passes the end.
    pub open spec fn wf(self) -> bool {
        self.pos <= self.values@.len()
    }

    /// A fresh pass over `values`.
    pub fn new(values: Vec<Value>, repeat: bool) -> (r: FileSource)
        ensures
            r.wf(),
            r.values == values,
            r.pos == 0,
            r.repeat == repeat,
    {
        FileSource { values, pos: 0, repeat }
    }

    /// Emits the next value of the pass. Without `repeat`, a source
    /// of `N` values yields exactly those `N` values and then `None`
    /// for ever; with `repeat`, the pass restarts.
    pub fn poll(&mut self) -> (r: Option<Value>)
        requires
            old(self).wf(),
        ensures
            final(self).wf(),
            final(self).values == old(self).values,
            final(self).repeat == old(self).repeat,
            old(self).pos < old(self).values@.len() ==> {
                &&& (r matches Some(v) && v@ == views_of(old(self).values@)[old(self).pos as int])
                &&& final(self).pos == old(self).pos + 1
            },
            old(self).pos >= old(self).values@.len() && !old(self).repeat ==> r is None && *final(self) == *old(self),
            old(self).pos >= old(self).values@.len() && old(self).repeat && old(self).values@.len() == 0 ==> r is None && *final(self) == *old(self),
            old(self).pos >= old(self).values@.len() && old(self).repeat && old(self).values@.len() > 0 ==> {
                &&& (r matches Some(v) && v@ == views_of(old(self).values@)[0])
                &&& final(self).pos == 1
            },
    {
        proof {
            lemma_views_of(self.values@);
        }
        if self.pos < self.values.len() {
            let v = self.values[self.pos].dup();
            self.pos = self.pos + 1;
            return Some(v);
        }
        if self.repeat && self.values.len() > 0 {
            self.pos = 1;
            return Some(self.values[0].dup());
        }
        None
    }
}

/// What feeds a provider's channel.
pub enum Source {
    /// Nothing does: only captures fill it (a response provider).
    Nothing,
    /// An endless round-robin over literals.
    Repeater(RepeaterStream),
    /// A finite run of integers.
    Range(RangeSource),
    /// Values read from a file.
    File(FileSource),
}

impl Source {
    /// The source invariant.
    pub open spec fn wf(self) -> bool {
        match self {
            Source::Nothing => true,
            Source::Repeater(rs) => rs.wf(),
            Source::Range(_) => true,
            Source::File(fs) => fs.wf(),
        }
    }

    /// Whether another poll could still emit a value.
    pub open spec fn live(self) -> bool {
        match self {
            Source::Nothing => false,
            Source::Repeater(rs) => rs.values@.len() > 0,
            Source::Range(rg) => !rg.done && rg.cur <= rg.end,
            Source::File(fs) => fs.pos < fs.values@.len() || (fs.repeat && fs.values@.len() > 0),
        }
    }

    /// The value the next poll emits, while the source is live.
    pub open spec fn head(self) -> ValV {
        match self {
            Source::Nothing => ValV::Null,
            Source::Repeater(rs) => views_of(rs.values@)[rs.i as int],
            Source::Range(rg) => ValV::Int(rg.cur as int),
            Source::File(fs) => if fs.pos < fs.values@.len() {
                views_of(fs.values@)[fs.pos as int]
            } else {
                views_of(fs.values@)[0]
            },
        }
    }

    /// Polls the underlying source once.
    pub fn poll(&mut self) -> (r: Option<Value>)
        requires
            old(self).wf(),
        ensures
            final(self).wf(),
            !old(self).live() ==> r is None && *final(self) == *old(self),
            old(self).live() ==> (r matches Some(v) && v@ == old(self).head()),
    {
        match self {
            Source::Nothing => None,
            Source::Repeater(rs) => rs.poll(),
            Source::Range(rg) => rg.poll(),
            Source::File(fs) => fs.poll(),
        }
    }
}

/// A named source of JSON values: a bounded channel, the re-insertion
/// policy for captured values, the on-demand pacer, and the producer
/// that feeds the channel.
pub struct Provider {
    /// How captured values come back when a tick fails to use them.
    pub auto_return: Option<SendBehavior>,
    /// The bounded value pipe.
    pub channel: Channel,
    /// The pull-pacing receiver paired with the channel.
    pub on_demand: OnDemand,
    /// What fills the channel.
    pub source: Source,
}

impl Provider {
    /// The provider invariant.
    pub open spec fn wf(self) -> bool {
        self.channel.wf() && self.source.wf()
    }

    /// Builds a provider over a fresh channel.
    pub fn new(auto_return: Option<SendBehavior>, limit: Limit, source: Source) -> (r: Provider)
        requires
            limit.wf(),
            source.wf(),
        ensures
            r.wf(),
            r.auto_return == auto_return,
            r.channel.limit == limit,
            r.channel.contents() == Seq::<ValV>::empty(),
            r.channel.pending() == Seq::<ValV>::empty(),
            r.channel.senders == 1,
            r.channel.receivers == 1,
            r.on_demand == (OnDemand { armed: false, awaiting_ack: false }),
            r.source == source,
    {
        Provider {
            auto_return,
            channel: Channel::new(limit),
            on_demand: OnDemand::new(),
            source,
        }
    }

    /// One step of the forwarding pump: while the channel has room
    /// and a receiver, moves the source's next value into the channel.
    /// Returns whether it moved one; the pump loops while it does and
    /// parks until the channel drains otherwise.
    pub fn pump_step(&mut self) -> (progressed: bool)
        requires
            old(self).wf(),
        ensures
            final(self).wf(),
            final(self).auto_return == old(self).auto_return,
            final(self).on_demand == old(self).on_demand,
            final(self).channel.limit == old(self).channel.limit || final(self).channel.capacity() == old(self).channel.capacity() + 1,
            !old(self).source.live() || old(self).channel.receivers == 0 || old(self).channel.contents().len() >= old(self).channel.capacity() ==> !progressed && *final(self) == *old(self),
            old(self).source.live() && old(self).channel.receivers > 0 && old(self).channel.contents().len() < old(self).channel.capacity() ==> progressed && final(self).channel.contents() == old(self).channel.contents().push(old(self).source.head()),
    {
        let cap = self.channel.limit.capacity();
        if self.channel.receivers == 0 || self.channel.queue.len() >= cap {
            proof {
                lemma_views_of(self.channel.queue@);
            }
            return false;
        }
        proof {
            lemma_views_of(self.channel.queue@);
        }
        let v = match self.source.poll() {
            Some(v) => v,
            None => {
                return false;
            },
        };
        let ghost vv = v@;
        match self.channel.try_send(v) {
            SendState::Success => true,
            SendState::Full(_) => {
                proof {
                    assert(false);
                }
                false
            },
            SendState::Closed => {
                proof {
                    assert(false);
                }
                false
            },
        }
    }
}

/// A provider fed only by captured responses: no producer task.
pub fn response(auto_return: Option<SendBehavior>, buffer: Limit) -> (r: Provider)
    requires
        buffer.wf(),
    ensures
        r.wf(),
        r.auto_return == auto_return,
        r.channel.limit == buffer,
        r.channel.contents() == Seq::<ValV>::empty(),
        r.channel.senders == 1,
        r.channel.receivers == 1,
        r.on_demand == (OnDemand { armed: false, awaiting_ack: false }),
        r.source == Source::Nothing,
{
    Provider::new(auto_return, buffer, Source::Nothing)
}

/// A provider that cycles over `values` for ever, under an adaptive
/// channel limit.
pub fn literals(values: Vec<Value>, auto_return: Option<SendBehavior>) -> (r: Provider)
    ensures
        r.wf(),
        r.auto_return == auto_return,
        r.channel.limit == Limit::Auto(crate::channel::AUTO_START),
        r.channel.contents() == Seq::<ValV>::empty(),
        r.channel.senders == 1,
        r.channel.receivers == 1,
        r.on_demand == (OnDemand { armed: false, awaiting_ack: false }),
        r.source == Source::Repeater(RepeaterStream { i: 0, values }),
{
    let rs = RepeaterStream::new(values);
    Provider::new(auto_return, Limit::auto(), Source::Repeater(rs))
}

/// A provider that counts `start..=end` once, under an adaptive
/// channel limit.
pub fn range(start: i64, end: i64) -> (r: Provider)
    ensures
        r.wf(),
        r.auto_return is None,
        r.channel.limit == Limit::Auto(crate::channel::AUTO_START),
        r.channel.contents() == Seq::<ValV>::empty(),
        r.channel.senders == 1,
        r.channel.receivers == 1,
        r.on_demand == (OnDemand { armed: false, awaiting_ack: false }),
        r.source == Source::Range(RangeSource { cur: start, end, done: start > end }),
{
    let rg = RangeSource::new(start, end);
    Provider::new(None, Limit::auto(), Source::Range(rg))
}

/// A provider replaying values read from a file. The caller hands in
/// the parsed values; reading and parsing stand apart.
pub fn file(
    values: Vec<Value>,
    repeat: bool,
    auto_return: Option<SendBehavior>,
    buffer: Limit,
) -> (r: Provider)
    requires
        buffer.wf(),
    ensures
        r.wf(),
        r.auto_return == auto_return,
        r.channel.limit == buffer,
        r.channel.contents() == Seq::<ValV>::empty(),
        r.channel.senders == 1,
        r.channel.receivers == 1,
        r.on_demand == (OnDemand { armed: false, awaiting_ack: false }),
        r.source == Source::File(FileSource { values, pos: 0, repeat }),
{
    let fs = FileSource::new(values, repeat);
    Provider::new(auto_return, buffer, Source::File(fs))
}

} // verus!
