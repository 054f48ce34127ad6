//! The endpoint engine: assembles per-request template environments
//! from zipped provider streams, paces ticks by on-demand triggers and
//! a concurrency ceiling, and fans captured values back out into
//! providers and loggers.
//!
//! Rendering templates and carrying HTTP traffic are outside work; the
//! engine's decisions — what to poll, when a tick may start, where a
//! captured value goes, and what returns to a provider when a tick
//! fails — are all here.

use crate::channel::{Channel, Limit, SendState};
use crate::json::{lemma_pair_views_of, lemma_views_of, pair_views_of, views_of, ValV, Value};
use crate::providers::SendBehavior;
use vstd::prelude::*;

verus! {

/// An HTTP method.
#[derive(Debug, Clone, Copy, PartialEq, Eq)]
pub enum Method {
    Get,
    Post,
    Put,
    Delete,
    Head,
    Options,
    Patch,
}

/// A compiled template, evaluated by the external template engine.
/// The engine treats it as opaque text.
#[derive(Debug, Clone)]
pub struct Template(pub String);

/// Compares two byte strings.
pub fn bytes_eq(a: &Vec<u8>, b: &Vec<u8>) -> (r: bool)
    ensures
        r == (a@ == b@),
{
    if a.len() != b.len() {
        return false;
    }
    let mut i: usize = 0;
    while i < a.len()
        invariant
            i <= a.len(),
            a@.len() == b@.len(),
            forall|k: int| 0 <= k < i ==> a@[k] == b@[k],
        decreases a.len() - i,
    {
        if a[i] != b[i] {
            return false;
        }
        i += 1;
    }
    proof {
        assert(a@ =~= b@);
    }
    true
}

/// The template environment of one tick: an object-shaped value the
/// templates read by JSON path.
#[derive(Debug, Clone)]
pub struct TemplateValues(pub Value);

/// `pairs` with `(key, v)` set: an existing key is overwritten in
/// place, a new one appended.
pub open spec fn spec_obj_insert(
    pairs: Seq<(Seq<u8>, ValV)>,
    key: Seq<u8>,
    v: ValV,
) -> Seq<(Seq<u8>, ValV)>
    decreases pairs.len(),
{
    if pairs.len() == 0 {
        seq![(key, v)]
    } else if pairs[0].0 == key {
        seq![(key, v)] + pairs.drop_first()
    } else {
        seq![pairs[0]] + spec_obj_insert(pairs.drop_first(), key, v)
    }
}

impl TemplateValues {
    /// The environment is always object-shaped.
    pub open spec fn wf(self) -> bool {
        self.0@ is Obj
    }

    /// The environment's members.
    pub open spec fn entries(self) -> Seq<(Seq<u8>, ValV)> {
        self.0@->Obj_0
    }

    /// A fresh, empty environment.
    pub fn new() -> (r: TemplateValues)
        ensures
            r.wf(),
            r.entries() == Seq::<(Seq<u8>, ValV)>::empty(),
    {
        TemplateValues(Value::Object(Vec::new()))
    }

    /// The environment as a JSON value.
    pub fn as_json(&self) -> (r: &Value)
        ensures
            r == &self.0,
    {
        &self.0
    }

    /// Sets `key` to `v`, overwriting an existing member of that key.
    #[verifier::loop_isolation(false)]
    pub fn insert(&mut self, key: Vec<u8>, v: Value)
        requires
            old(self).wf(),
        ensures
            final(self).wf(),
            final(self).entries() == spec_obj_insert(old(self).entries(), key@, v@),
    {
        match &mut self.0 {
            Value::Object(pairs) => {
                let ghost orig = pairs@;
                let mut i: usize = 0;
                while i < pairs.len()
                    invariant
                        i <= pairs@.len(),
                        pairs@ == orig,
                        forall|k: int| 0 <= k < i ==> pair_views_of(orig)[k].0 != key@,
                    decreases pairs@.len() - i,
                {
                    proof {
                        lemma_pair_views_of(orig);
                    }
                    if bytes_eq(&pairs[i].0, &key) {
                        let dv = v.dup();
                        pairs[i] = (key, dv);
                        proof {
                            lemma_pair_views_of(pairs@);
                            lemma_obj_insert_found(pair_views_of(orig), key@, v@, i as int);
                            assert(pair_views_of(pairs@) =~= pair_views_of(orig).update(
                                i as int,
                                (key@, v@),
                            ));
                        }
                        return ;
                    }
                    i += 1;
                }
                let dv = v.dup();
                pairs.push((key, dv));
                proof {
                    lemma_pair_views_of(orig);
                    lemma_pair_views_of(pairs@);
                    lemma_obj_insert_missing(pair_views_of(orig), key@, v@);
                    assert(pair_views_of(pairs@) =~= pair_views_of(orig).push((key@, v@)));
                }
            },
            _ => {
                proof {
                    assert(false);
                }
            },
        }
    }
}

impl From<Value> for TemplateValues {
    /// Wraps an already object-shaped value as an environment.
    fn from(map: Value) -> (r: Self) {
        TemplateValues(map)
    }
}

impl vstd::std_specs::convert::FromSpecImpl<Value> for TemplateValues {
    open spec fn obeys_from_spec() -> bool {
        true
    }

    open spec fn from_spec(map: Value) -> TemplateValues {
        TemplateValues(map)
    }
}

/// When every key of `pairs` before `i` differs from `key` and
/// `pairs[i]` has `key`, inserting overwrites exactly index `i`.
proof fn lemma_obj_insert_found(pairs: Seq<(Seq<u8>, ValV)>, key: Seq<u8>, v: ValV, i: int)
    requires
        0 <= i < pairs.len(),
        forall|k: int| 0 <= k < i ==> pairs[k].0 != key,
        pairs[i].0 == key,
    ensures
        spec_obj_insert(pairs, key, v) == pairs.update(i, (key, v)),
    decreases i,
{
    if i == 0 {
        assert(spec_obj_insert(pairs, key, v) =~= pairs.update(0, (key, v)));
    } else {
        lemma_obj_insert_found(pairs.drop_first(), key, v, i - 1);
        assert(pairs.drop_first().update(i - 1, (key, v)) =~= pairs.update(
            i,
            (key, v),
        ).drop_first());
        assert(spec_obj_insert(pairs, key, v) =~= pairs.update(i, (key, v)));
    }
}

/// When no key of `pairs` is `key`, inserting appends.
proof fn lemma_obj_insert_missing(pairs: Seq<(Seq<u8>, ValV)>, key: Seq<u8>, v: ValV)
    requires
        forall|k: int| 0 <= k < pairs.len() ==> pairs[k].0 != key,
    ensures
        spec_obj_insert(pairs, key, v) == pairs.push((key, v)),
    decreases pairs.len(),
{
    if pairs.len() == 0 {
        assert(spec_obj_insert(pairs, key, v) =~= pairs.push((key, v)));
    } else {
        lemma_obj_insert_missing(pairs.drop_first(), key, v);
        assert(spec_obj_insert(pairs, key, v) =~= pairs.push((key, v)));
    }
}

/// A scoped guard carrying values pulled from a provider: if the tick
/// fails to consume them, they go back to the provider's channel
/// according to the send behaviour.
pub struct AutoReturn {
    /// How the values go back.
    pub send_behavior: SendBehavior,
    /// The provider the values came from.
    pub provider_index: usize,
    /// The values to return.
    pub values: Vec<Value>,
    /// The tick consumed the values; returning is a no-op.
    pub consumed: bool,
}

/// One step of returning a value `v` into a channel whose state is
/// `(contents, pending, limit)`.
pub open spec fn spec_send_step(
    b: SendBehavior,
    st: (Seq<ValV>, Seq<ValV>, Limit),
    v: ValV,
) -> (Seq<ValV>, Seq<ValV>, Limit) {
    let cap = st.2.spec_capacity();
    match b {
        SendBehavior::Block => if st.0.len() < cap && st.1.len() == 0 {
            (st.0.push(v), st.1, st.2)
        } else {
            (st.0, st.1.push(v), st.2)
        },
        SendBehavior::Force => if st.0.len() < cap {
            (st.0.push(v), st.1, st.2)
        } else {
            (st.0.drop_first().push(v), st.1, st.2)
        },
        SendBehavior::IfNotFull => if st.0.len() < cap {
            (st.0.push(v), st.1, st.2)
        } else {
            match st.2 {
                Limit::Auto(d) => if d < crate::channel::AUTO_CAP {
                    (st.0.push(v), st.1, Limit::Auto((d + 1) as usize))
                } else {
                    st
                },
                Limit::Integer(_) => st,
            }
        },
        SendBehavior::NoOp => st,
    }
}

/// Returning a whole list of values, oldest first.
pub open spec fn spec_send_fold(
    b: SendBehavior,
    st: (Seq<ValV>, Seq<ValV>, Limit),
    vals: Seq<ValV>,
) -> (Seq<ValV>, Seq<ValV>, Limit)
    decreases vals.len(),
{
    if vals.len() == 0 {
        st
    } else {
        spec_send_fold(b, spec_send_step(b, st, vals[0]), vals.drop_first())
    }
}

/// Under `Block`, nothing is lost and order is kept: returning a list
/// of values appends exactly that list to what the channel holds —
/// buffered and parked together.
pub proof fn lemma_block_return_no_loss(st: (Seq<ValV>, Seq<ValV>, Limit), vals: Seq<ValV>)
    ensures
        spec_send_fold(SendBehavior::Block, st, vals).0 + spec_send_fold(
            SendBehavior::Block,
            st,
            vals,
        ).1 == st.0 + st.1 + vals,
    decreases vals.len(),
{
    if vals.len() == 0 {
        assert(st.0 + st.1 + vals =~= st.0 + st.1);
    } else {
        let st1 = spec_send_step(SendBehavior::Block, st, vals[0]);
        lemma_block_return_no_loss(st1, vals.drop_first());
        assert(st1.0 + st1.1 =~= st.0 + st.1 + seq![vals[0]]);
        assert(st.0 + st.1 + seq![vals[0]] + vals.drop_first() =~= st.0 + st.1 + vals);
    }
}

impl AutoReturn {
    /// A fresh guard holding `values` for the provider at
    /// `provider_index`.
    pub fn new(send_behavior: SendBehavior, provider_index: usize, values: Vec<Value>) -> (r:
        AutoReturn)
        ensures
            r.send_behavior == send_behavior,
            r.provider_index == provider_index,
            r.values == values,
            !r.consumed,
    {
        AutoReturn { send_behavior, provider_index, values, consumed: false }
    }

    /// Marks the values as consumed by the tick: the guard's teardown
    /// becomes a no-op.
    pub fn consume(&mut self)
        ensures
            *final(self) == (AutoReturn { consumed: true, ..*old(self) }),
    {
        self.consumed = true;
    }

    /// The guard's teardown, run on every exit path of a tick: unless
    /// the values were consumed, they return to `chan` per the send
    /// behaviour. Idempotent — the guard marks itself consumed.
    pub fn execute(&mut self, chan: &mut Channel)
        requires
            old(chan).wf(),
        ensures
            final(chan).wf(),
            final(self).consumed,
            final(chan).senders == old(chan).senders,
            final(chan).receivers == old(chan).receivers,
            old(self).consumed ==> *final(chan) == *old(chan),
            !old(self).consumed && old(chan).receivers == 0 ==> *final(chan) == *old(chan),
            !old(self).consumed && old(chan).receivers > 0 ==> (
            final(chan).contents(),
            final(chan).pending(),
            final(chan).limit,
            ) == spec_send_fold(
                old(self).send_behavior,
                (old(chan).contents(), old(chan).pending(), old(chan).limit),
                views_of(old(self).values@),
            ),
    {
        if self.consumed {
            return ;
        }
        self.consumed = true;
        if chan.receivers == 0 {
            return ;
        }
        let behavior = self.send_behavior;
        let ghost vals = views_of(self.values@);
        proof {
            lemma_views_of(self.values@);
        }
        proof {
            assert(vals.skip(0) =~= vals);
        }
        let mut i: usize = 0;
        while i < self.values.len()
            invariant
                i <= self.values@.len(),
                chan.wf(),
                chan.senders == old(chan).senders,
                chan.receivers == old(chan).receivers,
                chan.receivers > 0,
                vals == views_of(self.values@),
                vals.len() == self.values@.len(),
                forall|k: int|
                    0 <= k < self.values@.len() ==> vals[k] == crate::json::view_of(
                        self.values@[k],
                    ),
                self.values@ == old(self).values@,
                spec_send_fold(
                    behavior,
                    (chan.contents(), chan.pending(), chan.limit),
                    vals.skip(i as int),
                ) == spec_send_fold(
                    behavior,
                    (old(chan).contents(), old(chan).pending(), old(chan).limit),
                    vals,
                ),
            decreases self.values@.len() - i,
        {
            let ghost pre = (chan.contents(), chan.pending(), chan.limit);
            proof {
                lemma_views_of(chan.queue@);
                lemma_views_of(chan.waiting@);
            }
            let v = self.values[i].dup();
            proof {
                assert(vals.skip(i as int)[0] == vals[i as int]);
            }
            match behavior {
                SendBehavior::Block => {
                    chan.block_send(v);
                    proof {
                        assert((chan.contents(), chan.pending(), chan.limit) == spec_send_step(
                            behavior,
                            pre,
                            vals[i as int],
                        ));
                    }
                },
                SendBehavior::Force => {
                    chan.force_send(v);
                    proof {
                        assert((chan.contents(), chan.pending(), chan.limit) == spec_send_step(
                            behavior,
                            pre,
                            vals[i as int],
                        ));
                    }
                },
                SendBehavior::IfNotFull => {
                    let _ = chan.try_send(v);
                    proof {
                        assert((chan.contents(), chan.pending(), chan.limit) == spec_send_step(
                            behavior,
                            pre,
                            vals[i as int],
                        ));
                    }
                },
                SendBehavior::NoOp => {
                    proof {
                        assert((chan.contents(), chan.pending(), chan.limit) == spec_send_step(
                            behavior,
                            pre,
                            vals[i as int],
                        ));
                    }
                },
            }
            proof {
                assert(vals.skip(i as int).drop_first() =~= vals.skip(i + 1));
            }
            i += 1;
        }
        proof {
            assert(vals.skip(self.values@.len() as int) =~= Seq::<ValV>::empty());
        }
    }
}

/// One item of a zipped provider stream.
pub enum StreamItem {
    /// A declared expression's value, with the returns it carries.
    Declare(Vec<u8>, Value, Vec<AutoReturn>),
    /// A pacing tick without a value.
    Pace,
    /// A provider's value under its name, with its return guard.
    TemplateValue(Vec<u8>, Value, Option<AutoReturn>),
}

/// Forms the stream item one provider value travels as: the value
/// under the provider's name, carrying its return guard — holding
/// that one value — unless the endpoint suppresses auto-returns or
/// the provider has no re-insertion policy. This is the only place a
/// guard is attached, so `no_auto_returns` suppresses them all.
pub fn provider_stream_item(
    name: Vec<u8>,
    v: Value,
    auto_return: Option<SendBehavior>,
    provider_index: usize,
    no_auto_returns: bool,
) -> (r: StreamItem)
    ensures
        (r matches StreamItem::TemplateValue(n, w, guard) && n@ == name@ && w@ == v@ && (
        match guard {
            Some(g) => {
                &&& !no_auto_returns
                &&& (auto_return matches Some(b) && g.send_behavior == b)
                &&& g.provider_index == provider_index
                &&& views_of(g.values@) == seq![v@]
                &&& !g.consumed
            },
            None => no_auto_returns || auto_return is None,
        })),
{
    let guard: Option<AutoReturn> = if no_auto_returns {
        None
    } else {
        match auto_return {
            Some(b) => {
                let mut values: Vec<Value> = Vec::new();
                values.push(v.dup());
                proof {
                    lemma_views_of(values@);
                    assert(views_of(values@) =~= seq![v@]);
                }
                Some(AutoReturn::new(b, provider_index, values))
            },
            None => None,
        }
    };
    StreamItem::TemplateValue(name, v, guard)
}

/// The outcome of draining select results into one outgoing channel:
/// `(contents, limit, leftover, inserted_any)` after sending values
/// until the channel refuses one.
pub open spec fn spec_drain(
    contents: Seq<ValV>,
    lim: Limit,
    vals: Seq<ValV>,
) -> (Seq<ValV>, Limit, Seq<ValV>, bool)
    decreases vals.len(),
{
    if vals.len() == 0 {
        (contents, lim, vals, false)
    } else if contents.len() < lim.spec_capacity() {
        let r = spec_drain(contents.push(vals[0]), lim, vals.drop_first());
        (r.0, r.1, r.2, true)
    } else {
        match lim {
            Limit::Auto(d) => if d < crate::channel::AUTO_CAP {
                let r = spec_drain(
                    contents.push(vals[0]),
                    Limit::Auto((d + 1) as usize),
                    vals.drop_first(),
                );
                (r.0, r.1, r.2, true)
            } else {
                (contents, lim, vals, false)
            },
            Limit::Integer(_) => (contents, lim, vals, false),
        }
    }
}

/// Drains a sequence of selected values into one outgoing channel,
/// pausing when the channel is full: the model of the block-sender
/// future that carries captures to their target.
pub struct BlockSender {
    /// Values still to send, oldest first.
    pub values: Vec<Value>,
    /// Whether any value entered the channel.
    pub value_added: bool,
    /// The on-demand acknowledgement is owed to this provider.
    pub cb_provider: Option<usize>,
}

impl BlockSender {
    /// A fresh sender for `values`, owing an acknowledgement to
    /// `cb_provider` when set.
    pub fn new(values: Vec<Value>, cb_provider: Option<usize>) -> (r: BlockSender)
        ensures
            r.values == values,
            !r.value_added,
            r.cb_provider == cb_provider,
    {
        BlockSender { values, value_added: false, cb_provider }
    }

    /// Sends values until the channel refuses one or none remain.
    /// Returns whether it finished. A closed channel ends the drain
    /// with the rest discarded, as the consumer is gone.
    #[verifier::loop_isolation(false)]
    pub fn poll(&mut self, chan: &mut Channel) -> (finished: bool)
        requires
            old(chan).wf(),
        ensures
            final(chan).wf(),
            final(chan).senders == old(chan).senders,
            final(chan).receivers == old(chan).receivers,
            final(chan).waiting@ == old(chan).waiting@,
            final(self).cb_provider == old(self).cb_provider,
            old(chan).receivers == 0 ==> finished && *final(chan) == *old(chan) && final(self).value_added == old(self).value_added,
            old(chan).receivers > 0 ==> {
                let d = spec_drain(
                    old(chan).contents(),
                    old(chan).limit,
                    views_of(old(self).values@),
                );
                &&& final(chan).contents() == d.0
                &&& final(chan).limit == d.1
                &&& views_of(final(self).values@) == d.2
                &&& final(self).value_added == (old(self).value_added || d.3)
                &&& finished == (d.2.len() == 0)
            },
    {
        if chan.receivers == 0 {
            return true;
        }
        proof {
            lemma_views_of(self.values@);
        }
        loop
            invariant
                chan.wf(),
                chan.senders == old(chan).senders,
                chan.receivers == old(chan).receivers,
                chan.receivers > 0,
                chan.waiting@ == old(chan).waiting@,
                self.cb_provider == old(self).cb_provider,
                spec_drain(chan.contents(), chan.limit, views_of(self.values@)).0 == spec_drain(
                    old(chan).contents(),
                    old(chan).limit,
                    views_of(old(self).values@),
                ).0,
                spec_drain(chan.contents(), chan.limit, views_of(self.values@)).1 == spec_drain(
                    old(chan).contents(),
                    old(chan).limit,
                    views_of(old(self).values@),
                ).1,
                spec_drain(chan.contents(), chan.limit, views_of(self.values@)).2 == spec_drain(
                    old(chan).contents(),
                    old(chan).limit,
                    views_of(old(self).values@),
                ).2,
                (self.value_added || spec_drain(
                    chan.contents(),
                    chan.limit,
                    views_of(self.values@),
                ).3) == (old(self).value_added || spec_drain(
                    old(chan).contents(),
                    old(chan).limit,
                    views_of(old(self).values@),
                ).3),
            decreases self.values@.len(),
        {
            proof {
                lemma_views_of(self.values@);
                lemma_views_of(chan.queue@);
            }
            if self.values.len() == 0 {
                proof {
                    assert(views_of(self.values@) =~= Seq::<ValV>::empty());
                    assert(spec_drain(chan.contents(), chan.limit, views_of(self.values@)) == (
                    chan.contents(),
                    chan.limit,
                    views_of(self.values@),
                    false,
                    ));
                }
                return true;
            }
            let ghost pre_vals = views_of(self.values@);
            let ghost pre_c = chan.contents();
            let ghost pre_l = chan.limit;
            let cap = chan.limit.capacity();
            if chan.queue.len() >= cap {
                match chan.limit {
                    Limit::Auto(d) => {
                        if d >= crate::channel::AUTO_CAP {
                            proof {
                                assert(spec_drain(pre_c, pre_l, pre_vals) == (
                                pre_c,
                                pre_l,
                                pre_vals,
                                false,
                                ));
                            }
                            return false;
                        }
                    },
                    Limit::Integer(_) => {
                        proof {
                            assert(spec_drain(pre_c, pre_l, pre_vals) == (
                            pre_c,
                            pre_l,
                            pre_vals,
                            false,
                            ));
                        }
                        return false;
                    },
                }
            }
            let v = self.values.remove(0);
            let ghost vv = v@;
            proof {
                lemma_views_of(self.values@);
                assert(views_of(self.values@) =~= pre_vals.drop_first());
                assert(vv == pre_vals[0]);
            }
            match chan.try_send(v) {
                SendState::Success => {
                    self.value_added = true;
                    proof {
                        let r = spec_drain(pre_c.push(vv), chan.limit, pre_vals.drop_first());
                        assert(spec_drain(pre_c, pre_l, pre_vals) == (r.0, r.1, r.2, true));
                        assert(chan.contents() == pre_c.push(vv));
                    }
                },
                SendState::Full(_) => {
                    proof {
                        assert(false);
                    }
                },
                SendState::Closed => {
                    proof {
                        assert(false);
                    }
                },
            }
        }
    }
}

/// The environment that a tick's zipped stream items assemble: every
/// named item lands in the object under its name, in order.
pub open spec fn spec_env_fold(
    items: Seq<StreamItem>,
    acc: Seq<(Seq<u8>, ValV)>,
) -> Seq<(Seq<u8>, ValV)>
    decreases items.len(),
{
    if items.len() == 0 {
        acc
    } else {
        let acc2 = match items[0] {
            StreamItem::Declare(name, v, _) => spec_obj_insert(acc, name@, v@),
            StreamItem::Pace => acc,
            StreamItem::TemplateValue(name, v, _) => spec_obj_insert(acc, name@, v@),
        };
        spec_env_fold(items.drop_first(), acc2)
    }
}

/// The return guards a tick's items carry, in item order.
pub open spec fn spec_returns_list(items: Seq<StreamItem>) -> Seq<AutoReturn>
    decreases items.len(),
{
    if items.len() == 0 {
        Seq::empty()
    } else {
        (match items[0] {
            StreamItem::Declare(_, _, ars) => ars@,
            StreamItem::Pace => Seq::empty(),
            StreamItem::TemplateValue(_, _, ar) => match ar {
                Some(a) => seq![a],
                None => Seq::empty(),
            },
        }) + spec_returns_list(items.drop_first())
    }
}

/// Builds the template environment of one tick from its zipped stream
/// items, and collects their return guards: the first step of the
/// request maker.
pub fn template_values_from_items(items: Vec<StreamItem>) -> (r: (TemplateValues, Vec<AutoReturn>))
    ensures
        r.0.wf(),
        r.0.entries() == spec_env_fold(items@, Seq::<(Seq<u8>, ValV)>::empty()),
        r.1@ == spec_returns_list(items@),
{
    let mut env = TemplateValues::new();
    let mut guards: Vec<AutoReturn> = Vec::new();
    let mut items = items;
    let ghost orig = items@;
    proof {
        assert(guards@ + spec_returns_list(items@) =~= spec_returns_list(orig));
    }
    while items.len() > 0
        invariant
            env.wf(),
            spec_env_fold(items@, env.entries()) == spec_env_fold(
                orig,
                Seq::<(Seq<u8>, ValV)>::empty(),
            ),
            guards@ + spec_returns_list(items@) == spec_returns_list(orig),
        decreases items@.len(),
    {
        let ghost pre_items = items@;
        let ghost pre_guards = guards@;
        let item = items.remove(0);
        proof {
            assert(items@ =~= pre_items.drop_first());
        }
        match item {
            StreamItem::Declare(name, v, ars) => {
                proof {
                    assert(pre_items[0] matches StreamItem::Declare(_, _, a) && a == ars);
                }
                env.insert(name, v);
                let mut ars = ars;
                let ghost pre_ars = ars@;
                while ars.len() > 0
                    invariant
                        guards@ + ars@ == pre_guards + pre_ars,
                    decreases ars@.len(),
                {
                    let ghost g0 = guards@;
                    let ghost a0 = ars@;
                    let ar = ars.remove(0);
                    guards.push(ar);
                    proof {
                        assert(guards@ + ars@ =~= g0 + a0);
                    }
                }
                proof {
                    assert(guards@ =~= pre_guards + pre_ars);
                    assert(guards@ + spec_returns_list(items@) =~= spec_returns_list(orig));
                }
            },
            StreamItem::Pace => {
                proof {
                    assert(guards@ + spec_returns_list(items@) =~= spec_returns_list(orig));
                }
            },
            StreamItem::TemplateValue(name, v, ar) => {
                proof {
                    assert(pre_items[0] matches StreamItem::TemplateValue(_, _, a) && a == ar);
                }
                env.insert(name, v);
                match ar {
                    Some(a) => {
                        guards.push(a);
                        proof {
                            assert(guards@ + spec_returns_list(items@) =~= spec_returns_list(
                                orig,
                            ));
                        }
                    },
                    None => {
                        proof {
                            assert(guards@ + spec_returns_list(items@) =~= spec_returns_list(
                                orig,
                            ));
                        }
                    },
                }
            },
        }
    }
    proof {
        assert(spec_returns_list(items@) =~= Seq::<AutoReturn>::empty());
        assert(guards@ =~= spec_returns_list(orig));
    }
    (env, guards)
}

/// The sender's teardown, run on every exit path of the fan-out: one
/// last drain attempt, then the owed on-demand acknowledgement,
/// surrendered to the caller to deliver — exactly once, saying
/// whether any value entered the channel.
impl BlockSender {
    pub fn finish(&mut self, chan: &mut Channel) -> (ack: Option<(usize, bool)>)
        requires
            old(chan).wf(),
        ensures
            final(chan).wf(),
            final(chan).senders == old(chan).senders,
            final(chan).receivers == old(chan).receivers,
            final(self).cb_provider is None,
            ack == (match old(self).cb_provider {
                Some(p) => Some((p, final(self).value_added)),
                None => None::<(usize, bool)>
            }),
    {
        let _ = self.poll(chan);
        let cb = self.cb_provider.take();
        match cb {
            Some(p) => Some((p, self.value_added)),
            None => None,
        }
    }
}

/// What polling the merged on-demand trigger streams yielded.
#[derive(Debug, Clone, Copy, PartialEq, Eq)]
pub enum OdPoll {
    /// A trigger arrived.
    Trigger,
    /// Every trigger stream has ended.
    End,
    /// No trigger yet.
    Pending,
}

/// What polling the zipped provider streams yielded; the items
/// themselves travel beside this.
#[derive(Debug, Clone, Copy, PartialEq, Eq)]
pub enum ZipPoll {
    /// A full tuple of stream items: one tick's worth.
    Item,
    /// Some input stream ended: the endpoint is done.
    End,
    /// Not every stream has yielded yet.
    Pending,
}

/// What the engine does next after consulting the pacer.
#[derive(Debug, Clone, Copy, PartialEq, Eq)]
pub enum GateDecision {
    /// Hand the tick's items on.
    Tick,
    /// The endpoint's stream is over.
    EndOfStream,
    /// Wait: no trigger, or the zip is not ready.
    Wait,
}

/// The on-demand pacer in front of the zipped streams: while a trigger
/// is in hand (`od_continue`), the zip may be polled; once a tick
/// completes, the trigger is spent and a new one must arrive first.
pub struct OnDemandGate {
    /// The pacing guard is in force (the endpoint is on-demand and provides).
    pub active: bool,
    /// A trigger is in hand: the zip may be polled.
    pub od_continue: bool,
}

impl OnDemandGate {
    /// A fresh pacer.
    pub fn new(active: bool) -> (r: OnDemandGate)
        ensures
            r == (OnDemandGate { active, od_continue: false }),
    {
        OnDemandGate { active, od_continue: false }
    }

    /// One poll of the paced stream. The zipped streams are consumed
    /// only under a trigger: an inactive pacer passes the zip result
    /// through, an active one demands a trigger in hand or arriving
    /// first, and a completed tick spends the trigger.
    pub fn step(&mut self, od: OdPoll, zip: ZipPoll) -> (r: GateDecision)
        ensures
            final(self).active == old(self).active,
            !old(self).active ==> final(self).od_continue == old(self).od_continue && r == (
            match zip {
                ZipPoll::Item => GateDecision::Tick,
                ZipPoll::End => GateDecision::EndOfStream,
                ZipPoll::Pending => GateDecision::Wait,
            }),
            old(self).active && !old(self).od_continue && od is End ==> r
                == GateDecision::EndOfStream,
            old(self).active && !old(self).od_continue && od is Pending ==> r == GateDecision::Wait
                && !final(self).od_continue,
            old(self).active && (old(self).od_continue || od is Trigger) ==> r == (match zip {
                ZipPoll::Item => GateDecision::Tick,
                ZipPoll::End => GateDecision::EndOfStream,
                ZipPoll::Pending => GateDecision::Wait,
            }) && final(self).od_continue == (zip is Pending),
            r == GateDecision::Tick ==> old(self).od_continue || od is Trigger || !old(self).active,
            zip is End && (old(self).od_continue || od is Trigger || !old(self).active) ==> r
                == GateDecision::EndOfStream,
    {
        if self.active {
            if !self.od_continue {
                match od {
                    OdPoll::Trigger => {
                        self.od_continue = true;
                    },
                    OdPoll::End => {
                        return GateDecision::EndOfStream;
                    },
                    OdPoll::Pending => {
                        return GateDecision::Wait;
                    },
                }
            }
            match zip {
                ZipPoll::Item => {
                    self.od_continue = false;
                    GateDecision::Tick
                },
                ZipPoll::End => {
                    self.od_continue = false;
                    GateDecision::EndOfStream
                },
                ZipPoll::Pending => GateDecision::Wait,
            }
        } else {
            match zip {
                ZipPoll::Item => GateDecision::Tick,
                ZipPoll::End => GateDecision::EndOfStream,
                ZipPoll::Pending => GateDecision::Wait,
            }
        }
    }
}

/// The concurrency ceiling of one endpoint: ticks dispatch only while
/// the in-flight count is under `max_parallel` and every `Block`
/// outgoing's target has room.
pub struct ParallelDriver {
    /// Requests dispatched and not yet completed.
    pub in_flight: usize,
    /// The ceiling, if one is set.
    pub max_parallel: Option<usize>,
}

impl ParallelDriver {
    /// In-flight requests never exceed the ceiling.
    pub open spec fn wf(self) -> bool {
        self.max_parallel matches Some(m) ==> self.in_flight <= m
    }

    /// A fresh driver with nothing in flight.
    pub fn new(max_parallel: Option<usize>) -> (r: ParallelDriver)
        ensures
            r.wf(),
            r.in_flight == 0,
            r.max_parallel == max_parallel,
    {
        ParallelDriver { in_flight: 0, max_parallel }
    }

    /// Whether a new tick may start now: under the ceiling, and every
    /// `Block` target open (`limits_open` is the caller's probe of
    /// those channels).
    pub fn can_dispatch(&self, limits_open: bool) -> (r: bool)
        ensures
            r == ((match self.max_parallel {
                Some(m) => self.in_flight < m,
                None => self.in_flight < usize::MAX,
            }) && limits_open),
    {
        let under = match self.max_parallel {
            Some(m) => self.in_flight < m,
            None => self.in_flight < usize::MAX,
        };
        under && limits_open
    }

    /// Starts one tick.
    pub fn dispatch(&mut self)
        requires
            old(self).wf(),
            match old(self).max_parallel {
                Some(m) => old(self).in_flight < m,
                None => old(self).in_flight < usize::MAX,
            },
        ensures
            final(self).wf(),
            final(self).in_flight == old(self).in_flight + 1,
            final(self).max_parallel == old(self).max_parallel,
    {
        self.in_flight = self.in_flight + 1;
    }

    /// Finishes one tick.
    pub fn complete(&mut self)
        requires
            old(self).wf(),
            old(self).in_flight > 0,
        ensures
            final(self).wf(),
            final(self).in_flight == old(self).in_flight - 1,
            final(self).max_parallel == old(self).max_parallel,
    {
        self.in_flight = self.in_flight - 1;
    }
}

/// At any time, the in-flight requests of an endpoint stay within its
/// ceiling.
pub proof fn lemma_parallel_ceiling(d: ParallelDriver, m: usize)
    requires
        d.wf(),
        d.max_parallel == Some(m),
    ensures
        d.in_flight <= m,
{
}


/// The kind of one input stream of an endpoint.
#[derive(Debug, Clone, PartialEq)]
pub enum StreamSpec {
    /// An externally supplied pacing stream (a timer or schedule).
    Start,
    /// The synthetic sentinel installed when an endpoint provides but
    /// has no start stream: it paces until every provided channel
    /// loses its receivers, then ends the endpoint.
    Sentinel(Vec<usize>),
    /// One input provider, streamed by index.
    Provider(usize),
    /// A declared expression, already reduced to its value.
    Declare(Vec<u8>, Value),
}

/// Where an outgoing capture lands.
#[derive(Debug, Clone, Copy, PartialEq, Eq)]
pub enum OutTarget {
    /// A provider's channel, by registry index.
    Provider(usize),
    /// A logger's channel, by registry index.
    Logger(usize),
}

/// One target of value fan-out after a response.
pub struct Outgoing {
    /// How values are sent into the target.
    pub behavior: SendBehavior,
    /// The capture target.
    pub target: OutTarget,
    /// An on-demand acknowledgement is owed to the target provider.
    pub cb: bool,
    /// The target is a logger.
    pub logger: bool,
}

impl Outgoing {
    /// A fresh capture target.
    pub fn new(behavior: SendBehavior, target: OutTarget, cb: bool, logger: bool) -> (r: Outgoing)
        ensures
            r == (Outgoing { behavior, target, cb, logger }),
    {
        Outgoing { behavior, target, cb, logger }
    }
}

/// The compiled description of one endpoint, as configuration hands
/// it over.
pub struct EndpointConfig {
    pub method: Method,
    pub url: Template,
    pub headers: Vec<(Vec<u8>, Template)>,
    pub body: crate::body::BodyTemplate,
    /// Captures into providers: name and send behaviour.
    pub provides: Vec<(Vec<u8>, SendBehavior)>,
    /// Captures into loggers: name and send behaviour.
    pub logs: Vec<(Vec<u8>, SendBehavior)>,
    /// The providers whose values the endpoint zips per tick.
    pub providers_to_stream: Vec<Vec<u8>>,
    /// Declared expressions, reduced to their values upstream.
    pub declare: Vec<(Vec<u8>, Value)>,
    pub on_demand: bool,
    pub no_auto_returns: bool,
    pub max_parallel_requests: Option<usize>,
    /// Which `request.*`/`response.*` sections ticks must populate.
    pub rr_providers: u16,
    /// Which sections only `where` clauses need.
    pub precheck_rr_providers: u16,
    pub tags: Vec<(Vec<u8>, Template)>,
    pub timeout_ms: u64,
}

/// The shared registries an endpoint is built against.
pub struct BuilderContext {
    /// Providers by name.
    pub providers: Vec<(Vec<u8>, crate::providers::Provider)>,
    /// Logger sinks by name.
    pub loggers: Vec<(Vec<u8>, crate::logger::Logger)>,
    /// The run's outcome sink.
    pub killer: crate::killer::TestKiller,
}

/// The first provider of that name, if any.
pub open spec fn spec_find_name<T>(entries: Seq<(Vec<u8>, T)>, name: Seq<u8>) -> Option<int> {
    if exists|j: int| 0 <= j < entries.len() && entries[j].0@ == name {
        Some(choose|j: int| 0 <= j < entries.len() && entries[j].0@ == name)
    } else {
        None
    }
}

/// Looks a provider up by name.
fn find_provider(
    providers: &Vec<(Vec<u8>, crate::providers::Provider)>,
    name: &Vec<u8>,
) -> (r: Option<usize>)
    ensures
        r matches Some(i) ==> i < providers@.len() && providers@[i as int].0@ == name@,
        r is None ==> forall|j: int| 0 <= j < providers@.len() ==> providers@[j].0@ != name@,
{
    let mut i: usize = 0;
    while i < providers.len()
        invariant
            i <= providers@.len(),
            forall|j: int| 0 <= j < i ==> providers@[j].0@ != name@,
        decreases providers@.len() - i,
    {
        if bytes_eq(&providers[i].0, name) {
            return Some(i);
        }
        i += 1;
    }
    None
}

/// Looks a logger up by name.
fn find_logger(loggers: &Vec<(Vec<u8>, crate::logger::Logger)>, name: &Vec<u8>) -> (r: Option<
    usize,
>)
    ensures
        r matches Some(i) ==> i < loggers@.len() && loggers@[i as int].0@ == name@,
        r is None ==> forall|j: int| 0 <= j < loggers@.len() ==> loggers@[j].0@ != name@,
{
    let mut i: usize = 0;
    while i < loggers.len()
        invariant
            i <= loggers@.len(),
            forall|j: int| 0 <= j < i ==> loggers@[j].0@ != name@,
        decreases loggers@.len() - i,
    {
        if bytes_eq(&loggers[i].0, name) {
            return Some(i);
        }
        i += 1;
    }
    None
}

/// The provider indices of the `Block`-mode captures in `s`, in
/// order: the channels whose fullness gates tick intake.
pub open spec fn spec_block_targets(s: Seq<Outgoing>) -> Seq<usize>
    decreases s.len(),
{
    if s.len() == 0 {
        Seq::empty()
    } else if s.last().behavior is Block && s.last().target is Provider {
        spec_block_targets(s.drop_last()).push(s.last().target->Provider_0)
    } else {
        spec_block_targets(s.drop_last())
    }
}

/// How many stream slots stand ahead of the provider streams: one
/// for the start or sentinel stream, when either is installed.
pub open spec fn spec_stream_prefix_len(start_stream: bool, n_provides: int) -> int {
    if start_stream || n_provides > 0 {
        1
    } else {
        0
    }
}

/// A compiled endpoint, ready to run.
pub struct Endpoint {
    pub method: Method,
    pub url: Template,
    pub headers: Vec<(Vec<u8>, Template)>,
    pub body: crate::body::BodyTemplate,
    /// Provider indices of `Block` captures; their channels gate tick
    /// intake.
    pub limits: Vec<usize>,
    pub max_parallel_requests: Option<usize>,
    pub no_auto_returns: bool,
    /// Provider indices whose on-demand pacers gate the zip.
    pub on_demand_providers: Vec<usize>,
    /// Captures into loggers.
    pub outgoing: Vec<Outgoing>,
    /// Captures into providers.
    pub provides: Vec<Outgoing>,
    pub rr_providers: u16,
    pub precheck_rr_providers: u16,
    pub tags: Vec<(Vec<u8>, Template)>,
    /// The zipped input streams, the start or sentinel stream first.
    pub streams: Vec<StreamSpec>,
    pub timeout_ms: u64,
}

/// Builds one endpoint against the shared registries.
pub struct Builder {
    /// The compiled configuration.
    pub endpoint: EndpointConfig,
    /// An external pacing stream was supplied.
    pub start_stream: bool,
}

impl Builder {
    /// A fresh builder; `start_stream` says whether an external
    /// pacing stream will drive the endpoint.
    pub fn new(endpoint: EndpointConfig, start_stream: bool) -> (r: Builder)
        ensures
            r.endpoint == endpoint,
            r.start_stream == start_stream,
    {
        Builder { endpoint, start_stream }
    }

    /// Assembles the endpoint: resolves capture names to registry
    /// indices, collects the channel limits of `Block` captures,
    /// installs the start or sentinel stream ahead of the provider
    /// and declare streams, and wires on-demand pacing when asked.
    #[verifier::loop_isolation(false)]
    pub fn build(self, ctx: &BuilderContext) -> (r: Endpoint)
        requires
            forall|k: int| #![trigger self.endpoint.provides@[k]]
                0 <= k < self.endpoint.provides@.len() ==> exists|j: int|
                    0 <= j < ctx.providers@.len() && (#[trigger] ctx.providers@[j]).0@
                        == self.endpoint.provides@[k].0@,
            forall|k: int| #![trigger self.endpoint.logs@[k]]
                0 <= k < self.endpoint.logs@.len() ==> exists|j: int|
                    0 <= j < ctx.loggers@.len() && (#[trigger] ctx.loggers@[j]).0@
                        == self.endpoint.logs@[k].0@,
            forall|k: int| #![trigger self.endpoint.providers_to_stream@[k]]
                0 <= k < self.endpoint.providers_to_stream@.len() ==> exists|j: int|
                    0 <= j < ctx.providers@.len() && (#[trigger] ctx.providers@[j]).0@
                        == self.endpoint.providers_to_stream@[k]@,
        ensures
            r.method == self.endpoint.method,
            r.url == self.endpoint.url,
            r.headers == self.endpoint.headers,
            r.body == self.endpoint.body,
            r.max_parallel_requests == self.endpoint.max_parallel_requests,
            r.no_auto_returns == self.endpoint.no_auto_returns,
            r.rr_providers == self.endpoint.rr_providers,
            r.precheck_rr_providers == self.endpoint.precheck_rr_providers,
            r.tags == self.endpoint.tags,
            r.timeout_ms == self.endpoint.timeout_ms,
            r.provides@.len() == self.endpoint.provides@.len(),
            forall|k: int| #![trigger r.provides@[k]]
                0 <= k < r.provides@.len() ==> {
                    &&& r.provides@[k].behavior == self.endpoint.provides@[k].1
                    &&& !r.provides@[k].logger
                    &&& r.provides@[k].cb == self.endpoint.on_demand
                    &&& r.provides@[k].target is Provider
                    &&& r.provides@[k].target->Provider_0 < ctx.providers@.len()
                    &&& ctx.providers@[r.provides@[k].target->Provider_0 as int].0@
                        == self.endpoint.provides@[k].0@
                },
            r.outgoing@.len() == self.endpoint.logs@.len(),
            forall|k: int| #![trigger r.outgoing@[k]]
                0 <= k < r.outgoing@.len() ==> {
                    &&& r.outgoing@[k].behavior == self.endpoint.logs@[k].1
                    &&& r.outgoing@[k].logger
                    &&& !r.outgoing@[k].cb
                    &&& r.outgoing@[k].target is Logger
                    &&& r.outgoing@[k].target->Logger_0 < ctx.loggers@.len()
                    &&& ctx.loggers@[r.outgoing@[k].target->Logger_0 as int].0@
                        == self.endpoint.logs@[k].0@
                },
            forall|k: int| 0 <= k < r.limits@.len() ==> #[trigger] r.limits@[k]
                < ctx.providers@.len(),
            r.limits@ == spec_block_targets(r.provides@),
            r.on_demand_providers@.len() as int == (if self.endpoint.on_demand {
                r.provides@.len() as int
            } else {
                0int
            }),
            forall|k: int|
                0 <= k < r.on_demand_providers@.len() ==> #[trigger] r.on_demand_providers@[k]
                    == r.provides@[k].target->Provider_0,
            self.start_stream ==> r.streams@.len() > 0 && r.streams@[0] == StreamSpec::Start,
            !self.start_stream && self.endpoint.provides@.len() > 0 ==> r.streams@.len() > 0 && (
            r.streams@[0] matches StreamSpec::Sentinel(s) && s@.len() == r.provides@.len()
                && (forall|k: int|
                0 <= k < s@.len() ==> #[trigger] s@[k] == r.provides@[k].target->Provider_0)),
            r.streams@.len() == spec_stream_prefix_len(
                self.start_stream,
                self.endpoint.provides@.len() as int,
            ) + self.endpoint.providers_to_stream@.len() + self.endpoint.declare@.len(),
            forall|k: int| #![trigger self.endpoint.providers_to_stream@[k]]
                0 <= k < self.endpoint.providers_to_stream@.len() ==> (r.streams@[
                    spec_stream_prefix_len(
                        self.start_stream,
                        self.endpoint.provides@.len() as int,
                    ) + k
                ] is Provider && r.streams@[spec_stream_prefix_len(
                    self.start_stream,
                    self.endpoint.provides@.len() as int,
                ) + k]->Provider_0 < ctx.providers@.len() && ctx.providers@[r.streams@[
                    spec_stream_prefix_len(
                        self.start_stream,
                        self.endpoint.provides@.len() as int,
                    ) + k
                ]->Provider_0 as int].0@ == self.endpoint.providers_to_stream@[k]@),
            forall|k: int| #![trigger self.endpoint.declare@[k]]
                0 <= k < self.endpoint.declare@.len() ==> r.streams@[spec_stream_prefix_len(
                    self.start_stream,
                    self.endpoint.provides@.len() as int,
                ) + self.endpoint.providers_to_stream@.len() + k] == StreamSpec::Declare(
                    self.endpoint.declare@[k].0,
                    self.endpoint.declare@[k].1,
                ),
    {
        let cfg = self.endpoint;
        let mut limits: Vec<usize> = Vec::new();
        let mut provides: Vec<Outgoing> = Vec::new();
        let mut provide_indices: Vec<usize> = Vec::new();
        let mut on_demand_providers: Vec<usize> = Vec::new();
        let mut k: usize = 0;
        while k < cfg.provides.len()
            invariant
                k <= cfg.provides@.len(),
                provides@.len() == k,
                provide_indices@.len() == k,
                forall|t: int| #![trigger provides@[t]]
                    0 <= t < k ==> {
                        &&& provides@[t].behavior == cfg.provides@[t].1
                        &&& !provides@[t].logger
                        &&& provides@[t].cb == cfg.on_demand
                        &&& provides@[t].target is Provider
                        &&& provides@[t].target->Provider_0 < ctx.providers@.len()
                        &&& ctx.providers@[provides@[t].target->Provider_0 as int].0@
                            == cfg.provides@[t].0@
                        &&& provide_indices@[t] == provides@[t].target->Provider_0
                    },
                forall|t: int| 0 <= t < limits@.len() ==> #[trigger] limits@[t]
                    < ctx.providers@.len(),
                limits@ == spec_block_targets(provides@),
                on_demand_providers@.len() as int == (if cfg.on_demand {
                    k as int
                } else {
                    0int
                }),
                forall|t: int|
                    0 <= t < on_demand_providers@.len() ==> #[trigger] on_demand_providers@[t]
                        == provides@[t].target->Provider_0,
            decreases cfg.provides@.len() - k,
        {
            let name = &cfg.provides[k].0;
            let behavior = cfg.provides[k].1;
            let idx = match find_provider(&ctx.providers, name) {
                Some(i) => i,
                None => {
                    proof {
                        assert(false);
                    }
                    0
                },
            };
            let is_block = match behavior {
                SendBehavior::Block => true,
                _ => false,
            };
            let ghost pre_provides = provides@;
            let ghost pre_limits = limits@;
            if is_block {
                limits.push(idx);
            }
            if cfg.on_demand {
                on_demand_providers.push(idx);
            }
            provides.push(Outgoing::new(behavior, OutTarget::Provider(idx), cfg.on_demand, false));
            provide_indices.push(idx);
            proof {
                assert(provides@.drop_last() =~= pre_provides);
                if is_block {
                    assert(limits@ =~= spec_block_targets(provides@));
                } else {
                    assert(limits@ =~= spec_block_targets(provides@));
                }
            }
            k += 1;
        }
        let mut outgoing: Vec<Outgoing> = Vec::new();
        let mut k: usize = 0;
        while k < cfg.logs.len()
            invariant
                k <= cfg.logs@.len(),
                outgoing@.len() == k,
                forall|t: int| #![trigger outgoing@[t]]
                    0 <= t < k ==> {
                        &&& outgoing@[t].behavior == cfg.logs@[t].1
                        &&& outgoing@[t].logger
                        &&& !outgoing@[t].cb
                        &&& outgoing@[t].target is Logger
                        &&& outgoing@[t].target->Logger_0 < ctx.loggers@.len()
                        &&& ctx.loggers@[outgoing@[t].target->Logger_0 as int].0@ == cfg.logs@[
                            t
                        ].0@
                    },
            decreases cfg.logs@.len() - k,
        {
            let name = &cfg.logs[k].0;
            let behavior = cfg.logs[k].1;
            let idx = match find_logger(&ctx.loggers, name) {
                Some(i) => i,
                None => {
                    proof {
                        assert(false);
                    }
                    0
                },
            };
            outgoing.push(Outgoing::new(behavior, OutTarget::Logger(idx), false, true));
            k += 1;
        }
        let mut streams: Vec<StreamSpec> = Vec::new();
        if self.start_stream {
            streams.push(StreamSpec::Start);
        } else if provides.len() > 0 {
            streams.push(StreamSpec::Sentinel(provide_indices));
        }
        let ghost streams_prefix = streams@;
        proof {
            assert(streams_prefix.len() == spec_stream_prefix_len(
                self.start_stream,
                cfg.provides@.len() as int,
            ));
        }
        let mut pstreams: Vec<StreamSpec> = Vec::new();
        let mut k: usize = 0;
        while k < cfg.providers_to_stream.len()
            invariant
                k <= cfg.providers_to_stream@.len(),
                pstreams@.len() == k,
                forall|t: int| #![trigger pstreams@[t]]
                    0 <= t < k ==> {
                        &&& pstreams@[t] is Provider
                        &&& pstreams@[t]->Provider_0 < ctx.providers@.len()
                        &&& ctx.providers@[pstreams@[t]->Provider_0 as int].0@
                            == cfg.providers_to_stream@[t]@
                    },
            decreases cfg.providers_to_stream@.len() - k,
        {
            let name = &cfg.providers_to_stream[k];
            let idx = match find_provider(&ctx.providers, name) {
                Some(i) => i,
                None => {
                    proof {
                        assert(false);
                    }
                    0
                },
            };
            pstreams.push(StreamSpec::Provider(idx));
            k += 1;
        }
        let mut dstreams: Vec<StreamSpec> = Vec::new();
        let mut declare = cfg.declare;
        let ghost orig_declare = declare@;
        while declare.len() > 0
            invariant
                declare@.len() <= orig_declare.len(),
                dstreams@.len() == orig_declare.len() - declare@.len(),
                declare@ == orig_declare.skip(orig_declare.len() - declare@.len()),
                forall|t: int| #![trigger dstreams@[t]]
                    0 <= t < dstreams@.len() ==> dstreams@[t] == StreamSpec::Declare(
                        orig_declare[t].0,
                        orig_declare[t].1,
                    ),
            decreases declare@.len(),
        {
            let ghost pre = declare@;
            let ghost done = orig_declare.len() - pre.len();
            let (name, v) = declare.remove(0);
            proof {
                assert(declare@ =~= pre.drop_first());
                assert(declare@ =~= orig_declare.skip(done + 1));
                assert(pre[0] == orig_declare[done]);
            }
            dstreams.push(StreamSpec::Declare(name, v));
        }
        let ghost pseg = pstreams@;
        let ghost dseg = dstreams@;
        streams.append(&mut pstreams);
        streams.append(&mut dstreams);
        proof {
            assert(streams@ == streams_prefix + pseg + dseg);
            assert forall|t: int|
                0 <= t < pseg.len() implies #[trigger] streams@[streams_prefix.len() as int + t]
                == pseg[t] by {
                assert((streams_prefix + pseg + dseg)[streams_prefix.len() as int + t]
                    == pseg[t]);
            }
            assert forall|t: int|
                0 <= t < dseg.len() implies #[trigger] streams@[streams_prefix.len() as int
                    + pseg.len() + t] == dseg[t] by {
                assert((streams_prefix + pseg + dseg)[streams_prefix.len() as int + pseg.len()
                    + t] == dseg[t]);
            }
        }
        Endpoint {
            method: cfg.method,
            url: cfg.url,
            headers: cfg.headers,
            body: cfg.body,
            limits,
            max_parallel_requests: cfg.max_parallel_requests,
            no_auto_returns: cfg.no_auto_returns,
            on_demand_providers,
            outgoing,
            provides,
            rr_providers: cfg.rr_providers,
            precheck_rr_providers: cfg.precheck_rr_providers,
            tags: cfg.tags,
            streams,
            timeout_ms: cfg.timeout_ms,
        }
    }
}

impl Endpoint {
    /// Forgets the provider captures: used when another run stage
    /// takes them over.
    pub fn clear_provides(&mut self)
        ensures
            *final(self) == (Endpoint { provides: final(self).provides, ..*old(self) }),
            final(self).provides@.len() == 0,
    {
        self.provides.clear();
    }

    /// Installs an external pacing stream: it replaces the start or
    /// sentinel stream if one leads the collection, else joins at the
    /// end.
    pub fn add_start_stream(&mut self)
        ensures
            *final(self) == (Endpoint { streams: final(self).streams, ..*old(self) }),
            old(self).streams@.len() > 0 && (old(self).streams@[0] == StreamSpec::Start || old(
                self,
            ).streams@[0] is Sentinel) ==> final(self).streams@ == old(self).streams@.update(
                0,
                StreamSpec::Start,
            ),
            !(old(self).streams@.len() > 0 && (old(self).streams@[0] == StreamSpec::Start || old(
                self,
            ).streams@[0] is Sentinel)) ==> final(self).streams@ == old(self).streams@.push(
                StreamSpec::Start,
            ),
    {
        if self.streams.len() > 0 {
            let replace = match &self.streams[0] {
                StreamSpec::Start => true,
                StreamSpec::Sentinel(_) => true,
                _ => false,
            };
            if replace {
                self.streams[0] = StreamSpec::Start;
                return ;
            }
        }
        self.streams.push(StreamSpec::Start);
    }

    /// Turns the endpoint into its running form: the on-demand pacer
    /// (in force exactly when on-demand streams and provides are both
    /// present), the concurrency driver, and the merged capture list,
    /// loggers first as the response handler visits them.
    pub fn into_future(self) -> (r: EndpointFuture)
        ensures
            r.gate.active == (self.on_demand_providers@.len() > 0 && self.provides@.len() > 0),
            !r.gate.od_continue,
            r.driver.wf(),
            r.driver.in_flight == 0,
            r.driver.max_parallel == self.max_parallel_requests,
            r.outgoing@ == self.outgoing@ + self.provides@,
            !r.done,
            r.limits == self.limits,
            r.no_auto_returns == self.no_auto_returns,
            r.streams == self.streams,
            r.timeout_ms == self.timeout_ms,
    {
        let active = self.on_demand_providers.len() > 0 && self.provides.len() > 0;
        let mut outgoing = self.outgoing;
        let mut provides = self.provides;
        let ghost og = outgoing@;
        let ghost pg = provides@;
        while provides.len() > 0
            invariant
                outgoing@ + provides@ == og + pg,
            decreases provides@.len(),
        {
            proof {
                assert(provides@[0] == (outgoing@ + provides@)[outgoing@.len() as int]);
            }
            let o = provides.remove(0);
            outgoing.push(o);
            proof {
                assert(outgoing@ + provides@ =~= og + pg);
            }
        }
        proof {
            assert(outgoing@ =~= og + pg);
        }
        EndpointFuture {
            gate: OnDemandGate::new(active),
            driver: ParallelDriver::new(self.max_parallel_requests),
            outgoing,
            done: false,
            limits: self.limits,
            no_auto_returns: self.no_auto_returns,
            streams: self.streams,
            timeout_ms: self.timeout_ms,
        }
    }
}

/// The running form of an endpoint: what the driver loop steps.
pub struct EndpointFuture {
    /// The on-demand pacer in front of the zipped streams.
    pub gate: OnDemandGate,
    /// The concurrency ceiling.
    pub driver: ParallelDriver,
    /// Loggers first, then provider captures.
    pub outgoing: Vec<Outgoing>,
    /// The endpoint's stream has ended.
    pub done: bool,
    /// Provider indices whose channels gate tick intake.
    pub limits: Vec<usize>,
    pub no_auto_returns: bool,
    pub streams: Vec<StreamSpec>,
    pub timeout_ms: u64,
}

impl EndpointFuture {
    /// One poll of the endpoint: consults the pacer and marks the
    /// endpoint done when its stream ends. A tick is handed out only
    /// under the pacer's conditions.
    pub fn poll_step(&mut self, od: OdPoll, zip: ZipPoll) -> (r: GateDecision)
        requires
            !old(self).done,
        ensures
            final(self).driver == old(self).driver,
            final(self).outgoing == old(self).outgoing,
            final(self).limits == old(self).limits,
            final(self).no_auto_returns == old(self).no_auto_returns,
            final(self).streams == old(self).streams,
            final(self).timeout_ms == old(self).timeout_ms,
            final(self).gate.active == old(self).gate.active,
            final(self).done == (r == GateDecision::EndOfStream),
            r == GateDecision::Tick ==> old(self).gate.od_continue || od is Trigger || !old(
                self,
            ).gate.active,
            !old(self).gate.active ==> final(self).gate.od_continue == old(self).gate.od_continue
                && r == (match zip {
                ZipPoll::Item => GateDecision::Tick,
                ZipPoll::End => GateDecision::EndOfStream,
                ZipPoll::Pending => GateDecision::Wait,
            }),
            old(self).gate.active && !old(self).gate.od_continue && od is End ==> r
                == GateDecision::EndOfStream,
            old(self).gate.active && !old(self).gate.od_continue && od is Pending ==> r
                == GateDecision::Wait && !final(self).gate.od_continue,
            old(self).gate.active && (old(self).gate.od_continue || od is Trigger) ==> r == (
            match zip {
                ZipPoll::Item => GateDecision::Tick,
                ZipPoll::End => GateDecision::EndOfStream,
                ZipPoll::Pending => GateDecision::Wait,
            }) && final(self).gate.od_continue == (zip is Pending),
            zip is End && (old(self).gate.od_continue || od is Trigger || !old(
                self,
            ).gate.active) ==> r == GateDecision::EndOfStream,
    {
        let r = self.gate.step(od, zip);
        let ended = match r {
            GateDecision::EndOfStream => true,
            _ => false,
        };
        self.done = ended;
        r
    }

    /// The sentinel stream's poll: it keeps pacing until every
    /// provided channel has lost its receivers, then ends — and with
    /// it the endpoint.
    pub fn sentinel_poll(all_provides_receiverless: bool) -> (r: ZipPoll)
        ensures
            r == (if all_provides_receiverless {
                ZipPoll::End
            } else {
                ZipPoll::Item
            }),
    {
        if all_provides_receiverless {
            ZipPoll::End
        } else {
            ZipPoll::Item
        }
    }
}

/// Which `request.*` and `response.*` sections of the template
/// environment an endpoint's templates read; a tick populates only
/// what is marked.
pub const REQUEST_STARTLINE: u16 = 1;

pub const REQUEST_HEADERS: u16 = 2;

pub const REQUEST_BODY: u16 = 4;

pub const REQUEST_URL: u16 = 8;

pub const RESPONSE_STARTLINE: u16 = 16;

pub const RESPONSE_HEADERS: u16 = 32;

pub const RESPONSE_BODY: u16 = 64;

pub const STATS: u16 = 128;

/// The bytes of the key `"response.start-line"`.
pub open spec fn spec_key_response_startline() -> Seq<u8> {
    seq![114u8, 101u8, 115u8, 112u8, 111u8, 110u8, 115u8, 101u8, 46u8, 115u8, 116u8, 97u8, 114u8,
        116u8, 45u8, 108u8, 105u8, 110u8, 101u8]
}

/// The bytes of the key `"response.headers"`.
pub open spec fn spec_key_response_headers() -> Seq<u8> {
    seq![114u8, 101u8, 115u8, 112u8, 111u8, 110u8, 115u8, 101u8, 46u8, 104u8, 101u8, 97u8, 100u8,
        101u8, 114u8, 115u8]
}

/// The bytes of the key `"response.body"`.
pub open spec fn spec_key_response_body() -> Seq<u8> {
    seq![114u8, 101u8, 115u8, 112u8, 111u8, 110u8, 115u8, 101u8, 46u8, 98u8, 111u8, 100u8, 121u8]
}

/// The bytes of the key `"stats.rtt"`.
pub open spec fn spec_key_stats_rtt() -> Seq<u8> {
    seq![115u8, 116u8, 97u8, 116u8, 115u8, 46u8, 114u8, 116u8, 116u8]
}

fn key_response_startline() -> (r: Vec<u8>)
    ensures
        r@ == spec_key_response_startline(),
{
    let a: [u8; 19] = [
        114, 101, 115, 112, 111, 110, 115, 101, 46, 115, 116, 97, 114, 116, 45, 108, 105, 110,
        101,
    ];
    let mut out: Vec<u8> = Vec::new();
    crate::body::append_bytes(&mut out, a.as_slice());
    proof {
        assert(a@ =~= spec_key_response_startline());
        assert(out@ =~= spec_key_response_startline());
    }
    out
}

fn key_response_headers() -> (r: Vec<u8>)
    ensures
        r@ == spec_key_response_headers(),
{
    let a: [u8; 16] = [114, 101, 115, 112, 111, 110, 115, 101, 46, 104, 101, 97, 100, 101, 114,
        115];
    let mut out: Vec<u8> = Vec::new();
    crate::body::append_bytes(&mut out, a.as_slice());
    proof {
        assert(a@ =~= spec_key_response_headers());
        assert(out@ =~= spec_key_response_headers());
    }
    out
}

fn key_response_body() -> (r: Vec<u8>)
    ensures
        r@ == spec_key_response_body(),
{
    let a: [u8; 13] = [114, 101, 115, 112, 111, 110, 115, 101, 46, 98, 111, 100, 121];
    let mut out: Vec<u8> = Vec::new();
    crate::body::append_bytes(&mut out, a.as_slice());
    proof {
        assert(a@ =~= spec_key_response_body());
        assert(out@ =~= spec_key_response_body());
    }
    out
}

fn key_stats_rtt() -> (r: Vec<u8>)
    ensures
        r@ == spec_key_stats_rtt(),
{
    let a: [u8; 9] = [115, 116, 97, 116, 115, 46, 114, 116, 116];
    let mut out: Vec<u8> = Vec::new();
    crate::body::append_bytes(&mut out, a.as_slice());
    proof {
        assert(a@ =~= spec_key_stats_rtt());
        assert(out@ =~= spec_key_stats_rtt());
    }
    out
}

/// The response start line: `<version> <status> <reason>`.
pub open spec fn spec_start_line(version: Seq<u8>, status: u16, reason: Seq<u8>) -> Seq<u8> {
    version + seq![32u8] + crate::json::spec_dec_digits(status as nat) + seq![32u8] + reason
}

/// A header object member gaining one more value: a first value
/// stands alone as text, a second turns the member into an array,
/// and later values join it.
pub open spec fn spec_add_header(
    pairs: Seq<(Seq<u8>, ValV)>,
    key: Seq<u8>,
    v: Seq<u8>,
) -> Seq<(Seq<u8>, ValV)>
    decreases pairs.len(),
{
    if pairs.len() == 0 {
        seq![(key, ValV::Str(v))]
    } else if pairs[0].0 == key {
        let merged = match pairs[0].1 {
            ValV::Arr(vs) => ValV::Arr(vs.push(ValV::Str(v))),
            prev => ValV::Arr(seq![prev, ValV::Str(v)]),
        };
        seq![(key, merged)] + pairs.drop_first()
    } else {
        seq![pairs[0]] + spec_add_header(pairs.drop_first(), key, v)
    }
}

/// The response headers as an object, multi-valued names as arrays.
pub open spec fn spec_headers_obj_fold(
    headers: Seq<(Vec<u8>, Vec<u8>)>,
    acc: Seq<(Seq<u8>, ValV)>,
) -> Seq<(Seq<u8>, ValV)>
    decreases headers.len(),
{
    if headers.len() == 0 {
        acc
    } else {
        spec_headers_obj_fold(headers.drop_first(), spec_add_header(acc, headers[0].0@, headers[0].1@))
    }
}

/// When every key of `pairs` before `i` differs from `key` and
/// `pairs[i]` has it, adding a header value merges at index `i`.
proof fn lemma_add_header_found(pairs: Seq<(Seq<u8>, ValV)>, key: Seq<u8>, v: Seq<u8>, i: int)
    requires
        0 <= i < pairs.len(),
        forall|k: int| 0 <= k < i ==> pairs[k].0 != key,
        pairs[i].0 == key,
    ensures
        spec_add_header(pairs, key, v) == pairs.update(
            i,
            (
                key,
                match pairs[i].1 {
                    ValV::Arr(vs) => ValV::Arr(vs.push(ValV::Str(v))),
                    prev => ValV::Arr(seq![prev, ValV::Str(v)]),
                },
            ),
        ),
    decreases i,
{
    let merged = match pairs[i].1 {
        ValV::Arr(vs) => ValV::Arr(vs.push(ValV::Str(v))),
        prev => ValV::Arr(seq![prev, ValV::Str(v)]),
    };
    if i == 0 {
        assert(spec_add_header(pairs, key, v) =~= pairs.update(0, (key, merged)));
    } else {
        lemma_add_header_found(pairs.drop_first(), key, v, i - 1);
        assert(pairs.drop_first().update(i - 1, (key, merged)) =~= pairs.update(
            i,
            (key, merged),
        ).drop_first());
        assert(spec_add_header(pairs, key, v) =~= pairs.update(i, (key, merged)));
    }
}

/// When no key of `pairs` is `key`, adding appends a single value.
proof fn lemma_add_header_missing(pairs: Seq<(Seq<u8>, ValV)>, key: Seq<u8>, v: Seq<u8>)
    requires
        forall|k: int| 0 <= k < pairs.len() ==> pairs[k].0 != key,
    ensures
        spec_add_header(pairs, key, v) == pairs.push((key, ValV::Str(v))),
    decreases pairs.len(),
{
    if pairs.len() == 0 {
        assert(spec_add_header(pairs, key, v) =~= pairs.push((key, ValV::Str(v))));
    } else {
        lemma_add_header_missing(pairs.drop_first(), key, v);
        assert(spec_add_header(pairs, key, v) =~= pairs.push((key, ValV::Str(v))));
    }
}

/// Adds one header's value to the headers object under construction.
#[verifier::loop_isolation(false)]
fn add_header(pairs: &mut Vec<(Vec<u8>, Value)>, key: Vec<u8>, v: Vec<u8>)
    ensures
        pair_views_of(final(pairs)@) == spec_add_header(pair_views_of(old(pairs)@), key@, v@),
{
    let ghost orig = pairs@;
    let mut i: usize = 0;
    while i < pairs.len()
        invariant
            i <= pairs@.len(),
            pairs@ == orig,
            forall|k: int| 0 <= k < i ==> pair_views_of(orig)[k].0 != key@,
        decreases pairs@.len() - i,
    {
        proof {
            lemma_pair_views_of(orig);
        }
        if bytes_eq(&pairs[i].0, &key) {
            let prev = pairs[i].1.dup();
            let merged = match prev {
                Value::Array(mut vs) => {
                    let ghost pre_vs = vs@;
                    vs.push(Value::Str(v));
                    proof {
                        lemma_views_of(vs@);
                        lemma_views_of(pre_vs);
                        assert(views_of(vs@) =~= views_of(pre_vs).push(ValV::Str(v@)));
                    }
                    Value::Array(vs)
                },
                other => {
                    let mut vs: Vec<Value> = Vec::new();
                    vs.push(other);
                    vs.push(Value::Str(v));
                    proof {
                        lemma_views_of(vs@);
                        assert(views_of(vs@) =~= seq![vs@[0]@, vs@[1]@]);
                    }
                    Value::Array(vs)
                },
            };
            pairs[i] = (key, merged);
            proof {
                lemma_pair_views_of(pairs@);
                lemma_add_header_found(pair_views_of(orig), key@, v@, i as int);
                assert(pair_views_of(pairs@) =~= pair_views_of(orig).update(
                    i as int,
                    pair_views_of(pairs@)[i as int],
                ));
            }
            return ;
        }
        i += 1;
    }
    pairs.push((key, Value::Str(v)));
    proof {
        lemma_pair_views_of(orig);
        lemma_pair_views_of(pairs@);
        lemma_add_header_missing(pair_views_of(orig), key@, v@);
        assert(pair_views_of(pairs@) =~= pair_views_of(orig).push((key@, ValV::Str(v@))));
    }
}

/// Builds the `response.headers` object from the response's header
/// list: names in arrival order, a multi-valued name as an array.
pub fn headers_object(headers: Vec<(Vec<u8>, Vec<u8>)>) -> (r: Value)
    ensures
        r@ == ValV::Obj(spec_headers_obj_fold(headers@, Seq::<(Seq<u8>, ValV)>::empty())),
{
    let ghost orig = headers@;
    let mut pairs: Vec<(Vec<u8>, Value)> = Vec::new();
    let mut headers = headers;
    proof {
        assert(pair_views_of(pairs@) =~= Seq::<(Seq<u8>, ValV)>::empty());
    }
    while headers.len() > 0
        invariant
            spec_headers_obj_fold(headers@, pair_views_of(pairs@)) == spec_headers_obj_fold(
                orig,
                Seq::<(Seq<u8>, ValV)>::empty(),
            ),
        decreases headers@.len(),
    {
        let ghost pre = headers@;
        let (k, v) = headers.remove(0);
        add_header(&mut pairs, k, v);
        proof {
            assert(headers@ =~= pre.drop_first());
        }
    }
    Value::Object(pairs)
}

/// Builds the response start line.
pub fn start_line(version: &Vec<u8>, status: u16, reason: &Vec<u8>) -> (r: Vec<u8>)
    ensures
        r@ == spec_start_line(version@, status, reason@),
{
    let mut out: Vec<u8> = Vec::new();
    crate::body::append_bytes(&mut out, version.as_slice());
    out.push(32);
    crate::json::push_dec_digits(&mut out, status as u64);
    out.push(32);
    crate::body::append_bytes(&mut out, reason.as_slice());
    proof {
        assert(out@ =~= spec_start_line(version@, status, reason@));
    }
    out
}

/// What the response handler writes into the template environment:
/// the sections the endpoint's mask asks for, in a fixed order.
pub open spec fn spec_response_env(
    entries: Seq<(Seq<u8>, ValV)>,
    rr_mask: u16,
    version: Seq<u8>,
    status: u16,
    reason: Seq<u8>,
    headers: Seq<(Vec<u8>, Vec<u8>)>,
    body: ValV,
    rtt_micros: u64,
) -> Seq<(Seq<u8>, ValV)> {
    let e1 = if rr_mask & RESPONSE_STARTLINE != 0 {
        spec_obj_insert(entries, spec_key_response_startline(), ValV::Str(spec_start_line(version, status, reason)))
    } else {
        entries
    };
    let e2 = if rr_mask & RESPONSE_HEADERS != 0 {
        spec_obj_insert(e1, spec_key_response_headers(), ValV::Obj(spec_headers_obj_fold(headers, Seq::<(Seq<u8>, ValV)>::empty())))
    } else {
        e1
    };
    let e3 = if rr_mask & RESPONSE_BODY != 0 {
        spec_obj_insert(e2, spec_key_response_body(), body)
    } else {
        e2
    };
    if rr_mask & STATS != 0 {
        spec_obj_insert(e3, spec_key_stats_rtt(), ValV::Int(rtt_micros as int))
    } else {
        e3
    }
}

/// The bytes of `"application/json"`.
pub open spec fn spec_application_json() -> Seq<u8> {
    seq![97u8, 112u8, 112u8, 108u8, 105u8, 99u8, 97u8, 116u8, 105u8, 111u8, 110u8, 47u8, 106u8,
        115u8, 111u8, 110u8]
}

fn lit_application_json() -> (r: Vec<u8>)
    ensures
        r@ == spec_application_json(),
{
    let a: [u8; 16] = [97, 112, 112, 108, 105, 99, 97, 116, 105, 111, 110, 47, 106, 115, 111, 110];
    let mut out: Vec<u8> = Vec::new();
    crate::body::append_bytes(&mut out, a.as_slice());
    proof {
        assert(a@ =~= spec_application_json());
        assert(out@ =~= spec_application_json());
    }
    out
}

/// What a response body reads as: parsed JSON when the content type
/// says `application/json` (parameters may follow) and the bytes
/// parse as a document, the raw text otherwise.
pub open spec fn spec_response_body_value(ct: Option<Seq<u8>>, body: Seq<u8>) -> ValV {
    match ct {
        Some(c) => if crate::body::spec_starts_with(c, spec_application_json()) {
            match crate::parse::spec_parse_json(body) {
                Some(v) => v,
                None => ValV::Str(body),
            }
        } else {
            ValV::Str(body)
        },
        None => ValV::Str(body),
    }
}

/// Reads a response body per its content type: a JSON document under
/// `application/json`, with fallback to the raw text on a parse
/// failure, and the raw text under anything else.
pub fn response_body_value(content_type: Option<&Vec<u8>>, body: Vec<u8>) -> (r: Value)
    requires
        body@.len() <= 0x1000_0000_0000_0000,
    ensures
        r@ == spec_response_body_value(
            match content_type {
                Some(c) => Some(c@),
                None => None,
            },
            body@,
        ),
{
    let is_json = match content_type {
        Some(c) => crate::body::starts_with(c, &lit_application_json()),
        None => false,
    };
    if is_json {
        match crate::parse::parse_json(&body) {
            Some(v) => v,
            None => Value::Str(body),
        }
    } else {
        Value::Str(body)
    }
}

/// The response handler's environment step: populates the
/// `response.*` sections the endpoint's mask asks for — the start
/// line, the headers object, the parsed body — and the observed
/// round-trip time in microseconds.
pub fn handle_response(
    env: &mut TemplateValues,
    rr_mask: u16,
    version: Vec<u8>,
    status: u16,
    reason: Vec<u8>,
    headers: Vec<(Vec<u8>, Vec<u8>)>,
    body: Value,
    rtt_micros: u64,
)
    requires
        old(env).wf(),
        rtt_micros <= i64::MAX as u64,
    ensures
        final(env).wf(),
        final(env).entries() == spec_response_env(
            old(env).entries(),
            rr_mask,
            version@,
            status,
            reason@,
            headers@,
            body@,
            rtt_micros,
        ),
{
    if rr_mask & RESPONSE_STARTLINE != 0 {
        let line = start_line(&version, status, &reason);
        env.insert(key_response_startline(), Value::Str(line));
    }
    if rr_mask & RESPONSE_HEADERS != 0 {
        let obj = headers_object(headers);
        env.insert(key_response_headers(), obj);
    }
    if rr_mask & RESPONSE_BODY != 0 {
        env.insert(key_response_body(), body);
    }
    if rr_mask & STATS != 0 {
        env.insert(key_stats_rtt(), Value::Int(rtt_micros as i64));
    }
}

/// The authority of a URL: what stands between the `//` after the
/// scheme and the next `/`, `?` or `#` — or nothing, when the URL
/// has no `//`.
pub open spec fn spec_url_authority(url: Seq<u8>) -> Option<Seq<u8>> {
    let start = spec_find_dslash(url, 0);
    if start < 0 {
        None
    } else {
        Some(url.subrange(start + 2, spec_authority_end(url, start + 2)))
    }
}

/// The index of the first `//`, or a negative marker.
pub open spec fn spec_find_dslash(url: Seq<u8>, i: int) -> int
    decreases url.len() - i,
{
    if i < 0 || i + 2 > url.len() {
        -1
    } else if url[i] == 47 && url[i + 1] == 47 {
        i
    } else {
        spec_find_dslash(url, i + 1)
    }
}

/// The end of the authority from `i` on: the next `/`, `?` or `#`,
/// or the end of the URL.
pub open spec fn spec_authority_end(url: Seq<u8>, i: int) -> int
    decreases url.len() - i,
{
    if 0 <= i < url.len() && url[i] != 47 && url[i] != 63 && url[i] != 35 {
        spec_authority_end(url, i + 1)
    } else {
        i
    }
}

fn find_dslash(url: &Vec<u8>, i: usize) -> (r: Option<usize>)
    requires
        i <= url@.len(),
    ensures
        match r {
            Some(p) => p == spec_find_dslash(url@, i as int) && p + 2 <= url@.len(),
            None => spec_find_dslash(url@, i as int) < 0,
        },
    decreases url@.len() - i,
{
    if url.len() - i < 2 {
        return None;
    }
    if url[i] == 47 && url[i + 1] == 47 {
        return Some(i);
    }
    find_dslash(url, i + 1)
}

fn authority_end(url: &Vec<u8>, i: usize) -> (r: usize)
    requires
        i <= url@.len(),
    ensures
        r == spec_authority_end(url@, i as int),
        i <= r <= url@.len(),
    decreases url@.len() - i,
{
    if i < url.len() && url[i] != 47 && url[i] != 63 && url[i] != 35 {
        authority_end(url, i + 1)
    } else {
        i
    }
}

/// The rendered URL's authority, for the `Host` header.
pub fn url_authority(url: &Vec<u8>) -> (r: Option<Vec<u8>>)
    ensures
        match spec_url_authority(url@) {
            Some(a) => r matches Some(v) && v@ == a,
            None => r is None,
        },
{
    let n = url.len();
    match find_dslash(url, 0) {
        Some(start) => {
            proof {
                assert(start + 2 <= n);
            }
            let end = authority_end(url, start + 2);
            let mut out: Vec<u8> = Vec::new();
            let mut t = start + 2;
            while t < end
                invariant
                    start + 2 <= t <= end <= url@.len(),
                    out@ == url@.subrange(start + 2, t as int),
                decreases end - t,
            {
                out.push(url[t]);
                proof {
                    assert(url@.subrange(start + 2, t + 1) =~= url@.subrange(
                        start + 2,
                        t as int,
                    ).push(url@[t as int]));
                }
                t += 1;
            }
            Some(out)
        },
        None => None,
    }
}

/// The bytes of the header name `"host"`.
pub open spec fn spec_key_host() -> Seq<u8> {
    seq![104u8, 111u8, 115u8, 116u8]
}

/// Whether a rendered header list carries a `Host` header (names are
/// normalised to lower case by header validation).
pub open spec fn spec_has_host(headers: Seq<(Vec<u8>, Vec<u8>)>) -> bool {
    exists|k: int| 0 <= k < headers.len() && (#[trigger] headers[k]).0@ == spec_key_host()
}

/// Ensures a `Host` header is present, deriving it from the URL's
/// authority when absent; a URL without an authority leaves the
/// headers alone.
#[verifier::loop_isolation(false)]
pub fn ensure_host_header(headers: &mut Vec<(Vec<u8>, Vec<u8>)>, url: &Vec<u8>)
    ensures
        spec_has_host(old(headers)@) ==> final(headers)@ == old(headers)@,
        !spec_has_host(old(headers)@) ==> (match spec_url_authority(url@) {
            Some(a) => final(headers)@.len() == old(headers)@.len() + 1 && final(headers)@.subrange(0, old(headers)@.len() as int) == old(headers)@ && final(headers)@.last().0@ == spec_key_host() && final(headers)@.last().1@ == a,
            None => final(headers)@ == old(headers)@,
        }),
{
    let host: [u8; 4] = [104, 111, 115, 116];
    let mut k: usize = 0;
    while k < headers.len()
        invariant
            k <= headers@.len(),
            headers@ == old(headers)@,
            forall|t: int| 0 <= t < k ==> (#[trigger] headers@[t]).0@ != spec_key_host(),
        decreases headers@.len() - k,
    {
        let mut name_is_host = headers[k].0.len() == 4;
        if name_is_host {
            let mut t: usize = 0;
            while t < 4
                invariant
                    t <= 4,
                    headers@ == old(headers)@,
                    k < headers@.len(),
                    headers@[k as int].0@.len() == 4,
                    name_is_host == (forall|u: int|
                        0 <= u < t ==> headers@[k as int].0@[u] == spec_key_host()[u]),
                decreases 4 - t,
            {
                if headers[k].0[t] != host[t] {
                    proof {
                        assert(host@[t as int] == spec_key_host()[t as int]);
                    }
                    name_is_host = false;
                    proof {
                        assert(headers@[k as int].0@[t as int] != spec_key_host()[t as int]);
                    }
                    break ;
                }
                proof {
                    assert(host@[t as int] == spec_key_host()[t as int]);
                }
                t += 1;
            }
            if name_is_host {
                proof {
                    assert(headers@[k as int].0@ =~= spec_key_host());
                }
                return ;
            }
        } else {
            proof {
                assert(headers@[k as int].0@ != spec_key_host());
            }
        }
        proof {
            assert(headers@[k as int].0@ != spec_key_host());
        }
        k += 1;
    }
    match url_authority(url) {
        Some(a) => {
            let mut name: Vec<u8> = Vec::new();
            crate::body::append_bytes(&mut name, host.as_slice());
            proof {
                assert(name@ =~= spec_key_host());
            }
            headers.push((name, a));
        },
        None => {
        },
    }
}

} // verus!
