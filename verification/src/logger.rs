//! The logger sink: a per-channel consumer with a count limit and an
//! optional kill trigger.
//!
//! The sink decides, per received value, whether to emit a line, in
//! which rendering, and whether to fire the test-killer. Writing the
//! line itself is the caller's affair; the decision logic here is what
//! bounds the output.

use crate::channel::{Channel, Limit};
use vstd::prelude::*;

verus! {

/// Where a logger writes.
#[derive(Debug, Clone, PartialEq, Eq)]
pub enum LogTarget {
    Stderr,
    Stdout,
    /// A file, created (truncated) when the sink starts.
    File(String),
}

/// How one value is rendered on its line.
#[derive(Debug, Clone, Copy, PartialEq, Eq)]
pub enum Render {
    /// Multi-line indented JSON.
    PrettyJson,
    /// Single-line JSON.
    CompactJson,
    /// The value's text form: strings unquoted, all else JSON.
    Text,
}

/// What the sink must do with one received value.
pub struct LogStep {
    /// Emit a line in this rendering; `None` when over the limit.
    pub render: Option<Render>,
    /// Send `KilledByLogger` to the test-killer.
    pub kill: bool,
}

/// The decision state of one logger sink.
pub struct Logger {
    /// Where lines go.
    pub to: LogTarget,
    /// Stop emitting after this many values, if set.
    pub limit: Option<usize>,
    /// Prefer the multi-line rendering.
    pub pretty: bool,
    /// Fire the test-killer at the limit (or on every value, with no
    /// limit set).
    pub kill: bool,
    /// Values received so far.
    pub counter: usize,
    /// Still emitting lines.
    pub keep_logging: bool,
    /// Lines emitted so far.
    pub written: usize,
}

impl Logger {
    /// The sink invariant: without `kill`, the lines written never
    /// pass the limit; the counter drives everything else.
    pub open spec fn wf(self) -> bool {
        match self.limit {
            Some(l) => if self.kill {
                self.written == self.counter && self.keep_logging
            } else {
                &&& self.written == vstd::math::min(
                    self.counter as int,
                    vstd::math::max(l as int, 1),
                )
                &&& self.keep_logging == ((self.counter as int) < vstd::math::max(l as int, 1))
            },
            None => self.written == self.counter && self.keep_logging,
        }
    }

    /// A fresh sink that has seen nothing.
    pub fn new(to: LogTarget, limit: Option<usize>, pretty: bool, kill: bool) -> (r: Logger)
        ensures
            r.wf(),
            r.to == to,
            r.limit == limit,
            r.pretty == pretty,
            r.kill == kill,
            r.counter == 0,
            r.written == 0,
    {
        Logger { to, limit, pretty, kill, counter: 0, keep_logging: true, written: 0 }
    }

    /// Takes one received value (only its textness matters) and says
    /// what to do with it: while still logging, emit one line —
    /// multi-line JSON under `pretty` for a non-string, else the
    /// value's text — and at the limit either stop emitting or, with
    /// `kill`, fire the killer once, at the moment the counter
    /// reaches the limit; with no limit but `kill`, fire it on every
    /// value.
    pub fn on_value(&mut self, is_string: bool) -> (r: LogStep)
        requires
            old(self).wf(),
            old(self).counter < usize::MAX,
        ensures
            final(self).wf(),
            final(self).to == old(self).to,
            final(self).limit == old(self).limit,
            final(self).pretty == old(self).pretty,
            final(self).kill == old(self).kill,
            final(self).counter == old(self).counter + 1,
            r.render is Some <==> old(self).keep_logging,
            final(self).written == old(self).written + (if old(self).keep_logging {
                1int
            } else {
                0int
            }),
            old(self).keep_logging ==> r.render == Some(
                if old(self).pretty && !is_string {
                    Render::PrettyJson
                } else {
                    Render::Text
                },
            ),
            r.kill == (match old(self).limit {
                Some(l) => old(self).kill && old(self).counter + 1 == vstd::math::max(
                    l as int,
                    1,
                ),
                None => old(self).kill,
            }),
    {
        self.counter = self.counter + 1;
        let emitting = self.keep_logging;
        let render: Option<Render> = if emitting {
            self.written = self.written + 1;
            if self.pretty && !is_string {
                Some(Render::PrettyJson)
            } else {
                Some(Render::Text)
            }
        } else {
            None
        };
        let mut kill_now = false;
        match self.limit {
            Some(l) => {
                if self.counter >= l {
                    if self.kill {
                        kill_now = self.counter == l || (l == 0 && self.counter == 1);
                    } else {
                        self.keep_logging = false;
                    }
                }
            },
            None => {
                if self.kill {
                    kill_now = true;
                }
            },
        }
        LogStep { render, kill: kill_now }
    }
}

/// Builds a logger sink and the small bounded channel producers send
/// into; a file destination is resolved against the configuration
/// file's directory. The consumer task drains the channel through
/// `Logger::on_value`.
pub fn logger(to: LogTarget, limit: Option<usize>, pretty: bool, kill: bool, config_path: &str) -> (
    r: (Logger, Channel))
    ensures
        r.0.wf(),
        r.0.limit == limit,
        r.0.pretty == pretty,
        r.0.kill == kill,
        r.0.counter == 0,
        r.0.written == 0,
        match to {
            LogTarget::File(name) => r.0.to matches LogTarget::File(t)
                && t@ == crate::spec_with_file_name(config_path@, name@),
            other => r.0.to == other,
        },
        r.1.wf(),
        r.1.limit == Limit::Integer(5),
        r.1.contents() == Seq::<crate::json::ValV>::empty(),
{
    let to = match to {
        LogTarget::File(name) => {
            let mut name = name;
            crate::tweak_path(&mut name, config_path);
            LogTarget::File(name)
        },
        other => other,
    };
    (Logger::new(to, limit, pretty, kill), Channel::new(Limit::Integer(5)))
}

/// With a limit of `l` and no kill trigger, a sink never emits more
/// than `l` lines, however many values arrive; and once `l` or more
/// values have arrived, exactly `l` lines have been emitted.
pub proof fn lemma_logger_line_bound(lg: Logger, l: usize)
    requires
        lg.wf(),
        lg.limit == Some(l),
        l >= 1,
        !lg.kill,
    ensures
        lg.written <= l,
        lg.counter >= l ==> lg.written == l,
{
}

} // verus!
