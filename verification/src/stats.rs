//! The statistics sink: an unbounded mailbox of per-tick messages.
//!
//! Every tick reports — a start when it is dispatched, a completion
//! with its round-trip time and status, or the recoverable error that
//! failed it. The sink never refuses a message: it applies no
//! backpressure.

use crate::error::RecoverableError;
use vstd::prelude::*;

verus! {

/// One message to the statistics aggregator.
#[derive(Debug, PartialEq)]
pub enum StatsMessage {
    /// A tick was dispatched.
    RequestStarted { endpoint_id: usize, tags: Vec<(Vec<u8>, Vec<u8>)>, time_ms: u64 },
    /// A tick completed with a response.
    RequestCompleted {
        endpoint_id: usize,
        tags: Vec<(Vec<u8>, Vec<u8>)>,
        rtt_micros: u64,
        status: u16,
    },
    /// A tick failed with a recoverable error.
    RequestErrored { endpoint_id: usize, tags: Vec<(Vec<u8>, Vec<u8>)>, kind: RecoverableError },
}

/// The unbounded statistics mailbox.
pub struct StatsSink {
    /// Every message received, in arrival order.
    pub messages: Vec<StatsMessage>,
}

impl StatsSink {
    /// A fresh, empty sink.
    pub fn new() -> (r: StatsSink)
        ensures
            r.messages@.len() == 0,
    {
        StatsSink { messages: Vec::new() }
    }

    /// Accepts one message; the sink never refuses or reorders.
    pub fn send(&mut self, m: StatsMessage)
        ensures
            final(self).messages@ == old(self).messages@.push(m),
    {
        self.messages.push(m);
    }
}

/// The message a finished tick reports: its completion with status
/// and round-trip time, or the recoverable error that failed it —
/// one message either way, so every tick is recorded.
pub fn tick_outcome_message(
    endpoint_id: usize,
    tags: Vec<(Vec<u8>, Vec<u8>)>,
    outcome: Result<(u16, u64), RecoverableError>,
) -> (r: StatsMessage)
    ensures
        r == (match outcome {
            Ok((status, rtt_micros)) => StatsMessage::RequestCompleted {
                endpoint_id,
                tags,
                rtt_micros,
                status,
            },
            Err(kind) => StatsMessage::RequestErrored { endpoint_id, tags, kind },
        }),
{
    match outcome {
        Ok(p) => {
            let (status, rtt_micros) = p;
            StatsMessage::RequestCompleted { endpoint_id, tags, rtt_micros, status }
        },
        Err(kind) => StatsMessage::RequestErrored { endpoint_id, tags, kind },
    }
}

} // verus!
