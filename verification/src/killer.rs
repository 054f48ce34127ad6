//! The singleton sink that decides the outcome of a run.
//!
//! Any task may send one message; the first message wins and later
//! ones are discarded.

use crate::error::{TestEndReason, TestError};
use vstd::prelude::*;

verus! {

/// The test-killer: holds the first outcome message it was sent.
pub struct TestKiller {
    /// The run outcome, once something decided it.
    pub outcome: Option<Result<TestEndReason, TestError>>,
}

impl TestKiller {
    /// A fresh killer with no outcome yet.
    pub fn new() -> (r: TestKiller)
        ensures
            r.outcome is None,
    {
        TestKiller { outcome: None }
    }

    /// Sends an outcome message. The first message sent determines
    /// the run outcome; every later message is discarded unread.
    pub fn send(&mut self, msg: Result<TestEndReason, TestError>) -> (accepted: bool)
        ensures
            accepted == (old(self).outcome is None),
            old(self).outcome is None ==> final(self).outcome == Some(msg),
            old(self).outcome is Some ==> *final(self) == *old(self),
    {
        if self.outcome.is_none() {
            self.outcome = Some(msg);
            true
        } else {
            false
        }
    }

    /// Whether the run is over: some message has arrived.
    pub fn decided(&self) -> (r: bool)
        ensures
            r == (self.outcome is Some),
    {
        self.outcome.is_some()
    }
}

} // verus!
