//! The error taxonomy of a test run.
//!
//! Fatal errors are surfaced once to the test-killer and end the run;
//! recoverable errors attach to a single tick, which fails while the
//! run goes on.

use vstd::prelude::*;

verus! {

/// An error that fails one tick but not the run.
#[derive(Debug, Clone, PartialEq, Eq)]
pub enum RecoverableError {
    /// Building the request body failed.
    BodyErr(String),
    /// The HTTP transport reported an error.
    HttpErr(String),
    /// The per-request timeout fired.
    Timeout,
    /// Rendering a template failed.
    TemplateErr(String),
    /// An input provider ended mid-zip.
    ProviderEnded,
}

/// An error of the run as a whole, or a wrapped recoverable one.
#[derive(Debug, Clone, PartialEq, Eq)]
pub enum TestError {
    /// A logger with `kill` reached its limit.
    KilledByLogger,
    /// An internal invariant was broken.
    Internal(String),
    /// Configuration or I/O trouble, described in the message.
    Other(String),
    /// A tick-level error carried outward.
    Recoverable(RecoverableError),
}

/// Why a run ended without an error.
#[derive(Debug, Clone, PartialEq, Eq)]
pub enum TestEndReason {
    /// Every endpoint ran to completion.
    Completed,
    /// The configured run time elapsed.
    TimesUp,
}

} // verus!
