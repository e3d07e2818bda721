//! What one request, and what a whole run, left behind.

use vstd::prelude::*;
use crate::status::StatusCode;

verus! {

/// A failure below HTTP: no response was received at all.
#[derive(Debug)]
pub struct TransportError {
    /// What the transport said went wrong.
    pub description: String,
}

/// The classes a request outcome is counted under.
#[derive(Clone, Copy, Debug, PartialEq, Eq, Structural)]
pub enum Class {
    /// A response arrived, whatever its status.
    Completed,
    /// A response arrived and its status is 5xx.
    ServerError,
    /// No response arrived.
    TransportError,
}

/// The result of one request: the status of the response or the transport's
/// error, and how long the exchange took, in nanoseconds.
#[derive(Debug)]
pub struct RequestOutcome {
    pub result: Result<StatusCode, TransportError>,
    pub duration: u64,
}

impl RequestOutcome {
    /// Whether this outcome is counted under `class`.
    pub open spec fn counts_as(self, class: Class) -> bool {
        match class {
            Class::Completed => self.result is Ok,
            Class::ServerError => self.result matches Ok(status) && status.spec_is_server_error(),
            Class::TransportError => self.result is Err,
        }
    }

    pub fn new(
        result: Result<StatusCode, TransportError>,
        duration: u64,
        _payload_size: usize,
    ) -> (outcome: RequestOutcome)
        ensures
            outcome.result == result,
            outcome.duration == duration,
    {
        RequestOutcome { result, duration }
    }

    /// Whether this outcome is counted under `class`.
    pub fn is_counted_as(&self, class: Class) -> (answer: bool)
        ensures
            answer == self.counts_as(class),
    {
        match class {
            Class::Completed => self.result.is_ok(),
            Class::ServerError => match &self.result {
                Ok(status) => status.is_server_error(),
                Err(_) => false,
            },
            Class::TransportError => self.result.is_err(),
        }
    }
}

/// Every outcome is either a response or a transport error, never both, and
/// only a response can be a server error.
pub proof fn lemma_classes(outcome: RequestOutcome)
    ensures
        outcome.counts_as(Class::Completed) != outcome.counts_as(Class::TransportError),
        outcome.counts_as(Class::ServerError) ==> outcome.counts_as(Class::Completed),
        outcome.counts_as(Class::ServerError) <==> (outcome.result matches Ok(status) && 500
            <= status@ < 600),
{
}

/// A finished run: the outcomes in the order in which the requests
/// completed, the time the whole run took in nanoseconds, and the
/// concurrency limit it ran under.
#[derive(Debug)]
pub struct TestOutcome {
    pub request_outcomes: Vec<RequestOutcome>,
    pub total_time: u64,
    pub concurrent_count: usize,
}

impl TestOutcome {
    pub fn new(
        request_outcomes: Vec<RequestOutcome>,
        total_time: u64,
        concurrent_count: usize,
    ) -> (outcome: TestOutcome)
        ensures
            outcome.request_outcomes == request_outcomes,
            outcome.total_time == total_time,
            outcome.concurrent_count == concurrent_count,
    {
        TestOutcome { request_outcomes, total_time, concurrent_count }
    }
}

} // verus!
