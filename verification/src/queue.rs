//! The ingest queue and the worker's window policy: a bounded FIFO with a
//! non-blocking offer whose overflow is the admission-control signal, and the
//! size-and-time window under which the worker coalesces payloads.

use vstd::prelude::*;

use crate::api::ApiError;
use crate::ingest::{BatchIngestRequest, BatchIngestData};

verus! {

/// What a non-blocking offer came to.
#[derive(Clone, Copy, PartialEq, Eq, Structural, Debug)]
pub enum EnqueueOutcome {
    Accepted,
    Full,
    Closed,
}

/// The bounded FIFO between the request handlers and the worker.
pub struct IngestQueue {
    pub items: Vec<BatchIngestRequest>,
    pub capacity: usize,
    pub closed: bool,
}

/// The views of the queued envelopes, oldest first.
pub open spec fn queue_view(v: Seq<BatchIngestRequest>) -> Seq<BatchIngestData> {
    Seq::new(v.len(), |i: int| v[i]@)
}

impl IngestQueue {
    /// An empty, open queue of the given capacity.
    pub fn new(capacity: usize) -> (r: IngestQueue)
        ensures
            queue_view(r.items@) == Seq::<BatchIngestData>::empty(),
            r.capacity == capacity,
            !r.closed,
    {
        let r = IngestQueue { items: Vec::new(), capacity, closed: false };
        proof {
            assert(queue_view(r.items@) =~= Seq::<BatchIngestData>::empty());
        }
        r
    }

    /// The non-blocking offer: refused as closed after shutdown, as full at
    /// capacity, else appended. Nothing already queued is disturbed.
    pub fn offer(&mut self, b: BatchIngestRequest) -> (r: EnqueueOutcome)
        ensures
            ({
                let q0 = queue_view(old(self).items@);
                let q1 = queue_view(final(self).items@);
                &&& final(self).capacity == old(self).capacity
                &&& final(self).closed == old(self).closed
                &&& if old(self).closed {
                    r == EnqueueOutcome::Closed && q1 == q0
                } else if q0.len() >= old(self).capacity {
                    r == EnqueueOutcome::Full && q1 == q0
                } else {
                    r == EnqueueOutcome::Accepted && q1 == q0.push(b@)
                }
            }),
    {
        if self.closed {
            return EnqueueOutcome::Closed;
        }
        if self.items.len() >= self.capacity {
            return EnqueueOutcome::Full;
        }
        let ghost q0 = queue_view(self.items@);
        let ghost bv = b@;
        self.items.push(b);
        proof {
            assert(queue_view(self.items@) =~= q0.push(bv));
        }
        EnqueueOutcome::Accepted
    }

    /// Closes the producer side; everything queued stays owned by the queue.
    pub fn close(&mut self)
        ensures
            final(self).closed,
            final(self).capacity == old(self).capacity,
            queue_view(final(self).items@) == queue_view(old(self).items@),
    {
        self.closed = true;
    }

    /// Takes the oldest envelope, if any.
    pub fn pop_front(&mut self) -> (r: Option<BatchIngestRequest>)
        ensures
            final(self).capacity == old(self).capacity,
            final(self).closed == old(self).closed,
            ({
                let q0 = queue_view(old(self).items@);
                let q1 = queue_view(final(self).items@);
                match r {
                    Some(b) => q0.len() > 0 && b@ == q0.first() && q1 == q0.drop_first(),
                    None => q0.len() == 0 && q1 == q0,
                }
            }),
    {
        if self.items.len() == 0 {
            return None;
        }
        let ghost q0 = queue_view(self.items@);
        let b = self.items.remove(0);
        proof {
            assert(queue_view(self.items@) =~= q0.drop_first());
        }
        Some(b)
    }

    /// How many envelopes wait.
    pub fn len(&self) -> (r: usize)
        ensures
            r == queue_view(self.items@).len(),
    {
        self.items.len()
    }
}

/// The admission response of an offer: accepted is no error; a full queue is
/// too many requests; a closed queue is service unavailable.
pub open spec fn spec_admission_error(o: EnqueueOutcome) -> Option<ApiError> {
    match o {
        EnqueueOutcome::Accepted => None,
        EnqueueOutcome::Full => Some(ApiError::TooManyRequests),
        EnqueueOutcome::Closed => Some(ApiError::ServiceUnavailable),
    }
}

/// Maps an offer's outcome to the handler's error, if any.
pub fn admission_error(o: EnqueueOutcome) -> (r: Option<ApiError>)
    ensures
        r == spec_admission_error(o),
{
    match o {
        EnqueueOutcome::Accepted => None,
        EnqueueOutcome::Full => Some(ApiError::TooManyRequests),
        EnqueueOutcome::Closed => Some(ApiError::ServiceUnavailable),
    }
}

/// The receive budget left in a window: `max(0, window - elapsed)`, in
/// milliseconds. Zero ends the window.
pub fn window_budget_ms(window_ms: u64, elapsed_ms: u64) -> (r: u64)
    ensures
        r == (if elapsed_ms < window_ms {
            (window_ms - elapsed_ms) as int
        } else {
            0int
        }),
{
    if elapsed_ms < window_ms {
        window_ms - elapsed_ms
    } else {
        0
    }
}

/// Whether the window may take one more payload: the batch is below its size
/// bound.
pub fn window_has_room(batch_len: usize, max_batches: usize) -> (r: bool)
    ensures
        r == (batch_len < max_batches),
{
    batch_len < max_batches
}

} // verus!
