use crate::file_read::{
    stream_poll_outcome, FileReadStream, Scheduler, StreamOutput, StreamState,
};
use vstd::prelude::*;

verus! {

/// Streams one non-empty byte range of a file through the scheduler.
pub struct SingleRangeReader {
    pub reader: FileReadStream,
}

impl SingleRangeReader {
    pub open spec fn wf(self, sched: Scheduler) -> bool {
        self.reader.wf(sched)
    }

    pub fn new(handle: u64, start: u64, end: u64) -> (r: SingleRangeReader)
        requires
            start < end,
        ensures
            r.reader.start == start,
            r.reader.end == end,
            r.reader.state == (StreamState::Init { handle }),
    {
        SingleRangeReader { reader: FileReadStream::new(handle, start, end) }
    }

    /// Pull the next chunk of the range, exactly as `stream_poll_outcome`
    /// says of the inner stream: submissions, saturation, recorded bytes
    /// and the returned handle are all pinned.
    pub fn poll_next(&mut self, sched: &mut Scheduler, waker: u64) -> (r: StreamOutput)
        requires
            old(self).wf(*old(sched)),
            old(sched).wf(),
        ensures
            final(self).wf(*final(sched)),
            final(sched).wf(),
            final(sched).capacity == old(sched).capacity,
            final(self).reader.end == old(self).reader.end,
            old(sched).ops@.len() <= final(sched).ops@.len(),
            final(self).reader.stream_handle(*final(sched)) == old(self).reader.stream_handle(
                *old(sched),
            ),
            stream_poll_outcome(
                old(self).reader,
                final(self).reader,
                *old(sched),
                *final(sched),
                waker,
                r,
            ),
            forall|i: int|
                0 <= i < old(sched).ops@.len() && !(old(sched).ops@[i].is_reclaimed()) && (old(self).reader.state matches StreamState::Work { task } ==> i != task.id) ==> final(sched).ops@[i] == old(sched).ops@[i],
    {
        self.reader.poll_next(sched, waker)
    }
}

} // verus!
