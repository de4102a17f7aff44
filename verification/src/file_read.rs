use crate::utils::{buffer_size, MAX_BUFFER_SIZE};
use std::collections::VecDeque;
use vstd::prelude::*;

verus! {

/// Error code a stream reports when the scheduler's queue was full: the
/// read could not even be started.
pub const KIND_WOULD_BLOCK: u32 = 11;

/// Error code the multipart streamer reports when a read returned no
/// bytes although its part is not done: the file is shorter than the
/// metadata claimed. The value lies outside the range of OS error
/// numbers, so it cannot collide with a code the host maps from a real
/// I/O error.
pub const KIND_EMPTY_READ: u32 = 4294967295;

/// What a finished read handed back: on success the file handle and the
/// bytes read; on failure the file handle, the untouched buffer and the
/// error's kind, so the consumer can decide what to do with them.
pub enum ReadResult {
    ReadOk { handle: u64, data: Vec<u8> },
    ReadErr { handle: u64, buffer: Vec<u8>, kind: u32 },
}

impl ReadResult {
    /// `other` carries exactly the same outcome as `self`.
    pub open spec fn matches(self, other: ReadResult) -> bool {
        match (self, other) {
            (
                ReadResult::ReadOk { handle: h1, data: d1 },
                ReadResult::ReadOk { handle: h2, data: d2 },
            ) => h1 == h2 && d1@ == d2@,
            (
                ReadResult::ReadErr { handle: h1, buffer: b1, kind: k1 },
                ReadResult::ReadErr { handle: h2, buffer: b2, kind: k2 },
            ) => h1 == h2 && b1@ == b2@ && k1 == k2,
            _ => false,
        }
    }

    /// The number of bytes read, for a successful read.
    pub open spec fn ok_len(self) -> int {
        match self {
            ReadResult::ReadOk { data, .. } => data@.len() as int,
            ReadResult::ReadErr { .. } => 0,
        }
    }

    /// The file handle the result carries back.
    pub open spec fn handle_of(self) -> u64 {
        match self {
            ReadResult::ReadOk { handle, .. } => handle,
            ReadResult::ReadErr { handle, .. } => handle,
        }
    }
}

fn clone_bytes(v: &Vec<u8>) -> (r: Vec<u8>)
    ensures
        r@ == v@,
{
    let mut r: Vec<u8> = Vec::new();
    let mut i: usize = 0;
    while i < v.len()
        invariant
            i <= v@.len(),
            r@ == v@.take(i as int),
        decreases v@.len() - i,
    {
        r.push(v[i]);
        proof {
            assert(v@.take(i + 1) =~= v@.take(i as int).push(v@[i as int]));
        }
        i += 1;
    }
    proof {
        assert(v@.take(v@.len() as int) =~= v@);
    }
    r
}

fn duplicate_result(r: &ReadResult) -> (c: ReadResult)
    ensures
        r.matches(c),
{
    match r {
        ReadResult::ReadOk { handle, data } => ReadResult::ReadOk {
            handle: *handle,
            data: clone_bytes(data),
        },
        ReadResult::ReadErr { handle, buffer, kind } => ReadResult::ReadErr {
            handle: *handle,
            buffer: clone_bytes(buffer),
            kind: *kind,
        },
    }
}

/// The five live states of one read operation, the terminal state, and
/// the reclaimed state of a slot whose result has been consumed:
/// ownership of the handle and the buffer moves with the state.
pub enum TaskState {
    /// Submitted; no worker has taken it and no poll has happened.
    Init { handle: u64, offset: u64, buffer: Vec<u8> },
    /// The consumer registered interest before a worker started.
    Ready { handle: u64, offset: u64, buffer: Vec<u8>, waker: u64 },
    /// A worker took the operation before any poll happened.
    WaitWaker { handle: u64, cap: usize },
    /// The consumer registered interest while the worker was running.
    SendWaker { handle: u64, cap: usize, waker: u64 },
    /// A worker is running and carries the wakeup handle it took at pickup.
    Working { handle: u64, cap: usize },
    /// Terminal: every later poll is answered from the stored result.
    Done { cap: usize, result: ReadResult },
    /// The consumer took the result and gave the slot back for reuse.
    Reclaimed,
}

impl TaskState {
    /// The capacity of the operation's buffer, which never changes over
    /// the operation's lifetime.
    pub open spec fn cap(self) -> int {
        match self {
            TaskState::Init { buffer, .. } => buffer@.len() as int,
            TaskState::Ready { buffer, .. } => buffer@.len() as int,
            TaskState::WaitWaker { cap, .. } => cap as int,
            TaskState::SendWaker { cap, .. } => cap as int,
            TaskState::Working { cap, .. } => cap as int,
            TaskState::Done { cap, .. } => cap as int,
            TaskState::Reclaimed => 0,
        }
    }

    /// The file handle the operation reads from, which also never
    /// changes: a completed operation hands back the handle it was given.
    pub open spec fn op_handle(self) -> u64 {
        match self {
            TaskState::Init { handle, .. } => handle,
            TaskState::Ready { handle, .. } => handle,
            TaskState::WaitWaker { handle, .. } => handle,
            TaskState::SendWaker { handle, .. } => handle,
            TaskState::Working { handle, .. } => handle,
            TaskState::Done { result, .. } => result.handle_of(),
            TaskState::Reclaimed => 0,
        }
    }

    /// Still waiting in the queue for a worker.
    pub open spec fn is_pending_pickup(self) -> bool {
        match self {
            TaskState::Init { .. } => true,
            TaskState::Ready { .. } => true,
            _ => false,
        }
    }

    /// Taken by a worker and not yet finished.
    pub open spec fn is_running(self) -> bool {
        match self {
            TaskState::WaitWaker { .. } => true,
            TaskState::SendWaker { .. } => true,
            TaskState::Working { .. } => true,
            _ => false,
        }
    }

    pub open spec fn is_done(self) -> bool {
        match self {
            TaskState::Done { .. } => true,
            _ => false,
        }
    }

    pub open spec fn is_reclaimed(self) -> bool {
        match self {
            TaskState::Reclaimed => true,
            _ => false,
        }
    }

    /// A stored result never claims more bytes than the buffer offered.
    pub open spec fn wf(self) -> bool {
        match self {
            TaskState::Done { cap, result } => result.ok_len() <= cap,
            _ => true,
        }
    }
}

/// What one poll of an operation reports.
pub enum TaskPoll {
    Pending,
    Ready(ReadResult),
}

/// The process-wide read scheduler: a bounded FIFO queue of submitted
/// operations, the state of every operation slot, and the slots whose
/// results have been consumed and which the next submission may reuse.
pub struct Scheduler {
    pub ops: Vec<TaskState>,
    pub queue: VecDeque<usize>,
    pub free: Vec<usize>,
    pub capacity: usize,
}

impl Scheduler {
    pub open spec fn wf(self) -> bool {
        &&& self.queue@.len() <= self.capacity
        &&& forall|i: int|
            0 <= i < self.queue@.len() ==> (#[trigger] self.queue@[i]) < self.ops@.len()
                && self.ops@[self.queue@[i] as int].is_pending_pickup()
        &&& forall|i: int, j: int|
            0 <= i < j < self.queue@.len() ==> self.queue@[i] != self.queue@[j]
        &&& forall|i: int| 0 <= i < self.ops@.len() ==> (#[trigger] self.ops@[i]).wf()
        &&& forall|i: int|
            0 <= i < self.free@.len() ==> (#[trigger] self.free@[i]) < self.ops@.len()
                && self.ops@[self.free@[i] as int].is_reclaimed()
        &&& forall|i: int, j: int| 0 <= i < j < self.free@.len() ==> self.free@[i] != self.free@[j]
    }

    pub fn new(capacity: usize) -> (s: Scheduler)
        ensures
            s.wf(),
            s.ops@.len() == 0,
            s.queue@.len() == 0,
            s.free@.len() == 0,
            s.capacity == capacity,
    {
        Scheduler { ops: Vec::new(), queue: VecDeque::new(), free: Vec::new(), capacity }
    }

    /// How many submitted operations no worker has taken yet.
    pub fn pending(&self) -> (r: usize)
        ensures
            r == self.queue@.len(),
    {
        self.queue.len()
    }
}

/// An operation picked up by a worker: the task, what to read, and the
/// wakeup handle registered so far, if any.
pub struct PickedTask {
    pub task: FileReadTask,
    pub handle: u64,
    pub offset: u64,
    pub buffer: Vec<u8>,
    pub waker: Option<u64>,
}

/// A handle on one submitted read operation.
#[derive(Clone, Copy, PartialEq, Eq, Structural, Debug)]
pub struct FileReadTask {
    pub id: usize,
}

impl FileReadTask {
    /// Submit a read to the scheduler, reusing a reclaimed slot when one
    /// exists. When the queue is full this fails at once, handing the
    /// file handle, offset and buffer back unchanged: backpressure, never
    /// blocking.
    pub fn create(sched: &mut Scheduler, handle: u64, offset: u64, buffer: Vec<u8>) -> (r: Result<
        FileReadTask,
        (u64, u64, Vec<u8>),
    >)
        requires
            old(sched).wf(),
        ensures
            final(sched).wf(),
            final(sched).capacity == old(sched).capacity,
            match r {
                Ok(task) => {
                    &&& old(sched).queue@.len() < old(sched).capacity
                    &&& final(sched).queue@ == old(sched).queue@.push(task.id)
                    &&& task.id < final(sched).ops@.len()
                    &&& final(sched).ops@[task.id as int] == (TaskState::Init {
                        handle,
                        offset,
                        buffer,
                    })
                    &&& forall|i: int|
                        0 <= i < old(sched).ops@.len() && i != task.id ==> final(sched).ops@[i]
                            == old(sched).ops@[i]
                    &&& (task.id < old(sched).ops@.len() ==> old(sched).ops@[task.id as int].is_reclaimed() && final(sched).ops@.len() == old(sched).ops@.len() && old(sched).free@.len() > 0 && task.id == old(sched).free@.last() && final(sched).free@ == old(sched).free@.drop_last())
                    &&& (task.id >= old(sched).ops@.len() ==> task.id == old(sched).ops@.len()
                        && final(sched).ops@.len() == old(sched).ops@.len() + 1 && final(sched).free@ == old(sched).free@)
                },
                Err((h, o, b)) => {
                    &&& old(sched).queue@.len() >= old(sched).capacity
                    &&& h == handle
                    &&& o == offset
                    &&& b == buffer
                    &&& final(sched).ops@ == old(sched).ops@
                    &&& final(sched).queue@ == old(sched).queue@
                    &&& final(sched).free@ == old(sched).free@
                },
            },
    {
        if sched.queue.len() >= sched.capacity {
            return Err((handle, offset, buffer));
        }
        let ghost old_ops = sched.ops@;
        let id = match sched.free.pop() {
            Some(id) => {
                let _reclaimed = sched.ops.remove(id);
                sched.ops.insert(id, TaskState::Init { handle, offset, buffer });
                proof {
                    assert(sched.ops@ =~= old_ops.update(
                        id as int,
                        TaskState::Init { handle, offset, buffer },
                    ));
                }
                id
            },
            None => {
                let id = sched.ops.len();
                sched.ops.push(TaskState::Init { handle, offset, buffer });
                id
            },
        };
        sched.queue.push_back(id);
        proof {
            assert forall|i: int|
                0 <= i < sched.queue@.len() implies (#[trigger] sched.queue@[i])
                < sched.ops@.len() && sched.ops@[sched.queue@[i] as int].is_pending_pickup() by {
                if i < sched.queue@.len() - 1 {
                    assert(old(sched).queue@[i] < old(sched).ops@.len());
                    assert(old(sched).ops@[old(sched).queue@[i] as int].is_pending_pickup());
                }
            }
            assert forall|i: int, j: int|
                0 <= i < j < sched.queue@.len() implies sched.queue@[i] != sched.queue@[j] by {
                if j < sched.queue@.len() - 1 {
                    assert(old(sched).queue@[i] != old(sched).queue@[j]);
                } else {
                    // a reused slot was reclaimed, a fresh slot is new:
                    // neither can already be queued as pending
                    assert(old(sched).ops@[old(sched).queue@[i] as int].is_pending_pickup());
                }
            }
            assert forall|i: int|
                0 <= i < sched.free@.len() implies (#[trigger] sched.free@[i]) < sched.ops@.len()
                && sched.ops@[sched.free@[i] as int].is_reclaimed() by {
                assert(old(sched).free@[i] < old(sched).ops@.len());
                assert(old(sched).ops@[old(sched).free@[i] as int].is_reclaimed());
                assert(sched.free@[i] != id) by {
                    if id < old(sched).ops@.len() {
                        assert(old(sched).free@[i] != old(sched).free@[old(sched).free@.len()
                            - 1] || i == old(sched).free@.len() - 1);
                    }
                }
            }
        }
        Ok(FileReadTask { id })
    }

    /// Ask whether the operation has finished; when it has not, register
    /// `waker` so the consumer is notified. Once the operation is done the
    /// same result is reported to this and every later poll, and the
    /// operation's state no longer changes: the result is delivered
    /// exactly once and re-read idempotently until the slot is reclaimed.
    pub fn poll(&self, sched: &mut Scheduler, waker: u64) -> (r: TaskPoll)
        requires
            old(sched).wf(),
            self.id < old(sched).ops@.len(),
        ensures
            final(sched).wf(),
            final(sched).capacity == old(sched).capacity,
            final(sched).queue@ == old(sched).queue@,
            final(sched).free@ == old(sched).free@,
            final(sched).ops@.len() == old(sched).ops@.len(),
            forall|i: int|
                0 <= i < final(sched).ops@.len() && i != self.id ==> final(sched).ops@[i] == old(sched).ops@[i],
            final(sched).ops@[self.id as int].cap() == old(sched).ops@[self.id as int].cap(),
            final(sched).ops@[self.id as int].op_handle() == old(sched).ops@[self.id as int].op_handle(),
            final(sched).ops@[self.id as int].is_pending_pickup() == old(sched).ops@[self.id as int].is_pending_pickup(),
            match old(sched).ops@[self.id as int] {
                TaskState::Init { handle, offset, buffer } => final(sched).ops@[self.id as int]
                    == (TaskState::Ready { handle, offset, buffer, waker }) && r is Pending,
                TaskState::Ready { handle, offset, buffer, waker: _ } => final(sched).ops@[self.id as int] == (TaskState::Ready { handle, offset, buffer, waker })
                    && r is Pending,
                TaskState::WaitWaker { handle, cap } => final(sched).ops@[self.id as int]
                    == (TaskState::SendWaker { handle, cap, waker }) && r is Pending,
                TaskState::SendWaker { handle, cap, waker: _ } => final(sched).ops@[self.id as int]
                    == (TaskState::SendWaker { handle, cap, waker }) && r is Pending,
                TaskState::Working { handle, cap } => final(sched).ops@[self.id as int]
                    == (TaskState::Working { handle, cap }) && r is Pending,
                TaskState::Done { cap: _, result } => final(sched).ops@[self.id as int] == old(sched).ops@[self.id as int] && match r {
                    TaskPoll::Ready(delivered) => result.matches(delivered),
                    TaskPoll::Pending => false,
                },
                TaskState::Reclaimed => final(sched).ops@[self.id as int] == old(sched).ops@[self.id as int] && r is Pending,
            },
    {
        let ghost old_ops = sched.ops@;
        let st = sched.ops.remove(self.id);
        let (new_st, out) = match st {
            TaskState::Init { handle, offset, buffer } => (
                TaskState::Ready { handle, offset, buffer, waker },
                TaskPoll::Pending,
            ),
            TaskState::Ready { handle, offset, buffer, waker: _ } => (
                TaskState::Ready { handle, offset, buffer, waker },
                TaskPoll::Pending,
            ),
            TaskState::WaitWaker { handle, cap } => (
                TaskState::SendWaker { handle, cap, waker },
                TaskPoll::Pending,
            ),
            TaskState::SendWaker { handle, cap, waker: _ } => (
                TaskState::SendWaker { handle, cap, waker },
                TaskPoll::Pending,
            ),
            TaskState::Working { handle, cap } => (
                TaskState::Working { handle, cap },
                TaskPoll::Pending,
            ),
            TaskState::Done { cap, result } => {
                let delivered = duplicate_result(&result);
                (TaskState::Done { cap, result }, TaskPoll::Ready(delivered))
            },
            TaskState::Reclaimed => (TaskState::Reclaimed, TaskPoll::Pending),
        };
        sched.ops.insert(self.id, new_st);
        proof {
            assert(sched.ops@ =~= old_ops.update(self.id as int, new_st));
        }
        out
    }
}

impl Scheduler {
    /// Worker side: take the oldest queued operation, if any, together
    /// with everything needed to perform the read.
    pub fn worker_pickup(&mut self) -> (r: Option<PickedTask>)
        requires
            old(self).wf(),
        ensures
            final(self).wf(),
            final(self).capacity == old(self).capacity,
            final(self).ops@.len() == old(self).ops@.len(),
            final(self).free@ == old(self).free@,
            match r {
                None => {
                    &&& old(self).queue@.len() == 0
                    &&& final(self).ops@ == old(self).ops@
                    &&& final(self).queue@ == old(self).queue@
                },
                Some(p) => {
                    &&& old(self).queue@.len() > 0
                    &&& p.task.id == old(self).queue@[0]
                    &&& final(self).queue@ == old(self).queue@.drop_first()
                    &&& p.task.id < final(self).ops@.len()
                    &&& forall|i: int|
                        0 <= i < final(self).ops@.len() && i != p.task.id ==> final(self).ops@[i]
                            == old(self).ops@[i]
                    &&& final(self).ops@[p.task.id as int].cap() == old(self).ops@[p.task.id as int].cap()
                    &&& final(self).ops@[p.task.id as int].op_handle() == old(self).ops@[p.task.id as int].op_handle()
                    &&& p.buffer@.len() == old(self).ops@[p.task.id as int].cap()
                    &&& match old(self).ops@[p.task.id as int] {
                        TaskState::Init { handle, offset, buffer } => {
                            &&& p.handle == handle
                            &&& p.offset == offset
                            &&& p.buffer == buffer
                            &&& p.waker is None
                            &&& final(self).ops@[p.task.id as int] == (TaskState::WaitWaker {
                                handle,
                                cap: buffer@.len() as usize,
                            })
                        },
                        TaskState::Ready { handle, offset, buffer, waker } => {
                            &&& p.handle == handle
                            &&& p.offset == offset
                            &&& p.buffer == buffer
                            &&& p.waker == Some(waker)
                            &&& final(self).ops@[p.task.id as int] == (TaskState::Working {
                                handle,
                                cap: buffer@.len() as usize,
                            })
                        },
                        _ => false,
                    }
                },
            },
    {
        let ghost old_ops = self.ops@;
        let id = match self.queue.pop_front() {
            None => {
                return None;
            },
            Some(id) => id,
        };
        let st = self.ops.remove(id);
        let picked: PickedTask;
        let new_st: TaskState;
        match st {
            TaskState::Init { handle, offset, buffer } => {
                let cap = buffer.len();
                picked = PickedTask { task: FileReadTask { id }, handle, offset, buffer, waker: None };
                new_st = TaskState::WaitWaker { handle, cap };
            },
            TaskState::Ready { handle, offset, buffer, waker } => {
                let cap = buffer.len();
                picked = PickedTask {
                    task: FileReadTask { id },
                    handle,
                    offset,
                    buffer,
                    waker: Some(waker),
                };
                new_st = TaskState::Working { handle, cap };
            },
            _ => {
                proof {
                    assert(false);
                }
                return None;
            },
        }
        self.ops.insert(id, new_st);
        proof {
            assert(self.ops@ =~= old_ops.update(id as int, new_st));
        }
        Some(picked)
    }

    /// Worker side: record the outcome of a finished read and say which
    /// wakeup handle, if any, must now be fired. The result must carry
    /// the operation's own file handle back. Whichever side acted last
    /// before completion left enough behind that no wakeup is missed: a
    /// handle registered before pickup travels with the worker, one
    /// registered after pickup is stored here, and when none was
    /// registered the consumer's next poll is answered directly.
    pub fn worker_complete(
        &mut self,
        task: &FileReadTask,
        result: ReadResult,
        carried_waker: Option<u64>,
    ) -> (wake: Option<u64>)
        requires
            old(self).wf(),
            task.id < old(self).ops@.len(),
            old(self).ops@[task.id as int].is_running(),
            old(self).ops@[task.id as int] is Working ==> carried_waker is Some,
            result.ok_len() <= old(self).ops@[task.id as int].cap(),
            result.handle_of() == old(self).ops@[task.id as int].op_handle(),
        ensures
            final(self).wf(),
            final(self).capacity == old(self).capacity,
            final(self).queue@ == old(self).queue@,
            final(self).free@ == old(self).free@,
            final(self).ops@.len() == old(self).ops@.len(),
            forall|i: int|
                0 <= i < final(self).ops@.len() && i != task.id ==> final(self).ops@[i] == old(self).ops@[i],
            final(self).ops@[task.id as int].cap() == old(self).ops@[task.id as int].cap(),
            final(self).ops@[task.id as int].op_handle() == old(self).ops@[task.id as int].op_handle(),
            match final(self).ops@[task.id as int] {
                TaskState::Done { cap: _, result: stored } => stored == result,
                _ => false,
            },
            wake == match old(self).ops@[task.id as int] {
                TaskState::WaitWaker { .. } => None::<u64>,
                TaskState::SendWaker { waker, .. } => Some(waker),
                TaskState::Working { .. } => carried_waker,
                _ => None::<u64>,
            },
    {
        let ghost old_ops = self.ops@;
        let st = self.ops.remove(task.id);
        let (cap, wake) = match st {
            TaskState::WaitWaker { handle: _, cap } => (cap, None),
            TaskState::SendWaker { handle: _, cap, waker } => (cap, Some(waker)),
            TaskState::Working { handle: _, cap } => (cap, carried_waker),
            _ => {
                proof {
                    assert(false);
                }
                (0, None)
            },
        };
        self.ops.insert(task.id, TaskState::Done { cap, result });
        proof {
            assert(self.ops@ =~= old_ops.update(
                task.id as int,
                TaskState::Done { cap, result },
            ));
            assert forall|i: int|
                0 <= i < self.queue@.len() implies (#[trigger] self.queue@[i]) < self.ops@.len()
                && self.ops@[self.queue@[i] as int].is_pending_pickup() by {
                assert(old(self).ops@[self.queue@[i] as int].is_pending_pickup());
                assert(self.queue@[i] != task.id);
            }
            assert forall|i: int|
                0 <= i < self.free@.len() implies (#[trigger] self.free@[i]) < self.ops@.len()
                && self.ops@[self.free@[i] as int].is_reclaimed() by {
                assert(old(self).ops@[self.free@[i] as int].is_reclaimed());
                assert(self.free@[i] != task.id);
            }
        }
        wake
    }

    /// Consumer side: give a finished operation's slot back, dropping the
    /// stored result, so a later submission can reuse it and a
    /// long-running process does not grow without bound.
    pub fn reclaim(&mut self, task: &FileReadTask)
        requires
            old(self).wf(),
            task.id < old(self).ops@.len(),
            old(self).ops@[task.id as int].is_done(),
        ensures
            final(self).wf(),
            final(self).capacity == old(self).capacity,
            final(self).queue@ == old(self).queue@,
            final(self).ops@ == old(self).ops@.update(task.id as int, TaskState::Reclaimed),
            final(self).free@ == old(self).free@.push(task.id),
    {
        let ghost old_ops = self.ops@;
        let _done = self.ops.remove(task.id);
        self.ops.insert(task.id, TaskState::Reclaimed);
        self.free.push(task.id);
        proof {
            assert(self.ops@ =~= old_ops.update(task.id as int, TaskState::Reclaimed));
            assert forall|i: int|
                0 <= i < self.queue@.len() implies (#[trigger] self.queue@[i]) < self.ops@.len()
                && self.ops@[self.queue@[i] as int].is_pending_pickup() by {
                assert(old(self).ops@[self.queue@[i] as int].is_pending_pickup());
                assert(self.queue@[i] != task.id);
            }
            assert forall|i: int, j: int|
                0 <= i < j < self.free@.len() implies self.free@[i] != self.free@[j] by {
                if j < self.free@.len() - 1 {
                    assert(old(self).free@[i] != old(self).free@[j]);
                } else {
                    assert(old(self).ops@[old(self).free@[i] as int].is_reclaimed());
                }
            }
        }
    }
}

/// A stream of byte chunks covering the still unread window `[start, end)`
/// of one file, produced through the scheduler one operation at a time.
pub struct FileReadStream {
    pub start: u64,
    pub end: u64,
    pub state: StreamState,
}

/// Whether the stream holds the file handle itself or has an operation in
/// flight that will hand it back.
#[derive(Clone, Copy, PartialEq, Eq, Structural, Debug)]
pub enum StreamState {
    Init { handle: u64 },
    Work { task: FileReadTask },
}

/// What one pull on a stream produced.
pub enum StreamOutput {
    Pending,
    Error { kind: u32 },
    Item { data: Vec<u8> },
    Complete { handle: u64 },
}

/// The scheduler is exactly as before.
pub open spec fn sched_unchanged(s0: Scheduler, s1: Scheduler) -> bool {
    &&& s1.ops@ == s0.ops@
    &&& s1.queue@ == s0.queue@
    &&& s1.free@ == s0.free@
    &&& s1.capacity == s0.capacity
}

/// The call submitted one new read: a zeroed buffer of exactly `len`
/// bytes for `handle` at `offset`, queued at the back, placed in a fresh
/// or reclaimed slot, already carrying the caller's wakeup handle, and
/// nothing else changed.
pub open spec fn submitted_to(
    s0: Scheduler,
    s1: Scheduler,
    task: FileReadTask,
    handle: u64,
    offset: u64,
    len: int,
    waker: u64,
) -> bool {
    &&& s1.queue@ == s0.queue@.push(task.id)
    &&& s1.capacity == s0.capacity
    &&& task.id < s1.ops@.len()
    &&& forall|i: int|
        0 <= i < s0.ops@.len() && i != task.id ==> s1.ops@[i] == s0.ops@[i]
    &&& (task.id < s0.ops@.len() ==> s0.ops@[task.id as int].is_reclaimed() && s1.ops@.len()
        == s0.ops@.len() && s0.free@.len() > 0 && task.id == s0.free@.last() && s1.free@
        == s0.free@.drop_last())
    &&& (task.id >= s0.ops@.len() ==> task.id == s0.ops@.len() && s1.ops@.len() == s0.ops@.len()
        + 1 && s1.free@ == s0.free@)
    &&& match s1.ops@[task.id as int] {
        TaskState::Ready { handle: h, offset: o, buffer, waker: w } => {
            &&& h == handle
            &&& o == offset
            &&& buffer@.len() == len
            &&& (forall|k: int| 0 <= k < buffer@.len() ==> buffer@[k] == 0)
            &&& w == waker
        },
        _ => false,
    }
}

/// The call consumed the operation's result and gave its slot back.
pub open spec fn slot_reclaimed(s0: Scheduler, s1: Scheduler, task: FileReadTask) -> bool {
    &&& s1.ops@ == s0.ops@.update(task.id as int, TaskState::Reclaimed)
    &&& s1.queue@ == s0.queue@
    &&& s1.free@ == s0.free@.push(task.id)
    &&& s1.capacity == s0.capacity
}

/// Everything one pull on a byte-range stream does, as a function of the
/// stream's and the scheduler's prior state: an empty window completes
/// at once and touches nothing; an idle stream over a non-empty window
/// either fails with `KIND_WOULD_BLOCK` because the queue is full (and
/// touches nothing) or submits a read of `min(remaining, MAX_BUFFER_SIZE)`
/// zeroed bytes at the window's start and reports Pending; a stream with
/// an unfinished operation reports Pending and leaves it in flight; and a
/// stream whose operation finished emits exactly the recorded bytes
/// (advancing the window by their number) or the recorded error, takes
/// the recorded handle back, and reclaims the slot.
pub open spec fn stream_poll_outcome(
    pre: FileReadStream,
    post: FileReadStream,
    s0: Scheduler,
    s1: Scheduler,
    waker: u64,
    r: StreamOutput,
) -> bool {
    match pre.state {
        StreamState::Init { handle } => {
            if pre.start == pre.end {
                &&& r == (StreamOutput::Complete { handle })
                &&& sched_unchanged(s0, s1)
                &&& post == pre
            } else if s0.queue@.len() >= s0.capacity {
                &&& r == (StreamOutput::Error { kind: KIND_WOULD_BLOCK })
                &&& sched_unchanged(s0, s1)
                &&& post == pre
            } else {
                &&& r is Pending
                &&& post.start == pre.start
                &&& post.end == pre.end
                &&& match post.state {
                    StreamState::Work { task } => submitted_to(
                        s0,
                        s1,
                        task,
                        handle,
                        pre.start,
                        vstd::math::min((pre.end - pre.start) as int, MAX_BUFFER_SIZE as int),
                        waker,
                    ),
                    _ => false,
                }
            }
        },
        StreamState::Work { task } => {
            match s0.ops@[task.id as int] {
                TaskState::Done { cap: _, result: ReadResult::ReadOk { handle, data } } => {
                    &&& r matches StreamOutput::Item { data: d } && d@ == data@
                    &&& post.start == pre.start + data@.len()
                    &&& post.end == pre.end
                    &&& post.state == (StreamState::Init { handle })
                    &&& slot_reclaimed(s0, s1, task)
                },
                TaskState::Done {
                    cap: _,
                    result: ReadResult::ReadErr { handle, buffer: _, kind },
                } => {
                    &&& r == (StreamOutput::Error { kind })
                    &&& post.start == pre.start
                    &&& post.end == pre.end
                    &&& post.state == (StreamState::Init { handle })
                    &&& slot_reclaimed(s0, s1, task)
                },
                _ => {
                    &&& r is Pending
                    &&& post == pre
                    &&& s1.queue@ == s0.queue@
                    &&& s1.free@ == s0.free@
                    &&& s1.capacity == s0.capacity
                    &&& s1.ops@.len() == s0.ops@.len()
                    &&& forall|i: int|
                        0 <= i < s0.ops@.len() && i != task.id ==> s1.ops@[i] == s0.ops@[i]
                    &&& s1.ops@[task.id as int].cap() == s0.ops@[task.id as int].cap()
                    &&& s1.ops@[task.id as int].op_handle() == s0.ops@[task.id as int].op_handle()
                    &&& !s1.ops@[task.id as int].is_done()
                    &&& !s1.ops@[task.id as int].is_reclaimed()
                },
            }
        },
    }
}

impl FileReadStream {
    /// The stream's outstanding operation, if any, is a live operation
    /// whose buffer fits in the remaining window.
    pub open spec fn wf(self, sched: Scheduler) -> bool {
        &&& self.start <= self.end
        &&& match self.state {
            StreamState::Init { .. } => true,
            StreamState::Work { task } => task.id < sched.ops@.len() && self.start < self.end
                && sched.ops@[task.id as int].cap() <= self.end - self.start && !sched.ops@[
                task.id as int
            ].is_reclaimed(),
        }
    }

    /// The file handle this stream reads from and will hand back.
    pub open spec fn stream_handle(self, sched: Scheduler) -> u64 {
        match self.state {
            StreamState::Init { handle } => handle,
            StreamState::Work { task } => sched.ops@[task.id as int].op_handle(),
        }
    }

    pub fn new(handle: u64, start: u64, end: u64) -> (r: FileReadStream)
        requires
            start <= end,
        ensures
            r.start == start,
            r.end == end,
            r.state == (StreamState::Init { handle }),
    {
        FileReadStream { start, end, state: StreamState::Init { handle } }
    }

    /// Pull once, exactly as `stream_poll_outcome` says: submit the next
    /// read if none is outstanding, poll it, and either emit the recorded
    /// bytes, report Pending, report an error, or hand the file handle
    /// back once the window is empty.
    pub fn poll_next(&mut self, sched: &mut Scheduler, waker: u64) -> (r: StreamOutput)
        requires
            old(self).wf(*old(sched)),
            old(sched).wf(),
        ensures
            final(self).wf(*final(sched)),
            final(sched).wf(),
            final(sched).capacity == old(sched).capacity,
            final(self).end == old(self).end,
            old(sched).ops@.len() <= final(sched).ops@.len(),
            final(self).stream_handle(*final(sched)) == old(self).stream_handle(*old(sched)),
            stream_poll_outcome(*old(self), *final(self), *old(sched), *final(sched), waker, r),
            forall|i: int|
                0 <= i < old(sched).ops@.len() && !(old(sched).ops@[i].is_reclaimed()) && (old(self).state matches StreamState::Work { task } ==> i != task.id) ==> final(sched).ops@[i] == old(sched).ops@[i],
    {
        if self.start == self.end {
            match self.state {
                StreamState::Init { handle } => {
                    return StreamOutput::Complete { handle };
                },
                StreamState::Work { .. } => {
                    proof {
                        assert(false);
                    }
                    return StreamOutput::Pending;
                },
            }
        }
        if let StreamState::Init { handle } = self.state {
            if sched.queue.len() >= sched.capacity {
                return StreamOutput::Error { kind: KIND_WOULD_BLOCK };
            }
            let size = buffer_size(self.end - self.start, MAX_BUFFER_SIZE);
            let buffer: Vec<u8> = vec![0u8; size];
            match FileReadTask::create(sched, handle, self.start, buffer) {
                Ok(task) => {
                    self.state = StreamState::Work { task };
                },
                Err((h, _o, _b)) => {
                    proof {
                        assert(false);
                    }
                    self.state = StreamState::Init { handle: h };
                    return StreamOutput::Error { kind: KIND_WOULD_BLOCK };
                },
            }
        }
        let task = match self.state {
            StreamState::Work { task } => task,
            StreamState::Init { .. } => {
                proof {
                    assert(false);
                }
                return StreamOutput::Pending;
            },
        };
        match task.poll(sched, waker) {
            TaskPoll::Pending => StreamOutput::Pending,
            TaskPoll::Ready(ReadResult::ReadOk { handle, data }) => {
                proof {
                    assert(sched.ops@ =~= old(sched).ops@);
                }
                sched.reclaim(&task);
                self.start = self.start + data.len() as u64;
                self.state = StreamState::Init { handle };
                StreamOutput::Item { data }
            },
            TaskPoll::Ready(ReadResult::ReadErr { handle, buffer: _, kind }) => {
                proof {
                    assert(sched.ops@ =~= old(sched).ops@);
                }
                sched.reclaim(&task);
                self.state = StreamState::Init { handle };
                StreamOutput::Error { kind }
            },
        }
    }
}

} // verus!
