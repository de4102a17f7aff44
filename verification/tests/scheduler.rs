use static_files::{
    FileReadTask, ReadResult, Scheduler, StreamOutput, TaskPoll,
};

#[test]
fn test_submit_beyond_capacity_fails_with_values_unchanged() {
    let mut sched = Scheduler::new(2);
    let first = FileReadTask::create(&mut sched, 7, 0, vec![0u8; 4]);
    assert!(first.is_ok());
    let second = FileReadTask::create(&mut sched, 8, 4, vec![0u8; 4]);
    assert!(second.is_ok());
    // the queue is full: the third submission is rejected at once and the
    // handle, offset and buffer come back untouched
    let third = FileReadTask::create(&mut sched, 9, 8, vec![1u8, 2, 3]);
    match third {
        Ok(_) => panic!("expected saturation"),
        Err((handle, offset, buffer)) => {
            assert_eq!(handle, 9);
            assert_eq!(offset, 8);
            assert_eq!(buffer, vec![1u8, 2, 3]);
        }
    }
    // a pickup frees one slot and submission works again
    assert!(sched.worker_pickup().is_some());
    assert!(FileReadTask::create(&mut sched, 9, 8, vec![1u8, 2, 3]).is_ok());
}

#[test]
fn test_poll_twice_then_complete_delivers_exactly_once() {
    let mut sched = Scheduler::new(16);
    let task = FileReadTask::create(&mut sched, 1, 0, vec![0u8; 4]).unwrap();

    // two polls before any worker touches the operation: both pending
    assert!(matches!(task.poll(&mut sched, 100), TaskPoll::Pending));
    assert!(matches!(task.poll(&mut sched, 101), TaskPoll::Pending));

    // the worker picks it up and carries the latest wakeup handle
    let picked = sched.worker_pickup().unwrap();
    assert_eq!(picked.task.id, task.id);
    assert_eq!(picked.waker, Some(101));
    assert_eq!(picked.handle, 1);
    assert_eq!(picked.buffer.len(), 4);

    // while the worker runs, another poll stays pending; the worker will
    // wake through the handle it carried from pickup
    assert!(matches!(task.poll(&mut sched, 102), TaskPoll::Pending));

    let wake = sched.worker_complete(
        &task,
        ReadResult::ReadOk {
            handle: picked.handle,
            data: vec![9u8, 8],
        },
        picked.waker,
    );
    assert_eq!(wake, Some(101));

    // the next poll delivers the one result
    let delivered = match task.poll(&mut sched, 103) {
        TaskPoll::Ready(ReadResult::ReadOk { handle, data }) => (handle, data),
        _ => panic!("expected the completed result"),
    };
    assert_eq!(delivered, (1, vec![9u8, 8]));

    // polling again re-reads the same terminal result without re-running
    // anything: one result, idempotently observable
    let again = match task.poll(&mut sched, 104) {
        TaskPoll::Ready(ReadResult::ReadOk { handle, data }) => (handle, data),
        _ => panic!("expected the completed result again"),
    };
    assert_eq!(again, (1, vec![9u8, 8]));
}

#[test]
fn test_complete_before_any_poll_needs_no_wakeup() {
    let mut sched = Scheduler::new(16);
    let task = FileReadTask::create(&mut sched, 3, 0, vec![0u8; 2]).unwrap();
    let picked = sched.worker_pickup().unwrap();
    assert_eq!(picked.waker, None);
    let wake = sched.worker_complete(
        &task,
        ReadResult::ReadOk {
            handle: 3,
            data: vec![1u8],
        },
        None,
    );
    assert_eq!(wake, None);
    assert!(matches!(task.poll(&mut sched, 1), TaskPoll::Ready(_)));
}

#[test]
fn test_poll_between_pickup_and_completion_is_woken() {
    let mut sched = Scheduler::new(16);
    let task = FileReadTask::create(&mut sched, 3, 0, vec![0u8; 2]).unwrap();
    let picked = sched.worker_pickup().unwrap();
    assert_eq!(picked.waker, None);
    // consumer registers interest while the worker is running
    assert!(matches!(task.poll(&mut sched, 55), TaskPoll::Pending));
    let wake = sched.worker_complete(
        &task,
        ReadResult::ReadErr {
            handle: 3,
            buffer: picked.buffer,
            kind: 5,
        },
        None,
    );
    assert_eq!(wake, Some(55));
    match task.poll(&mut sched, 56) {
        TaskPoll::Ready(ReadResult::ReadErr { handle, kind, .. }) => {
            assert_eq!(handle, 3);
            assert_eq!(kind, 5);
        }
        _ => panic!("expected the stored error"),
    }
}

#[test]
fn test_consumed_slots_are_reused() {
    let mut sched = Scheduler::new(16);
    let file = b"abcdefgh";
    // two streams drained one after the other share a single slot: the
    // first stream's operation is reclaimed when its result is consumed
    for round in 0..2u64 {
        let mut stream = static_files::FileReadStream::new(round, 0, file.len() as u64);
        let mut out: Vec<u8> = Vec::new();
        loop {
            match stream.poll_next(&mut sched, 0) {
                StreamOutput::Pending => {
                    let picked = sched.worker_pickup().unwrap();
                    let n = picked.buffer.len().min(file.len());
                    sched.worker_complete(
                        &picked.task,
                        ReadResult::ReadOk {
                            handle: picked.handle,
                            data: file[..n].to_vec(),
                        },
                        picked.waker,
                    );
                }
                StreamOutput::Item { data } => out.extend(data),
                StreamOutput::Error { kind } => panic!("stream error {}", kind),
                StreamOutput::Complete { handle } => {
                    assert_eq!(handle, round);
                    break;
                }
            }
        }
        assert_eq!(out, file.to_vec());
    }
    assert_eq!(sched.ops.len(), 1);
    assert_eq!(sched.free.len(), 1);
}

#[test]
fn test_stream_reports_saturation_as_error() {
    let mut sched = Scheduler::new(0);
    let mut stream = static_files::FileReadStream::new(1, 0, 10);
    match stream.poll_next(&mut sched, 1) {
        StreamOutput::Error { kind } => assert_eq!(kind, static_files::KIND_WOULD_BLOCK),
        _ => panic!("expected backpressure to surface as a stream error"),
    }
}
