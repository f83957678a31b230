use irc_core::queue::{dispose_read, worker_step, ReadAction, ReadEvent, RequestQueue, WorkerStep};

#[test]
fn fifo_delivers_each_entry_once_in_order() {
    let mut q: RequestQueue<u32> = RequestQueue::new();
    for n in 1..=5u32 {
        q.push(n);
    }
    assert_eq!(q.len(), 5);
    for n in 1..=5u32 {
        assert_eq!(q.pop(), Some(n));
    }
    assert_eq!(q.pop(), None);
    assert!(q.is_empty());
}

#[test]
fn pop_on_empty_queue_is_none() {
    let mut q: RequestQueue<u32> = RequestQueue::new();
    assert!(q.is_empty());
    assert_eq!(q.pop(), None);
}

#[test]
fn interleaved_pushes_and_pops_keep_order() {
    let mut q: RequestQueue<u32> = RequestQueue::new();
    q.push(1);
    q.push(2);
    assert_eq!(q.pop(), Some(1));
    q.push(3);
    assert_eq!(q.pop(), Some(2));
    assert_eq!(q.pop(), Some(3));
    assert_eq!(q.pop(), None);
}

#[test]
fn read_with_data_enqueues() {
    assert_eq!(dispose_read(&ReadEvent::Data(5)), ReadAction::Enqueue);
}

#[test]
fn zero_byte_read_drops_the_connection() {
    assert_eq!(dispose_read(&ReadEvent::Data(0)), ReadAction::Drop);
}

#[test]
fn would_block_requeues_the_connection() {
    assert_eq!(dispose_read(&ReadEvent::WouldBlock), ReadAction::Requeue);
}

#[test]
fn failed_read_drops_the_connection() {
    assert_eq!(dispose_read(&ReadEvent::Failed), ReadAction::Drop);
}

#[test]
fn stopped_worker_exits_instead_of_waiting() {
    assert_eq!(worker_step(false, 0), WorkerStep::Exit);
    assert_eq!(worker_step(false, 7), WorkerStep::Exit);
}

#[test]
fn idle_worker_waits_and_busy_worker_processes() {
    assert_eq!(worker_step(true, 0), WorkerStep::Wait);
    assert_eq!(worker_step(true, 3), WorkerStep::Process);
}
