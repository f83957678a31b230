//! The shared request queue and the decisions of the pipeline's loops.
//!
//! The queue is the FIFO between the one multiplexer thread and the
//! worker pool.  It is deliberately unbounded: overload grows the queue
//! rather than dropping entries, an accepted and documented risk.  The
//! callers wrap it in their lock and condition signal; this module owns
//! the sequential discipline — what push and pop do to the contents —
//! and proves delivery exact: a ghost log records every entry ever
//! pushed, and each pop hands out the next logged entry exactly once, in
//! push order.  The multiplexer's and the workers' per-iteration
//! decisions live here too, as functions from plain state to an action,
//! so the unverifiable socket and thread plumbing around them stays free
//! of protocol policy.

use std::collections::VecDeque;
use vstd::prelude::*;

verus! {

/// The FIFO of pipeline entries, with a ghost log of every push and a
/// ghost count of deliveries.
pub struct RequestQueue<T> {
    items: VecDeque<T>,
    pushed: Ghost<Seq<T>>,
    delivered: Ghost<nat>,
}

impl<T> View for RequestQueue<T> {
    type V = Seq<T>;

    closed spec fn view(&self) -> Seq<T> {
        self.items@
    }
}

impl<T> RequestQueue<T> {
    /// The queue holds exactly the pushed entries not yet delivered, in
    /// push order.
    pub closed spec fn wf(&self) -> bool {
        &&& self.delivered@ <= self.pushed@.len()
        &&& self.items@ == self.pushed@.skip(self.delivered@ as int)
    }

    /// The log of every entry ever pushed, in order.
    pub closed spec fn pushed_log(&self) -> Seq<T> {
        self.pushed@
    }

    /// The count of entries delivered to consumers so far.
    pub closed spec fn delivered_count(&self) -> nat {
        self.delivered@
    }

    /// An empty queue with an empty history.
    pub fn new() -> (r: RequestQueue<T>)
        ensures
            r.wf(),
            r@ == Seq::<T>::empty(),
            r.pushed_log() == Seq::<T>::empty(),
            r.delivered_count() == 0,
    {
        let r = RequestQueue {
            items: VecDeque::new(),
            pushed: Ghost(Seq::empty()),
            delivered: Ghost(0nat),
        };
        proof {
            assert(r.items@ =~= r.pushed@.skip(0));
        }
        r
    }

    /// Appends one entry at the back and logs it.
    pub fn push(&mut self, entry: T)
        requires
            old(self).wf(),
        ensures
            final(self).wf(),
            final(self)@ == old(self)@.push(entry),
            final(self).pushed_log() == old(self).pushed_log().push(entry),
            final(self).delivered_count() == old(self).delivered_count(),
    {
        let ghost e = entry;
        self.items.push_back(entry);
        proof {
            self.pushed@ = self.pushed@.push(e);
            assert(self.items@ =~= self.pushed@.skip(self.delivered@ as int));
        }
    }

    /// Takes the front entry, if any.  A delivered entry is the next
    /// logged one — each pushed entry is handed out exactly once, in
    /// push order, which is the sequential core of the queue's
    /// at-least-once and at-most-once delivery guarantee.
    pub fn pop(&mut self) -> (r: Option<T>)
        requires
            old(self).wf(),
        ensures
            final(self).wf(),
            final(self).pushed_log() == old(self).pushed_log(),
            old(self)@.len() == 0 ==> r is None && final(self)@ == old(self)@
                && final(self).delivered_count() == old(self).delivered_count(),
            old(self)@.len() > 0 ==> final(self)@ == old(self)@.drop_first()
                && final(self).delivered_count() == old(self).delivered_count() + 1
                && r == Some(old(self).pushed_log()[old(self).delivered_count() as int])
                && r == Some(old(self)@[0]),
    {
        match self.items.pop_front() {
            Some(e) => {
                proof {
                    self.delivered@ = self.delivered@ + 1;
                    assert(self.items@ =~= self.pushed@.skip(self.delivered@ as int));
                }
                Some(e)
            },
            None => None,
        }
    }

    /// How many entries wait in the queue.
    pub fn len(&self) -> (r: usize)
        ensures
            r == self@.len(),
    {
        self.items.len()
    }

    /// Whether the queue is empty.
    pub fn is_empty(&self) -> (r: bool)
        ensures
            r == (self@.len() == 0),
    {
        self.items.len() == 0
    }

    /// Exactly-once delivery, sequentially: the pushed log splits into
    /// the entries already delivered — the first `delivered_count()`,
    /// each handed out once, in push order — and the entries still
    /// queued.  Nothing is lost and nothing is duplicated.
    pub proof fn lemma_exactly_once(&self)
        requires
            self.wf(),
        ensures
            self.delivered_count() <= self.pushed_log().len(),
            self@ == self.pushed_log().skip(self.delivered_count() as int),
            self.pushed_log() == self.pushed_log().take(self.delivered_count() as int) + self@,
    {
        assert(self.pushed@ =~= self.pushed@.take(self.delivered@ as int) + self.pushed@.skip(
            self.delivered@ as int,
        ));
    }
}

/// What one non-blocking read of a connection ended in: some bytes, a
/// would-block deferral, or a failure.
#[derive(Clone, Copy, PartialEq, Eq, Structural, Debug)]
pub enum ReadEvent {
    Data(usize),
    WouldBlock,
    Failed,
}

/// What the multiplexer does with the connection after one read.
#[derive(Clone, Copy, PartialEq, Eq, Structural, Debug)]
pub enum ReadAction {
    Enqueue,
    Requeue,
    Drop,
}

/// The multiplexer's disposition of one read: bytes mean the request is
/// queued and the connection kept for later passes; zero bytes mean the
/// peer is gone and the connection is dropped — deliberate, since the
/// transport never delivers a zero-byte payload; would-block defers the
/// connection unchanged; any other failure drops it silently.
pub open spec fn read_action(event: ReadEvent) -> ReadAction {
    match event {
        ReadEvent::Data(n) => if n > 0 {
            ReadAction::Enqueue
        } else {
            ReadAction::Drop
        },
        ReadEvent::WouldBlock => ReadAction::Requeue,
        ReadEvent::Failed => ReadAction::Drop,
    }
}

/// Decides the multiplexer's disposition of one read.
pub fn dispose_read(event: &ReadEvent) -> (a: ReadAction)
    ensures
        a == read_action(*event),
{
    match event {
        ReadEvent::Data(n) => if *n > 0 {
            ReadAction::Enqueue
        } else {
            ReadAction::Drop
        },
        ReadEvent::WouldBlock => ReadAction::Requeue,
        ReadEvent::Failed => ReadAction::Drop,
    }
}

/// What a worker does next after waking under the queue's lock.
#[derive(Clone, Copy, PartialEq, Eq, Structural, Debug)]
pub enum WorkerStep {
    Exit,
    Wait,
    Process,
}

/// The worker discipline: a cleared running flag means exit; an empty
/// queue means wait on the condition signal, re-checking on every wake
/// against spurious ones; otherwise pop one entry and process it with
/// the lock released.
pub open spec fn worker_action(running: bool, queued: nat) -> WorkerStep {
    if !running {
        WorkerStep::Exit
    } else if queued == 0 {
        WorkerStep::Wait
    } else {
        WorkerStep::Process
    }
}

/// Decides a worker's next step.
pub fn worker_step(running: bool, queued: usize) -> (s: WorkerStep)
    ensures
        s == worker_action(running, queued as nat),
{
    if !running {
        WorkerStep::Exit
    } else if queued == 0 {
        WorkerStep::Wait
    } else {
        WorkerStep::Process
    }
}

/// Shutdown never strands a worker: once stop has cleared the running
/// flag, a woken worker's next step is to exit, whatever the queue
/// holds — it never goes back to waiting.
pub proof fn lemma_stop_exits(queued: nat)
    ensures
        worker_action(false, queued) == WorkerStep::Exit,
{
}

} // verus!
