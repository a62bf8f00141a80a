//! Admission control in front of the completion provider: at most a fixed
//! number of calls run at once, and the others wait in arrival order.
//!
//! The dispatcher decides and keeps count; it runs nothing itself. The
//! caller starts every job that [`Dispatcher::submit`] or
//! [`Dispatcher::release`] hands back, and calls `release` once for each job
//! that has come to its end, however it ended.

use crate::text::views;
use crate::relay::{relay, relayed, StreamEvent};
use std::collections::VecDeque;
use vstd::prelude::*;

verus! {

/// Number of calls that run at once unless told otherwise.
pub const DEFAULT_CAPACITY: usize = 10;

/// Admission control over jobs of type `T`.
#[derive(Debug)]
pub struct Dispatcher<T> {
    capacity: usize,
    running: usize,
    waiting: VecDeque<T>,
}

/// Mathematical value of a [`Dispatcher`].
pub struct DispatcherView<T> {
    /// Number of jobs that may run at once.
    pub capacity: nat,
    /// Number of jobs handed out to run and not yet released.
    pub running: nat,
    /// Jobs not yet handed out, oldest first.
    pub waiting: Seq<T>,
}

impl<T> DispatcherView<T> {
    /// An idle dispatcher.
    pub open spec fn new(capacity: nat) -> Self {
        DispatcherView { capacity, running: 0, waiting: Seq::empty() }
    }

    /// Whether a job submitted now starts at once.
    pub open spec fn admits(self) -> bool {
        self.running < self.capacity
    }

    /// This dispatcher after `job` was submitted: it takes a free slot, or
    /// joins the end of the queue.
    pub open spec fn submit(self, job: T) -> Self {
        if self.admits() {
            DispatcherView { running: self.running + 1, ..self }
        } else {
            DispatcherView { waiting: self.waiting.push(job), ..self }
        }
    }

    /// The job that takes over the slot which a release frees, if any.
    pub open spec fn successor(self) -> Option<T> {
        if self.running > 0 && self.waiting.len() > 0 {
            Some(self.waiting[0])
        } else {
            None
        }
    }

    /// This dispatcher after one running job was released: the oldest
    /// waiting job takes its slot, or the slot falls free. With nothing
    /// running, nothing changes.
    pub open spec fn release(self) -> Self {
        if self.running == 0 {
            self
        } else if self.waiting.len() > 0 {
            DispatcherView { waiting: self.waiting.drop_first(), ..self }
        } else {
            DispatcherView { running: (self.running - 1) as nat, ..self }
        }
    }

    /// No more jobs run than the capacity allows, and a job waits only while
    /// every slot is taken.
    pub open spec fn balanced(self) -> bool {
        &&& self.running <= self.capacity
        &&& self.waiting.len() > 0 ==> self.running == self.capacity
    }
}

/// One call on a dispatcher.
pub enum Call<T> {
    Submit(T),
    Release,
}

/// What a series of calls has come to.
pub struct Course<T> {
    /// The dispatcher after the calls.
    pub state: DispatcherView<T>,
    /// Every job submitted, in the order of submission.
    pub submitted: Seq<T>,
    /// Every job handed out to run, in the order of handing out.
    pub started: Seq<T>,
    /// Number of releases that found a job running.
    pub finished: nat,
}

/// The course of `calls`, made in order on an idle dispatcher of the given
/// capacity.
pub open spec fn course<T>(capacity: nat, calls: Seq<Call<T>>) -> Course<T>
    decreases calls.len(),
{
    if calls.len() == 0 {
        Course {
            state: DispatcherView::new(capacity),
            submitted: Seq::empty(),
            started: Seq::empty(),
            finished: 0,
        }
    } else {
        let before = course(capacity, calls.drop_last());
        match calls.last() {
            Call::Submit(job) => Course {
                state: before.state.submit(job),
                submitted: before.submitted.push(job),
                started: if before.state.admits() {
                    before.started.push(job)
                } else {
                    before.started
                },
                finished: before.finished,
            },
            Call::Release => Course {
                state: before.state.release(),
                submitted: before.submitted,
                started: match before.state.successor() {
                    Some(job) => before.started.push(job),
                    None => before.started,
                },
                finished: if before.state.running > 0 {
                    before.finished + 1
                } else {
                    before.finished
                },
            },
        }
    }
}

/// Whatever calls are made, in whatever order: the jobs started and not yet
/// finished are exactly those the dispatcher counts as running, they are
/// never more than the capacity, and a job waits only while every slot is
/// taken.
pub proof fn lemma_capacity_is_never_exceeded<T>(capacity: nat, calls: Seq<Call<T>>)
    ensures
        course(capacity, calls).state.capacity == capacity,
        course(capacity, calls).state.balanced(),
        course(capacity, calls).state.running == course(capacity, calls).started.len() - course(
            capacity,
            calls,
        ).finished,
        course(capacity, calls).started.len() - course(capacity, calls).finished <= capacity,
    decreases calls.len(),
{
    if calls.len() > 0 {
        lemma_capacity_is_never_exceeded(capacity, calls.drop_last());
    }
}

/// Whatever calls are made: no submitted job is lost and none overtakes
/// another. The jobs started, followed by the jobs waiting, are the jobs
/// submitted, in the order of submission.
pub proof fn lemma_jobs_start_in_arrival_order<T>(capacity: nat, calls: Seq<Call<T>>)
    ensures
        course(capacity, calls).started + course(capacity, calls).state.waiting == course(
            capacity,
            calls,
        ).submitted,
    decreases calls.len(),
{
    let now = course(capacity, calls);
    if calls.len() == 0 {
        assert(now.started + now.state.waiting =~= now.submitted);
    } else {
        let before = course(capacity, calls.drop_last());
        lemma_jobs_start_in_arrival_order(capacity, calls.drop_last());
        assert(before.started + before.state.waiting == before.submitted);
        lemma_capacity_is_never_exceeded(capacity, calls.drop_last());
        assert(now.started + now.state.waiting =~= now.submitted);
    }
}

/// Whatever calls are made: a job is started as soon as a slot is there for
/// it. The number of jobs started is the number submitted, or the capacity
/// plus the number finished, whichever is less.
pub proof fn lemma_no_job_waits_for_a_free_slot<T>(capacity: nat, calls: Seq<Call<T>>)
    ensures
        course(capacity, calls).started.len() == if course(capacity, calls).submitted.len()
            <= capacity + course(capacity, calls).finished {
            course(capacity, calls).submitted.len()
        } else {
            capacity + course(capacity, calls).finished
        },
{
    lemma_capacity_is_never_exceeded(capacity, calls);
    lemma_jobs_start_in_arrival_order(capacity, calls);
    let now = course(capacity, calls);
    assert(now.submitted.len() == now.started.len() + now.state.waiting.len());
}

impl<T> View for Dispatcher<T> {
    type V = DispatcherView<T>;

    closed spec fn view(&self) -> DispatcherView<T> {
        DispatcherView {
            capacity: self.capacity as nat,
            running: self.running as nat,
            waiting: self.waiting@,
        }
    }
}

/// What a dispatcher passes on for one item of a running job's stream.
#[derive(Debug)]
pub struct Forwarded<T> {
    /// Texts for the session that owns the job, in order.
    pub texts: Vec<String>,
    /// The job to start in the slot that the stream's end has freed.
    pub next: Option<T>,
}

impl<T> Dispatcher<T> {
    /// An idle dispatcher that lets `capacity` jobs run at once.
    pub fn new(capacity: usize) -> (dispatcher: Self)
        ensures
            dispatcher@ == DispatcherView::<T>::new(capacity as nat),
    {
        Dispatcher { capacity, running: 0, waiting: VecDeque::new() }
    }

    pub fn capacity(&self) -> (capacity: usize)
        ensures
            capacity == self@.capacity,
    {
        self.capacity
    }

    pub fn running(&self) -> (running: usize)
        ensures
            running == self@.running,
    {
        self.running
    }

    pub fn waiting(&self) -> (waiting: usize)
        ensures
            waiting == self@.waiting.len(),
    {
        self.waiting.len()
    }

    /// Submits `job`. Where a slot is free the job comes back, to be started
    /// now; otherwise it waits its turn and nothing comes back.
    pub fn submit(&mut self, job: T) -> (start: Option<T>)
        ensures
            final(self)@ == old(self)@.submit(job),
            start == if old(self)@.admits() {
                Some(job)
            } else {
                None
            },
    {
        if self.running < self.capacity {
            self.running = self.running + 1;
            Some(job)
        } else {
            self.waiting.push_back(job);
            None
        }
    }

    /// Releases the slot of a job that has ended. The oldest waiting job, if
    /// there is one, comes back, to be started in that slot.
    pub fn release(&mut self) -> (start: Option<T>)
        ensures
            final(self)@ == old(self)@.release(),
            start == old(self)@.successor(),
    {
        if self.running == 0 {
            None
        } else {
            let next = self.waiting.pop_front();
            if next.is_none() {
                self.running = self.running - 1;
            } else {
                assert(self.waiting@ =~= old(self)@.waiting.drop_first());
            }
            next
        }
    }

    /// Passes on one item of a running job's stream. The slot is released
    /// when the stream is over, and not before.
    pub fn forward(&mut self, event: StreamEvent) -> (forwarded: Forwarded<T>)
        ensures
            views(forwarded.texts@) == relayed(event),
            final(self)@ == if event is Finished {
                old(self)@.release()
            } else {
                old(self)@
            },
            forwarded.next == if event is Finished {
                old(self)@.successor()
            } else {
                None
            },
    {
        let next = match &event {
            StreamEvent::Finished => self.release(),
            _ => None,
        };
        Forwarded { texts: relay(event), next }
    }
}

} // verus!
