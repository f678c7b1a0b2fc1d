use vstd::prelude::*;

use crate::job::Job;
use crate::model::{jobs_of, MessageModel, PoolModel, WorkerState};
use crate::model::{lemma_all_jobs_queue, lemma_jobs_of_concat, lemma_jobs_of_terminates};
use crate::model::{shutdown_queue, terminates};

verus! {

/// One control message on the channel: a job to run, or the signal that
/// tells exactly one worker to exit.
pub enum Message {
    NewJob(Job),
    Terminate,
}

impl View for Message {
    type V = MessageModel;

    open spec fn view(&self) -> MessageModel {
        match self {
            Message::NewJob(j) => MessageModel::NewJob(j@),
            Message::Terminate => MessageModel::Terminate,
        }
    }
}

/// Why a pool could not be built.
pub enum PoolError {
    /// A pool must have at least one worker.
    ZeroWorkers,
}

impl PoolError {
    /// A readable description of the error.
    pub fn message(&self) -> (m: &'static str)
        ensures
            m@ == "a thread pool needs at least one worker"@,
    {
        "a thread pool needs at least one worker"
    }
}

/// The worker pool: a FIFO control queue shared by a fixed set of workers.
///
/// The struct is the verified heart of the engine: it records the queue
/// content, each worker's lifecycle state, and (as ghost history) every
/// job submitted and every job handed to a worker. Its operations are the
/// job-submission protocol and the drain-then-terminate teardown.
pub struct ThreadPool {
    queue: Vec<Message>,
    workers: Vec<WorkerState>,
    shutting_down: bool,
    submitted: Ghost<Seq<Seq<char>>>,
    started: Ghost<Seq<Seq<char>>>,
}

impl View for ThreadPool {
    type V = PoolModel;

    closed spec fn view(&self) -> PoolModel {
        PoolModel {
            queue: self.queue@.map_values(|m: Message| m@),
            workers: self.workers@,
            shutting_down: self.shutting_down,
            submitted: self.submitted@,
            started: self.started@,
        }
    }
}

impl ThreadPool {
    /// Build a pool of `size` workers, or report that `size` is zero.
    ///
    /// Construction fails fast exactly when no worker is asked for; it
    /// never substitutes a default size.
    pub fn try_new(size: usize) -> (r: Result<ThreadPool, PoolError>)
        ensures
            size == 0 <==> r is Err,
            r matches Err(e) ==> e is ZeroWorkers,
            r matches Ok(p) ==> p@ == PoolModel::fresh(size as nat) && p@.wf(),
    {
        if size == 0 {
            return Err(PoolError::ZeroWorkers);
        }
        let mut workers: Vec<WorkerState> = Vec::new();
        let mut i: usize = 0;
        while i < size
            invariant
                i <= size,
                workers@ =~= Seq::new(i as nat, |k: int| WorkerState::Idle),
            decreases size - i,
        {
            workers.push(WorkerState::Idle);
            i += 1;
        }
        let pool = ThreadPool {
            queue: Vec::new(),
            workers,
            shutting_down: false,
            submitted: Ghost(Seq::empty()),
            started: Ghost(Seq::empty()),
        };
        proof {
            assert(pool@ =~~= PoolModel::fresh(size as nat));
        }
        Ok(pool)
    }

    /// Build a pool of `size` workers; `size` must be at least one.
    pub fn new(size: usize) -> (p: ThreadPool)
        requires
            size >= 1,
        ensures
            p@ == PoolModel::fresh(size as nat),
            p@.wf(),
    {
        match Self::try_new(size) {
            Ok(p) => p,
            Err(_) => {
                proof {
                    assert(false);
                }
                ThreadPool {
                    queue: Vec::new(),
                    workers: Vec::new(),
                    shutting_down: false,
                    submitted: Ghost(Seq::empty()),
                    started: Ghost(Seq::empty()),
                }
            },
        }
    }

    /// How many workers the pool was built with; fixed for its lifetime.
    pub fn worker_count(&self) -> (n: usize)
        ensures
            n == self@.workers.len(),
    {
        self.workers.len()
    }

    /// How many control messages are still waiting in the queue.
    pub fn pending(&self) -> (n: usize)
        ensures
            n == self@.queue.len(),
    {
        self.queue.len()
    }

    /// The lifecycle state of worker `w`.
    pub fn worker_state(&self, w: usize) -> (s: WorkerState)
        requires
            w < self@.workers.len(),
        ensures
            s == self@.workers[w as int],
    {
        self.workers[w]
    }

    /// Submit one job: it joins the back of the FIFO queue, behind every
    /// job submitted before it, and is never lost or duplicated.
    pub fn execute(&mut self, job: Job)
        requires
            old(self)@.wf(),
            !old(self)@.shutting_down,
        ensures
            final(self)@ == old(self)@.after_submit(job@),
            final(self)@.wf(),
            !final(self)@.shutting_down,
    {
        proof {
            lemma_jobs_of_concat(self@.queue, seq![MessageModel::NewJob(job@)]);
            assert(self@.queue.push(MessageModel::NewJob(job@)) =~= self@.queue + seq![
                MessageModel::NewJob(job@),
            ]);
            reveal_with_fuel(jobs_of, 2);
            assert(seq![MessageModel::NewJob(job@)].drop_first() =~= Seq::<
                MessageModel,
            >::empty());
            assert(jobs_of(seq![MessageModel::NewJob(job@)]) =~= seq![job@]);
        }
        self.submitted = Ghost(self.submitted@.push(job@));
        self.queue.push(Message::NewJob(job));
        proof {
            assert(self@ =~~= old(self)@.after_submit(self@.queue.last()->NewJob_0));
            assert(self@.submitted =~~= self@.started + jobs_of(self@.queue));
        }
    }

    /// Worker `w`, currently idle, takes the front message off the queue.
    ///
    /// Messages leave in strict FIFO order; each is delivered to exactly
    /// one worker; no other worker's state is read or changed, so a worker
    /// stuck in a job never stops the others from receiving.
    pub fn receive(&mut self, w: usize) -> (m: Option<Message>)
        requires
            old(self)@.wf(),
            w < old(self)@.workers.len(),
            old(self)@.workers[w as int] is Idle,
        ensures
            final(self)@.wf(),
            old(self)@.queue.len() == 0 ==> m is None && final(self)@ == old(self)@,
            old(self)@.queue.len() > 0 ==> {
                &&& m matches Some(msg) && msg@ == old(self)@.queue[0]
                &&& final(self)@ == old(self)@.after_receive(w as int)
            },
    {
        if self.queue.len() == 0 {
            proof {
                assert(self@ =~~= old(self)@);
            }
            return None;
        }
        let msg = self.queue.remove(0);
        match &msg {
            Message::NewJob(job) => {
                self.workers[w] = WorkerState::Executing;
                self.started = Ghost(self.started@.push(job@));
            },
            Message::Terminate => {
                self.workers[w] = WorkerState::Terminated;
            },
        }
        proof {
            assert(self@.queue =~= old(self)@.queue.drop_first());
            assert(self@ =~~= old(self)@.after_receive(w as int));
            assert(final(self)@.submitted =~~= final(self)@.started + jobs_of(
                final(self)@.queue,
            ));
        }
        Some(msg)
    }

    /// Worker `w` finishes the job it was running and goes back to
    /// waiting on the queue. Nothing else in the pool moves.
    pub fn complete(&mut self, w: usize)
        requires
            old(self)@.wf(),
            w < old(self)@.workers.len(),
            old(self)@.workers[w as int] is Executing,
        ensures
            final(self)@ == old(self)@.after_complete(w as int),
            final(self)@.wf(),
    {
        self.workers[w] = WorkerState::Idle;
        proof {
            assert(self@ =~~= old(self)@.after_complete(w as int));
        }
    }

    /// Tear the pool down: enqueue exactly one terminate message per
    /// worker, behind every job already queued, then let the workers
    /// drain the queue in FIFO order. Every job submitted before the
    /// teardown is handed out exactly once before this returns, no
    /// terminate message overtakes a job, and every worker exits.
    ///
    /// Returns the drained jobs in the order they were handed out, which
    /// is the order they were submitted in.
    pub fn shutdown(&mut self) -> (finished: Vec<Job>)
        requires
            old(self)@.wf(),
            !old(self)@.shutting_down,
            forall|i: int|
                0 <= i < old(self)@.workers.len() ==> old(self)@.workers[i] is Idle,
        ensures
            final(self)@ == old(self)@.after_shutdown(),
            final(self)@.wf(),
            finished@.map_values(|j: Job| j@) == old(self)@.queued_jobs(),
            final(self)@.started == old(self)@.submitted,
    {
        let ghost q0 = self@.queue;
        let ghost jobs = jobs_of(q0);
        let ghost started0 = self@.started;
        let ghost submitted0 = self@.submitted;
        let n = self.workers.len();
        let m = self.queue.len();
        proof {
            lemma_all_jobs_queue(q0);
        }

        // One terminate per worker, strictly behind the queued jobs.
        self.shutting_down = true;
        let mut t: usize = 0;
        while t < n
            invariant
                t <= n,
                self@.queue =~= shutdown_queue(q0, t as nat),
                self@.workers.len() == n,
                forall|i: int| 0 <= i < n ==> self@.workers[i] is Idle,
                self@.shutting_down,
                self@.started == started0,
                self@.submitted == submitted0,
            decreases n - t,
        {
            let ghost qprev = self@.queue;
            self.queue.push(Message::Terminate);
            proof {
                assert(self@.queue =~= qprev.push(MessageModel::Terminate));
                assert(self@.queue =~= shutdown_queue(q0, (t + 1) as nat));
            }
            t += 1;
        }

        // Drain the jobs: worker 0 takes each in FIFO order and runs it.
        let mut finished: Vec<Job> = Vec::new();
        proof {
            lemma_jobs_of_concat(q0, terminates(n as nat));
            lemma_jobs_of_terminates(n as nat);
            assert(jobs_of(shutdown_queue(q0, n as nat)) =~~= jobs);
            assert(q0.skip(0) =~= q0);
            assert(jobs.take(0) =~~= Seq::<Seq<char>>::empty());
            assert(self@.started =~~= started0 + jobs.take(0));
            assert(finished@.map_values(|j: Job| j@) =~~= jobs.take(0));
            assert(self@.submitted == self@.started + jobs_of(self@.queue));
        }
        let mut k: usize = 0;
        while k < m
            invariant
                k <= m,
                m == jobs.len(),
                m == q0.len(),
                forall|i: int| 0 <= i < q0.len() ==> q0[i] == MessageModel::NewJob(jobs[i]),
                self@.queue =~= shutdown_queue(q0.skip(k as int), n as nat),
                self@.workers.len() == n,
                n >= 1,
                forall|i: int| 0 <= i < n ==> self@.workers[i] is Idle,
                self@.shutting_down,
                self@.started =~~= started0 + jobs.take(k as int),
                self@.submitted == submitted0,
                self@.wf(),
                finished@.map_values(|j: Job| j@) =~~= jobs.take(k as int),
            decreases m - k,
        {
            let ghost pprev = self@;
            proof {
                assert(self@.queue[0] == q0[k as int]);
            }
            let msg = self.receive(0);
            match msg {
                Some(Message::NewJob(job)) => {
                    self.complete(0);
                    proof {
                        assert(self@.workers =~= pprev.workers);
                        assert(self@.queue =~= shutdown_queue(
                            q0.skip(k + 1 as int),
                            n as nat,
                        ));
                        assert(self@.started =~~= started0 + jobs.take(k + 1 as int));
                        assert(finished@.push(job).map_values(|j: Job| j@) =~~= jobs.take(
                            k + 1 as int,
                        ));
                    }
                    finished.push(job);
                },
                _ => {
                    proof {
                        assert(false);
                    }
                },
            }
            k += 1;
        }

        // Each worker takes one terminate message and exits.
        proof {
            assert(q0.skip(m as int) =~= Seq::<MessageModel>::empty());
            assert(shutdown_queue(q0.skip(m as int), n as nat) =~= terminates(n as nat));
            lemma_jobs_of_terminates(n as nat);
        }
        let mut w: usize = 0;
        while w < n
            invariant
                w <= n,
                self@.queue =~= terminates((n - w) as nat),
                self@.workers.len() == n,
                forall|i: int| 0 <= i < w ==> self@.workers[i] is Terminated,
                forall|i: int| w <= i < n ==> self@.workers[i] is Idle,
                self@.shutting_down,
                self@.started =~~= started0 + jobs,
                self@.submitted == submitted0,
                self@.wf(),
            decreases n - w,
        {
            proof {
                lemma_jobs_of_terminates((n - w) as nat);
                lemma_jobs_of_terminates((n - w - 1) as nat);
            }
            let msg = self.receive(w);
            match msg {
                Some(Message::Terminate) => {},
                _ => {
                    proof {
                        assert(false);
                    }
                },
            }
            proof {
                assert(self@.queue =~= terminates((n - w - 1) as nat));
            }
            w += 1;
        }

        proof {
            assert(self@ =~~= old(self)@.after_shutdown());
            assert(finished@.map_values(|j: Job| j@) =~~= old(self)@.queued_jobs());
        }
        finished
    }
}

} // verus!
