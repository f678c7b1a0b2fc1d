use vstd::prelude::*;

verus! {

/// The lifecycle of one worker: blocked on the channel, running a job to
/// completion, or exited after taking a terminate message.
#[derive(Clone, Copy, PartialEq, Eq, Structural, Debug)]
pub enum WorkerState {
    Idle,
    Executing,
    Terminated,
}

/// Abstract content of one control message: either the path of a queued
/// job, or the terminate signal.
pub enum MessageModel {
    NewJob(Seq<char>),
    Terminate,
}

/// The paths of the job messages in a queue, in queue order.
pub open spec fn jobs_of(q: Seq<MessageModel>) -> Seq<Seq<char>>
    decreases q.len(),
{
    if q.len() == 0 {
        Seq::empty()
    } else {
        match q[0] {
            MessageModel::NewJob(p) => seq![p] + jobs_of(q.drop_first()),
            MessageModel::Terminate => jobs_of(q.drop_first()),
        }
    }
}

/// A run of `n` terminate messages.
pub open spec fn terminates(n: nat) -> Seq<MessageModel> {
    Seq::new(n, |i: int| MessageModel::Terminate)
}

/// The queue as the shutdown sequence leaves it: every message already
/// queued stays in place, and one terminate per worker sits behind them.
pub open spec fn shutdown_queue(q: Seq<MessageModel>, n: nat) -> Seq<MessageModel> {
    q + terminates(n)
}

/// Abstract state of a pool: the FIFO control queue, the state of each
/// worker, whether shutdown has begun, and the two histories that the
/// contracts speak of — every job ever submitted, and every job handed to
/// a worker, each in order.
#[verifier::ext_equal]
pub struct PoolModel {
    pub queue: Seq<MessageModel>,
    pub workers: Seq<WorkerState>,
    pub shutting_down: bool,
    pub submitted: Seq<Seq<char>>,
    pub started: Seq<Seq<char>>,
}

impl PoolModel {
    /// A freshly constructed pool: `size` idle workers, nothing queued,
    /// nothing submitted, nothing handed out.
    pub open spec fn fresh(size: nat) -> PoolModel {
        PoolModel {
            queue: Seq::empty(),
            workers: Seq::new(size, |i: int| WorkerState::Idle),
            shutting_down: false,
            submitted: Seq::empty(),
            started: Seq::empty(),
        }
    }

    /// Well-formedness: at least one worker; the submission history is the
    /// hand-out history followed by what is still queued (so no job is ever
    /// lost or duplicated); and before shutdown begins the queue holds jobs
    /// only and no worker has exited.
    pub open spec fn wf(self) -> bool {
        &&& self.workers.len() >= 1
        &&& self.submitted == self.started + jobs_of(self.queue)
        &&& !self.shutting_down ==> (forall|i: int|
            0 <= i < self.queue.len() ==> self.queue[i] is NewJob)
        &&& !self.shutting_down ==> (forall|i: int|
            0 <= i < self.workers.len() ==> !(self.workers[i] is Terminated))
    }

    /// The paths of the jobs still waiting in the queue, in FIFO order.
    pub open spec fn queued_jobs(self) -> Seq<Seq<char>> {
        jobs_of(self.queue)
    }

    /// The state after one submission: the job goes to the back of the
    /// queue and onto the submission history; nothing else moves.
    pub open spec fn after_submit(self, p: Seq<char>) -> PoolModel {
        PoolModel {
            queue: self.queue.push(MessageModel::NewJob(p)),
            submitted: self.submitted.push(p),
            ..self
        }
    }

    /// The state after submitting a whole sequence of jobs, first first.
    pub open spec fn after_submit_all(self, ps: Seq<Seq<char>>) -> PoolModel
        decreases ps.len(),
    {
        if ps.len() == 0 {
            self
        } else {
            self.after_submit(ps[0]).after_submit_all(ps.drop_first())
        }
    }

    /// The state after worker `w` takes the front message: the message
    /// leaves the queue, only worker `w` changes state, and a job message
    /// extends the hand-out history.
    pub open spec fn after_receive(self, w: int) -> PoolModel {
        match self.queue[0] {
            MessageModel::NewJob(p) => PoolModel {
                queue: self.queue.drop_first(),
                workers: self.workers.update(w, WorkerState::Executing),
                started: self.started.push(p),
                ..self
            },
            MessageModel::Terminate => PoolModel {
                queue: self.queue.drop_first(),
                workers: self.workers.update(w, WorkerState::Terminated),
                ..self
            },
        }
    }

    /// The state after worker `w` finishes the job it was running.
    pub open spec fn after_complete(self, w: int) -> PoolModel {
        PoolModel { workers: self.workers.update(w, WorkerState::Idle), ..self }
    }

    /// The state after the full teardown: every queued job has been handed
    /// out, in FIFO order, every worker has taken its terminate message and
    /// exited, and the queue is empty.
    pub open spec fn after_shutdown(self) -> PoolModel {
        PoolModel {
            queue: Seq::empty(),
            workers: Seq::new(self.workers.len(), |i: int| WorkerState::Terminated),
            shutting_down: true,
            submitted: self.submitted,
            started: self.started + jobs_of(self.queue),
        }
    }
}

/// Splitting a queue splits its job paths: the jobs of `a + b` are the
/// jobs of `a` followed by the jobs of `b`.
pub proof fn lemma_jobs_of_concat(a: Seq<MessageModel>, b: Seq<MessageModel>)
    ensures
        jobs_of(a + b) == jobs_of(a) + jobs_of(b),
    decreases a.len(),
{
    if a.len() == 0 {
        assert(a + b =~= b);
        assert(jobs_of(a) + jobs_of(b) =~= jobs_of(b));
    } else {
        assert((a + b).drop_first() =~= a.drop_first() + b);
        lemma_jobs_of_concat(a.drop_first(), b);
        match a[0] {
            MessageModel::NewJob(p) => {
                assert(jobs_of(a + b) =~= jobs_of(a) + jobs_of(b));
            },
            MessageModel::Terminate => {},
        }
    }
}

/// Terminate messages carry no jobs.
pub proof fn lemma_jobs_of_terminates(n: nat)
    ensures
        jobs_of(terminates(n)) == Seq::<Seq<char>>::empty(),
    decreases n,
{
    if n > 0 {
        assert(terminates(n).drop_first() =~= terminates((n - 1) as nat));
        lemma_jobs_of_terminates((n - 1) as nat);
    }
}

/// A queue of job messages alone carries exactly those jobs, in order.
pub proof fn lemma_jobs_of_job_run(ps: Seq<Seq<char>>)
    ensures
        jobs_of(ps.map_values(|p: Seq<char>| MessageModel::NewJob(p))) == ps,
    decreases ps.len(),
{
    let msgs = ps.map_values(|p: Seq<char>| MessageModel::NewJob(p));
    if ps.len() == 0 {
        assert(jobs_of(msgs) =~= ps);
    } else {
        lemma_jobs_of_job_run(ps.drop_first());
        assert(msgs.drop_first() =~= ps.drop_first().map_values(
            |p: Seq<char>| MessageModel::NewJob(p)));
        assert(jobs_of(msgs) =~= ps);
    }
}

/// In a queue of job messages alone, the message at each position carries
/// exactly the job path at that position.
pub proof fn lemma_all_jobs_queue(q: Seq<MessageModel>)
    requires
        forall|i: int| 0 <= i < q.len() ==> q[i] is NewJob,
    ensures
        jobs_of(q).len() == q.len(),
        forall|i: int| 0 <= i < q.len() ==> q[i] == MessageModel::NewJob(jobs_of(q)[i]),
    decreases q.len(),
{
    if q.len() > 0 {
        lemma_all_jobs_queue(q.drop_first());
        assert forall|i: int| 0 <= i < q.len() implies q[i] == MessageModel::NewJob(
            jobs_of(q)[i],
        ) by {
            if i > 0 {
                assert(q.drop_first()[i - 1] == q[i]);
            }
        }
    }
}

/// Submitting a sequence of jobs appends exactly those jobs, in order, to
/// the queue and to the submission history, and touches nothing else.
pub proof fn lemma_submit_all_effect(p: PoolModel, ps: Seq<Seq<char>>)
    ensures
        p.after_submit_all(ps).queue == p.queue + ps.map_values(
            |q: Seq<char>| MessageModel::NewJob(q),
        ),
        p.after_submit_all(ps).submitted == p.submitted + ps,
        p.after_submit_all(ps).started == p.started,
        p.after_submit_all(ps).workers == p.workers,
        p.after_submit_all(ps).shutting_down == p.shutting_down,
    decreases ps.len(),
{
    let ctor = |q: Seq<char>| MessageModel::NewJob(q);
    if ps.len() == 0 {
        assert(p.after_submit_all(ps).queue =~= p.queue + ps.map_values(ctor));
        assert(p.after_submit_all(ps).submitted =~= p.submitted + ps);
    } else {
        let p1 = p.after_submit(ps[0]);
        lemma_submit_all_effect(p1, ps.drop_first());
        assert(p1.queue + ps.drop_first().map_values(ctor) =~= p.queue + ps.map_values(
            ctor,
        ));
        assert(p1.submitted + ps.drop_first() =~= p.submitted + ps);
    }
}

/// Every submission is kept: after any sequence of submissions — in
/// particular, any serialization of submissions racing in from several
/// producers — the pool has queued exactly those jobs, in order, behind
/// what was already queued; none is lost or duplicated, and none has been
/// handed to a worker yet.
pub proof fn lemma_no_submission_lost_or_duplicated(p: PoolModel, ps: Seq<Seq<char>>)
    requires
        p.wf(),
        !p.shutting_down,
    ensures
        p.after_submit_all(ps).wf(),
        !p.after_submit_all(ps).shutting_down,
        p.after_submit_all(ps).queued_jobs() == p.queued_jobs() + ps,
        p.after_submit_all(ps).submitted == p.submitted + ps,
        p.after_submit_all(ps).started == p.started,
{
    let ctor = |q: Seq<char>| MessageModel::NewJob(q);
    let p2 = p.after_submit_all(ps);
    lemma_submit_all_effect(p, ps);
    lemma_jobs_of_concat(p.queue, ps.map_values(ctor));
    lemma_jobs_of_job_run(ps);
    assert(p2.submitted =~~= p2.started + jobs_of(p2.queue));
    assert forall|i: int| 0 <= i < p2.queue.len() implies p2.queue[i] is NewJob by {
        if i >= p.queue.len() {
            assert(p2.queue[i] == ps.map_values(ctor)[i - p.queue.len()]);
        }
    }
}

/// Constructing a pool with any number of workers and tearing it down
/// without ever submitting a job hands no job out, and leaves all its
/// workers exited.
pub proof fn lemma_empty_pool_terminates(n: nat)
    requires
        n >= 1,
    ensures
        PoolModel::fresh(n).wf(),
        PoolModel::fresh(n).after_shutdown().wf(),
        PoolModel::fresh(n).after_shutdown().started == Seq::<Seq<char>>::empty(),
        PoolModel::fresh(n).after_shutdown().workers.len() == n,
        forall|i: int|
            0 <= i < n ==> PoolModel::fresh(n).after_shutdown().workers[i] is Terminated,
{
    let p = PoolModel::fresh(n);
    assert(p.submitted =~~= p.started + jobs_of(p.queue));
    assert(p.after_shutdown().started =~~= Seq::<Seq<char>>::empty());
    assert(p.after_shutdown().submitted =~~= p.after_shutdown().started + jobs_of(
        p.after_shutdown().queue,
    ));
}

/// Every job submitted before the teardown is handed to a worker exactly
/// once, in submission order, by the time the teardown is over: for any
/// worker count and any sequence of submitted jobs, the hand-out history
/// ends up equal to the submission sequence itself.
pub proof fn lemma_every_job_runs_exactly_once(n: nat, ps: Seq<Seq<char>>)
    requires
        n >= 1,
    ensures
        PoolModel::fresh(n).after_submit_all(ps).wf(),
        PoolModel::fresh(n).after_submit_all(ps).after_shutdown().started == ps,
        PoolModel::fresh(n).after_submit_all(ps).after_shutdown().submitted == ps,
{
    let p = PoolModel::fresh(n);
    assert(p.submitted =~~= p.started + jobs_of(p.queue));
    lemma_no_submission_lost_or_duplicated(p, ps);
    let p2 = p.after_submit_all(ps);
    assert(p2.after_shutdown().started =~~= ps);
    assert(p2.submitted =~~= ps);
}

/// The terminate messages enqueued by the teardown never overtake a job:
/// every message already queued keeps its position, and the terminate
/// messages all sit behind them, so a worker draining the queue in order
/// reaches every pending job before any terminate message.
pub proof fn lemma_terminate_behind_jobs(q: Seq<MessageModel>, n: nat)
    ensures
        shutdown_queue(q, n).len() == q.len() + n,
        forall|i: int| 0 <= i < q.len() ==> shutdown_queue(q, n)[i] == q[i],
        forall|i: int| q.len() <= i < q.len() + n ==> shutdown_queue(q, n)[i] is Terminate,
        jobs_of(shutdown_queue(q, n)) == jobs_of(q),
{
    lemma_jobs_of_concat(q, terminates(n));
    lemma_jobs_of_terminates(n);
    assert(jobs_of(shutdown_queue(q, n)) =~~= jobs_of(q));
}

/// A job that never returns occupies exactly the one worker running it:
/// while worker `b` stays in the executing state, any other idle worker
/// can still take the next queued job, and `b`'s state is neither read
/// nor changed by that hand-off.
pub proof fn lemma_busy_worker_blocks_only_itself(
    p: PoolModel,
    b: int,
    w: int,
    jobv: Seq<char>,
)
    requires
        p.wf(),
        0 <= b < p.workers.len(),
        0 <= w < p.workers.len(),
        b != w,
        p.workers[b] is Executing,
        p.workers[w] is Idle,
        p.queue.len() > 0,
        p.queue[0] == MessageModel::NewJob(jobv),
    ensures
        p.after_receive(w).wf(),
        p.after_receive(w).workers[b] == p.workers[b],
        p.after_receive(w).workers[w] is Executing,
        p.after_receive(w).started == p.started.push(jobv),
        p.after_receive(w).queue == p.queue.drop_first(),
{
    let p2 = p.after_receive(w);
    assert(p2.submitted =~~= p2.started + jobs_of(p2.queue));
    if !p2.shutting_down {
        assert forall|i: int| 0 <= i < p2.queue.len() implies p2.queue[i] is NewJob by {
            assert(p2.queue[i] == p.queue[i + 1]);
        }
    }
}

} // verus!
