//! The job queue: the documents of the jobs, and the operations by which
//! workers claim, keep, finish and release them. The queue is shared; each
//! operation is one atomic step on it, and is stated here as a function from
//! the queue before the step to the queue after it.

use crate::db::progress::{JobProgress, JobResult};
use crate::text::str_eq;
use vstd::prelude::*;

verus! {

/// Who asked for the job.
#[derive(Debug, Clone, Copy, PartialEq, Eq, Structural)]
pub enum JobType {
    Manual,
    Scheduled,
    Admin,
}

/// The state of a job.
#[derive(Debug, Clone, Copy, PartialEq, Eq, Structural)]
pub enum JobStatus {
    Queued,
    Processing,
    Completed,
    Failed,
    Skipped,
}

/// The document of a job. Times are milliseconds since the Unix epoch.
#[derive(Debug, Clone)]
pub struct Job {
    /// The key of the document.
    pub id: String,
    /// The stable identifier of the job.
    pub job_id: String,
    pub user_id: Option<String>,
    /// The tenant, or `__default__` for the system-wide build.
    pub username: String,
    pub job_type: JobType,
    pub status: JobStatus,
    /// The lower the number, the sooner the job is claimed.
    pub priority: i32,
    pub progress: JobProgress,
    pub result: Option<JobResult>,
    pub started_at: Option<i64>,
    pub completed_at: Option<i64>,
    pub created_at: i64,
    /// The worker that holds the job.
    pub worker_id: Option<String>,
    pub claimed_at: Option<i64>,
    pub heartbeat_at: Option<i64>,
    pub read: bool,
}

/// The jobs of the queue, in the order in which the database keeps them.
pub struct JobStore {
    pub jobs: Vec<Job>,
}

/// The hand of one worker on the queue.
pub struct JobRepository {
    worker_id: String,
}

impl JobStatus {
    /// Whether a job in this state is over.
    pub open spec fn is_terminal(self) -> bool {
        self == JobStatus::Completed || self == JobStatus::Failed || self == JobStatus::Skipped
    }
}

impl Job {
    /// Whether the job waits for a worker.
    pub open spec fn is_claimable(&self) -> bool {
        self.status == JobStatus::Queued && self.worker_id is None
    }

    /// Whether the worker `worker` holds the job.
    pub open spec fn is_held_by(&self, worker: Seq<char>) -> bool {
        self.status == JobStatus::Processing && (self.worker_id matches Some(w) && w@ == worker)
    }

    /// The rule of ownership: a job that is being processed has a worker,
    /// and the times of claim, heartbeat and start are set exactly where a
    /// worker is.
    pub open spec fn owner_rule(&self) -> bool {
        &&& self.status == JobStatus::Processing ==> self.worker_id is Some
        &&& (self.worker_id is Some) == (self.claimed_at is Some)
        &&& (self.worker_id is Some) == (self.heartbeat_at is Some)
        &&& (self.worker_id is Some) == (self.started_at is Some)
    }

    /// The rule of ownership, and that a job with a worker is being processed.
    pub open spec fn strict_owner_rule(&self) -> bool {
        &&& self.owner_rule()
        &&& self.worker_id is Some ==> self.status == JobStatus::Processing
    }

    /// Whether the job is to be claimed sooner than `other`: by priority,
    /// then by age.
    pub open spec fn comes_before(&self, other: &Job) -> bool {
        self.priority < other.priority || (self.priority == other.priority && self.created_at
            < other.created_at)
    }
}

/// The job as the worker `worker` holds it after a claim at `now`.
pub open spec fn claimed(job: Job, worker: String, now: i64) -> Job {
    Job {
        status: JobStatus::Processing,
        worker_id: Some(worker),
        claimed_at: Some(now),
        heartbeat_at: Some(now),
        started_at: Some(now),
        ..job
    }
}

/// The job after a heartbeat at `now`.
pub open spec fn kept_alive(job: Job, now: i64) -> Job {
    Job { heartbeat_at: Some(now), ..job }
}

/// The job back in the queue, as if it had never been claimed.
pub open spec fn released(job: Job) -> Job {
    Job {
        status: JobStatus::Queued,
        worker_id: None,
        claimed_at: None,
        heartbeat_at: None,
        started_at: None,
        ..job
    }
}

/// The job after it ended at `now` in the state `status` with `result`.
pub open spec fn ended(job: Job, status: JobStatus, result: JobResult, now: i64) -> Job {
    Job { status, completed_at: Some(now), result: Some(result), ..job }
}

/// The job with its progress replaced.
pub open spec fn advanced(job: Job, progress: JobProgress) -> Job {
    Job { progress, ..job }
}

/// The index of the job that a claim takes: of the jobs that wait for a
/// worker the one that comes before the others, and of several such the
/// first. None where no job waits.
pub open spec fn next_claim(jobs: Seq<Job>) -> Option<int>
    decreases jobs.len(),
{
    if jobs.len() == 0 {
        None
    } else {
        let front = next_claim(jobs.drop_last());
        if !jobs.last().is_claimable() {
            front
        } else {
            match front {
                Some(b) => if jobs.last().comes_before(&jobs[b]) {
                    Some(jobs.len() - 1)
                } else {
                    Some(b)
                },
                None => Some(jobs.len() - 1),
            }
        }
    }
}

/// The index of the first job with the identifier `job_id` that `worker` holds.
pub open spec fn first_held(jobs: Seq<Job>, job_id: Seq<char>, worker: Seq<char>) -> Option<int>
    decreases jobs.len(),
{
    if jobs.len() == 0 {
        None
    } else {
        match first_held(jobs.drop_last(), job_id, worker) {
            Some(i) => Some(i),
            None => if jobs.last().job_id@ == job_id && jobs.last().is_held_by(worker) {
                Some(jobs.len() - 1)
            } else {
                None
            },
        }
    }
}

/// The index of the first job with the key `id`.
pub open spec fn first_with_key(jobs: Seq<Job>, id: Seq<char>) -> Option<int>
    decreases jobs.len(),
{
    if jobs.len() == 0 {
        None
    } else {
        match first_with_key(jobs.drop_last(), id) {
            Some(i) => Some(i),
            None => if jobs.last().id@ == id {
                Some(jobs.len() - 1)
            } else {
                None
            },
        }
    }
}

/// How many jobs `worker` holds.
pub open spec fn held_count(jobs: Seq<Job>, worker: Seq<char>) -> nat
    decreases jobs.len(),
{
    if jobs.len() == 0 {
        0
    } else {
        held_count(jobs.drop_last(), worker) + if jobs.last().is_held_by(worker) {
            1nat
        } else {
            0nat
        }
    }
}

/// How many jobs wait for a worker.
pub open spec fn waiting_count(jobs: Seq<Job>) -> nat
    decreases jobs.len(),
{
    if jobs.len() == 0 {
        0
    } else {
        waiting_count(jobs.drop_last()) + if jobs.last().is_claimable() {
            1nat
        } else {
            0nat
        }
    }
}

/// The queue after `worker` claimed at `now`, and the index of the job it got.
pub open spec fn after_claim(jobs: Seq<Job>, worker: String, now: i64) -> (Seq<Job>, Option<int>) {
    match next_claim(jobs) {
        Some(i) => (jobs.update(i, claimed(jobs[i], worker, now)), Some(i)),
        None => (jobs, None),
    }
}

/// The queue after a heartbeat of `worker` for `job_id` at `now`.
pub open spec fn after_heartbeat(jobs: Seq<Job>, job_id: Seq<char>, worker: Seq<char>, now: i64) -> Seq<
    Job,
> {
    match first_held(jobs, job_id, worker) {
        Some(i) => jobs.update(i, kept_alive(jobs[i], now)),
        None => jobs,
    }
}

/// The queue after `worker` released `job_id`.
pub open spec fn after_release(jobs: Seq<Job>, job_id: Seq<char>, worker: Seq<char>) -> Seq<Job> {
    match first_held(jobs, job_id, worker) {
        Some(i) => jobs.update(i, released(jobs[i])),
        None => jobs,
    }
}

/// The queue after `worker` released every job it held.
pub open spec fn after_release_all(jobs: Seq<Job>, worker: Seq<char>) -> Seq<Job> {
    jobs.map_values(
        |j: Job|
            if j.is_held_by(worker) {
                released(j)
            } else {
                j
            },
    )
}

/// The queue after the job with the key `id` ended.
pub open spec fn after_end(
    jobs: Seq<Job>,
    id: Seq<char>,
    status: JobStatus,
    result: JobResult,
    now: i64,
) -> Seq<Job> {
    match first_with_key(jobs, id) {
        Some(i) => jobs.update(i, ended(jobs[i], status, result, now)),
        None => jobs,
    }
}

/// Whether every job keeps the rule of ownership.
pub open spec fn all_owned_rightly(jobs: Seq<Job>) -> bool {
    forall|i: int| 0 <= i < jobs.len() ==> (#[trigger] jobs[i]).owner_rule()
}

/// Whether every job keeps the strict rule of ownership.
pub open spec fn all_owned_strictly(jobs: Seq<Job>) -> bool {
    forall|i: int| 0 <= i < jobs.len() ==> (#[trigger] jobs[i]).strict_owner_rule()
}

pub proof fn lemma_next_claim(jobs: Seq<Job>)
    ensures
        match next_claim(jobs) {
            Some(i) => {
                &&& 0 <= i < jobs.len()
                &&& jobs[i].is_claimable()
                &&& forall|j: int|
                    0 <= j < jobs.len() && (#[trigger] jobs[j]).is_claimable()
                        ==> !jobs[j].comes_before(&jobs[i])
                &&& forall|j: int|
                    0 <= j < i && (#[trigger] jobs[j]).is_claimable() ==> jobs[i].comes_before(
                        &jobs[j],
                    )
            },
            None => forall|j: int| 0 <= j < jobs.len() ==> !(#[trigger] jobs[j]).is_claimable(),
        },
    decreases jobs.len(),
{
    if jobs.len() > 0 {
        let front = jobs.drop_last();
        lemma_next_claim(front);
        let last = jobs.len() - 1;
        assert forall|j: int| 0 <= j < last implies jobs[j] == front[j] by {}
        match next_claim(jobs) {
            Some(i) => {
                assert forall|j: int|
                    0 <= j < jobs.len() && (#[trigger] jobs[j]).is_claimable()
                        implies !jobs[j].comes_before(&jobs[i]) by {
                    if j < last {
                        assert(front[j].is_claimable());
                    }
                }
                assert forall|j: int|
                    0 <= j < i && (#[trigger] jobs[j]).is_claimable() implies jobs[i].comes_before(
                    &jobs[j],
                ) by {
                    assert(front[j].is_claimable());
                    if i < last {
                    } else {
                        let b = next_claim(front).unwrap();
                        assert(!front[j].comes_before(&front[b]));
                    }
                }
            },
            None => {
                assert forall|j: int| 0 <= j < jobs.len() implies !(
                #[trigger] jobs[j]).is_claimable() by {
                    if j < last {
                        assert(!front[j].is_claimable());
                    }
                }
            },
        }
    }
}

pub proof fn lemma_first_held(jobs: Seq<Job>, job_id: Seq<char>, worker: Seq<char>)
    ensures
        match first_held(jobs, job_id, worker) {
            Some(i) => {
                &&& 0 <= i < jobs.len()
                &&& jobs[i].job_id@ == job_id
                &&& jobs[i].is_held_by(worker)
                &&& forall|j: int|
                    0 <= j < i ==> !((#[trigger] jobs[j]).job_id@ == job_id && jobs[j].is_held_by(
                        worker,
                    ))
            },
            None => forall|j: int|
                0 <= j < jobs.len() ==> !((#[trigger] jobs[j]).job_id@ == job_id
                    && jobs[j].is_held_by(worker)),
        },
    decreases jobs.len(),
{
    if jobs.len() > 0 {
        let front = jobs.drop_last();
        lemma_first_held(front, job_id, worker);
        assert forall|j: int| 0 <= j < front.len() implies jobs[j] == front[j] by {}
    }
}

pub proof fn lemma_first_with_key(jobs: Seq<Job>, id: Seq<char>)
    ensures
        match first_with_key(jobs, id) {
            Some(i) => {
                &&& 0 <= i < jobs.len()
                &&& jobs[i].id@ == id
                &&& forall|j: int| 0 <= j < i ==> (#[trigger] jobs[j]).id@ != id
            },
            None => forall|j: int| 0 <= j < jobs.len() ==> (#[trigger] jobs[j]).id@ != id,
        },
    decreases jobs.len(),
{
    if jobs.len() > 0 {
        let front = jobs.drop_last();
        lemma_first_with_key(front, id);
        assert forall|j: int| 0 <= j < front.len() implies jobs[j] == front[j] by {}
    }
}

/// No operation on the queue breaks the rule of ownership: at all times a
/// job that is being processed has exactly one worker.
pub proof fn law_ownership_is_kept(
    jobs: Seq<Job>,
    worker: String,
    job_id: Seq<char>,
    id: Seq<char>,
    status: JobStatus,
    result: JobResult,
    progress: JobProgress,
    now: i64,
)
    requires
        all_owned_rightly(jobs),
        status.is_terminal(),
    ensures
        all_owned_rightly(after_claim(jobs, worker, now).0),
        all_owned_rightly(after_heartbeat(jobs, job_id, worker@, now)),
        all_owned_rightly(after_release(jobs, job_id, worker@)),
        all_owned_rightly(after_release_all(jobs, worker@)),
        all_owned_rightly(after_end(jobs, id, status, result, now)),
{
    lemma_next_claim(jobs);
    lemma_first_held(jobs, job_id, worker@);
    lemma_first_with_key(jobs, id);
    assert forall|i: int| 0 <= i < jobs.len() implies (#[trigger] after_release_all(
        jobs,
        worker@,
    )[i]).owner_rule() by {
        assert(jobs[i].owner_rule());
    }
}

/// Claim, heartbeat and release also keep the strict rule: as long as no
/// job ends, every job that has a worker is being processed. The end of a
/// job does not keep it: the job stays with its worker in a terminal state.
pub proof fn law_only_processing_jobs_are_owned(
    jobs: Seq<Job>,
    worker: String,
    job_id: Seq<char>,
    now: i64,
)
    requires
        all_owned_strictly(jobs),
    ensures
        all_owned_strictly(after_claim(jobs, worker, now).0),
        all_owned_strictly(after_heartbeat(jobs, job_id, worker@, now)),
        all_owned_strictly(after_release(jobs, job_id, worker@)),
        all_owned_strictly(after_release_all(jobs, worker@)),
{
    lemma_next_claim(jobs);
    lemma_first_held(jobs, job_id, worker@);
    assert forall|i: int| 0 <= i < jobs.len() implies (#[trigger] after_release_all(
        jobs,
        worker@,
    )[i]).strict_owner_rule() by {
        assert(jobs[i].strict_owner_rule());
    }
}

/// Of two workers that claim one after the other, no job goes to both: the
/// second gets another job, or none.
pub proof fn law_single_winner(jobs: Seq<Job>, first: String, second: String, t1: i64, t2: i64)
    ensures
        ({
            let (queue, won) = after_claim(jobs, first, t1);
            let (_, lost) = after_claim(queue, second, t2);
            &&& won is Some && lost is Some ==> won != lost
            &&& won is Some ==> !queue[won.unwrap()].is_claimable() && queue[won.unwrap()].is_held_by(
                first@,
            )
            &&& waiting_count(jobs) == 1 ==> won is Some && lost is None
            &&& waiting_count(jobs) == 0 ==> won is None && lost is None
        }),
{
    let (queue, won) = after_claim(jobs, first, t1);
    lemma_next_claim(jobs);
    lemma_next_claim(queue);
    lemma_waiting_count(jobs);
    if won is Some {
        let i = won.unwrap();
        lemma_waiting_count_after_claim(jobs, i, claimed(jobs[i], first, t1));
        lemma_waiting_count(queue);
    }
}

/// There is a job that waits exactly where the count of waiting jobs is not zero.
pub proof fn lemma_waiting_count(jobs: Seq<Job>)
    ensures
        waiting_count(jobs) == 0 <==> forall|j: int|
            0 <= j < jobs.len() ==> !(#[trigger] jobs[j]).is_claimable(),
    decreases jobs.len(),
{
    if jobs.len() > 0 {
        let front = jobs.drop_last();
        lemma_waiting_count(front);
        assert forall|j: int| 0 <= j < front.len() implies jobs[j] == front[j] by {}
        if waiting_count(jobs) == 0 {
            assert forall|j: int| 0 <= j < jobs.len() implies !(#[trigger] jobs[j]).is_claimable() by {
                if j < front.len() {
                    assert(!front[j].is_claimable());
                }
            }
        } else if jobs.last().is_claimable() {
            assert(jobs[jobs.len() - 1].is_claimable());
        } else {
            let j = choose|j: int| 0 <= j < front.len() && (#[trigger] front[j]).is_claimable();
            assert(jobs[j].is_claimable());
        }
    }
}

/// A job that waited and no longer does leaves one fewer waiting.
pub proof fn lemma_waiting_count_after_claim(jobs: Seq<Job>, i: int, taken: Job)
    requires
        0 <= i < jobs.len(),
        jobs[i].is_claimable(),
        !taken.is_claimable(),
    ensures
        waiting_count(jobs.update(i, taken)) + 1 == waiting_count(jobs),
    decreases jobs.len(),
{
    let next = jobs.update(i, taken);
    if i == jobs.len() - 1 {
        assert(next.drop_last() =~= jobs.drop_last());
    } else {
        lemma_waiting_count_after_claim(jobs.drop_last(), i, taken);
        assert(next.drop_last() =~= jobs.drop_last().update(i, taken));
    }
}

impl View for JobStore {
    type V = Seq<Job>;

    open spec fn view(&self) -> Seq<Job> {
        self.jobs@
    }
}

impl JobStore {
    /// The empty queue.
    pub fn new() -> (s: JobStore)
        ensures
            s@ == Seq::<Job>::empty(),
    {
        JobStore { jobs: Vec::new() }
    }

    /// Puts a job at the end of the queue.
    pub fn insert(&mut self, job: Job)
        ensures
            final(self)@ == old(self)@.push(job),
    {
        self.jobs.push(job);
    }

    /// The jobs.
    pub fn jobs(&self) -> (r: &Vec<Job>)
        ensures
            r@ == self@,
    {
        &self.jobs
    }
}

impl JobRepository {
    /// The hand of the worker `worker_id` on the queue.
    pub fn new(worker_id: String) -> (r: JobRepository)
        ensures
            r.worker() == worker_id,
    {
        JobRepository { worker_id }
    }

    /// The worker.
    pub closed spec fn worker(&self) -> String {
        self.worker_id
    }

    /// The identifier of the worker.
    pub fn worker_id(&self) -> (w: &String)
        ensures
            *w == self.worker(),
    {
        &self.worker_id
    }

    fn holds(&self, job: &Job, job_id: &str) -> (r: bool)
        ensures
            r == (job.job_id@ == job_id@ && job.is_held_by(self.worker()@)),
    {
        if !str_eq(job.job_id.as_str(), job_id) {
            return false;
        }
        match job.status {
            JobStatus::Processing => match &job.worker_id {
                Some(w) => str_eq(w.as_str(), self.worker_id.as_str()),
                None => false,
            },
            _ => false,
        }
    }

    fn find_held(&self, jobs: &Vec<Job>, job_id: &str) -> (r: Option<usize>)
        ensures
            match r {
                Some(i) => first_held(jobs@, job_id@, self.worker()@) == Some(i as int) && i
                    < jobs.len(),
                None => first_held(jobs@, job_id@, self.worker()@) is None,
            },
    {
        let mut i: usize = 0;
        proof {
            lemma_first_held(jobs@, job_id@, self.worker()@);
        }
        while i < jobs.len()
            invariant
                i <= jobs.len(),
                forall|j: int|
                    0 <= j < i ==> !((#[trigger] jobs@[j]).job_id@ == job_id@
                        && jobs@[j].is_held_by(self.worker()@)),
            decreases jobs.len() - i,
        {
            if self.holds(&jobs[i], job_id) {
                proof {
                    lemma_first_held(jobs@, job_id@, self.worker()@);
                }
                return Some(i);
            }
            i += 1;
        }
        proof {
            lemma_first_held(jobs@, job_id@, self.worker()@);
        }
        None
    }

    fn find_key(jobs: &Vec<Job>, id: &str) -> (r: Option<usize>)
        ensures
            match r {
                Some(i) => first_with_key(jobs@, id@) == Some(i as int) && i < jobs.len(),
                None => first_with_key(jobs@, id@) is None,
            },
    {
        let mut i: usize = 0;
        proof {
            lemma_first_with_key(jobs@, id@);
        }
        while i < jobs.len()
            invariant
                i <= jobs.len(),
                forall|j: int| 0 <= j < i ==> (#[trigger] jobs@[j]).id@ != id@,
            decreases jobs.len() - i,
        {
            if str_eq(jobs[i].id.as_str(), id) {
                proof {
                    lemma_first_with_key(jobs@, id@);
                }
                return Some(i);
            }
            i += 1;
        }
        proof {
            lemma_first_with_key(jobs@, id@);
        }
        None
    }

    /// Claims the next job at `now`: the waiting job that comes before the
    /// others becomes this worker's, with the times of claim, heartbeat and
    /// start set to `now`. Returns the job as it is afterwards, or nothing
    /// where no job waits.
    pub fn claim_next<'a>(&self, store: &'a mut JobStore, now: i64) -> (r: Option<&'a Job>)
        ensures
            final(store)@ == after_claim(old(store)@, self.worker(), now).0,
            match after_claim(old(store)@, self.worker(), now).1 {
                Some(i) => r == Some(&final(store)@[i]),
                None => r is None,
            },
            all_owned_rightly(old(store)@) ==> all_owned_rightly(final(store)@),
    {
        let mut best: Option<usize> = None;
        let mut i: usize = 0;
        proof {
            assert(store@.take(0) =~= Seq::<Job>::empty());
            lemma_next_claim(store@);
        }
        while i < store.jobs.len()
            invariant
                i <= store.jobs.len(),
                store@ == old(store)@,
                match best {
                    Some(b) => next_claim(store@.take(i as int)) == Some(b as int) && b < i,
                    None => next_claim(store@.take(i as int)) is None,
                },
            decreases store.jobs.len() - i,
        {
            proof {
                let p = store@.take(i + 1);
                assert(p.drop_last() =~= store@.take(i as int));
                assert(p.last() == store@[i as int]);
            }
            let job = &store.jobs[i];
            let waits = match job.status {
                JobStatus::Queued => job.worker_id.is_none(),
                _ => false,
            };
            if waits {
                match best {
                    Some(b) => {
                        let other = &store.jobs[b];
                        assert(store@.take(i + 1)[b as int] == store@[b as int]);
                        if job.priority < other.priority || (job.priority == other.priority
                            && job.created_at < other.created_at) {
                            best = Some(i);
                        }
                    },
                    None => {
                        best = Some(i);
                    },
                }
            }
            i += 1;
        }
        assert(store@.take(store.jobs.len() as int) =~= store@);
        match best {
            Some(b) => {
                store.jobs[b].status = JobStatus::Processing;
                store.jobs[b].worker_id = Some(self.worker_id.clone());
                store.jobs[b].claimed_at = Some(now);
                store.jobs[b].heartbeat_at = Some(now);
                store.jobs[b].started_at = Some(now);
                assert(store@ =~= old(store)@.update(
                    b as int,
                    claimed(old(store)@[b as int], self.worker(), now),
                ));
                Some(&store.jobs[b])
            },
            None => None,
        }
    }

    /// Tells the queue at `now` that this worker still works on `job_id`.
    /// Returns whether a document changed: false means that the worker
    /// does not hold the job (or that the heartbeat was already `now`).
    pub fn heartbeat(&self, store: &mut JobStore, job_id: &str, now: i64) -> (alive: bool)
        ensures
            final(store)@ == after_heartbeat(old(store)@, job_id@, self.worker()@, now),
            alive == match first_held(old(store)@, job_id@, self.worker()@) {
                Some(i) => old(store)@[i].heartbeat_at != Some(now),
                None => false,
            },
            all_owned_rightly(old(store)@) ==> all_owned_rightly(final(store)@),
    {
        proof {
            lemma_first_held(store@, job_id@, self.worker()@);
        }
        match self.find_held(&store.jobs, job_id) {
            Some(i) => {
                let changed = match store.jobs[i].heartbeat_at {
                    Some(t) => t != now,
                    None => true,
                };
                store.jobs[i].heartbeat_at = Some(now);
                assert(store@ =~= old(store)@.update(
                    i as int,
                    kept_alive(old(store)@[i as int], now),
                ));
                changed
            },
            None => false,
        }
    }

    fn end(store: &mut JobStore, id: &str, status: JobStatus, result: JobResult, now: i64)
        ensures
            final(store)@ == after_end(old(store)@, id@, status, result, now),
    {
        match Self::find_key(&store.jobs, id) {
            Some(i) => {
                store.jobs[i].status = status;
                store.jobs[i].completed_at = Some(now);
                store.jobs[i].result = Some(result);
                assert(store@ =~= old(store)@.update(
                    i as int,
                    ended(old(store)@[i as int], status, result, now),
                ));
            },
            None => {},
        }
    }

    /// Ends the job with the key `id` as completed, with `result`.
    pub fn complete(&self, store: &mut JobStore, id: &str, result: JobResult, now: i64)
        ensures
            final(store)@ == after_end(old(store)@, id@, JobStatus::Completed, result, now),
            all_owned_rightly(old(store)@) ==> all_owned_rightly(final(store)@),
    {
        proof {
            lemma_first_with_key(store@, id@);
        }
        Self::end(store, id, JobStatus::Completed, result, now);
    }

    /// Ends the job with the key `id` as failed, with `errors`.
    pub fn fail(&self, store: &mut JobStore, id: &str, errors: Vec<String>, now: i64)
        ensures
            exists|result: JobResult|
                result.is_failure_with(errors) && final(store)@ == #[trigger] after_end(
                    old(store)@,
                    id@,
                    JobStatus::Failed,
                    result,
                    now,
                ),
            all_owned_rightly(old(store)@) ==> all_owned_rightly(final(store)@),
    {
        proof {
            lemma_first_with_key(store@, id@);
        }
        let result = JobResult::failure(errors);
        Self::end(store, id, JobStatus::Failed, result, now);
    }

    /// Ends the job with the key `id` as skipped, for `reason`.
    pub fn skip(&self, store: &mut JobStore, id: &str, reason: String, now: i64)
        ensures
            exists|result: JobResult|
                result.is_skip_with(reason) && final(store)@ == #[trigger] after_end(
                    old(store)@,
                    id@,
                    JobStatus::Skipped,
                    result,
                    now,
                ),
            all_owned_rightly(old(store)@) ==> all_owned_rightly(final(store)@),
    {
        proof {
            lemma_first_with_key(store@, id@);
        }
        let result = JobResult::skipped(reason);
        Self::end(store, id, JobStatus::Skipped, result, now);
    }

    /// Replaces the progress of the job with the key `id`.
    pub fn update_progress(&self, store: &mut JobStore, id: &str, progress: JobProgress)
        ensures
            final(store)@ == match first_with_key(old(store)@, id@) {
                Some(i) => old(store)@.update(i, advanced(old(store)@[i], progress)),
                None => old(store)@,
            },
    {
        match Self::find_key(&store.jobs, id) {
            Some(i) => {
                store.jobs[i].progress = progress;
                assert(store@ =~= old(store)@.update(
                    i as int,
                    advanced(old(store)@[i as int], progress),
                ));
            },
            None => {},
        }
    }

    /// Gives `job_id` back to the queue, where this worker holds it.
    /// Returns whether it did.
    pub fn release(&self, store: &mut JobStore, job_id: &str) -> (done: bool)
        ensures
            final(store)@ == after_release(old(store)@, job_id@, self.worker()@),
            done == first_held(old(store)@, job_id@, self.worker()@) is Some,
            all_owned_rightly(old(store)@) ==> all_owned_rightly(final(store)@),
    {
        proof {
            lemma_first_held(store@, job_id@, self.worker()@);
        }
        match self.find_held(&store.jobs, job_id) {
            Some(i) => {
                store.jobs[i].status = JobStatus::Queued;
                store.jobs[i].worker_id = None;
                store.jobs[i].claimed_at = None;
                store.jobs[i].heartbeat_at = None;
                store.jobs[i].started_at = None;
                assert(store@ =~= old(store)@.update(i as int, released(old(store)@[i as int])));
                true
            },
            None => false,
        }
    }

    /// Gives every job that this worker holds back to the queue. Returns
    /// how many there were.
    pub fn release_all(&self, store: &mut JobStore) -> (count: u64)
        ensures
            final(store)@ == after_release_all(old(store)@, self.worker()@),
            count == held_count(old(store)@, self.worker()@),
            all_owned_rightly(old(store)@) ==> all_owned_rightly(final(store)@),
    {
        let mut count: u64 = 0;
        let mut i: usize = 0;
        let ghost before = store@;
        proof {
            assert(before.take(0) =~= Seq::<Job>::empty());
        }
        while i < store.jobs.len()
            invariant
                i <= store.jobs.len(),
                before == old(store)@,
                store@.len() == before.len(),
                forall|j: int|
                    0 <= j < i ==> (#[trigger] store@[j]) == after_release_all(
                        before,
                        self.worker()@,
                    )[j],
                forall|j: int| i <= j < before.len() ==> (#[trigger] store@[j]) == before[j],
                count == held_count(before.take(i as int), self.worker()@),
                count <= i,
            decreases store.jobs.len() - i,
        {
            proof {
                let p = before.take(i + 1);
                assert(p.drop_last() =~= before.take(i as int));
                assert(p.last() == before[i as int]);
            }
            let held = match store.jobs[i].status {
                JobStatus::Processing => match &store.jobs[i].worker_id {
                    Some(w) => str_eq(w.as_str(), self.worker_id.as_str()),
                    None => false,
                },
                _ => false,
            };
            if held {
                store.jobs[i].status = JobStatus::Queued;
                store.jobs[i].worker_id = None;
                store.jobs[i].claimed_at = None;
                store.jobs[i].heartbeat_at = None;
                store.jobs[i].started_at = None;
                count += 1;
            }
            i += 1;
        }
        proof {
            assert(before.take(before.len() as int) =~= before);
            assert(store@ =~= after_release_all(before, self.worker()@));
            assert forall|j: int| 0 <= j < before.len() && all_owned_rightly(
                before,
            ) implies (#[trigger] after_release_all(before, self.worker()@)[j]).owner_rule() by {
                assert(before[j].owner_rule());
            }
        }
        count
    }
}

} // verus!
