//! The loop of a worker: it claims a job, processes it, and claims the
//! next; between empty claims it waits. A heartbeat tells the queue that
//! the worker still holds its job. On shutdown the job in hand is finished
//! first, and what the worker still holds is released.

use crate::config::Config;
use vstd::prelude::*;

verus! {

/// The seconds to wait after a claim that found no job.
pub const IDLE_WAIT_SECS: u64 = 2;

/// The seconds to wait after a claim that failed.
pub const ERROR_WAIT_SECS: u64 = 5;

/// A worker: its settings, and the job it has in hand.
pub struct Worker {
    config: Config,
    current_job: Option<String>,
}

/// What a claim gave.
pub enum ClaimOutcome {
    /// A job, with its key, its identifier and its tenant.
    Job { id: String, job_id: String, username: String },
    /// No job waits.
    Empty,
    /// The queue could not be asked.
    Failed(String),
}

/// What the worker does at the top of its loop.
pub enum Poll {
    /// It claims a job.
    Claim,
    /// It stops: it releases the job that it still has in hand, if any,
    /// and then every job that the queue still has as its own.
    Shutdown { release: Option<String> },
}

/// What the worker does after a claim.
pub enum AfterClaim {
    /// It processes the job.
    Process { id: String, job_id: String, username: String },
    /// It waits for so many seconds.
    Wait(u64),
}

/// What the heartbeat does at a tick.
pub enum Beat {
    /// It ends: the worker shuts down.
    Stop,
    /// Nothing: the worker has no job in hand.
    Rest,
    /// It tells the queue that the worker still holds this job.
    Send(String),
}

/// A job that is to be marked as failed.
pub struct FailureReport {
    pub id: String,
    pub errors: Vec<String>,
}

impl Worker {
    /// A worker with the settings `config` and no job in hand.
    pub fn new(config: Config) -> (w: Worker)
        ensures
            w.config() == config,
            w.current_job() is None,
    {
        Worker { config, current_job: None }
    }

    /// The settings.
    pub closed spec fn config(&self) -> Config {
        self.config
    }

    /// The identifier of the job in hand.
    pub closed spec fn current_job(&self) -> Option<String> {
        self.current_job
    }

    /// The seconds between two heartbeats.
    pub fn heartbeat_interval_secs(&self) -> (secs: u64)
        ensures
            secs == self.config().heartbeat_interval_secs,
    {
        self.config.heartbeat_interval_secs
    }

    /// The identifier of this worker.
    pub fn worker_id(&self) -> (id: &String)
        ensures
            *id == self.config().worker_id,
    {
        &self.config.worker_id
    }

    /// What the worker does at the top of its loop: it claims a job,
    /// unless it is to shut down.
    pub fn poll(&self, shutdown: bool) -> (p: Poll)
        ensures
            match p {
                Poll::Claim => !shutdown,
                Poll::Shutdown { release } => shutdown && release == self.current_job(),
            },
    {
        if shutdown {
            Poll::Shutdown {
                release: match &self.current_job {
                    Some(j) => Some(j.clone()),
                    None => None,
                },
            }
        } else {
            Poll::Claim
        }
    }

    /// What the worker does after a claim: with a job it takes the job in
    /// hand and processes it; without one it waits two seconds, and five
    /// where the claim failed.
    pub fn on_claim(&mut self, outcome: ClaimOutcome) -> (next: AfterClaim)
        ensures
            final(self).config() == old(self).config(),
            match outcome {
                ClaimOutcome::Job { id, job_id, username } => next == (AfterClaim::Process {
                    id,
                    job_id,
                    username,
                }) && final(self).current_job() == Some(job_id),
                ClaimOutcome::Empty => next == AfterClaim::Wait(IDLE_WAIT_SECS)
                    && final(self).current_job() == old(self).current_job(),
                ClaimOutcome::Failed(_) => next == AfterClaim::Wait(ERROR_WAIT_SECS)
                    && final(self).current_job() == old(self).current_job(),
            },
    {
        match outcome {
            ClaimOutcome::Job { id, job_id, username } => {
                self.current_job = Some(job_id.clone());
                AfterClaim::Process { id, job_id, username }
            },
            ClaimOutcome::Empty => AfterClaim::Wait(IDLE_WAIT_SECS),
            ClaimOutcome::Failed(_) => AfterClaim::Wait(ERROR_WAIT_SECS),
        }
    }

    /// What the worker does after it processed the job with the key `id`:
    /// the job leaves its hand, and where the processor failed the job is
    /// to be marked as failed with the error of the processor.
    pub fn on_processed(&mut self, id: String, outcome: Result<(), String>) -> (report: Option<
        FailureReport,
    >)
        ensures
            final(self).config() == old(self).config(),
            final(self).current_job() is None,
            match outcome {
                Ok(_) => report is None,
                Err(e) => report matches Some(r) && r.id == id && r.errors@.len() == 1
                    && r.errors@[0] == e,
            },
    {
        self.current_job = None;
        match outcome {
            Ok(_) => None,
            Err(e) => {
                let mut errors: Vec<String> = Vec::new();
                errors.push(e);
                Some(FailureReport { id, errors })
            },
        }
    }

    /// What the heartbeat does at a tick: it ends where the worker shuts
    /// down, and else tells the queue of the job in hand, if there is one.
    pub fn heartbeat(&self, shutdown: bool) -> (beat: Beat)
        ensures
            match beat {
                Beat::Stop => shutdown,
                Beat::Rest => !shutdown && self.current_job() is None,
                Beat::Send(job_id) => !shutdown && self.current_job() == Some(job_id),
            },
    {
        if shutdown {
            return Beat::Stop;
        }
        match &self.current_job {
            Some(j) => Beat::Send(j.clone()),
            None => Beat::Rest,
        }
    }
}

} // verus!
