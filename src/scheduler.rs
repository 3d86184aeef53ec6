use vstd::prelude::*;

verus! {

/// The agent's periodic jobs.
#[derive(Debug, Clone, Copy, PartialEq, Eq, Structural)]
pub enum Job {
    /// Cheap operating-system and identity facts, every minute at second 0.
    BaseInfo,
    /// Hardware, software, volume, license and battery facts, every five
    /// minutes at second 40.
    RichInfo,
    /// Fetch new tasks, every minute at second 20.
    FetchTasks,
    /// Run due tasks, every minute at second 10.
    RunTasks,
}

/// `job` is scheduled at Unix second `t`, in UTC. Each cadence is a fixed
/// second of the minute (and, for the rich job, every fifth minute), so it is
/// written out here rather than parsed from a cron expression.
pub open spec fn job_due(job: Job, t: int) -> bool {
    match job {
        Job::BaseInfo => t % 60 == 0,
        Job::RichInfo => t % 60 == 40 && (t / 60) % 5 == 0,
        Job::FetchTasks => t % 60 == 20,
        Job::RunTasks => t % 60 == 10,
    }
}

/// Longest stretch of seconds that one tick looks back over: after a long
/// pause (a suspended machine) each job fires once, not once per missed slot,
/// and a tick does a bounded amount of work.
pub const LOOKBACK: u64 = 300;

/// First second that a tick at `now` covers: the one after the previous tick,
/// no more than `LOOKBACK` seconds back; a first tick covers `now` alone.
pub open spec fn window_start(last: Option<u64>, now: u64) -> int {
    let floor: int = if now >= LOOKBACK - 1 { now - (LOOKBACK - 1) } else { 0 };
    match last {
        Some(l) => if l + 1 > floor { l + 1 } else { floor },
        None => now as int,
    }
}

/// `job` is scheduled at some second that a tick at `now` covers.
pub open spec fn fires(job: Job, last: Option<u64>, now: u64) -> bool {
    exists|t: int| window_start(last, now) <= t <= now && job_due(job, t)
}

pub open spec fn fired_jobs(last: Option<u64>, now: u64) -> Seq<Job> {
    let a: Seq<Job> = if fires(Job::BaseInfo, last, now) { seq![Job::BaseInfo] } else { Seq::empty() };
    let b: Seq<Job> = if fires(Job::RichInfo, last, now) { a.push(Job::RichInfo) } else { a };
    let c: Seq<Job> = if fires(Job::FetchTasks, last, now) { b.push(Job::FetchTasks) } else { b };
    if fires(Job::RunTasks, last, now) { c.push(Job::RunTasks) } else { c }
}

/// What the driver does after a tick.
#[derive(Debug, Clone)]
pub struct TickDecision {
    /// Jobs to start now, each as its own unit of work.
    pub jobs: Vec<Job>,
    /// Whether to keep ticking.
    pub keep_running: bool,
}

/// Cooperative scheduler state: the second of the last tick, and whether a
/// shutdown has been seen.
pub struct Scheduler {
    pub last_tick: Option<u64>,
    pub stopped: bool,
}

impl Scheduler {
    pub fn new() -> (r: Scheduler)
        ensures
            r.last_tick is None,
            !r.stopped,
    {
        Scheduler { last_tick: None, stopped: false }
    }

    fn due_at(job: Job, t: u64) -> (r: bool)
        ensures
            r == job_due(job, t as int),
    {
        match job {
            Job::BaseInfo => t % 60 == 0,
            Job::RichInfo => t % 60 == 40 && (t / 60) % 5 == 0,
            Job::FetchTasks => t % 60 == 20,
            Job::RunTasks => t % 60 == 10,
        }
    }

    fn fires_in(job: Job, from: u64, now: u64) -> (r: bool)
        requires
            from <= now + 1,
        ensures
            r == exists|t: int| from <= t <= now && job_due(job, t),
    {
        let mut t: u64 = from;
        while t <= now
            invariant
                from <= t <= now + 1,
                forall|x: int| from <= x < t ==> !job_due(job, x),
            decreases now + 1 - t,
        {
            if Self::due_at(job, t) {
                return true;
            }
            if t == now {
                assert forall|x: int| from <= x <= now implies !job_due(job, x) by {}
                return false;
            }
            t = t + 1;
        }
        false
    }

    /// One tick at Unix second `now`: the jobs scheduled since the previous
    /// tick, and whether to go on. The jobs of the tick that sees a shutdown
    /// still run; after it no job starts. A clock that went back starts nothing.
    pub fn tick(&mut self, now: u64, shutdown_requested: bool) -> (r: TickDecision)
        ensures
            r.keep_running == (!old(self).stopped && !shutdown_requested),
            final(self).stopped == (old(self).stopped || shutdown_requested),
            old(self).stopped ==> r.jobs@.len() == 0 && final(self).last_tick == old(self).last_tick,
            !old(self).stopped && (old(self).last_tick matches Some(l) && l >= now) ==> r.jobs@.len() == 0
                && final(self).last_tick == old(self).last_tick,
            !old(self).stopped && !(old(self).last_tick matches Some(l) && l >= now) ==> r.jobs@ == fired_jobs(old(self).last_tick, now)
                && final(self).last_tick == Some(now),
    {
        let was_stopped = self.stopped;
        self.stopped = self.stopped || shutdown_requested;
        let keep_running = !was_stopped && !shutdown_requested;
        if was_stopped {
            return TickDecision { jobs: Vec::new(), keep_running };
        }
        let from = match self.last_tick {
            Some(l) => {
                if l >= now {
                    return TickDecision { jobs: Vec::new(), keep_running };
                }
                let floor: u64 = if now >= LOOKBACK - 1 { now - (LOOKBACK - 1) } else { 0 };
                if l + 1 > floor { l + 1 } else { floor }
            },
            None => now,
        };
        let mut jobs: Vec<Job> = Vec::new();
        if Self::fires_in(Job::BaseInfo, from, now) {
            jobs.push(Job::BaseInfo);
        }
        let ghost a = jobs@;
        if Self::fires_in(Job::RichInfo, from, now) {
            jobs.push(Job::RichInfo);
        }
        let ghost b = jobs@;
        if Self::fires_in(Job::FetchTasks, from, now) {
            jobs.push(Job::FetchTasks);
        }
        let ghost c = jobs@;
        if Self::fires_in(Job::RunTasks, from, now) {
            jobs.push(Job::RunTasks);
        }
        let ghost last = self.last_tick;
        assert(from == window_start(last, now));
        assert(a =~= (if fires(Job::BaseInfo, last, now) { seq![Job::BaseInfo] } else { Seq::<Job>::empty() }));
        assert(jobs@ =~= fired_jobs(last, now));
        self.last_tick = Some(now);
        TickDecision { jobs, keep_running }
    }
}

} // verus!
