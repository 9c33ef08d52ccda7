//! One sandboxed execution: what the child does before the payload starts,
//! and what the supervisor decides at each return of its wait.
//!
//! The caller carries the decisions out: it creates the child in fresh
//! namespaces, has it perform `child_steps` in order (any failure ends the
//! child), and loops on the wait, doing what `on_wait` answers.

use vstd::prelude::*;
use crate::cgroup_v2::AttrWrite;
use crate::config::Config;
use crate::resourcelimit::{limit_plan, ResourceLimit, Rlimit};
use crate::unit::{Space, Time};

verus! {

/// The user id and the group id that the payload runs as (`nobody`).
pub const NOBODY: u32 = 65534;

/// The period of the wall-clock check, in milliseconds.
pub const TICK_MILLIS: u64 = 100;

/// One step of the child's start-up.
#[derive(Debug)]
pub enum ChildStep {
    /// Become the leader of a new process group.
    JoinProcessGroup,
    /// Write to an attribute of the control group.
    Write(AttrWrite),
    /// Install a resource limit.
    SetLimit(Rlimit),
    /// Drop to this group id.
    SetGid(u32),
    /// Drop to this user id.
    SetUid(u32),
    /// Replace the process image with the payload.
    Exec,
}

/// The start-up steps of the child whose id is `pid`, in the order they must
/// be done: lead a process group, join the control group, install the
/// limits, drop the group and then the user, run the payload.
pub fn child_steps(config: &Config, pid: i32) -> (r: Vec<ChildStep>)
    ensures
        ({
            let w = config.cg.process_writes(pid);
            let l = limit_plan(&config.rlim);
            let n = r@.len();
            &&& n == w.len() + l.len() + 4
            &&& r@[0] is JoinProcessGroup
            &&& forall|i: int| #![trigger w[i]] 0 <= i < w.len() ==> (r@[1 + i] matches ChildStep::Write(x) && x@ == w[i])
            &&& forall|i: int| #![trigger l[i]] 0 <= i < l.len() ==> r@[1 + w.len() + i] == ChildStep::SetLimit(l[i])
            &&& r@[n - 3] == ChildStep::SetGid(NOBODY)
            &&& r@[n - 2] == ChildStep::SetUid(NOBODY)
            &&& r@[n - 1] is Exec
        }),
{
    let ghost w = config.cg.process_writes(pid);
    let ghost l = limit_plan(&config.rlim);
    let mut writes = config.cg.add_process(pid);
    let ghost ws = writes@;
    assert forall|i: int| 0 <= i < ws.len() implies #[trigger] ws[i]@ == w[i] by {
        assert(ws.map_values(|x: AttrWrite| x@)[i] == ws[i]@);
    }
    let mut joins: Vec<ChildStep> = Vec::new();
    while writes.len() > 0
        invariant
            ws.len() == w.len(),
            forall|i: int| 0 <= i < ws.len() ==> #[trigger] ws[i]@ == w[i],
            joins@.len() <= ws.len(),
            writes@ == ws.skip(joins@.len() as int),
            forall|i: int| 0 <= i < joins@.len() ==> (#[trigger] joins@[i] matches ChildStep::Write(x) && x@ == w[i]),
        decreases writes@.len(),
    {
        let x = writes.remove(0);
        assert(x == ws[joins@.len() as int]);
        joins.push(ChildStep::Write(x));
        assert(writes@ =~= ws.skip(joins@.len() as int));
    }
    let limits = config.rlim.rlimits();
    let mut installs: Vec<ChildStep> = Vec::new();
    let mut j: usize = 0;
    while j < limits.len()
        invariant
            limits@ == l,
            installs@.len() == j,
            j <= limits@.len(),
            forall|i: int| 0 <= i < j ==> #[trigger] installs@[i] == ChildStep::SetLimit(l[i]),
        decreases limits@.len() - j,
    {
        installs.push(ChildStep::SetLimit(limits[j]));
        j = j + 1;
    }
    let mut r: Vec<ChildStep> = Vec::new();
    r.push(ChildStep::JoinProcessGroup);
    let ghost js = joins@;
    r.append(&mut joins);
    let ghost r1 = r@;
    r.append(&mut installs);
    r.push(ChildStep::SetGid(NOBODY));
    r.push(ChildStep::SetUid(NOBODY));
    r.push(ChildStep::Exec);
    assert forall|i: int| #![trigger w[i]] 0 <= i < w.len() implies (r@[1 + i] matches ChildStep::Write(x) && x@ == w[i]) by {
        assert(r@[1 + i] == r1[1 + i]);
        assert(r1[1 + i] == js[i]);
    }
    r
}

/// The period of the timer that interrupts the supervisor's wait: set only
/// where a CPU-time limit, and so a wall-clock budget, is configured.
pub fn timer_interval(rlim: &ResourceLimit) -> (r: Option<Time>)
    ensures
        r is Some <==> rlim.cpu_limit is Some,
        r matches Some(t) ==> t@ == TICK_MILLIS * 1000,
{
    match rlim.cpu_limit {
        Some(_) => Some(Time::from_millis(TICK_MILLIS)),
        None => None,
    }
}

/// The control group's CPU time spent by this run: the reading after it less
/// the reading taken before the launch. `None` where the later reading is
/// unknown, or is below the earlier one (the counters were reset meanwhile).
pub fn cpu_time_of_run(before: Time, after: Option<Time>) -> (r: Option<Time>)
    ensures
        r is Some <==> (after matches Some(a) && a@ >= before@),
        r matches Some(t) ==> after matches Some(a) && t@ == a@ - before@,
{
    match after {
        Some(a) => if a.as_micros() >= before.as_micros() {
            Some(Time::from_micros(a.as_micros() - before.as_micros()))
        } else {
            None
        },
        None => None,
    }
}

/// How a wait for the sandboxed process returned.
#[derive(Debug, Clone, Copy, PartialEq, Eq, Structural)]
pub enum WaitOutcome {
    /// The process ended; the wait status as the kernel gave it.
    Exited(i32),
    /// A signal interrupted the wait (the timer's tick).
    Interrupted,
    /// The wait failed with this error number.
    Failed(i32),
}

/// What the supervisor does next.
#[derive(Debug, Clone, Copy, PartialEq, Eq, Structural)]
pub enum Decision {
    /// Wait again.
    KeepWaiting,
    /// Kill the process group, then wait again to reap it.
    KillAndWait,
    /// The process is gone: collect its status and usage.
    Finish(i32),
    /// Give up on the execution with this error number.
    Abort(i32),
}

/// The supervisor's decision when its wait returns with `outcome`, `elapsed`
/// after the launch, under the wall-clock budget `budget`.
pub fn on_wait(budget: Option<Time>, outcome: WaitOutcome, elapsed: Time) -> (r: Decision)
    ensures
        r == match outcome {
            WaitOutcome::Exited(s) => Decision::Finish(s),
            WaitOutcome::Failed(e) => Decision::Abort(e),
            WaitOutcome::Interrupted => match budget {
                Some(b) => if elapsed@ > b@ {
                    Decision::KillAndWait
                } else {
                    Decision::KeepWaiting
                },
                None => Decision::KeepWaiting,
            },
        },
{
    match outcome {
        WaitOutcome::Exited(s) => Decision::Finish(s),
        WaitOutcome::Failed(e) => Decision::Abort(e),
        WaitOutcome::Interrupted => match budget {
            Some(b) => if elapsed.exceeds(&b) {
                Decision::KillAndWait
            } else {
                Decision::KeepWaiting
            },
            None => Decision::KeepWaiting,
        },
    }
}

/// How the process ended, read from a raw wait status.
#[derive(Debug, Clone, Copy, PartialEq, Eq, Structural)]
pub enum WaitStatus {
    /// It exited with this code.
    Exited(i32),
    /// A signal with this number ended it.
    Signaled(i32),
    /// Neither (it was stopped or continued): the raw status.
    Other(i32),
}

/// The meaning of a raw wait status: the low seven bits hold the signal that
/// ended the process (0 where it exited, 0x7f where it stopped), the next
/// byte its exit code.
pub open spec fn wait_status(raw: i32) -> WaitStatus {
    let sig = raw & 0x7f;
    if sig == 0 {
        WaitStatus::Exited((raw >> 8) & 0xff)
    } else if sig != 0x7f {
        WaitStatus::Signaled(sig)
    } else {
        WaitStatus::Other(raw)
    }
}

impl WaitStatus {
    pub fn from_raw(raw: i32) -> (r: Self)
        ensures
            r == wait_status(raw),
    {
        let sig = raw & 0x7f;
        if sig == 0 {
            WaitStatus::Exited((raw >> 8) & 0xff)
        } else if sig != 0x7f {
            WaitStatus::Signaled(sig)
        } else {
            WaitStatus::Other(raw)
        }
    }
}

/// The kernel's account of the process's resources.
#[derive(Debug, Clone, Copy, PartialEq, Eq, Structural)]
pub struct ResourceUsage {
    /// CPU time in user mode.
    pub user: Time,
    /// CPU time in kernel mode.
    pub system: Time,
    /// Peak resident memory.
    pub max_rss: Space,
}

impl ResourceUsage {
    /// Builds the account from the fields of a `rusage`: the two CPU times as
    /// seconds and microseconds, the peak resident memory in KiB. `None` when a
    /// value is negative or too large.
    pub fn from_raw(
        user_secs: i64,
        user_micros: i64,
        system_secs: i64,
        system_micros: i64,
        max_rss_kib: i64,
    ) -> (r: Option<Self>)
        ensures
            r is Some <==> (0 <= user_secs && 0 <= user_micros && user_secs * 1000000 + user_micros
                <= u64::MAX && 0 <= system_secs && 0 <= system_micros && system_secs * 1000000
                + system_micros <= u64::MAX && 0 <= max_rss_kib && max_rss_kib * 1024 <= u64::MAX),
            r matches Some(u) ==> u.user@ == user_secs * 1000000 + user_micros && u.system@
                == system_secs * 1000000 + system_micros && u.max_rss@ == max_rss_kib * 1024,
    {
        let user = Time::try_from_timeval(user_secs, user_micros);
        let system = Time::try_from_timeval(system_secs, system_micros);
        let max_rss = Space::try_from_kib(max_rss_kib);
        match (user, system, max_rss) {
            (Some(user), Some(system), Some(max_rss)) => Some(ResourceUsage { user, system, max_rss }),
            _ => None,
        }
    }
}

/// The report of one execution.
#[derive(Debug, Clone, Copy, PartialEq, Eq, Structural)]
pub struct ExecutionResult {
    /// How the process ended.
    pub status: WaitStatus,
    /// The kernel's account of its resources.
    pub usage: ResourceUsage,
    /// Wall-clock time from launch to reaping.
    pub real_time: Time,
    /// The control group's CPU time, where it could be read.
    pub cpu_usage: Option<Time>,
    /// The control group's memory, where it could be read.
    pub memory_usage: Option<Space>,
}

impl ExecutionResult {
    pub fn new(
        raw_status: i32,
        usage: ResourceUsage,
        real_time: Time,
        cpu_usage: Option<Time>,
        memory_usage: Option<Space>,
    ) -> (r: Self)
        ensures
            r == (ExecutionResult { status: wait_status(raw_status), usage, real_time, cpu_usage, memory_usage }),
    {
        ExecutionResult { status: WaitStatus::from_raw(raw_status), usage, real_time, cpu_usage, memory_usage }
    }

    /// Whether a signal ended the process (as the supervisor's kill does).
    pub fn killed_by_signal(&self) -> (r: bool)
        ensures
            r == (self.status is Signaled),
    {
        match self.status {
            WaitStatus::Signaled(_) => true,
            _ => false,
        }
    }
}

} // verus!
