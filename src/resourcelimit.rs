//! The kernel resource limits that the sandboxed process runs under.

use vstd::prelude::*;
use crate::unit::{Space, Time};

verus! {

broadcast use {Space::lemma_bound, Time::lemma_bound};

/// A kernel resource that a limit applies to.
#[derive(Debug, Clone, Copy, PartialEq, Eq, Structural)]
pub enum Resource {
    /// Stack size, in bytes.
    Stack,
    /// Core dump size, in bytes.
    Core,
    /// CPU time, in seconds.
    Cpu,
    /// Data segment size, in bytes.
    Data,
    /// Number of processes.
    NProc,
}

/// A limit to install, with the soft and the hard limit both at `value`.
#[derive(Debug, Clone, Copy, PartialEq, Eq, Structural)]
pub struct Rlimit {
    pub resource: Resource,
    pub value: u64,
}

/// The limits that a sandboxed process runs under.
#[derive(Debug)]
pub struct ResourceLimit {
    pub stack_size: Space,
    pub mem_limit: Option<Space>,
    pub cpu_limit: Option<Time>,
    pub proc_limit: Option<u64>,
}

/// The limits to install for `rl`, in order: stack, core dumps (always off),
/// then CPU seconds (with one second of slack), data segment and process count
/// where each is set.
pub open spec fn limit_plan(rl: &ResourceLimit) -> Seq<Rlimit> {
    seq![
        Rlimit { resource: Resource::Stack, value: rl.stack_size@ as u64 },
        Rlimit { resource: Resource::Core, value: 0 },
    ] + match rl.cpu_limit {
        Some(t) => seq![Rlimit { resource: Resource::Cpu, value: (t@ / 1000 / 1000 + 1) as u64 }],
        None => Seq::empty(),
    } + match rl.mem_limit {
        Some(m) => seq![Rlimit { resource: Resource::Data, value: m@ as u64 }],
        None => Seq::empty(),
    } + match rl.proc_limit {
        Some(n) => seq![Rlimit { resource: Resource::NProc, value: n }],
        None => Seq::empty(),
    }
}

impl ResourceLimit {
    /// The limits to install, in order.
    pub fn rlimits(&self) -> (r: Vec<Rlimit>)
        ensures
            r@ == limit_plan(self),
    {
        let mut r = Vec::new();
        r.push(Rlimit { resource: Resource::Stack, value: self.stack_size.as_bytes() });
        r.push(Rlimit { resource: Resource::Core, value: 0 });
        if let Some(t) = &self.cpu_limit {
            r.push(Rlimit { resource: Resource::Cpu, value: t.as_secs() + 1 });
        }
        if let Some(m) = &self.mem_limit {
            r.push(Rlimit { resource: Resource::Data, value: m.as_bytes() });
        }
        if let Some(n) = &self.proc_limit {
            r.push(Rlimit { resource: Resource::NProc, value: *n });
        }
        assert(r@ =~= limit_plan(self));
        r
    }
}

} // verus!
