//! The legacy split hierarchy (cgroup v1), kept for compatibility: CPU time is
//! accounted under `cpuacct` and memory under `memory`, each subsystem with a
//! directory of its own for the group.
//!
//! Also `Hierarchy`, which lets the sandbox run on either backend.

use vstd::prelude::*;
use vstd::string::{StringExecFns, StringSliceAdditionalSpecFns};
use crate::cgroup_v2::{encode_pid, join_path, signed_decimal_bytes, AttrWrite, CGroup};
use crate::cpu::{cpu_stat_result, CpuStat};
use crate::deserializer::{decimal_bytes, decode_value, encode_u64, value_from_str};
use crate::error::{CGroupError, CGroupErrorKind};
use crate::unit::{Space, Time};

verus! {

/// `root/subsystem/group/attr`.
pub open spec fn legacy_path(
    root: Seq<char>,
    subsystem: Seq<char>,
    group: Seq<char>,
    attr: Seq<char>,
) -> Seq<char> {
    root + "/"@ + subsystem + "/"@ + group + "/"@ + attr
}

/// A group of the legacy hierarchy: its root and its name.
#[derive(Debug)]
pub struct Cgroup {
    root: String,
    group: String,
}

impl View for Cgroup {
    type V = (Seq<char>, Seq<char>);

    closed spec fn view(&self) -> (Seq<char>, Seq<char>) {
        (self.root@, self.group@)
    }
}

impl Cgroup {
    pub fn new(root: String, group: String) -> (r: Self)
        ensures
            r@ == (root@, group@),
    {
        Cgroup { root, group }
    }

    /// The path of the attribute `attr` of `subsystem`.
    pub fn path(&self, subsystem: &str, attr: &str) -> (r: String)
        ensures
            r@ == legacy_path(self@.0, subsystem@, self@.1, attr@),
    {
        let mut r = join_path(self.root.as_str(), subsystem);
        r.append("/");
        r.append(self.group.as_str());
        r.append("/");
        r.append(attr);
        r
    }

    /// The group's directories, one for each subsystem, that must exist.
    pub fn group_dirs(&self) -> (r: Vec<String>)
        ensures
            r@.len() == 2,
            r@[0]@ == self@.0 + "/"@ + "cpuacct"@ + "/"@ + self@.1,
            r@[1]@ == self@.0 + "/"@ + "memory"@ + "/"@ + self@.1,
    {
        let mut r = Vec::new();
        let mut cpu = join_path(self.root.as_str(), "cpuacct");
        cpu.append("/");
        cpu.append(self.group.as_str());
        r.push(cpu);
        let mut mem = join_path(self.root.as_str(), "memory");
        mem.append("/");
        mem.append(self.group.as_str());
        r.push(mem);
        r
    }

    /// What to write to zero the CPU time counter.
    pub fn reset_cpu_usage(&self) -> (r: AttrWrite)
        ensures
            r.path@ == legacy_path(self@.0, "cpuacct"@, self@.1, "cpuacct.usage"@),
            r.data@ == decimal_bytes(0),
            !r.append,
    {
        AttrWrite { path: self.path("cpuacct", "cpuacct.usage"), data: encode_u64(0), append: false }
    }

    /// The path of the CPU time counter.
    pub fn cpu_usage_path(&self) -> (r: String)
        ensures
            r@ == legacy_path(self@.0, "cpuacct"@, self@.1, "cpuacct.usage"@),
    {
        self.path("cpuacct", "cpuacct.usage")
    }

    /// Decodes what was read from the CPU time counter, which counts
    /// nanoseconds.
    pub fn cpu_usage(text: &str) -> (r: Result<Time, CGroupError>)
        ensures
            match r {
                Ok(t) => decode_value(text.spec_bytes()) matches Ok(x) && t@ == x / 1000,
                Err(e) => decode_value(text.spec_bytes()) matches Err(d) && e.inner == Some(
                    CGroupErrorKind::ParseErr(d),
                ),
            },
    {
        let ns = value_from_str(text)?;
        Ok(Time::from_micros(ns / 1000))
    }

    /// What to write to zero the memory high-water mark.
    pub fn reset_mem_usage(&self) -> (r: AttrWrite)
        ensures
            r.path@ == legacy_path(self@.0, "memory"@, self@.1, "memory.max_usage_in_bytes"@),
            r.data@ == decimal_bytes(0),
            !r.append,
    {
        AttrWrite {
            path: self.path("memory", "memory.max_usage_in_bytes"),
            data: encode_u64(0),
            append: false,
        }
    }

    /// The path of the memory high-water mark.
    pub fn mem_usage_path(&self) -> (r: String)
        ensures
            r@ == legacy_path(self@.0, "memory"@, self@.1, "memory.max_usage_in_bytes"@),
    {
        self.path("memory", "memory.max_usage_in_bytes")
    }

    /// Decodes what was read from the memory high-water mark, in bytes.
    pub fn mem_usage(text: &str) -> (r: Result<Space, CGroupError>)
        ensures
            match r {
                Ok(m) => decode_value(text.spec_bytes()) matches Ok(x) && m@ == x,
                Err(e) => decode_value(text.spec_bytes()) matches Err(d) && e.inner == Some(
                    CGroupErrorKind::ParseErr(d),
                ),
            },
    {
        let x = value_from_str(text)?;
        Ok(Space::from_byte(x))
    }

    /// What to write to cap the group's memory at `lim`.
    pub fn set_mem_limit(&self, lim: Space) -> (r: AttrWrite)
        ensures
            r.path@ == legacy_path(self@.0, "memory"@, self@.1, "memory.limit_in_bytes"@),
            r.data@ == decimal_bytes(lim@),
            !r.append,
    {
        AttrWrite {
            path: self.path("memory", "memory.limit_in_bytes"),
            data: encode_u64(lim.as_bytes()),
            append: false,
        }
    }

    /// What to write to zero both counters: CPU time, then memory.
    pub fn reset(&self) -> (r: Vec<AttrWrite>)
        ensures
            r@.len() == 2,
            r@[0].path@ == legacy_path(self@.0, "cpuacct"@, self@.1, "cpuacct.usage"@),
            r@[1].path@ == legacy_path(self@.0, "memory"@, self@.1, "memory.max_usage_in_bytes"@),
            forall|i: int| 0 <= i < 2 ==> #[trigger] r@[i].data@ == decimal_bytes(0) && !r@[i].append,
    {
        let mut r = Vec::new();
        r.push(self.reset_cpu_usage());
        r.push(self.reset_mem_usage());
        r
    }

    /// What to write to put the process `pid` in the group of both subsystems.
    pub fn apply(&self, pid: i32) -> (r: Vec<AttrWrite>)
        ensures
            r@.len() == 2,
            r@[0].path@ == legacy_path(self@.0, "cpuacct"@, self@.1, "tasks"@),
            r@[1].path@ == legacy_path(self@.0, "memory"@, self@.1, "tasks"@),
            forall|i: int| 0 <= i < 2 ==> #[trigger] r@[i].data@ == signed_decimal_bytes(pid as int) && !r@[i].append,
    {
        let mut r = Vec::new();
        r.push(AttrWrite { path: self.path("cpuacct", "tasks"), data: encode_pid(pid), append: false });
        r.push(AttrWrite { path: self.path("memory", "tasks"), data: encode_pid(pid), append: false });
        r
    }
}

/// The control-group backend that a sandbox runs on.
#[derive(Debug)]
pub enum Hierarchy {
    /// The unified hierarchy: the supported backend.
    Unified(CGroup),
    /// The legacy split hierarchy.
    Legacy(Cgroup),
}

impl Hierarchy {
    /// What to write, in order, to zero the usage counters before a run. The
    /// CPU counter of a unified group cannot be reset, so there it is nothing:
    /// a run reads it before the launch too, and counts the difference (see
    /// `execute::cpu_time_of_run`).
    pub fn reset(&self) -> (r: Vec<AttrWrite>)
        ensures
            match self {
                Hierarchy::Unified(_) => r@.len() == 0,
                Hierarchy::Legacy(g) => r@.len() == 2 && r@[0].path@ == legacy_path(
                    g@.0,
                    "cpuacct"@,
                    g@.1,
                    "cpuacct.usage"@,
                ) && r@[1].path@ == legacy_path(g@.0, "memory"@, g@.1, "memory.max_usage_in_bytes"@)
                    && (forall|i: int| 0 <= i < 2 ==> #[trigger] r@[i].data@ == decimal_bytes(0) && !r@[i].append),
            },
    {
        match self {
            Hierarchy::Unified(_) => Vec::new(),
            Hierarchy::Legacy(g) => g.reset(),
        }
    }

    /// The writes that put the process `pid` in the group: path, data, and
    /// whether to append.
    pub open spec fn process_writes(&self, pid: i32) -> Seq<(Seq<char>, Seq<u8>, bool)> {
        let d = signed_decimal_bytes(pid as int);
        match self {
            Hierarchy::Unified(g) => seq![(g@ + "/"@ + "cgroup.procs"@, d, true)],
            Hierarchy::Legacy(g) => seq![
                (legacy_path(g@.0, "cpuacct"@, g@.1, "tasks"@), d, false),
                (legacy_path(g@.0, "memory"@, g@.1, "tasks"@), d, false),
            ],
        }
    }

    /// What to write, in order, to put the process `pid` in the group.
    pub fn add_process(&self, pid: i32) -> (r: Vec<AttrWrite>)
        ensures
            r@.map_values(|w: AttrWrite| w@) == self.process_writes(pid),
    {
        let r = match self {
            Hierarchy::Unified(g) => {
                let mut r = Vec::new();
                r.push(g.add_proc(pid));
                r
            },
            Hierarchy::Legacy(g) => g.apply(pid),
        };
        assert(r@.map_values(|w: AttrWrite| w@) =~= self.process_writes(pid));
        r
    }

    /// The path of the attribute that accounts the group's CPU time.
    pub fn cpu_usage_path(&self) -> (r: String)
        ensures
            match self {
                Hierarchy::Unified(g) => r@ == g@ + "/"@ + "cpu.stat"@,
                Hierarchy::Legacy(g) => r@ == legacy_path(g@.0, "cpuacct"@, g@.1, "cpuacct.usage"@),
            },
    {
        match self {
            Hierarchy::Unified(g) => g.cpu_stat_path(),
            Hierarchy::Legacy(g) => g.cpu_usage_path(),
        }
    }

    /// Decodes what was read from the CPU time attribute into the group's
    /// total CPU time.
    pub fn cpu_usage(&self, text: &str) -> (r: Result<Time, CGroupError>)
        ensures
            match self {
                Hierarchy::Unified(_) => match r {
                    Ok(t) => exists|c: CpuStat| cpu_stat_result(text.spec_bytes(), Ok(c)) && t == c.usage,
                    Err(e) => cpu_stat_result(text.spec_bytes(), Err(e)),
                },
                Hierarchy::Legacy(_) => match r {
                    Ok(t) => decode_value(text.spec_bytes()) matches Ok(x) && t@ == x / 1000,
                    Err(e) => decode_value(text.spec_bytes()) matches Err(d) && e.inner == Some(
                        CGroupErrorKind::ParseErr(d),
                    ),
                },
            },
    {
        match self {
            Hierarchy::Unified(_) => {
                let c = CGroup::cpu_stat(text)?;
                Ok(c.usage)
            },
            Hierarchy::Legacy(_) => Cgroup::cpu_usage(text),
        }
    }

    /// The path of the attribute that accounts the group's memory.
    pub fn memory_usage_path(&self) -> (r: String)
        ensures
            match self {
                Hierarchy::Unified(g) => r@ == g@ + "/"@ + "memory.current"@,
                Hierarchy::Legacy(g) => r@ == legacy_path(
                    g@.0,
                    "memory"@,
                    g@.1,
                    "memory.max_usage_in_bytes"@,
                ),
            },
    {
        match self {
            Hierarchy::Unified(g) => g.memory_current_path(),
            Hierarchy::Legacy(g) => g.mem_usage_path(),
        }
    }

    /// Decodes what was read from the memory attribute: a number of bytes.
    pub fn memory_usage(&self, text: &str) -> (r: Result<Space, CGroupError>)
        ensures
            match r {
                Ok(m) => decode_value(text.spec_bytes()) matches Ok(x) && m@ == x,
                Err(e) => decode_value(text.spec_bytes()) matches Err(d) && e.inner == Some(
                    CGroupErrorKind::ParseErr(d),
                ),
            },
    {
        match self {
            Hierarchy::Unified(_) => CGroup::memory_current(text),
            Hierarchy::Legacy(_) => Cgroup::mem_usage(text),
        }
    }
}

} // verus!
