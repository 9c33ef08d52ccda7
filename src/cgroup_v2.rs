//! The unified control-group hierarchy (cgroup v2): the supported backend.
//!
//! A `CGroup` names one group's directory. Reading and writing its attribute
//! files is left to the caller: this module gives the paths, decodes what was
//! read and says what to write.

use vstd::prelude::*;
use vstd::string::{StringExecFns, StringSliceAdditionalSpecFns};
use crate::cpu::{cpu_stat_result, CpuStat};
use crate::deserializer::{
    decimal_bytes, decode_pids, decode_value, encode_u64, pids_from_str, value_from_str,
};
use crate::error::{CGroupError, CGroupErrorKind};
use crate::unit::Space;

verus! {

/// The filesystem type that `statfs` reports for a cgroup2 mount
/// (`CGROUP2_SUPER_MAGIC` of the kernel's `linux/magic.h`).
pub const CGROUP2_SUPER_MAGIC: i64 = 0x63677270;

/// A write of `data` to the attribute file at `path`; `append` asks to add to
/// the file rather than replace what it holds.
#[derive(Debug)]
pub struct AttrWrite {
    pub path: String,
    pub data: Vec<u8>,
    pub append: bool,
}

impl View for AttrWrite {
    type V = (Seq<char>, Seq<u8>, bool);

    open spec fn view(&self) -> (Seq<char>, Seq<u8>, bool) {
        (self.path@, self.data@, self.append)
    }
}

/// `a/b`.
pub fn join_path(a: &str, b: &str) -> (r: String)
    ensures
        r@ == a@ + "/"@ + b@,
{
    let mut r = String::from_str(a);
    r.append("/");
    r.append(b);
    r
}

/// A signed number in decimal.
pub open spec fn signed_decimal_bytes(x: int) -> Seq<u8> {
    if x < 0 {
        seq![45u8] + decimal_bytes((-x) as nat)
    } else {
        decimal_bytes(x as nat)
    }
}

/// Writes a process id in decimal.
pub fn encode_pid(pid: i32) -> (r: Vec<u8>)
    ensures
        r@ == signed_decimal_bytes(pid as int),
{
    if pid < 0 {
        let mut r = vec![45u8];
        let mut d = encode_u64((-(pid as i64)) as u64);
        r.append(&mut d);
        r
    } else {
        encode_u64(pid as u64)
    }
}

/// A group of the unified hierarchy.
#[derive(Debug)]
pub struct CGroup {
    hierarchy: String,
}

impl View for CGroup {
    type V = Seq<char>;

    /// The path of the group's directory.
    closed spec fn view(&self) -> Seq<char> {
        self.hierarchy@
    }
}

impl CGroup {
    /// The group at `hierarchy`, whose filesystem type `statfs` gave as
    /// `fs_type`: it must be mounted as cgroup v2.
    pub fn from_path(hierarchy: String, fs_type: i64) -> (r: Result<Self, CGroupError>)
        ensures
            r is Ok <==> fs_type == CGROUP2_SUPER_MAGIC,
            r matches Ok(g) ==> g@ == hierarchy@,
            r matches Err(e) ==> e.inner == Some(CGroupErrorKind::CGroupErr) && e.description@ == "\""@
                + hierarchy@ + "\" is not mounted as cgroup v2"@,
    {
        if fs_type != CGROUP2_SUPER_MAGIC {
            let mut d = String::from_str("\"");
            d.append(hierarchy.as_str());
            d.append("\" is not mounted as cgroup v2");
            Err(CGroupError { description: d, inner: Some(CGroupErrorKind::CGroupErr) })
        } else {
            Ok(CGroup { hierarchy })
        }
    }

    /// The path of the group's directory.
    pub fn hierarchy(&self) -> (r: &str)
        ensures
            r@ == self@,
    {
        self.hierarchy.as_str()
    }

    /// The path of the attribute file `file` of this group.
    pub fn attr_path(&self, file: &str) -> (r: String)
        ensures
            r@ == self@ + "/"@ + file@,
    {
        join_path(self.hierarchy.as_str(), file)
    }

    /// The path of the group's `cpu.stat`.
    pub fn cpu_stat_path(&self) -> (r: String)
        ensures
            r@ == self@ + "/"@ + "cpu.stat"@,
    {
        self.attr_path("cpu.stat")
    }

    /// Decodes what was read from `cpu.stat`.
    pub fn cpu_stat(text: &str) -> (r: Result<CpuStat, CGroupError>)
        ensures
            cpu_stat_result(text.spec_bytes(), r),
    {
        CpuStat::from_str(text)
    }

    /// The path of the group's `memory.current`.
    pub fn memory_current_path(&self) -> (r: String)
        ensures
            r@ == self@ + "/"@ + "memory.current"@,
    {
        self.attr_path("memory.current")
    }

    /// Decodes what was read from `memory.current`: a number of bytes.
    pub fn memory_current(text: &str) -> (r: Result<Space, CGroupError>)
        ensures
            match r {
                Ok(m) => decode_value(text.spec_bytes()) matches Ok(x) && m@ == x,
                Err(e) => decode_value(text.spec_bytes()) matches Err(d) && e.inner == Some(
                    CGroupErrorKind::ParseErr(d),
                ),
            },
    {
        let x = value_from_str(text)?;
        Ok(Space::from_byte(x))
    }

    /// What to write to cap the group's memory at `max`.
    pub fn set_memory_limit(&self, max: Space) -> (r: AttrWrite)
        ensures
            r.path@ == self@ + "/"@ + "memory.max"@,
            r.data@ == decimal_bytes(max@),
            !r.append,
    {
        AttrWrite {
            path: self.attr_path("memory.max"),
            data: encode_u64(max.as_bytes()),
            append: false,
        }
    }

    /// The path of the group's `cgroup.procs`.
    pub fn procs_path(&self) -> (r: String)
        ensures
            r@ == self@ + "/"@ + "cgroup.procs"@,
    {
        self.attr_path("cgroup.procs")
    }

    /// Decodes what was read from `cgroup.procs`: the ids of the group's
    /// processes.
    pub fn get_proc(text: &str) -> (r: Result<Vec<i32>, CGroupError>)
        ensures
            match r {
                Ok(v) => decode_pids(text.spec_bytes()) == Ok::<Seq<i32>, crate::error::DecodeError>(v@),
                Err(e) => decode_pids(text.spec_bytes()) matches Err(d) && e.inner == Some(
                    CGroupErrorKind::ParseErr(d),
                ),
            },
    {
        pids_from_str(text)
    }

    /// What to write to move the process `pid` into the group.
    pub fn add_proc(&self, pid: i32) -> (r: AttrWrite)
        ensures
            r.path@ == self@ + "/"@ + "cgroup.procs"@,
            r.data@ == signed_decimal_bytes(pid as int),
            r.append,
    {
        AttrWrite { path: self.attr_path("cgroup.procs"), data: encode_pid(pid), append: true }
    }
}

} // verus!
