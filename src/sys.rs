//! The handle on the sandboxed process.

use vstd::prelude::*;

verus! {

/// The sandboxed process, by its id. It leads its own process group, whose id
/// is its own.
#[derive(Debug)]
pub struct ProcessKeeper {
    pid: i32,
}

impl View for ProcessKeeper {
    type V = int;

    closed spec fn view(&self) -> int {
        self.pid as int
    }
}

impl ProcessKeeper {
    pub fn new(pid: i32) -> (r: Self)
        requires
            pid > 0,
        ensures
            r@ == pid,
    {
        ProcessKeeper { pid }
    }

    pub fn pid(&self) -> (r: i32)
        ensures
            r == self@,
    {
        self.pid
    }

    /// Where a kill signal goes, in order: the whole process group (a
    /// negated id), then the process itself, which covers the leader and every
    /// descendant that stayed in its group.
    pub fn kill_targets(&self) -> (r: Vec<i32>)
        requires
            self@ > 0,
        ensures
            r@.len() == 2,
            r@[0] == -self@,
            r@[1] == self@,
    {
        let group = -self.pid;
        let mut r = Vec::new();
        r.push(group);
        r.push(self.pid);
        r
    }
}

} // verus!
