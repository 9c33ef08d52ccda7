//! What one sandboxed execution runs: the group, the limits and the payload.

use vstd::prelude::*;
use crate::cgroup::Hierarchy;
use crate::resourcelimit::ResourceLimit;

verus! {

/// The configuration of one execution.
#[derive(Debug)]
pub struct Config {
    pub cg: Hierarchy,
    pub rlim: ResourceLimit,
    pub payload: Payload,
}

/// The program that replaces the sandboxed process's image: its path, its
/// arguments and its environment (`NAME=value` entries).
#[derive(Debug)]
pub struct Payload {
    path: String,
    argv: Vec<String>,
    envp: Vec<String>,
}

impl View for Payload {
    type V = (Seq<char>, Seq<Seq<char>>, Seq<Seq<char>>);

    closed spec fn view(&self) -> (Seq<char>, Seq<Seq<char>>, Seq<Seq<char>>) {
        (
            self.path@,
            self.argv@.map_values(|a: String| a@),
            self.envp@.map_values(|e: String| e@),
        )
    }
}

impl Payload {
    pub fn new(path: String, argv: Vec<String>, envp: Vec<String>) -> (r: Self)
        ensures
            r@ == (
                path@,
                argv@.map_values(|a: String| a@),
                envp@.map_values(|e: String| e@),
            ),
    {
        Payload { path, argv, envp }
    }

    pub fn path(&self) -> (r: &String)
        ensures
            r@ == self@.0,
    {
        &self.path
    }

    pub fn argv(&self) -> (r: &Vec<String>)
        ensures
            r@.map_values(|a: String| a@) == self@.1,
    {
        &self.argv
    }

    pub fn envp(&self) -> (r: &Vec<String>)
        ensures
            r@.map_values(|e: String| e@) == self@.2,
    {
        &self.envp
    }
}

} // verus!
