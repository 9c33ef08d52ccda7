//! A single-host process sandbox: the verified core.
//!
//! The library holds the logic of the sandbox: units of space and time, the
//! decoder of the control-group attribute format, the hierarchy client's paths
//! and texts, the resource limits to install, the order of the child's start-up
//! steps and the decisions of the deadline supervisor. The system calls that
//! carry these out live in the application around it.

pub mod cgroup;
pub mod cgroup_v2;
pub mod config;
pub mod cpu;
pub mod deserializer;
pub mod error;
pub mod execute;
pub mod records;
pub mod resourcelimit;
pub mod sys;
pub mod unit;

pub use cgroup::Cgroup;
pub use cgroup::Hierarchy;
pub use cgroup_v2::AttrWrite;
pub use cgroup_v2::CGroup;
pub use config::Config;
pub use config::Payload;
pub use cpu::CpuStat;
pub use error::CGroupError;
pub use error::CGroupErrorKind;
pub use error::DecodeError;
pub use resourcelimit::ResourceLimit;
pub use sys::ProcessKeeper;
pub use unit::Space;
pub use unit::Time;
