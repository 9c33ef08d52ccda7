//! The CPU statistics of a control group.

use vstd::prelude::*;
use vstd::string::StringSliceAdditionalSpecFns;
use crate::deserializer::{decode_record, field_names, from_str};
use crate::error::{CGroupError, CGroupErrorKind};
use crate::unit::Time;

verus! {

/// The fields of `cpu.stat` that a `CpuStat` holds, in this order.
pub open spec fn cpu_stat_fields() -> Seq<&'static str> {
    seq!["usage_usec", "user_usec", "system_usec"]
}

/// Whether `r` is what decoding the `cpu.stat` text `s` gives: the three
/// values where the record decodes, else its decoding error.
pub open spec fn cpu_stat_result(s: Seq<u8>, r: Result<CpuStat, CGroupError>) -> bool {
    match r {
        Ok(c) => decode_record(s, field_names(cpu_stat_fields())) matches Ok(v) && c.holds(v),
        Err(e) => decode_record(s, field_names(cpu_stat_fields())) matches Err(d) && e.inner == Some(
            CGroupErrorKind::ParseErr(d),
        ),
    }
}

/// CPU time used by a control group: in all, in user mode and in kernel mode.
#[derive(Debug, Clone, Copy, PartialEq, Eq, Structural)]
pub struct CpuStat {
    pub usage: Time,
    pub user: Time,
    pub system: Time,
}

impl CpuStat {
    /// Whether this holds the three values `v`: usage, user, system, in
    /// microseconds.
    pub open spec fn holds(&self, v: Seq<u64>) -> bool {
        v.len() == 3 && self.usage@ == v[0] && self.user@ == v[1] && self.system@ == v[2]
    }

    /// Decodes the text of a `cpu.stat` attribute. Lines other than the three
    /// fields, in any order, are skipped.
    pub fn from_str(s: &str) -> (r: Result<Self, CGroupError>)
        ensures
            cpu_stat_result(s.spec_bytes(), r),
    {
        let fields = ["usage_usec", "user_usec", "system_usec"];
        assert(fields@ =~= cpu_stat_fields());
        let v = from_str(s, fields.as_slice())?;
        Ok(
            CpuStat {
                usage: Time::from_micros(v[0]),
                user: Time::from_micros(v[1]),
                system: Time::from_micros(v[2]),
            },
        )
    }
}

} // verus!
