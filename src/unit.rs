//! Units of space (bytes) and time (microseconds).

use vstd::prelude::*;

verus! {

/// An amount of memory, in bytes.
#[derive(Debug, Clone, Copy, PartialEq, Eq, Structural, PartialOrd)]
pub struct Space(u64);

impl View for Space {
    type V = nat;

    /// The number of bytes.
    closed spec fn view(&self) -> nat {
        self.0 as nat
    }
}

impl Space {
    /// A space's byte count fits in 64 bits.
    pub broadcast proof fn lemma_bound(s: Space)
        ensures
            #[trigger] s@ <= u64::MAX,
    {
    }

    pub fn from_byte(num: u64) -> (r: Self)
        ensures
            r@ == num,
    {
        Space(num)
    }

    pub fn from_kib(num: u64) -> (r: Self)
        requires
            num * 1024 <= u64::MAX,
        ensures
            r@ == num * 1024,
    {
        Space(num * 1024)
    }

    pub fn from_mib(num: u64) -> (r: Self)
        requires
            num * 1024 * 1024 <= u64::MAX,
        ensures
            r@ == num * 1024 * 1024,
    {
        Space(num * 1024 * 1024)
    }

    /// Builds a space from a count of KiB as the kernel reports it (a signed
    /// count); `None` when it is negative or the bytes do not fit.
    pub fn try_from_kib(kib: i64) -> (r: Option<Self>)
        ensures
            r is Some <==> 0 <= kib && kib * 1024 <= u64::MAX,
            r matches Some(s) ==> s@ == kib * 1024,
    {
        if kib < 0 {
            return None;
        }
        match (kib as u64).checked_mul(1024) {
            Some(b) => Some(Space(b)),
            None => None,
        }
    }

    pub fn as_bytes(&self) -> (r: u64)
        ensures
            r == self@,
    {
        self.0
    }

    pub fn as_kib(&self) -> (r: u64)
        ensures
            r == self@ / 1024,
    {
        self.0 / 1024
    }

    pub fn as_mib(&self) -> (r: u64)
        ensures
            r == self@ / 1024 / 1024,
    {
        self.0 / 1024 / 1024
    }
}

/// A span of time, in microseconds.
#[derive(Debug, Clone, Copy, PartialEq, Eq, Structural, PartialOrd)]
pub struct Time(u64);

impl View for Time {
    type V = nat;

    /// The number of microseconds.
    closed spec fn view(&self) -> nat {
        self.0 as nat
    }
}

impl Time {
    /// A time's microsecond count fits in 64 bits.
    pub broadcast proof fn lemma_bound(t: Time)
        ensures
            #[trigger] t@ <= u64::MAX,
    {
    }

    /// Builds a time from seconds.
    pub fn from_secs(secs: u64) -> (r: Self)
        requires
            secs * 1000 * 1000 <= u64::MAX,
        ensures
            r@ == secs * 1000 * 1000,
    {
        Time(secs * 1000 * 1000)
    }

    /// Builds a time from milliseconds.
    pub fn from_millis(millis: u64) -> (r: Self)
        requires
            millis * 1000 <= u64::MAX,
        ensures
            r@ == millis * 1000,
    {
        Time(millis * 1000)
    }

    /// Builds a time from microseconds.
    pub fn from_micros(micros: u64) -> (r: Self)
        ensures
            r@ == micros,
    {
        Time(micros)
    }

    /// Builds a time from a count of microseconds of any width, such as a
    /// measured elapsed time; `None` when it does not fit.
    pub fn try_from_micros(micros: u128) -> (r: Option<Self>)
        ensures
            micros <= u64::MAX <==> r is Some,
            r matches Some(t) ==> t@ == micros,
    {
        if micros <= u64::MAX as u128 {
            Some(Time(micros as u64))
        } else {
            None
        }
    }

    /// Builds a time from seconds and microseconds, as in a `timeval`; `None`
    /// when either is negative or the total does not fit.
    pub fn try_from_timeval(secs: i64, micros: i64) -> (r: Option<Self>)
        ensures
            r is Some <==> 0 <= secs && 0 <= micros && secs * 1000000 + micros <= u64::MAX,
            r matches Some(t) ==> t@ == secs * 1000000 + micros,
    {
        if secs < 0 || micros < 0 {
            return None;
        }
        match (secs as u64).checked_mul(1000000) {
            Some(s) => match s.checked_add(micros as u64) {
                Some(t) => Some(Time(t)),
                None => None,
            },
            None => None,
        }
    }

    pub fn as_secs(&self) -> (r: u64)
        ensures
            r == self@ / 1000 / 1000,
    {
        self.0 / 1000 / 1000
    }

    pub fn as_millis(&self) -> (r: u64)
        ensures
            r == self@ / 1000,
    {
        self.0 / 1000
    }

    /// The microseconds past the whole seconds.
    pub fn subsec_micros(&self) -> (r: u64)
        ensures
            r == self@ % 1000000,
    {
        self.0 % 1000000
    }

    pub fn as_micros(&self) -> (r: u64)
        ensures
            r == self@,
    {
        self.0
    }

    /// Whether this span is longer than `other`.
    pub fn exceeds(&self, other: &Time) -> (r: bool)
        ensures
            r == (self@ > other@),
    {
        self.0 > other.0
    }
}

} // verus!
