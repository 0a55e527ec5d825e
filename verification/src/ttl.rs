//! Spans of time, for expirations.

use vstd::prelude::*;

verus! {

/// The nanoseconds in one millisecond.
pub open spec fn nanos_per_milli() -> nat {
    1_000_000
}

/// The nanoseconds in one second.
pub open spec fn nanos_per_sec() -> nat {
    1_000_000_000
}

/// A span of time: whole seconds, and what is left of it in nanoseconds.
/// It stands for its length in nanoseconds.
#[derive(Debug, Clone, Copy, PartialEq, Eq)]
pub struct Ttl {
    secs: u64,
    nanos: u32,
}

impl View for Ttl {
    type V = nat;

    closed spec fn view(&self) -> nat {
        self.secs as nat * nanos_per_sec() + self.nanos as nat
    }
}

/// The length in nanoseconds of an optional span.
pub open spec fn option_nanos(ttl: Option<Ttl>) -> Option<nat> {
    match ttl {
        Some(ttl) => Some(ttl@),
        None => None,
    }
}

impl Ttl {
    #[verifier::type_invariant]
    spec fn below_a_second(self) -> bool {
        self.nanos < 1_000_000_000
    }

    /// A span of `secs` seconds and `nanos` nanoseconds, where these are
    /// less than a second.
    pub fn new(secs: u64, nanos: u32) -> (ttl: Option<Ttl>)
        ensures
            ttl is Some <==> nanos < nanos_per_sec(),
            ttl matches Some(t) ==> t@ == secs * nanos_per_sec() + nanos,
    {
        if nanos < 1_000_000_000 {
            Some(Ttl { secs, nanos })
        } else {
            None
        }
    }

    /// A span of that many whole seconds.
    pub fn from_secs(secs: u64) -> (ttl: Ttl)
        ensures
            ttl@ == secs * nanos_per_sec(),
    {
        Ttl { secs, nanos: 0 }
    }

    /// A span of that many milliseconds.
    pub fn from_millis(millis: u64) -> (ttl: Ttl)
        ensures
            ttl@ == millis * nanos_per_milli(),
    {
        let secs = millis / 1000;
        let nanos = (millis % 1000) as u32 * 1_000_000;
        Ttl { secs, nanos }
    }

    /// The whole seconds in the span.
    pub fn as_secs(&self) -> (secs: u64)
        ensures
            secs == self@ / nanos_per_sec(),
    {
        proof {
            use_type_invariant(self);
        }
        self.secs
    }

    /// What is left of the span behind its whole seconds, in nanoseconds.
    pub fn subsec_nanos(&self) -> (nanos: u32)
        ensures
            nanos == self@ % nanos_per_sec(),
    {
        proof {
            use_type_invariant(self);
        }
        self.nanos
    }

    /// The whole milliseconds in the span, any remainder dropped.
    pub fn as_millis(&self) -> (millis: u128)
        ensures
            millis == self@ / nanos_per_milli(),
    {
        proof {
            use_type_invariant(self);
        }
        self.secs as u128 * 1000 + (self.nanos / 1_000_000) as u128
    }
}

} // verus!
