//! Socket addresses and time spans as plain values.

use vstd::prelude::*;

verus! {

/// A socket address: an IPv4 or IPv6 address with a port (IPv6 also carries
/// flow information and a scope id, as `std::net::SocketAddrV6` does).
#[derive(PartialEq, Eq, Structural, Clone, Copy, Debug)]
pub enum NetAddr {
    V4 { ip: u32, port: u16 },
    V6 { ip: u128, port: u16, flowinfo: u32, scope_id: u32 },
}

impl NetAddr {
    /// The port of the address.
    pub fn port(&self) -> (p: u16)
        ensures
            p == match self {
                NetAddr::V4 { port, .. } => *port,
                NetAddr::V6 { port, .. } => *port,
            },
    {
        match self {
            NetAddr::V4 { port, .. } => *port,
            NetAddr::V6 { port, .. } => *port,
        }
    }
}

/// A span of time: whole seconds and the nanoseconds below a second, as
/// `std::time::Duration` holds it.
#[derive(PartialEq, Eq, Structural, Clone, Copy, Debug)]
pub struct TimeSpan {
    secs: u64,
    subsec_nanos: u32,
}

impl TimeSpan {
    /// The nanoseconds below a second are fewer than a second's.
    #[verifier::type_invariant]
    spec fn subsec_below_second(self) -> bool {
        self.subsec_nanos < 1_000_000_000
    }

    /// The whole seconds.
    pub closed spec fn spec_secs(self) -> u64 {
        self.secs
    }

    /// The nanoseconds below a second.
    pub closed spec fn spec_subsec(self) -> u32 {
        self.subsec_nanos
    }

    /// The whole span in nanoseconds.
    pub open spec fn total_nanos(self) -> int {
        self.spec_secs() as int * 1_000_000_000 + self.spec_subsec() as int
    }

    /// `secs` seconds and `nanos` nanoseconds; nanoseconds beyond a second
    /// carry into the seconds, which must not overflow.
    pub fn new(secs: u64, nanos: u32) -> (t: TimeSpan)
        requires
            secs as int + nanos as int / 1_000_000_000 <= u64::MAX,
        ensures
            t.total_nanos() == secs as int * 1_000_000_000 + nanos as int,
    {
        let carry: u64 = (nanos / 1_000_000_000) as u64;
        let t = TimeSpan { secs: secs + carry, subsec_nanos: nanos % 1_000_000_000 };
        proof {
            assert(t.total_nanos() == secs as int * 1_000_000_000 + nanos as int) by (nonlinear_arith)
                requires
                    t.spec_secs() == secs + nanos / 1_000_000_000,
                    t.spec_subsec() == nanos % 1_000_000_000,
            {
            }
        }
        t
    }

    pub fn from_secs(secs: u64) -> (t: TimeSpan)
        ensures
            t.total_nanos() == secs as int * 1_000_000_000,
            t.spec_secs() == secs,
    {
        TimeSpan { secs, subsec_nanos: 0 }
    }

    pub fn from_millis(ms: u64) -> (t: TimeSpan)
        ensures
            t.total_nanos() == ms as int * 1_000_000,
    {
        let t = TimeSpan { secs: ms / 1000, subsec_nanos: ((ms % 1000) * 1_000_000) as u32 };
        proof {
            assert(t.total_nanos() == ms as int * 1_000_000) by (nonlinear_arith)
                requires
                    t.spec_secs() == ms / 1000,
                    t.spec_subsec() == (ms % 1000) * 1_000_000,
            {
            }
        }
        t
    }

    pub fn from_nanos(nanos: u64) -> (t: TimeSpan)
        ensures
            t.total_nanos() == nanos as int,
    {
        let t = TimeSpan { secs: nanos / 1_000_000_000, subsec_nanos: (nanos % 1_000_000_000) as u32 };
        proof {
            assert(t.total_nanos() == nanos as int) by (nonlinear_arith)
                requires
                    t.spec_secs() == nanos / 1_000_000_000,
                    t.spec_subsec() == nanos % 1_000_000_000,
            {
            }
        }
        t
    }

    /// The whole seconds.
    pub fn as_secs(&self) -> (s: u64)
        ensures
            s == self.spec_secs(),
    {
        self.secs
    }

    /// The nanoseconds below a second.
    pub fn subsec_nanos(&self) -> (n: u32)
        ensures
            n == self.spec_subsec(),
            n < 1_000_000_000,
    {
        proof {
            use_type_invariant(self);
        }
        self.subsec_nanos
    }

    /// The whole span in nanoseconds.
    pub fn as_nanos(&self) -> (n: u128)
        ensures
            n == self.total_nanos(),
    {
        proof {
            use_type_invariant(self);
            assert(self.secs as int * 1_000_000_000 <= u64::MAX as int * 1_000_000_000) by (nonlinear_arith);
        }
        (self.secs as u128) * 1_000_000_000 + (self.subsec_nanos as u128)
    }
}

} // verus!
