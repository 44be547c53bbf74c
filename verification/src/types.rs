//! Identifiers shared by the session, the browser core and the renderer protocol.

use vstd::prelude::*;

verus! {

/// Identifies one browser page (tab).
#[derive(Clone, Debug, Hash)]
pub struct PageId(pub String);

impl PartialEq for PageId {
    fn eq(&self, other: &PageId) -> (r: bool) {
        self.0 == other.0
    }
}

impl vstd::std_specs::cmp::PartialEqSpecImpl for PageId {
    open spec fn obeys_eq_spec() -> bool {
        true
    }

    open spec fn eq_spec(&self, other: &PageId) -> bool {
        self.0@ == other.0@
    }
}

impl Eq for PageId {}

impl PageId {
    pub fn new(value: &str) -> (r: PageId)
        ensures
            r.0@ == value@,
    {
        PageId(String::from_str(value))
    }

    pub fn same(&self, other: &PageId) -> (r: bool)
        ensures
            r == (self.0@ == other.0@),
    {
        self.0 == other.0
    }

    pub fn copy(&self) -> (r: PageId)
        ensures
            r.0@ == self.0@,
    {
        PageId(self.0.clone())
    }
}

/// Orders the navigations of one page; a result is accepted only for the latest one.
#[derive(Clone, Copy, Debug, PartialEq, Eq, Structural)]
pub struct NavigationId(pub u64);

impl NavigationId {
    pub fn zero() -> (r: NavigationId)
        ensures
            r.0 == 0,
    {
        NavigationId(0)
    }

    pub fn saturating_next(self) -> (r: NavigationId)
        ensures
            r.0 == if self.0 == u64::MAX {
                u64::MAX
            } else {
                (self.0 + 1) as u64
            },
    {
        NavigationId(self.0.saturating_add(1))
    }
}

/// The load stages that the session reports.
#[derive(Clone, Copy, Debug, PartialEq, Eq, Structural)]
pub enum LoadStage {
    Cancelled,
}

} // verus!

verus! {

/// A span of time with nanosecond precision, measured from a caller-chosen origin.
#[derive(Clone, Copy, Debug, PartialEq, Eq, Structural)]
pub struct Duration {
    secs: u64,
    nanos: u32,
}

impl View for Duration {
    type V = nat;

    closed spec fn view(&self) -> nat {
        (self.secs * 1_000_000_000 + self.nanos) as nat
    }
}

proof fn lemma_parts_bounded(secs: u64, nanos: u32)
    requires
        nanos < 1_000_000_000,
    ensures
        secs * 1_000_000_000 + nanos <= max_duration_nanos(),
{
    assert(secs * 1_000_000_000 <= (u64::MAX as nat) * 1_000_000_000) by (nonlinear_arith)
        requires secs <= u64::MAX;
}

/// The largest number of nanoseconds that a [`Duration`] holds.
pub open spec fn max_duration_nanos() -> nat {
    (u64::MAX as nat) * 1_000_000_000 + 999_999_999
}

impl Duration {
    #[verifier::type_invariant]
    closed spec fn well_formed(self) -> bool {
        self.nanos < 1_000_000_000
    }

    pub fn from_secs(secs: u64) -> (r: Duration)
        ensures
            r@ == secs * 1_000_000_000,
    {
        Duration { secs, nanos: 0 }
    }

    pub fn from_millis(millis: u64) -> (r: Duration)
        ensures
            r@ == millis * 1_000_000,
    {
        let secs = millis / 1000;
        let rest = millis % 1000;
        let nanos = (rest as u32) * 1_000_000;
        proof {
            assert(millis * 1_000_000 == secs * 1_000_000_000 + rest * 1_000_000) by (nonlinear_arith)
                requires secs == millis / 1000, rest == millis % 1000;
        }
        Duration { secs, nanos }
    }

    pub fn from_nanos_parts(secs: u64, nanos: u32) -> (r: Duration)
        requires
            nanos < 1_000_000_000,
        ensures
            r@ == secs * 1_000_000_000 + nanos,
    {
        Duration { secs, nanos }
    }

    pub fn as_secs(&self) -> (r: u64)
        ensures
            r == self@ / 1_000_000_000,
    {
        proof {
            use_type_invariant(*self);
        }
        self.secs
    }

    pub fn subsec_nanos(&self) -> (r: u32)
        ensures
            r == self@ % 1_000_000_000,
    {
        proof {
            use_type_invariant(*self);
        }
        self.nanos
    }

    /// The sum, or `None` when it exceeds the largest representable span.
    pub fn checked_add(self, other: Duration) -> (r: Option<Duration>)
        ensures
            match r {
                Some(sum) => sum@ == self@ + other@ && sum@ <= max_duration_nanos(),
                None => self@ + other@ > max_duration_nanos(),
            },
    {
        proof {
            use_type_invariant(self);
            use_type_invariant(other);
        }
        let secs = match self.secs.checked_add(other.secs) {
            Some(secs) => secs,
            None => {
                proof {
                    assert(self@ + other@ >= (self.secs + other.secs) * 1_000_000_000) by (nonlinear_arith)
                        requires self@ == self.secs * 1_000_000_000 + self.nanos,
                            other@ == other.secs * 1_000_000_000 + other.nanos;
                    assert((self.secs + other.secs) * 1_000_000_000 >= (u64::MAX as nat + 1) * 1_000_000_000) by (nonlinear_arith)
                        requires self.secs + other.secs >= u64::MAX as nat + 1;
                }
                return None;
            },
        };
        let nanos = self.nanos + other.nanos;
        if nanos >= 1_000_000_000 {
            match secs.checked_add(1) {
                Some(carried) => {
                    let r = Duration { secs: carried, nanos: nanos - 1_000_000_000 };
                    proof {
                        assert(r@ == self@ + other@) by (nonlinear_arith)
                            requires r@ == carried * 1_000_000_000 + (nanos - 1_000_000_000),
                                carried == secs + 1, secs == self.secs + other.secs,
                                self@ == self.secs * 1_000_000_000 + self.nanos,
                                other@ == other.secs * 1_000_000_000 + other.nanos,
                                nanos == self.nanos + other.nanos;
                    }
                    proof { lemma_parts_bounded(carried, (nanos - 1_000_000_000) as u32); }
                    Some(r)
                },
                None => {
                    proof {
                        assert(self@ + other@ > max_duration_nanos()) by (nonlinear_arith)
                            requires secs == u64::MAX, secs == self.secs + other.secs,
                                self@ == self.secs * 1_000_000_000 + self.nanos,
                                other@ == other.secs * 1_000_000_000 + other.nanos,
                                self.nanos + other.nanos >= 1_000_000_000;
                    }
                    None
                },
            }
        } else {
            let r = Duration { secs, nanos };
            proof {
                assert(r@ == self@ + other@) by (nonlinear_arith)
                    requires r@ == secs * 1_000_000_000 + nanos, secs == self.secs + other.secs,
                        self@ == self.secs * 1_000_000_000 + self.nanos,
                        other@ == other.secs * 1_000_000_000 + other.nanos,
                        nanos == self.nanos + other.nanos;
                lemma_parts_bounded(secs, nanos);
            }
            Some(r)
        }
    }

    /// Whether `self` is not earlier than `other`.
    pub fn at_or_after(&self, other: &Duration) -> (r: bool)
        ensures
            r == (self@ >= other@),
    {
        proof {
            use_type_invariant(*self);
            use_type_invariant(*other);
            assert(self.secs > other.secs ==> self@ > other@) by (nonlinear_arith)
                requires self@ == self.secs * 1_000_000_000 + self.nanos,
                    other@ == other.secs * 1_000_000_000 + other.nanos,
                    self.nanos < 1_000_000_000, other.nanos < 1_000_000_000;
            assert(self.secs < other.secs ==> self@ < other@) by (nonlinear_arith)
                requires self@ == self.secs * 1_000_000_000 + self.nanos,
                    other@ == other.secs * 1_000_000_000 + other.nanos,
                    self.nanos < 1_000_000_000, other.nanos < 1_000_000_000;
        }
        self.secs > other.secs || (self.secs == other.secs && self.nanos >= other.nanos)
    }
}

} // verus!
