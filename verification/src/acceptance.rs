//! The verdicts of the acceptance run: each criterion passes or fails, and the
//! run passes only when all of them do.

use vstd::prelude::*;

verus! {

/// The verdict on one criterion.
#[derive(Clone, Copy, Debug, PartialEq, Eq, Structural)]
pub enum Outcome {
    Pass,
    Fail,
}

impl Outcome {
    pub fn passed(self) -> (r: bool)
        ensures
            r == (self == Outcome::Pass),
    {
        match self {
            Outcome::Pass => true,
            Outcome::Fail => false,
        }
    }
}

impl From<bool> for Outcome {
    fn from(value: bool) -> (r: Outcome) {
        if value {
            Outcome::Pass
        } else {
            Outcome::Fail
        }
    }
}

impl vstd::std_specs::convert::FromSpecImpl<bool> for Outcome {
    open spec fn obeys_from_spec() -> bool {
        true
    }

    open spec fn from_spec(value: bool) -> Outcome {
        if value {
            Outcome::Pass
        } else {
            Outcome::Fail
        }
    }
}

/// The verdicts of an acceptance run.
#[derive(Clone, Copy, Debug, PartialEq, Eq, Structural)]
pub struct Acceptance {
    pub startup_p95_under_two_seconds: Outcome,
    pub all_fixtures_completed: Outcome,
    pub one_minute_stability_completed: Outcome,
    pub resource_growth_within_limits: Outcome,
}

impl Acceptance {
    /// The run passes when every criterion passes.
    pub fn passed(self) -> (r: bool)
        ensures
            r == (self.startup_p95_under_two_seconds == Outcome::Pass && self.all_fixtures_completed
                == Outcome::Pass && self.one_minute_stability_completed == Outcome::Pass
                && self.resource_growth_within_limits == Outcome::Pass),
    {
        self.startup_p95_under_two_seconds.passed() && self.all_fixtures_completed.passed()
            && self.one_minute_stability_completed.passed() && self.resource_growth_within_limits.passed()
    }
}

/// `final_value - initial_value`, clamped to the range of `i64`.
pub fn signed_difference(final_value: u64, initial_value: u64) -> (r: i64)
    ensures
        r == if final_value - initial_value > i64::MAX {
            i64::MAX as int
        } else if final_value - initial_value < i64::MIN {
            i64::MIN as int
        } else {
            final_value - initial_value
        },
{
    let difference = final_value as i128 - initial_value as i128;
    if difference > 9223372036854775807i128 {
        9223372036854775807i64
    } else if difference < -9223372036854775808i128 {
        -9223372036854775808i64
    } else {
        difference as i64
    }
}

} // verus!
