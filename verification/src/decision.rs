use vstd::prelude::*;
use vstd::std_specs::cmp::PartialOrdSpec;
use core::cmp::Ordering;

verus! {

/// The arbiter's per-cycle output.
///
/// Ordering is severity: `NoAction < Warn < Brake`.
#[derive(Clone, Copy, Debug, PartialEq, Eq, Structural, Ord)]
pub enum Decision {
    NoAction,
    Warn,
    Brake,
}

impl Decision {
    /// Severity rank: `NoAction` is 0, `Warn` is 1, `Brake` is 2.
    pub open spec fn rank(self) -> int {
        match self {
            Decision::NoAction => 0,
            Decision::Warn => 1,
            Decision::Brake => 2,
        }
    }

    /// Whether this decision is at least as severe as `other`.
    pub open spec fn at_least(self, other: Decision) -> bool {
        self.rank() >= other.rank()
    }

    /// Executable severity rank.
    pub fn severity(&self) -> (r: u8)
        ensures
            r == self.rank(),
    {
        match self {
            Decision::NoAction => 0,
            Decision::Warn => 1,
            Decision::Brake => 2,
        }
    }

    /// Executable form of `at_least`.
    pub fn is_at_least(&self, other: Decision) -> (r: bool)
        ensures
            r == self.at_least(other),
    {
        self.severity() >= other.severity()
    }
}

impl PartialOrd for Decision {
    fn partial_cmp(&self, other: &Decision) -> (r: Option<Ordering>) {
        let a: u8 = self.severity();
        let b: u8 = other.severity();
        if a < b {
            Some(Ordering::Less)
        } else if a == b {
            Some(Ordering::Equal)
        } else {
            Some(Ordering::Greater)
        }
    }
}

impl vstd::std_specs::cmp::PartialOrdSpecImpl for Decision {
    open spec fn obeys_partial_cmp_spec() -> bool {
        true
    }

    open spec fn partial_cmp_spec(&self, other: &Decision) -> Option<Ordering> {
        if self.rank() < other.rank() {
            Some(Ordering::Less)
        } else if self.rank() == other.rank() {
            Some(Ordering::Equal)
        } else {
            Some(Ordering::Greater)
        }
    }
}

/// Decisions are ordered by severity: `a < b` exactly when `a` ranks below
/// `b`, equal ranks mean equal decisions, and the order runs
/// `NoAction < Warn < Brake`.
pub proof fn decision_order_is_severity(a: Decision, b: Decision)
    ensures
        (a.partial_cmp_spec(&b) == Some(Ordering::Less)) <==> a.rank() < b.rank(),
        (a.partial_cmp_spec(&b) == Some(Ordering::Equal)) <==> a == b,
        (a.partial_cmp_spec(&b) == Some(Ordering::Greater)) <==> b.rank() < a.rank(),
        Decision::NoAction.rank() < Decision::Warn.rank(),
        Decision::Warn.rank() < Decision::Brake.rank(),
{
}

} // verus!
