//! Motion list filtering for the presentation layer: which motions a
//! listing shows, keyed on whether a motion is resolved and whether it is
//! (or was) winning.

use vstd::prelude::*;
use crate::text::str_eq;

verus! {

/// Which motions a listing page shows.
#[derive(Clone, Copy, Debug, PartialEq, Eq, Structural)]
pub enum MotionListFilter {
    All,
    Passed,
    Failed,
    Finished,
    Pending,
    PendingPassed,
}

impl Default for MotionListFilter {
    /// The default listing shows every motion.
    fn default() -> (r: Self)
        ensures
            r == MotionListFilter::All,
    {
        MotionListFilter::All
    }
}

/// Whether a motion belongs to a filtered listing, given whether it has been
/// resolved and whether its tally is (or ended) winning.
pub open spec fn spec_filter_admits(f: MotionListFilter, resolved: bool, winning: bool) -> bool {
    match f {
        MotionListFilter::All => true,
        MotionListFilter::Passed => resolved && winning,
        MotionListFilter::Failed => resolved && !winning,
        MotionListFilter::Finished => resolved,
        MotionListFilter::Pending => !resolved,
        MotionListFilter::PendingPassed => !resolved || winning,
    }
}

/// Executable filter test.
pub fn filter_admits(f: MotionListFilter, resolved: bool, winning: bool) -> (r: bool)
    ensures
        r == spec_filter_admits(f, resolved, winning),
{
    match f {
        MotionListFilter::All => true,
        MotionListFilter::Passed => resolved && winning,
        MotionListFilter::Failed => resolved && !winning,
        MotionListFilter::Finished => resolved,
        MotionListFilter::Pending => !resolved,
        MotionListFilter::PendingPassed => !resolved || winning,
    }
}

impl MotionListFilter {
    /// Parses a filter's query-string code name; unknown names are rejected
    /// so the caller can fall back to a default or an error page.
    pub fn from_name(v: &str) -> (r: Option<MotionListFilter>)
        ensures
            r == (if v@ == "all"@ {
                Some(MotionListFilter::All)
            } else if v@ == "passed"@ {
                Some(MotionListFilter::Passed)
            } else if v@ == "failed"@ {
                Some(MotionListFilter::Failed)
            } else if v@ == "finished"@ {
                Some(MotionListFilter::Finished)
            } else if v@ == "pending"@ {
                Some(MotionListFilter::Pending)
            } else if v@ == "pending_passed"@ {
                Some(MotionListFilter::PendingPassed)
            } else {
                None
            }),
    {
        if str_eq(v, "all") {
            Some(MotionListFilter::All)
        } else if str_eq(v, "passed") {
            Some(MotionListFilter::Passed)
        } else if str_eq(v, "failed") {
            Some(MotionListFilter::Failed)
        } else if str_eq(v, "finished") {
            Some(MotionListFilter::Finished)
        } else if str_eq(v, "pending") {
            Some(MotionListFilter::Pending)
        } else if str_eq(v, "pending_passed") {
            Some(MotionListFilter::PendingPassed)
        } else {
            None
        }
    }
}

} // verus!
