//! Rate-limit decisions. A store remembers when each address last acted; the
//! decision depends only on the time elapsed since then and the limit.
use vstd::prelude::*;

verus! {

/// What to do when an address asks to act.
#[derive(Debug, Clone, Copy, PartialEq, Eq, Structural)]
pub enum LimitDecision {
    /// The address acted too recently: refuse, keep its record.
    Refuse,
    /// Its record has run out: allow, and drop the record.
    Forget,
    /// It has no record: allow, and record it acting now.
    Record,
}

/// Decides a request from an address whose last recorded action lies
/// `elapsed` ago (`None`: no record), under a limit of `limit`.
pub fn limit_decision(elapsed: Option<u64>, limit: u64) -> (r: LimitDecision)
    ensures
        r == match elapsed {
            None => LimitDecision::Record,
            Some(e) => if e < limit {
                LimitDecision::Refuse
            } else {
                LimitDecision::Forget
            },
        },
{
    match elapsed {
        None => LimitDecision::Record,
        Some(e) => if e < limit {
            LimitDecision::Refuse
        } else {
            LimitDecision::Forget
        },
    }
}

/// Whether a record made `elapsed` ago is still kept by a periodic cleanup.
pub fn limit_kept(elapsed: u64, limit: u64) -> (r: bool)
    ensures
        r == (elapsed <= limit),
{
    elapsed <= limit
}

} // verus!
