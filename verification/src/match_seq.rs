//! The condition a caller attaches to a write.

use vstd::prelude::*;

verus! {

/// A precondition on the sequence number of the entry that a write targets.
#[derive(Clone, Copy, Debug, PartialEq, Eq)]
pub enum MatchSeq {
    /// Always satisfied.
    Any,
    /// Satisfied when the entry's sequence number is exactly this one; `Exact(0)`
    /// is satisfied when there is no entry.
    Exact(u64),
    /// Satisfied when the entry's sequence number is at least this one; an absent
    /// entry counts as sequence number zero.
    GE(u64),
}

impl MatchSeq {
    /// Whether the condition admits a write to an entry whose sequence number is
    /// `current`, `None` standing for an absent entry.
    pub open spec fn admits(self, current: Option<u64>) -> bool {
        match self {
            MatchSeq::Any => true,
            MatchSeq::Exact(n) => match current {
                Some(s) => s == n,
                None => n == 0,
            },
            MatchSeq::GE(n) => match current {
                Some(s) => s >= n,
                None => n == 0,
            },
        }
    }

    /// Decides whether a write guarded by this condition may go ahead, given
    /// the sequence number of the entry it targets.
    pub fn match_seq(&self, current: Option<u64>) -> (ok: bool)
        ensures
            ok == self.admits(current),
    {
        evaluate(current, *self)
    }
}

/// The match policy: whether `condition` admits a write to an entry whose
/// sequence number is `effective_current`. The number is the one that a read
/// would see: `None` for a key that is absent or has expired.
pub fn evaluate(effective_current: Option<u64>, condition: MatchSeq) -> (ok: bool)
    ensures
        ok == condition.admits(effective_current),
{
    match condition {
        MatchSeq::Any => true,
        MatchSeq::Exact(n) => match effective_current {
            Some(s) => s == n,
            None => n == 0,
        },
        MatchSeq::GE(n) => match effective_current {
            Some(s) => s >= n,
            None => n == 0,
        },
    }
}

/// The condition that stands for an optional sequence number: a given number
/// must be met exactly, no number admits any entry.
pub open spec fn from_optional(seq: Option<u64>) -> MatchSeq {
    match seq {
        Some(s) => MatchSeq::Exact(s),
        None => MatchSeq::Any,
    }
}

impl From<Option<u64>> for MatchSeq {
    fn from(seq: Option<u64>) -> (m: MatchSeq)
    {
        match seq {
            Some(s) => MatchSeq::Exact(s),
            None => MatchSeq::Any,
        }
    }
}

impl vstd::std_specs::convert::FromSpecImpl<Option<u64>> for MatchSeq {
    open spec fn obeys_from_spec() -> bool {
        true
    }

    open spec fn from_spec(seq: Option<u64>) -> MatchSeq {
        from_optional(seq)
    }
}

} // verus!
