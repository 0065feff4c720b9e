use vstd::prelude::*;

verus! {

/// Failure conditions reported by the statistics in this crate.
///
/// Every fallible operation returns one of these values instead of
/// panicking, so a caller can decide whether to abort a larger computation
/// or substitute a sentinel result.
#[derive(Debug, PartialEq, Eq)]
pub enum StatsError {
    /// An input sequence was not ordered as required.
    OrderingViolation,
    /// A statistic that needs both samples to be non-empty was requested
    /// while one of them had size zero.
    EmptySample,
    /// So many observations are tied across the two samples that the
    /// tie-corrected null variance collapses to zero or below.
    ExcessiveTies,
    /// A significance level `alpha` outside the open interval `(0, 1)`.
    InvalidConfidenceLevel,
    /// Any other failure, described by a message.
    Custom(String),
}

impl StatsError {
    /// Wraps a caller-supplied message as an error value.
    pub fn new(msg: &str) -> (e: StatsError)
        ensures
            e matches StatsError::Custom(s) && s@ == msg@,
    {
        StatsError::Custom(String::from_str(msg))
    }

    /// The message describing this error.
    pub fn msg(&self) -> (m: &str)
        ensures
            m@ == self.msg_spec(),
    {
        match self {
            StatsError::OrderingViolation => "items not ordered properly",
            StatsError::EmptySample => "sample sizes must both be positive",
            StatsError::ExcessiveTies => "too many rank ties",
            StatsError::InvalidConfidenceLevel => "arg `alpha` must be in interval (0, 1)",
            StatsError::Custom(s) => s.as_str(),
        }
    }

    /// The message that [`StatsError::msg`] returns for each variant.
    pub open spec fn msg_spec(&self) -> Seq<char> {
        match self {
            StatsError::OrderingViolation => "items not ordered properly"@,
            StatsError::EmptySample => "sample sizes must both be positive"@,
            StatsError::ExcessiveTies => "too many rank ties"@,
            StatsError::InvalidConfidenceLevel => "arg `alpha` must be in interval (0, 1)"@,
            StatsError::Custom(s) => s@,
        }
    }
}

/// Alias for results in this crate.
pub type StatsResult<V> = Result<V, StatsError>;

} // verus!
