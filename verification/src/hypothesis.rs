use vstd::prelude::*;

verus! {

/// Alternative statistical hypothesis to the null hypothesis of equality.
#[derive(Debug, PartialEq, Eq, Clone, Copy, Structural)]
pub enum AltHyp {
    /// Less than
    Lt,
    /// Greater than
    Gt,
    /// Not equal
    Ne,
}

/// Statistical test hypothesis.
#[derive(Debug, PartialEq, Eq, Clone, Copy, Structural)]
pub enum Hyp {
    /// Null hypothesis of equality.
    Null,
    /// Alternative hypothesis.
    Alt(AltHyp),
}

impl Hyp {
    /// The alternative hypothesis carried by `self`, defaulting to
    /// [`AltHyp::Ne`] for the null hypothesis.
    pub fn alt_hyp(&self) -> (h: AltHyp)
        ensures
            h == match *self {
                Hyp::Null => AltHyp::Ne,
                Hyp::Alt(a) => a,
            },
    {
        match self {
            Hyp::Null => AltHyp::Ne,
            Hyp::Alt(h) => *h,
        }
    }
}

/// The hypothesis a test accepts: the alternative exactly when the p-value
/// came out below the significance level `alpha`.
///
/// The p-value itself is a real number computed outside this crate; only the
/// outcome of the comparison `p < alpha` is needed to decide the test.
pub fn accepted_hypothesis(alt_hyp: AltHyp, p_lt_alpha: bool) -> (h: Hyp)
    ensures
        h == (if p_lt_alpha {
            Hyp::Alt(alt_hyp)
        } else {
            Hyp::Null
        }),
{
    if p_lt_alpha {
        Hyp::Alt(alt_hyp)
    } else {
        Hyp::Null
    }
}

/// Represents the position of a value with respect to a confidence interval.
#[derive(Debug, PartialEq, Eq, Clone, Copy, Structural)]
pub enum PositionWrtCi {
    /// The value is lower than the low end of the confidence interval.
    Below,
    /// The value is inside the confidence interval.
    In,
    /// The value is higher than the high end of the confidence interval.
    Above,
}

} // verus!
