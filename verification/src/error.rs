//! The one way in which the filter can fail.

use vstd::prelude::*;
use vstd::string::StringExecFns;

verus! {

/// Name under which the innovation variance is reported when it cannot be
/// inverted.
pub const INNOVATION: &'static str = "Innovation (measurement pre-fit residual `S`)";

/// Failure of a filter step.
#[derive(Clone, Copy, Debug)]
pub enum KalmanError {
    /// The named scalar is too close to zero to be inverted.
    FailedScalarInverse { scalar_name: &'static str },
}

/// Result of a filter step.
pub type KalmanResult<T> = Result<T, KalmanError>;

impl KalmanError {
    /// The text of the failure report.
    pub open spec fn message_text(self) -> Seq<char> {
        "failed to invert scalar "@ + self->scalar_name@ + " in operation"@
    }

    /// Whether this failure names the innovation variance.
    pub open spec fn names_innovation(self) -> bool {
        self->scalar_name@ == INNOVATION@
    }

    /// The failure report for an innovation variance that cannot be inverted.
    pub fn innovation() -> (e: KalmanError)
        ensures
            e.names_innovation(),
    {
        KalmanError::FailedScalarInverse { scalar_name: INNOVATION }
    }

    /// Renders the failure as a sentence.
    pub fn message(&self) -> (s: String)
        ensures
            s@ == self.message_text(),
    {
        match self {
            KalmanError::FailedScalarInverse { scalar_name } => {
                let mut s = String::from_str("failed to invert scalar ");
                s.append(scalar_name);
                s.append(" in operation");
                s
            },
        }
    }
}

} // verus!
