use vstd::prelude::*;

verus! {

/// The kinds of failure of the alignment and splitting operations.
#[derive(Debug, Clone, PartialEq, Eq)]
pub enum TimeErr {
    /// Unable to floor the time to a given window
    Floor,
    /// Unable to ceil the time to a given window
    Ceil,
    /// The timeframe is too large to be split
    FrameTooLarge,
    /// A configuration error (invalid window, empty or inverted range)
    Other(String),
}

} // verus!
