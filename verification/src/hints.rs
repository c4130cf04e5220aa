//! Contracts for the branch hints of `likely_stable`.
use vstd::prelude::*;

verus! {

/// `likely_stable::likely` hands its argument back; it only hints the code layout.
pub assume_specification[ likely_stable::likely ](b: bool) -> (r: bool)
    ensures
        r == b,
;

/// `likely_stable::unlikely` hands its argument back; it only hints the code layout.
pub assume_specification[ likely_stable::unlikely ](b: bool) -> (r: bool)
    ensures
        r == b,
;

} // verus!
