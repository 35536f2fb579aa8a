//! Inclusive bounds of numeric settings.

use vstd::prelude::*;
use vstd::string::StringExecFns;

use crate::endpoint::spec::error::{SpecError, SpecErrorView};
use crate::text;
use crate::text::decimal;

verus! {

/// The error for a number outside its bounds.
pub open spec fn out_of_bounds(value: nat, key: Seq<char>, min: nat, max: nat) -> SpecErrorView {
    SpecErrorView::InvalidQueryValue {
        key,
        reason: "must be in "@ + text::decimal_spec(min) + "..="@ + text::decimal_spec(max) + ", got "@
            + text::decimal_spec(value),
    }
}

/// Accept `value` where it lies in `min..=max`.
pub fn check_u64_range(value: u64, key: &'static str, min: u64, max: u64) -> (r: Result<
    u64,
    SpecError,
>)
    ensures
        match r {
            Ok(v) => v == value && min <= value <= max,
            Err(e) => !(min <= value <= max) && e@ == out_of_bounds(
                value as nat,
                key@,
                min as nat,
                max as nat,
            ),
        },
{
    if value < min || value > max {
        Err(
            SpecError::InvalidQueryValue {
                key,
                reason: String::from_str("must be in ").concat(decimal(min).as_str()).concat(
                    "..=",
                ).concat(decimal(max).as_str()).concat(", got ").concat(decimal(value).as_str()),
            },
        )
    } else {
        Ok(value)
    }
}

} // verus!
