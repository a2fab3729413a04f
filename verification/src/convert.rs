//! What two conversions of std return.
//!
//! The requests take their parameters as anything that converts into the
//! type they need, and say in their contracts that they hold what the
//! conversion returned. For a value that already has the needed type, and for a
//! limit given as a plain number, the conversion is one of std. Its
//! documentation says what it returns, and that is stated here without proof.

use vstd::prelude::*;

verus! {

/// `From::from` of std from a type into itself: the documentation has it
/// return the argument unchanged.
pub assume_specification<Whole>[ <Whole as std::convert::From<Whole>>::from ](whole: Whole) -> (same:
    Whole)
    ensures
        same == whole,
;

/// `From::from` of std from a value into an `Option` of its type: the
/// documentation has it move the value into a new `Some`.
pub assume_specification<Inner>[ <Option<Inner> as std::convert::From<Inner>>::from ](
    inner: Inner,
) -> (made: Option<Inner>)
    ensures
        made == Some(inner),
;

} // verus!
