//! Tolerance-based equality for the scalar types a scene is measured in.

use vstd::prelude::*;

verus! {

/// Represents epsilon equality: values closer than a type-specific
/// tolerance count as equal.
pub trait EpsilonEqual: Sized {
    /// What `e_equals` decides, stated at the specification level.
    spec fn eq_within(self, other: Self) -> bool;

    /// true, if self is not farther than the tolerance away from other.
    fn e_equals(self, other: Self) -> (r: bool)
        ensures
            r == self.eq_within(other),
    ;
}

/// For integer scalars the tolerance collapses to exact equality.
impl EpsilonEqual for i32 {
    open spec fn eq_within(self, other: Self) -> bool {
        self == other
    }

    fn e_equals(self, other: Self) -> (r: bool)
        ensures
            r == self.eq_within(other),
    {
        self == other
    }
}

} // verus!
