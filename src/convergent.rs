//! Values that merge associatively, commutatively and idempotently.
use vstd::prelude::*;

verus! {

/// A value with a join: merging must be associative, commutative and idempotent.
pub trait Convergent: Sized {
    fn merge(&self, other: &Self) -> Self;
}

impl Convergent for u16 {
    fn merge(&self, other: &Self) -> (r: u16)
        ensures
            r == if *self >= *other { *self } else { *other },
    {
        if *self >= *other {
            *self
        } else {
            *other
        }
    }
}

impl Convergent for u32 {
    fn merge(&self, other: &Self) -> (r: u32)
        ensures
            r == if *self >= *other { *self } else { *other },
    {
        if *self >= *other {
            *self
        } else {
            *other
        }
    }
}

impl Convergent for u64 {
    fn merge(&self, other: &Self) -> (r: u64)
        ensures
            r == if *self >= *other { *self } else { *other },
    {
        if *self >= *other {
            *self
        } else {
            *other
        }
    }
}

impl Convergent for i64 {
    fn merge(&self, other: &Self) -> (r: i64)
        ensures
            r == if *self >= *other { *self } else { *other },
    {
        if *self >= *other {
            *self
        } else {
            *other
        }
    }
}

} // verus!
