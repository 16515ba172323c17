use vstd::prelude::*;

verus! {

/// A type with a multiplicative identity.
pub trait One: Sized {
    /// The multiplicative identity.
    spec fn unit() -> Self;

    fn one() -> (r: Self)
        ensures
            r == Self::unit(),
    ;
}

impl One for u8 {
    open spec fn unit() -> u8 {
        1u8
    }

    fn one() -> (r: Self) {
        1u8
    }
}

impl One for u16 {
    open spec fn unit() -> u16 {
        1u16
    }

    fn one() -> (r: Self) {
        1u16
    }
}

impl One for u32 {
    open spec fn unit() -> u32 {
        1u32
    }

    fn one() -> (r: Self) {
        1u32
    }
}

impl One for u64 {
    open spec fn unit() -> u64 {
        1u64
    }

    fn one() -> (r: Self) {
        1u64
    }
}

impl One for usize {
    open spec fn unit() -> usize {
        1usize
    }

    fn one() -> (r: Self) {
        1usize
    }
}

} // verus!
