use vstd::prelude::*;

verus! {

/// The unsigned integers that number the rows and columns of a matrix.
pub trait UIntTrait: Copy + Sized {
    /// The number that the value stands for.
    spec fn number(self) -> nat;

    /// The largest number that the type holds.
    spec fn limit() -> nat;

    /// No value exceeds the limit.
    proof fn lemma_number_bound(self)
        ensures
            self.number() <= Self::limit(),
    ;

    /// The value as a `usize`.
    fn into_usize(self) -> (r: usize)
        requires
            self.number() <= usize::MAX,
        ensures
            r == self.number(),
    ;

    /// The value that stands for `u`.
    fn from_usize(u: usize) -> (r: Self)
        requires
            u <= Self::limit(),
        ensures
            r.number() == u,
    ;
}

impl UIntTrait for u8 {
    open spec fn number(self) -> nat {
        self as nat
    }

    open spec fn limit() -> nat {
        u8::MAX as nat
    }

    proof fn lemma_number_bound(self) {
    }

    fn into_usize(self) -> (r: usize) {
        self as usize
    }

    fn from_usize(u: usize) -> (r: Self) {
        u as u8
    }
}

impl UIntTrait for u16 {
    open spec fn number(self) -> nat {
        self as nat
    }

    open spec fn limit() -> nat {
        u16::MAX as nat
    }

    proof fn lemma_number_bound(self) {
    }

    fn into_usize(self) -> (r: usize) {
        self as usize
    }

    fn from_usize(u: usize) -> (r: Self) {
        u as u16
    }
}

impl UIntTrait for u32 {
    open spec fn number(self) -> nat {
        self as nat
    }

    open spec fn limit() -> nat {
        u32::MAX as nat
    }

    proof fn lemma_number_bound(self) {
    }

    fn into_usize(self) -> (r: usize) {
        self as usize
    }

    fn from_usize(u: usize) -> (r: Self) {
        u as u32
    }
}

impl UIntTrait for u64 {
    open spec fn number(self) -> nat {
        self as nat
    }

    open spec fn limit() -> nat {
        u64::MAX as nat
    }

    proof fn lemma_number_bound(self) {
    }

    fn into_usize(self) -> (r: usize) {
        self as usize
    }

    fn from_usize(u: usize) -> (r: Self) {
        u as u64
    }
}

impl UIntTrait for usize {
    open spec fn number(self) -> nat {
        self as nat
    }

    open spec fn limit() -> nat {
        usize::MAX as nat
    }

    proof fn lemma_number_bound(self) {
    }

    fn into_usize(self) -> (r: usize) {
        self
    }

    fn from_usize(u: usize) -> (r: Self) {
        u
    }
}

} // verus!
