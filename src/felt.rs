//! Elements of the prime field over which the virtual machine computes.
use vstd::prelude::*;

verus! {

/// The field modulus, 2^64 - 2^32 + 1.
pub const MODULUS: u64 = 0xFFFF_FFFF_0000_0001;

/// A field element, held by its canonical representative in `[0, MODULUS)`.
#[derive(Clone, Copy, Debug, PartialEq, Eq, Structural)]
pub struct Felt {
    value: u64,
}

impl View for Felt {
    type V = u64;

    closed spec fn view(&self) -> u64 {
        self.value
    }
}

/// The element whose canonical representative is `v`, for `v` below the modulus.
pub closed spec fn felt_from_canonical(v: u64) -> Felt {
    Felt { value: v }
}

impl Felt {
    /// Reduces `v` modulo the field modulus.
    pub fn new(v: u64) -> (r: Felt)
        ensures
            r@ == v % MODULUS,
            r@ < MODULUS,
    {
        if v >= MODULUS {
            Felt { value: v - MODULUS }
        } else {
            Felt { value: v }
        }
    }

    /// The canonical representative of this element.
    pub fn as_int(&self) -> (r: u64)
        ensures
            r == self@,
    {
        self.value
    }
}

/// An element is fixed by its representative.
pub proof fn lemma_felt_view(a: Felt, b: Felt)
    ensures
        a@ == b@ ==> a == b,
        felt_from_canonical(a@) == a,
{
}

/// The representative of `felt_from_canonical(v)` is `v`.
pub proof fn lemma_felt_from_canonical(v: u64)
    ensures
        felt_from_canonical(v)@ == v,
{
}

} // verus!
