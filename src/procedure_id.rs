//! Identifiers of imported procedures, derived from their fully qualified names.
use vstd::prelude::*;
use crate::text::chars_of;

verus! {

/// The FNV-1a prime for 64-bit lanes.
pub const FNV_PRIME: u64 = 0x0000_0100_0000_01B3;

/// The starting value of each of the three lanes of an identifier.
pub const SEED_LO: u64 = 0xCBF2_9CE4_8422_2325;
pub const SEED_MID: u64 = 0x8422_2325_CBF2_9CE4;
pub const SEED_HI: u64 = 0x9E37_79B9_7F4A_7C15;

/// One FNV-1a step: fold the character `c` into the lane value `h`.
pub open spec fn fnv_step(h: u64, c: char) -> u64 {
    (((h ^ (c as u32 as u64)) as nat * FNV_PRIME as nat) % 0x1_0000_0000_0000_0000nat) as u64
}

/// The lane value after folding every character of `s`, in order, into `seed`.
pub open spec fn fnv_lane(s: Seq<char>, seed: u64) -> u64
    decreases s.len(),
{
    if s.len() == 0 {
        seed
    } else {
        fnv_step(fnv_lane(s.drop_last(), seed), s.last())
    }
}

/// The identifier of the fully qualified procedure name `name`.
pub open spec fn procedure_id_of(name: Seq<char>) -> ProcedureId {
    ProcedureId {
        lo: fnv_lane(name, SEED_LO),
        mid: fnv_lane(name, SEED_MID),
        hi: fnv_lane(name, SEED_HI),
    }
}

/// A 24-byte identifier of a procedure, made of three 64-bit lanes. It is compared
/// for equality only; the name it came from cannot be recovered from it.
#[derive(Clone, Copy, Debug, PartialEq, Eq, Hash, Structural)]
pub struct ProcedureId {
    pub lo: u64,
    pub mid: u64,
    pub hi: u64,
}

impl ProcedureId {
    /// The identifier of the fully qualified name `name` (segments joined by `::`).
    pub fn new(name: &str) -> (r: ProcedureId)
        ensures
            r == procedure_id_of(name@),
    {
        let chars = chars_of(name);
        ProcedureId::from_chars(&chars)
    }

    /// The identifier of the name whose characters are `name`.
    pub fn from_chars(name: &Vec<char>) -> (r: ProcedureId)
        ensures
            r == procedure_id_of(name@),
    {
        let mut lo = SEED_LO;
        let mut mid = SEED_MID;
        let mut hi = SEED_HI;
        let mut i: usize = 0;
        while i < name.len()
            invariant
                i <= name@.len(),
                lo == fnv_lane(name@.take(i as int), SEED_LO),
                mid == fnv_lane(name@.take(i as int), SEED_MID),
                hi == fnv_lane(name@.take(i as int), SEED_HI),
            decreases name@.len() - i,
        {
            let c = name[i];
            let code = c as u32 as u64;
            lo = (lo ^ code).wrapping_mul(FNV_PRIME);
            mid = (mid ^ code).wrapping_mul(FNV_PRIME);
            hi = (hi ^ code).wrapping_mul(FNV_PRIME);
            proof {
                let t = name@.take(i + 1);
                assert(t.drop_last() == name@.take(i as int));
                assert(t.last() == c);
            }
            i = i + 1;
        }
        proof {
            assert(name@.take(i as int) == name@);
        }
        ProcedureId { lo, mid, hi }
    }
}

} // verus!
