use vstd::prelude::*;
use vstd::bytes::{spec_u32_to_le_bytes, spec_u64_to_le_bytes};
use crate::kitty::Dna;

verus! {

/// The identity generated for a new kitty: the random seed handed in by the
/// host's randomness source, followed by the operation's index within the
/// current batch and the current block height, both little-endian.
pub open spec fn dna_payload(seed: Seq<u8>, extrinsic_index: u32, block_number: u64) -> Seq<u8> {
    seed + spec_u32_to_le_bytes(extrinsic_index) + spec_u64_to_le_bytes(block_number)
}

/// Byte-for-byte equality of two DNAs.
pub fn dna_eq(a: &Dna, b: &Dna) -> (r: bool)
    ensures
        r <==> a@ == b@,
{
    if a.len() != b.len() {
        return false;
    }
    for i in 0..a.len()
        invariant
            a@.len() == b@.len(),
            forall|j: int| 0 <= j < i ==> a@[j] == b@[j],
    {
        if a[i] != b[i] {
            return false;
        }
    }
    proof {
        assert(a@ =~= b@);
    }
    true
}

/// A fresh copy of a DNA.
pub fn clone_dna(d: &Dna) -> (r: Dna)
    ensures
        r@ == d@,
{
    let mut r: Vec<u8> = Vec::new();
    for i in 0..d.len()
        invariant
            r@ == d@.subrange(0, i as int),
    {
        r.push(d[i]);
        proof {
            assert(r@ =~= d@.subrange(0, i + 1));
        }
    }
    proof {
        assert(r@ =~= d@);
    }
    r
}

} // verus!
