//! Identifier derivation: maps an asset's descriptive payload bytes to the
//! fixed-size identifier under which all of its state is keyed.
//!
//! The surrounding system treats the derivation as an external collaborator;
//! the ledger only needs it to be a deterministic pure function of the
//! payload. This module supplies such a function (a 64-bit
//! Fowler-Noll-Vo-style fold), fully specified, so that deriving the same
//! payload twice always yields the same identifier.

use vstd::prelude::*;

verus! {

/// The fold's starting value.
pub const IDENTIFIER_BASIS: u64 = 0xcbf2_9ce4_8422_2325;

/// The fold's multiplier.
pub const IDENTIFIER_PRIME: u64 = 0x0000_0100_0000_01b3;

/// Folding one byte into the running identifier: mix the byte in, then
/// multiply modulo 2^64.
pub open spec fn identifier_step(h: u64, b: u8) -> u64 {
    ((((h ^ (b as u64)) as int) * (IDENTIFIER_PRIME as int)) % 0x1_0000_0000_0000_0000) as u64
}

/// The identifier of a payload: every byte folded in, first byte first.
pub open spec fn identifier_of(data: Seq<u8>) -> u64
    decreases data.len(),
{
    if data.len() == 0 {
        IDENTIFIER_BASIS
    } else {
        identifier_step(identifier_of(data.drop_last()), data.last())
    }
}

/// Derives the identifier of a payload.
pub fn derive_identifier(data: &Vec<u8>) -> (r: u64)
    ensures
        r == identifier_of(data@),
{
    let mut h: u64 = IDENTIFIER_BASIS;
    let mut i: usize = 0;
    while i < data.len()
        invariant
            i <= data@.len(),
            h == identifier_of(data@.subrange(0, i as int)),
        decreases data@.len() - i,
    {
        let b = data[i];
        let mixed: u64 = h ^ (b as u64);
        let wide: u128 = (mixed as u128) * (IDENTIFIER_PRIME as u128);
        let next: u64 = (wide % 0x1_0000_0000_0000_0000u128) as u64;
        proof {
            assert(data@.subrange(0, i + 1).drop_last() =~= data@.subrange(0, i as int));
            assert(next == identifier_step(h, b));
        }
        h = next;
        i = i + 1;
    }
    proof {
        assert(data@.subrange(0, data@.len() as int) =~= data@);
    }
    h
}

} // verus!
