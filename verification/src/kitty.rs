//! The kitty record and the genetic-combination engine.

use vstd::prelude::*;

verus! {

/// A collectible entity: 16 bytes of genetic data, fixed at creation.
#[derive(Clone, Copy)]
pub struct Kitty(pub [u8; 16]);

impl Kitty {
    /// The genome as a sequence of bytes.
    pub open spec fn genome(self) -> Seq<u8> {
        self.0@
    }
}

/// One byte of a bred genome: each bit is taken from `dna1` where the
/// selector bit is set, and from `dna2` where it is clear.
pub open spec fn combine_byte(dna1: u8, dna2: u8, selector: u8) -> u8 {
    (selector & dna1) | (!selector & dna2)
}

/// A whole bred genome: `combine_byte` applied at each of the 16 positions.
pub open spec fn combined_genome(g1: Seq<u8>, g2: Seq<u8>, selector: Seq<u8>) -> Seq<u8> {
    Seq::new(16, |i: int| combine_byte(g1[i], g2[i], selector[i]))
}

} // verus!
