//! Fixed-width vectors.
//!
//! A coordinate is held as the bit pattern of a 32-bit IEEE-754 number.
//! Nothing here does arithmetic on coordinates: a vector is only cut or
//! padded to the width of the index, and the padding coordinate is the
//! pattern of positive zero, which is the integer zero.

use vstd::prelude::*;

verus! {

/// The number of coordinates of every vector in an index.
pub const DIMENSION: usize = 768;

/// The fixed-width form of `v`: its first `DIMENSION` coordinates, followed
/// by zeros where `v` is shorter.
pub open spec fn normalized(v: Seq<u32>) -> Seq<u32> {
    Seq::new(
        DIMENSION as nat,
        |i: int|
            if i < v.len() {
                v[i]
            } else {
                0u32
            },
    )
}

/// Whether `v` already has the width of the index.
pub open spec fn is_fixed(v: Seq<u32>) -> bool {
    v.len() == DIMENSION
}

/// Cuts or pads `v` to `DIMENSION` coordinates.
pub fn normalize(v: &Vec<u32>) -> (fixed: Vec<u32>)
    ensures
        fixed@ == normalized(v@),
{
    let mut fixed = v.clone();
    fixed.resize(DIMENSION, 0u32);
    fixed
}

/// Tells whether `v` has exactly `DIMENSION` coordinates.
pub fn has_fixed_width(v: &Vec<u32>) -> (fixed: bool)
    ensures
        fixed == is_fixed(v@),
{
    v.len() == DIMENSION
}

/// A normalized vector has the width of the index, whatever went in.
pub proof fn lemma_normalized_is_fixed(v: Seq<u32>)
    ensures
        is_fixed(normalized(v)),
{
}

/// Padding a shorter vector keeps its coordinates where they were and adds
/// only zeros behind them.
pub proof fn lemma_padding_keeps_coordinates(v: Seq<u32>)
    requires
        v.len() <= DIMENSION,
    ensures
        normalized(v).subrange(0, v.len() as int) == v,
        forall|i: int| v.len() <= i < DIMENSION ==> normalized(v)[i] == 0,
{
}

/// Cutting a longer vector drops only the coordinates behind the first
/// `DIMENSION`.
pub proof fn lemma_truncation_keeps_prefix(v: Seq<u32>)
    requires
        v.len() >= DIMENSION,
    ensures
        normalized(v) == v.subrange(0, DIMENSION as int),
{
}

/// A vector of the index's width is its own normal form, so normalizing
/// twice is the same as normalizing once.
pub proof fn lemma_normalized_is_idempotent(v: Seq<u32>)
    ensures
        is_fixed(v) ==> normalized(v) == v,
        normalized(normalized(v)) == normalized(v),
{
}

} // verus!
