//! GT: Z-stitch records after a 512-byte header.

use vstd::prelude::*;
use crate::ops::PatternOp;
use crate::readers::dsz::{read_z_stitches, z_ops};

verus! {

/// Where the Z-stitch records of a GT file start.
pub const GT_DATA_START: usize = 0x200;

/// Decodes a GT file: Z-stitch records after a 512-byte header.
pub fn read(d: &[u8]) -> (r: Vec<PatternOp>)
    ensures
        r@ == z_ops(d@, GT_DATA_START as int),
{
    read_z_stitches(d, GT_DATA_START)
}

} // verus!
