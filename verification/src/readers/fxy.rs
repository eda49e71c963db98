//! FXY: Z-stitch records after a 256-byte header.

use vstd::prelude::*;
use crate::ops::PatternOp;
use crate::readers::dsz::{read_z_stitches, z_ops};

verus! {

/// Where the Z-stitch records of an FXY file start.
pub const FXY_DATA_START: usize = 0x100;

/// Decodes an FXY file: Z-stitch records after a 256-byte header.
pub fn read(d: &[u8]) -> (r: Vec<PatternOp>)
    ensures
        r@ == z_ops(d@, FXY_DATA_START as int),
{
    read_z_stitches(d, FXY_DATA_START)
}

} // verus!
