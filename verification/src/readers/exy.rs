//! EXY: DST data after a 256-byte header.

use vstd::prelude::*;
use crate::error::Error;
use crate::readers::dst::{self as dst, DstPattern, dst_readable, dst_read_result};

verus! {

/// Where the DST data of an EXY file starts.
pub const EXY_DST_START: usize = 0x100;

/// Decodes an EXY file: DST data after a 256-byte header.
pub fn read(d: &[u8]) -> (r: Result<DstPattern, Error>)
    requires
        dst_readable(d@, EXY_DST_START as int),
    ensures
        dst_read_result(d@, EXY_DST_START as int, r),
{
    dst::read(d, EXY_DST_START)
}

} // verus!
