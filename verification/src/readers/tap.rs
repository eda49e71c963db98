//! Tajima TAP: DST data.

use vstd::prelude::*;
use crate::error::Error;
use crate::readers::dst::{self as dst, DstPattern, dst_readable, dst_read_result};

verus! {

/// Decodes a TAP file: DST data.
pub fn read(d: &[u8]) -> (r: Result<DstPattern, Error>)
    requires
        dst_readable(d@, 0),
    ensures
        dst_read_result(d@, 0 as int, r),
{
    dst::read(d, 0)
}

} // verus!
