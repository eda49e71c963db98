//! STX: EXP records at the position that its header holds.

use vstd::prelude::*;
use crate::bytes::{le32, ByteReader};
use crate::error::Error;
use crate::ops::PatternOp;
use crate::readers::exp::{exp_ops, read_from};

verus! {

/// Where the stitch position of an STX file is.
pub const STX_STITCH_START_AT: usize = 0x14;

/// Decodes an STX file: EXP records from the position that the header holds
/// at offset 0x14 (after the colour and block positions).
pub fn read(d: &[u8]) -> (r: Result<Vec<PatternOp>, Error>)
    ensures
        d@.len() < STX_STITCH_START_AT + 4 ==> r is Err,
        d@.len() >= STX_STITCH_START_AT + 4 ==> match exp_ops(
            d@,
            le32(d@[0x14], d@[0x15], d@[0x16], d@[0x17]),
        ) {
            None => r is Err,
            Some(ops) => r matches Ok(v) && v@ == ops,
        },
{
    let mut reader = ByteReader::new(d);
    reader.seek(STX_STITCH_START_AT);
    let start = match reader.read_u32_le() {
        Ok(v) => v,
        Err(e) => return Err(e),
    };
    read_from(d, start as usize)
}

} // verus!
