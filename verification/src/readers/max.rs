//! Pfaff MAX: a stitch count at offset 0xD5, then 8-byte records of absolute
//! 24-bit coordinates (in units of 1/1.235 of the pattern unit).

use vstd::prelude::*;
use crate::bytes::{le24, le32, signed24, ByteReader};
use crate::constants::{STITCH, END};
use crate::error::Error;
use crate::ops::{PatternOp, abs, cmd, push_command};

verus! {

/// Where the stitch count of a MAX file is.
pub const MAX_COUNT_AT: usize = 0xD5;

/// The stitches of a MAX file from position `i` on with `left` records to
/// go: each record is `x c0 y c1` with little-endian 24-bit signed x and y; a
/// record without its x, c0 or y is an error, one without its c1 ends the
/// stitches.
pub open spec fn max_stitches(d: Seq<u8>, i: int, left: nat) -> Option<Seq<PatternOp>>
    decreases left,
{
    if left == 0 {
        Some(Seq::empty())
    } else if i < 0 || i + 7 > d.len() {
        None
    } else if i + 8 > d.len() {
        Some(Seq::empty())
    } else {
        let x = signed24(le24(d[i], d[i + 1], d[i + 2]));
        let y = signed24(le24(d[i + 4], d[i + 5], d[i + 6]));
        match max_stitches(d, i + 8, (left - 1) as nat) {
            Some(rest) => Some(seq![abs(x, y, STITCH)] + rest),
            None => None,
        }
    }
}

/// The operations of a MAX file, ending with an end command; none when the
/// stitch count or a record is missing.
pub open spec fn max_ops(d: Seq<u8>) -> Option<Seq<PatternOp>> {
    if d.len() < MAX_COUNT_AT + 4 {
        None
    } else {
        let count = le32(d[0xD5], d[0xD6], d[0xD7], d[0xD8]);
        match max_stitches(d, MAX_COUNT_AT + 4, count as nat) {
            Some(ops) => Some(ops.push(cmd(END))),
            None => None,
        }
    }
}

/// Decodes a MAX file into its operations, ending with an end command.
pub fn read(d: &[u8]) -> (r: Result<Vec<PatternOp>, Error>)
    ensures
        match max_ops(d@) {
            None => r is Err,
            Some(ops) => r matches Ok(v) && v@ == ops,
        },
{
    let mut reader = ByteReader::new(d);
    reader.seek(MAX_COUNT_AT);
    let count = match reader.read_u32_le() {
        Ok(c) => c,
        Err(e) => return Err(e),
    };
    assert(count == le32(d@[0xD5], d@[0xD6], d@[0xD7], d@[0xD8]));
    let ghost total = max_stitches(d@, MAX_COUNT_AT + 4, count as nat);
    let mut out: Vec<PatternOp> = Vec::new();
    let mut left: u32 = count;
    assert(out@ + Seq::<PatternOp>::empty() =~= out@);
    while left > 0
        invariant
            reader.bytes() == d@,
            d@.len() >= MAX_COUNT_AT + 4,
            count == le32(d@[0xD5], d@[0xD6], d@[0xD7], d@[0xD8]),
            reader.pos() >= 0,
            total == max_stitches(d@, MAX_COUNT_AT + 4, count as nat),
            total == (match max_stitches(d@, reader.pos(), left as nat) {
                Some(rest) => Some(out@ + rest),
                None => None,
            }),
        decreases left,
    {
        let ghost i = reader.pos();
        let x = match reader.read_i24_le() {
            Ok(v) => v,
            Err(e) => return Err(e),
        };
        match reader.read_u8() {
            Ok(_) => {},
            Err(e) => return Err(e),
        }
        let y = match reader.read_i24_le() {
            Ok(v) => v,
            Err(e) => return Err(e),
        };
        match reader.read_u8() {
            Ok(_) => {},
            Err(_) => {
                assert(out@ + Seq::<PatternOp>::empty() =~= out@);
                push_command(&mut out, END);
                return Ok(out);
            },
        }
        let ghost before = out@;
        out.push(PatternOp::Absolute { x: x as i64, y: y as i64, command: STITCH });
        proof {
            if let Some(rest) = max_stitches(d@, i + 8, (left - 1) as nat) {
                assert(before + (seq![abs(x as int, y as int, STITCH)] + rest) =~= out@ + rest);
            }
        }
        left = left - 1;
    }
    assert(out@ + Seq::<PatternOp>::empty() =~= out@);
    push_command(&mut out, END);
    Ok(out)
}

} // verus!
