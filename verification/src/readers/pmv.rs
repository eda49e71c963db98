//! Brother PMV: blocks of 2-byte stitches from offset 0x64. The x offsets of
//! the stitches add up while each y is absolute; both are in units of 0.25
//! mm (the pattern scales them by 2.5).

use vstd::prelude::*;
use crate::bytes::le16;
use crate::constants::{STITCH, END};
use crate::ops::{PatternOp, abs, cmd, push_command};

verus! {

/// Where the stitch blocks of a PMV file start.
pub const PMV_DATA_START: usize = 0x64;

/// The largest PMV file that is read (far beyond any real file): within it
/// the running x position cannot overflow.
pub const PMV_MAX_LEN: u64 = 0x100_0000_0000;

/// The x offset of a stitch: a byte above 32 counts down from 64.
pub open spec fn pmv_x(b: u8) -> int {
    if b > 32 {
        b - 64
    } else {
        b as int
    }
}

/// The y value of a stitch: a byte above 16 counts down from 32.
pub open spec fn pmv_y(b: u8) -> int {
    if b > 16 {
        b - 32
    } else {
        b as int
    }
}

/// The operations of a PMV stitch area from position `i` on, with running x
/// position `px` and `left` stitches left in the current block, and whether
/// an end command closes them. Each block starts with its stitch count and
/// its length; a length of 256 or more, or a count that cannot be read, ends
/// the stitches; a block length that cannot be read ends the reading with no
/// end command.
pub open spec fn pmv_stitches(d: Seq<u8>, i: int, px: int, left: nat) -> (Seq<PatternOp>, bool)
    decreases d.len() - i, left,
{
    if left > 0 {
        if i < 0 || i + 2 > d.len() {
            pmv_stitches(d, i, px, 0)
        } else {
            let x = px + pmv_x(d[i]);
            let rest = pmv_stitches(d, i + 2, x, (left - 1) as nat);
            (seq![abs(x, -pmv_y(d[i + 1]), STITCH)] + rest.0, rest.1)
        }
    } else if i < 0 || i + 2 > d.len() {
        (Seq::empty(), true)
    } else if i + 4 > d.len() {
        (Seq::empty(), false)
    } else if le16(d[i + 2], d[i + 3]) >= 256 {
        (Seq::empty(), true)
    } else {
        pmv_stitches(d, i + 4, px, le16(d[i], d[i + 1]) as nat)
    }
}

/// The operations of a PMV file.
pub open spec fn pmv_ops(d: Seq<u8>) -> Seq<PatternOp> {
    let (ops, ended) = pmv_stitches(d, PMV_DATA_START as int, 0, 0);
    if ended {
        ops.push(cmd(END))
    } else {
        ops
    }
}

/// Decodes a PMV file into its operations.
pub fn read(d: &[u8]) -> (r: Vec<PatternOp>)
    requires
        d@.len() <= PMV_MAX_LEN,
    ensures
        r@ == pmv_ops(d@),
{
    let ghost total = pmv_stitches(d@, PMV_DATA_START as int, 0, 0);
    let mut out: Vec<PatternOp> = Vec::new();
    let mut i: usize = PMV_DATA_START;
    let mut px: i64 = 0;
    let mut left: u16 = 0;
    assert(out@ + total.0 =~= total.0);
    loop
        invariant
            d@.len() <= PMV_MAX_LEN,
            total == pmv_stitches(d@, PMV_DATA_START as int, 0, 0),
            PMV_DATA_START <= i,
            i <= d@.len() || (left == 0 && i == PMV_DATA_START),
            -96 * i <= px <= 96 * i,
            total == (out@ + pmv_stitches(d@, i as int, px as int, left as nat).0, pmv_stitches(
                d@,
                i as int,
                px as int,
                left as nat,
            ).1),
        decreases d@.len() - i, left,
    {
        let ghost rest = pmv_stitches(d@, i as int, px as int, left as nat);
        if left > 0 {
            if i > d.len() || d.len() - i < 2 {
                left = 0;
            } else {
                let xb = d[i];
                let yb = d[i + 1];
                let x: i64 = if xb > 32 {
                    xb as i64 - 64
                } else {
                    xb as i64
                };
                let y: i64 = if yb > 16 {
                    yb as i64 - 32
                } else {
                    yb as i64
                };
                let ghost before = out@;
                out.push(PatternOp::Absolute { x: px + x, y: -y, command: STITCH });
                proof {
                    let r2 = pmv_stitches(d@, i + 2, px + x, (left - 1) as nat);
                    assert(before + (seq![abs(px + x, -y, STITCH)] + r2.0) =~= out@ + r2.0);
                }
                px = px + x;
                left = left - 1;
                i = i + 2;
            }
        } else {
            if i > d.len() || d.len() - i < 2 {
                assert(out@ + Seq::<PatternOp>::empty() =~= out@);
                push_command(&mut out, END);
                return out;
            }
            if d.len() - i < 4 {
                assert(out@ + Seq::<PatternOp>::empty() =~= out@);
                return out;
            }
            let count = (d[i + 1] as u16) * 256 + (d[i] as u16);
            let block = (d[i + 3] as u16) * 256 + (d[i + 2] as u16);
            if block >= 256 {
                assert(out@ + Seq::<PatternOp>::empty() =~= out@);
                push_command(&mut out, END);
                return out;
            }
            left = count;
            i = i + 4;
        }
    }
}

} // verus!
