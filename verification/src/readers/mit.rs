//! Mitsubishi MIT: 2-byte stitch records with 5-bit magnitudes, sign bits
//! and two control bits in each byte; offsets count double.

use vstd::prelude::*;
use crate::constants::{STITCH, JUMP, END, COLOR_CHANGE};
use crate::ops::{PatternOp, rel, cmd, push_command, push_rel};

verus! {

/// The x and y offsets of a MIT record: twice the 5-bit magnitudes, y
/// pointing the other way, each negated by the high bit of its byte.
pub open spec fn mit_offsets(b0: u8, b1: u8) -> (int, int) {
    let x = 2 * ((b0 & 0x1F) as int);
    let y = -2 * ((b1 & 0x1F) as int);
    (if b0 & 0x80 != 0 {
        -x
    } else {
        x
    }, if b1 & 0x80 != 0 {
        -y
    } else {
        y
    })
}

/// The control code of a MIT record: bits 5 and 6 of each byte.
pub open spec fn mit_control(b0: u8, b1: u8) -> u8 {
    (((b0 & 0x60) >> 3u8) | ((b1 & 0x60) >> 5u8)) as u8
}

/// One MIT record at position `i` after a record with control `prev` (-1
/// before the first): its operations and whether reading goes on. Control 0
/// ends the stitches; 0b1100 is a move; 0b1000 is a colour change right after
/// a stitch record (0b0111) and nothing otherwise; every other control is a
/// stitch.
pub open spec fn mit_record(d: Seq<u8>, i: int, prev: int) -> (Seq<PatternOp>, bool) {
    let (x, y) = mit_offsets(d[i], d[i + 1]);
    let c = mit_control(d[i], d[i + 1]);
    if c == 0 {
        (Seq::empty(), false)
    } else if c == 0x0C {
        (seq![rel(x, y, JUMP)], true)
    } else if c == 0x08 {
        (if prev == 0x07 {
            seq![cmd(COLOR_CHANGE)]
        } else {
            Seq::empty()
        }, true)
    } else {
        (seq![rel(x, y, STITCH)], true)
    }
}

/// The operations of the MIT records from position `i` on, after a record
/// with control `prev`.
pub open spec fn mit_stitches(d: Seq<u8>, i: int, prev: int) -> Seq<PatternOp>
    decreases d.len() - i,
{
    if i < 0 || i + 2 > d.len() {
        Seq::empty()
    } else {
        let (ops, more) = mit_record(d, i, prev);
        if more {
            ops + mit_stitches(d, i + 2, mit_control(d[i], d[i + 1]) as int)
        } else {
            ops
        }
    }
}

/// The operations of a MIT file, ending with an end command.
pub open spec fn mit_ops(d: Seq<u8>) -> Seq<PatternOp> {
    mit_stitches(d, 0, -1).push(cmd(END))
}

/// Decodes a MIT file into its operations, ending with an end command.
pub fn read(d: &[u8]) -> (r: Vec<PatternOp>)
    ensures
        r@ == mit_ops(d@),
{
    let mut out: Vec<PatternOp> = Vec::new();
    let mut i: usize = 0;
    let mut prev: i32 = -1;
    assert(out@ + mit_stitches(d@, 0, -1) =~= mit_stitches(d@, 0, -1));
    while i <= d.len() && d.len() - i >= 2
        invariant
            -1 <= prev <= 0x0F,
            mit_stitches(d@, 0, -1) == out@ + mit_stitches(d@, i as int, prev as int),
        decreases d@.len() - i,
    {
        let ghost before = out@;
        let b0 = d[i];
        let b1 = d[i + 1];
        assert(b0 & 0x1F <= 0x1F) by (bit_vector);
        assert(b1 & 0x1F <= 0x1F) by (bit_vector);
        let m0 = (b0 & 0x1F) as i64;
        let m1 = (b1 & 0x1F) as i64;
        let x: i64 = if b0 & 0x80 != 0 {
            -(2 * m0)
        } else {
            2 * m0
        };
        let y: i64 = if b1 & 0x80 != 0 {
            2 * m1
        } else {
            -(2 * m1)
        };
        let c = ((b0 & 0x60) >> 3) | ((b1 & 0x60) >> 5);
        assert(((b0 & 0x60) >> 3u8) | ((b1 & 0x60) >> 5u8) <= 0x0F) by (bit_vector);
        let ghost rec = mit_record(d@, i as int, prev as int);
        let ghost ops = rec.0;
        assert(mit_offsets(b0, b1) == (x as int, y as int));
        assert(mit_control(b0, b1) == c);
        if c == 0 {
            assert(out@ + Seq::<PatternOp>::empty() =~= out@);
            push_command(&mut out, END);
            return out;
        } else if c == 0x0C {
            push_rel(&mut out, x, y, JUMP);
        } else if c == 0x08 {
            if prev == 0x07 {
                push_command(&mut out, COLOR_CHANGE);
            }
        } else {
            push_rel(&mut out, x, y, STITCH);
        }
        assert(out@ =~= before + ops);
        assert(before + (ops + mit_stitches(d@, i + 2, c as int)) =~= out@ + mit_stitches(d@, i + 2, c as int));
        prev = c as i32;
        i = i + 2;
    }
    assert(out@ + Seq::<PatternOp>::empty() =~= out@);
    push_command(&mut out, END);
    out
}

} // verus!
