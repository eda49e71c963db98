//! Pfaff KSM: 3-byte stitch records from offset 0x200, with sign bits and a
//! control code in the third byte; after a trim, moves are jumps until sewing
//! starts again.

use vstd::prelude::*;
use crate::bytes::{signed8, byte_as_i8};
use crate::constants::{STITCH, JUMP, TRIM, STOP, END, NEEDLE_SET, thread_change_value, encode_thread_change};
use crate::ops::{PatternOp, rel, cmd, push_command, push_rel};

verus! {

/// Where the stitch records of a KSM file start.
pub const KSM_DATA_START: usize = 0x200;

/// The x and y offsets of a KSM record: signed bytes, y first and pointing
/// the other way, negated by the sign bits 0x40 (x) and 0x20 (y).
pub open spec fn ksm_offsets(b0: u8, b1: u8, ctrl: u8) -> (int, int) {
    let y0 = -signed8(b0 as int);
    let x0 = signed8(b1 as int);
    (if ctrl & 0x40 != 0 {
        -x0
    } else {
        x0
    }, if ctrl & 0x20 != 0 {
        -y0
    } else {
        y0
    })
}

/// One KSM record at position `i`, after a trim or not and with a stitch
/// sewn yet or not: its operations, whether reading goes on, and the new trim
/// and sewn states. A record that moves adds a jump after a trim and a stitch
/// otherwise; then its control code may trim (once something is sewn), start
/// sewing again, change needle, stop, or end the stitches.
pub open spec fn ksm_record(d: Seq<u8>, i: int, trimmed: bool, stitched: bool) -> (
    Seq<PatternOp>,
    bool,
    bool,
    bool,
) {
    let (x, y) = ksm_offsets(d[i], d[i + 1], d[i + 2]);
    let c = d[i + 2] & 0x1F;
    let moves = x != 0 || y != 0;
    let mv = if !moves {
        Seq::empty()
    } else if trimmed {
        seq![rel(x, y, JUMP)]
    } else {
        seq![rel(x, y, STITCH)]
    };
    let sewn = stitched || (moves && !trimmed);
    if c == 0 {
        (mv, true, trimmed, sewn)
    } else if c == 0x07 || c == 0x13 || c == 0x1D {
        (mv + (if sewn {
            seq![cmd(TRIM)]
        } else {
            Seq::empty()
        }), true, true, sewn)
    } else if 0x17 <= c <= 0x19 || c == 0x1B {
        (mv, true, false, sewn)
    } else if 0x0B <= c <= 0x12 {
        (
            mv + seq![cmd(thread_change_value(NEEDLE_SET, None, Some((c - 0x0A) as u8), None))],
            true,
            true,
            sewn,
        )
    } else if c == 0x05 {
        (mv + seq![cmd(STOP)], true, trimmed, sewn)
    } else {
        (mv, false, trimmed, sewn)
    }
}

/// What a KSM record at `i` means: a record that moves is a jump after a
/// trim and a stitch otherwise, by its offsets; control `c & 0x1F` of 0x05
/// then adds a stop, a trim code (0x07, 0x13, 0x1D) adds a trim once
/// something is sewn, and a needle code (0x0B..0x12) a needle change.
pub proof fn lemma_ksm_record_meaning(d: Seq<u8>, i: int, trimmed: bool, stitched: bool)
    requires
        0 <= i,
        i + 3 <= d.len(),
    ensures
        ({
            let (x, y) = ksm_offsets(d[i], d[i + 1], d[i + 2]);
            let c = d[i + 2] & 0x1F;
            let ops = ksm_record(d, i, trimmed, stitched).0;
            &&& (x != 0 || y != 0) && trimmed ==> ops[0] == rel(x, y, JUMP)
            &&& (x != 0 || y != 0) && !trimmed ==> ops[0] == rel(x, y, STITCH)
            &&& x == 0 && y == 0 && c == 0 ==> ops.len() == 0
            &&& c == 0x05 ==> ops.len() >= 1 && ops.last() == cmd(STOP)
            &&& (c == 0x07 || c == 0x13 || c == 0x1D) && (stitched || ((x != 0 || y != 0)
                && !trimmed)) ==> ops.len() >= 1 && ops.last() == cmd(TRIM)
            &&& (c == 0x07 || c == 0x13 || c == 0x1D) ==> ksm_record(d, i, trimmed, stitched).2
            &&& 0x0B <= c <= 0x12 ==> ops.len() >= 1 && ops.last() == cmd(
                thread_change_value(NEEDLE_SET, None, Some((c - 0x0A) as u8), None),
            )
        }),
{
}

/// The operations of the KSM records from position `i` on.
pub open spec fn ksm_stitches(d: Seq<u8>, i: int, trimmed: bool, stitched: bool) -> Seq<PatternOp>
    decreases d.len() - i,
{
    if i < 0 || i + 3 > d.len() {
        Seq::empty()
    } else {
        let (ops, more, t, s) = ksm_record(d, i, trimmed, stitched);
        if more {
            ops + ksm_stitches(d, i + 3, t, s)
        } else {
            ops
        }
    }
}

/// The operations of a KSM file, ending with an end command.
pub open spec fn ksm_ops(d: Seq<u8>) -> Seq<PatternOp> {
    ksm_stitches(d, KSM_DATA_START as int, false, false).push(cmd(END))
}

/// Decodes the record at position `i`.
fn ksm_step(d: &[u8], i: usize, trimmed: bool, stitched: bool, out: &mut Vec<PatternOp>) -> (r: (
    bool,
    bool,
    bool,
))
    requires
        i + 3 <= d@.len(),
    ensures
        ({
            let (ops, more, t, s) = ksm_record(d@, i as int, trimmed, stitched);
            final(out)@ == old(out)@ + ops && r == (more, t, s)
        }),
{
    let ghost before = out@;
    let _n = d.len();
    let ctrl = d[i + 2];
    let y0: i32 = -(byte_as_i8(d[i]) as i32);
    let x0: i32 = byte_as_i8(d[i + 1]) as i32;
    let x: i32 = if ctrl & 0x40 != 0 {
        -x0
    } else {
        x0
    };
    let y: i32 = if ctrl & 0x20 != 0 {
        -y0
    } else {
        y0
    };
    let c = ctrl & 0x1F;
    let mut sewn = stitched;
    if x != 0 || y != 0 {
        if trimmed {
            push_rel(out, x as i64, y as i64, JUMP);
        } else {
            push_rel(out, x as i64, y as i64, STITCH);
            sewn = true;
        }
    }
    let ghost mv = out@.subrange(before.len() as int, out@.len() as int);
    assert(out@ =~= before + mv);
    if c == 0 {
        (true, trimmed, sewn)
    } else if c == 0x07 || c == 0x13 || c == 0x1D {
        if sewn {
            push_command(out, TRIM);
            assert(out@ =~= before + (mv + seq![cmd(TRIM)]));
        } else {
            assert(out@ =~= before + (mv + Seq::<PatternOp>::empty()));
        }
        (true, true, sewn)
    } else if (0x17 <= c && c <= 0x19) || c == 0x1B {
        (true, false, sewn)
    } else if 0x0B <= c && c <= 0x12 {
        let code = encode_thread_change(NEEDLE_SET, None, Some(c - 0x0A), None);
        push_command(out, code);
        assert(out@ =~= before + (mv + seq![cmd(code)]));
        (true, true, sewn)
    } else if c == 0x05 {
        push_command(out, STOP);
        assert(out@ =~= before + (mv + seq![cmd(STOP)]));
        (true, trimmed, sewn)
    } else {
        (false, trimmed, sewn)
    }
}

/// Decodes a KSM file into its operations, ending with an end command.
pub fn read(d: &[u8]) -> (r: Vec<PatternOp>)
    ensures
        r@ == ksm_ops(d@),
{
    let mut out: Vec<PatternOp> = Vec::new();
    let mut i: usize = KSM_DATA_START;
    let mut trimmed = false;
    let mut stitched = false;
    assert(out@ + ksm_stitches(d@, i as int, trimmed, stitched) =~= ksm_stitches(
        d@,
        KSM_DATA_START as int,
        false,
        false,
    ));
    while i <= d.len() && d.len() - i >= 3
        invariant
            i >= KSM_DATA_START,
            ksm_stitches(d@, KSM_DATA_START as int, false, false) == out@ + ksm_stitches(
                d@,
                i as int,
                trimmed,
                stitched,
            ),
        decreases d@.len() - i,
    {
        let ghost before = out@;
        let ghost rec = ksm_record(d@, i as int, trimmed, stitched);
        let (more, t, s) = ksm_step(d, i, trimmed, stitched, &mut out);
        if !more {
            assert(before + rec.0 =~= out@);
            push_command(&mut out, END);
            return out;
        }
        assert(before + (rec.0 + ksm_stitches(d@, i + 3, t, s)) =~= out@ + ksm_stitches(d@, i + 3, t, s));
        trimmed = t;
        stitched = s;
        i = i + 3;
    }
    assert(out@ + Seq::<PatternOp>::empty() =~= out@);
    push_command(&mut out, END);
    out
}

} // verus!
