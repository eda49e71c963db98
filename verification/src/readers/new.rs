//! Ameco NEW: 3-byte stitch records after a 2-byte stitch count: x and y
//! magnitudes and a control byte with sign bits and command bits.

use vstd::prelude::*;
use crate::constants::{STITCH, JUMP, END, COLOR_CHANGE};
use crate::ops::{PatternOp, Step, StepOut, StepDecoder, rel, cmd, run_steps, ops_then, decoder_steps, decoder_ok, run_ok, drive, push_command, push_rel};

verus! {

/// Where the stitch records of a NEW file start.
pub const NEW_DATA_START: usize = 2;

/// The x and y offsets of a NEW record: the x byte and the y byte pointing
/// the other way, negated by the sign bits 0x40 (x) and 0x20 (y) of the
/// control byte.
pub open spec fn new_offsets(xb: u8, yb: u8, ctrl: u8) -> (int, int) {
    (if ctrl & 0x40 != 0 {
        -(xb as int)
    } else {
        xb as int
    }, if ctrl & 0x20 != 0 {
        yb as int
    } else {
        -(yb as int)
    })
}

/// One NEW record at position `i`, by the low five bits of its control byte:
/// 0 a stitch, 0x11 the end, bit 1 a colour change, bit 0 a move, anything
/// else nothing; the end of the data ends the stitches.
pub open spec fn new_record(d: Seq<u8>, i: int) -> Step {
    if i < 0 || i + 3 > d.len() {
        Step::Stop(i)
    } else {
        let (x, y) = new_offsets(d[i], d[i + 1], d[i + 2]);
        let c = d[i + 2] & 0x1F;
        if c == 0 {
            Step::Emit(seq![rel(x, y, STITCH)], i + 3)
        } else if c == 0x11 {
            Step::Stop(i + 3)
        } else if c & 0x02 != 0 {
            Step::Emit(seq![cmd(COLOR_CHANGE)], i + 3)
        } else if c & 0x01 != 0 {
            Step::Emit(seq![rel(x, y, JUMP)], i + 3)
        } else {
            Step::Emit(Seq::empty(), i + 3)
        }
    }
}

/// The NEW steps of `d`.
pub open spec fn new_steps(d: Seq<u8>) -> spec_fn(int) -> Step {
    |i: int| new_record(d, i)
}

/// Every NEW step can be taken.
pub open spec fn new_ok(d: Seq<u8>) -> spec_fn(int) -> bool {
    |i: int| true
}

/// The operations of a NEW file, ending with an end command.
pub open spec fn new_ops(d: Seq<u8>) -> Seq<PatternOp> {
    ops_then(run_steps(new_steps(d), d.len() as int, NEW_DATA_START as int), cmd(END)).unwrap()
}

/// The stitch records of a NEW file.
pub struct NewRecords<'a> {
    /// The bytes of the file
    pub data: &'a [u8],
}

impl<'a> StepDecoder for NewRecords<'a> {
    open spec fn step_spec(&self, i: int) -> Step {
        new_record(self.data@, i)
    }

    open spec fn step_ok(&self, i: int) -> bool {
        true
    }

    fn step(&self, i: usize, out: &mut Vec<PatternOp>) -> (r: StepOut) {
        let d = self.data;
        let n = d.len();
        if i > n || n - i < 3 {
            return StepOut::Stop(i);
        }
        let ghost before = out@;
        let xb = d[i];
        let yb = d[i + 1];
        let ctrl = d[i + 2];
        let x: i64 = if ctrl & 0x40 != 0 {
            -(xb as i64)
        } else {
            xb as i64
        };
        let y: i64 = if ctrl & 0x20 != 0 {
            yb as i64
        } else {
            -(yb as i64)
        };
        let c = ctrl & 0x1F;
        if c == 0 {
            push_rel(out, x, y, STITCH);
            assert(out@ =~= before + seq![rel(x as int, y as int, STITCH)]);
        } else if c == 0x11 {
            return StepOut::Stop(i + 3);
        } else if c & 0x02 != 0 {
            push_command(out, COLOR_CHANGE);
            assert(out@ =~= before + seq![cmd(COLOR_CHANGE)]);
        } else if c & 0x01 != 0 {
            push_rel(out, x, y, JUMP);
            assert(out@ =~= before + seq![rel(x as int, y as int, JUMP)]);
        } else {
            assert(out@ =~= before + Seq::<PatternOp>::empty());
        }
        StepOut::Next(i + 3)
    }
}

/// Reading NEW records never fails.
proof fn lemma_new_total(d: Seq<u8>, i: int)
    ensures
        run_steps(new_steps(d), d.len() as int, i) is Some,
        run_ok(new_steps(d), new_ok(d), d.len() as int, i),
    decreases d.len() - i,
{
    match new_record(d, i) {
        Step::Emit(_, next) => {
            if i < next <= d.len() {
                lemma_new_total(d, next);
            }
        },
        _ => {},
    }
}

/// Decodes a NEW file into its operations, ending with an end command.
pub fn read(d: &[u8]) -> (r: Vec<PatternOp>)
    ensures
        r@ == new_ops(d@),
{
    let dec = NewRecords { data: d };
    assert(decoder_steps(dec) =~= new_steps(d@));
    assert(decoder_ok(dec) =~= new_ok(d@));
    proof {
        lemma_new_total(d@, NEW_DATA_START as int);
    }
    match drive(&dec, d.len(), NEW_DATA_START) {
        Some((mut ops, _)) => {
            push_command(&mut ops, END);
            ops
        },
        None => {
            let mut ops: Vec<PatternOp> = Vec::new();
            push_command(&mut ops, END);
            ops
        },
    }
}

} // verus!
