//! Elna EMD: 2-byte stitch records from offset 0x30; a first byte of 0x80
//! makes the second a control code (moves, colour changes, trims, the end).

use vstd::prelude::*;
use crate::bytes::{signed8, byte_as_i8};
use crate::constants::{STITCH, JUMP, TRIM, END, COLOR_CHANGE};
use crate::ops::{PatternOp, Step, StepOut, StepDecoder, rel, cmd, run_steps, ops_then, decoder_steps, decoder_ok, run_ok, drive, push_command, push_rel};

verus! {

/// Where the stitch records of an EMD file start.
pub const EMD_DATA_START: usize = 0x30;

/// One EMD record at position `i`: a stitch by two signed bytes (y pointing
/// the other way) unless the first byte is 0x80; then the second byte is a
/// control code: 0x80 a move by the next two bytes, 0x2A a colour change,
/// 0x7D nothing, 0xAD or 0x90 a trim; anything else ends the stitches, as
/// does the end of the data.
pub open spec fn emd_record(d: Seq<u8>, i: int) -> Step {
    let n = d.len() as int;
    if i < 0 || i + 2 > n {
        Step::Stop(i)
    } else if d[i] != 0x80 {
        Step::Emit(seq![rel(signed8(d[i] as int), -signed8(d[i + 1] as int), STITCH)], i + 2)
    } else {
        let c = d[i + 1];
        if c == 0x80 {
            if i + 4 > n {
                Step::Stop(i + 2)
            } else {
                Step::Emit(
                    seq![rel(signed8(d[i + 2] as int), -signed8(d[i + 3] as int), JUMP)],
                    i + 4,
                )
            }
        } else if c == 0x2A {
            Step::Emit(seq![cmd(COLOR_CHANGE)], i + 2)
        } else if c == 0x7D {
            Step::Emit(Seq::empty(), i + 2)
        } else if c == 0xAD || c == 0x90 {
            Step::Emit(seq![cmd(TRIM)], i + 2)
        } else {
            Step::Stop(i + 2)
        }
    }
}

/// The EMD steps of `d`.
pub open spec fn emd_steps(d: Seq<u8>) -> spec_fn(int) -> Step {
    |i: int| emd_record(d, i)
}

/// Every EMD step can be taken.
pub open spec fn emd_ok(d: Seq<u8>) -> spec_fn(int) -> bool {
    |i: int| true
}

/// The operations of an EMD file, ending with an end command.
pub open spec fn emd_ops(d: Seq<u8>) -> Seq<PatternOp> {
    ops_then(run_steps(emd_steps(d), d.len() as int, EMD_DATA_START as int), cmd(END)).unwrap()
}

/// The records of an EMD file.
pub struct EmdRecords<'a> {
    /// The bytes of the file
    pub data: &'a [u8],
}

impl<'a> StepDecoder for EmdRecords<'a> {
    open spec fn step_spec(&self, i: int) -> Step {
        emd_record(self.data@, i)
    }

    open spec fn step_ok(&self, i: int) -> bool {
        true
    }

    fn step(&self, i: usize, out: &mut Vec<PatternOp>) -> (r: StepOut) {
        let d = self.data;
        let n = d.len();
        if i > n || n - i < 2 {
            return StepOut::Stop(i);
        }
        let ghost before = out@;
        if d[i] != 0x80 {
            let x = byte_as_i8(d[i]) as i64;
            let y = -(byte_as_i8(d[i + 1]) as i64);
            push_rel(out, x, y, STITCH);
            assert(out@ =~= before + seq![rel(x as int, y as int, STITCH)]);
            return StepOut::Next(i + 2);
        }
        let c = d[i + 1];
        if c == 0x80 {
            if n - i < 4 {
                return StepOut::Stop(i + 2);
            }
            let x = byte_as_i8(d[i + 2]) as i64;
            let y = -(byte_as_i8(d[i + 3]) as i64);
            push_rel(out, x, y, JUMP);
            assert(out@ =~= before + seq![rel(x as int, y as int, JUMP)]);
            return StepOut::Next(i + 4);
        }
        if c == 0x2A {
            push_command(out, COLOR_CHANGE);
            assert(out@ =~= before + seq![cmd(COLOR_CHANGE)]);
            return StepOut::Next(i + 2);
        }
        if c == 0x7D {
            assert(out@ =~= before + Seq::<PatternOp>::empty());
            return StepOut::Next(i + 2);
        }
        if c == 0xAD || c == 0x90 {
            push_command(out, TRIM);
            assert(out@ =~= before + seq![cmd(TRIM)]);
            return StepOut::Next(i + 2);
        }
        StepOut::Stop(i + 2)
    }
}

/// Reading EMD records never fails.
proof fn lemma_emd_total(d: Seq<u8>, i: int)
    ensures
        run_steps(emd_steps(d), d.len() as int, i) is Some,
        run_ok(emd_steps(d), emd_ok(d), d.len() as int, i),
    decreases d.len() - i,
{
    match emd_record(d, i) {
        Step::Emit(_, next) => {
            if i < next <= d.len() {
                lemma_emd_total(d, next);
            }
        },
        _ => {},
    }
}

/// Decodes an EMD file into its operations, ending with an end command.
pub fn read(d: &[u8]) -> (r: Vec<PatternOp>)
    ensures
        r@ == emd_ops(d@),
{
    let dec = EmdRecords { data: d };
    assert(decoder_steps(dec) =~= emd_steps(d@));
    assert(decoder_ok(dec) =~= emd_ok(d@));
    proof {
        lemma_emd_total(d@, EMD_DATA_START as int);
    }
    match drive(&dec, d.len(), EMD_DATA_START) {
        Some((mut ops, _)) => {
            push_command(&mut ops, END);
            ops
        },
        None => {
            let mut ops: Vec<PatternOp> = Vec::new();
            push_command(&mut ops, END);
            ops
        },
    }
}

} // verus!
