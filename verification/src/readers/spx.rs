//! Sperry SPX: 9-byte stitch records after a 0x11E-byte header: a 2-byte
//! marker, big-endian 16-bit y and x offsets, a signed correction of y, and
//! another 2-byte marker.

use vstd::prelude::*;
use crate::bytes::{signed8, signed16, be16, byte_as_i8, u16_be, i16_of};
use crate::constants::{STITCH, END};
use crate::ops::{PatternOp, Step, StepOut, StepDecoder, rel, cmd, run_steps, ops_then, decoder_steps, decoder_ok, run_ok, drive, push_command, push_rel};

verus! {

/// Where the stitch records of an SPX file start.
pub const SPX_DATA_START: usize = 0x11E;

/// One SPX record at position `i`: a stitch by `(dx, -dy - c)`; a record cut
/// short ends the stitches.
pub open spec fn spx_record(d: Seq<u8>, i: int) -> Step {
    if i < 0 || i + 9 > d.len() {
        Step::Stop(i)
    } else {
        let dy = signed16(be16(d[i + 2], d[i + 3]));
        let dx = signed16(be16(d[i + 4], d[i + 5]));
        let c = signed8(d[i + 6] as int);
        Step::Emit(seq![rel(dx, -dy - c, STITCH)], i + 9)
    }
}

/// The SPX steps of `d`.
pub open spec fn spx_steps(d: Seq<u8>) -> spec_fn(int) -> Step {
    |i: int| spx_record(d, i)
}

/// Every SPX step can be taken.
pub open spec fn spx_ok(d: Seq<u8>) -> spec_fn(int) -> bool {
    |i: int| true
}

/// The operations of an SPX file, ending with an end command.
pub open spec fn spx_ops(d: Seq<u8>) -> Seq<PatternOp> {
    ops_then(run_steps(spx_steps(d), d.len() as int, SPX_DATA_START as int), cmd(END)).unwrap()
}

/// The stitch records of an SPX file.
pub struct SpxRecords<'a> {
    /// The bytes of the file
    pub data: &'a [u8],
}

impl<'a> StepDecoder for SpxRecords<'a> {
    open spec fn step_spec(&self, i: int) -> Step {
        spx_record(self.data@, i)
    }

    open spec fn step_ok(&self, i: int) -> bool {
        true
    }

    fn step(&self, i: usize, out: &mut Vec<PatternOp>) -> (r: StepOut) {
        let d = self.data;
        let n = d.len();
        if i > n || n - i < 9 {
            return StepOut::Stop(i);
        }
        let ghost before = out@;
        let dy = i16_of(u16_be(d[i + 2], d[i + 3])) as i64;
        let dx = i16_of(u16_be(d[i + 4], d[i + 5])) as i64;
        let c = byte_as_i8(d[i + 6]) as i64;
        push_rel(out, dx, -dy - c, STITCH);
        assert(out@ =~= before + seq![rel(dx as int, -dy - c, STITCH)]);
        StepOut::Next(i + 9)
    }
}

/// Reading SPX records never fails.
proof fn lemma_spx_total(d: Seq<u8>, i: int)
    ensures
        run_steps(spx_steps(d), d.len() as int, i) is Some,
        run_ok(spx_steps(d), spx_ok(d), d.len() as int, i),
    decreases d.len() - i,
{
    match spx_record(d, i) {
        Step::Emit(_, next) => {
            if i < next <= d.len() {
                lemma_spx_total(d, next);
            }
        },
        _ => {},
    }
}

/// Decodes an SPX file into its operations, ending with an end command.
pub fn read(d: &[u8]) -> (r: Vec<PatternOp>)
    ensures
        r@ == spx_ops(d@),
{
    let dec = SpxRecords { data: d };
    assert(decoder_steps(dec) =~= spx_steps(d@));
    assert(decoder_ok(dec) =~= spx_ok(d@));
    proof {
        lemma_spx_total(d@, SPX_DATA_START as int);
    }
    match drive(&dec, d.len(), SPX_DATA_START) {
        Some((mut ops, _)) => {
            push_command(&mut ops, END);
            ops
        },
        None => {
            let mut ops: Vec<PatternOp> = Vec::new();
            push_command(&mut ops, END);
            ops
        },
    }
}

} // verus!
