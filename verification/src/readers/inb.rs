//! Inbro INB: 3-byte stitch records after an 8192-byte header: an x byte, a
//! signed y byte and a control byte with sign bits and a command.

use vstd::prelude::*;
use crate::bytes::{signed8, byte_as_i8};
use crate::constants::{STITCH, JUMP, END, COLOR_CHANGE};
use crate::ops::{PatternOp, Step, StepOut, StepDecoder, rel, cmd, run_steps, ops_then, decoder_steps, decoder_ok, run_ok, run_is_ok, StepCheck, drive, push_command, push_rel};

verus! {

/// Where the stitch records of an INB file start.
pub const INB_DATA_START: usize = 0x2000;

/// The x and y offsets of an INB record: the x byte, and the y byte as a
/// signed byte pointing the other way, negated by the sign bits 0x40 (x) and
/// 0x20 (y) of the control byte.
pub open spec fn inb_offsets(xb: u8, yb: u8, ctrl: u8) -> (int, int) {
    (if ctrl & 0x40 != 0 {
        -(xb as int)
    } else {
        xb as int
    }, if ctrl & 0x20 != 0 {
        signed8(yb as int)
    } else {
        -signed8(yb as int)
    })
}

/// One INB record at position `i`: command bits (the low four) 0 a stitch, 1
/// a colour change, 2 a move, each by the record's offset; anything else
/// ends the stitches, as does the end of the data.
pub open spec fn inb_record(d: Seq<u8>, i: int) -> Step {
    if i < 0 || i + 3 > d.len() {
        Step::Stop(i)
    } else {
        let ctrl = d[i + 2];
        let (x, y) = inb_offsets(d[i], d[i + 1], ctrl);
        let c = ctrl & 0x0F;
        if c == 0 {
            Step::Emit(seq![rel(x, y, STITCH)], i + 3)
        } else if c == 1 {
            Step::Emit(seq![rel(x, y, COLOR_CHANGE)], i + 3)
        } else if c == 2 {
            Step::Emit(seq![rel(x, y, JUMP)], i + 3)
        } else {
            Step::Stop(i + 3)
        }
    }
}

/// What an INB record `xb yb ctrl` at `i` means: command bits `ctrl & 0x0F`
/// of 0 one stitch, 1 one colour change and 2 one jump, each by the record's
/// offsets.
pub proof fn lemma_inb_record_meaning(d: Seq<u8>, i: int)
    requires
        0 <= i,
        i + 3 <= d.len(),
    ensures
        ({
            let ctrl = d[i + 2];
            let (x, y) = inb_offsets(d[i], d[i + 1], ctrl);
            &&& ctrl & 0x0F == 0 ==> inb_record(d, i) == Step::Emit(seq![rel(x, y, STITCH)], i + 3)
            &&& ctrl & 0x0F == 1 ==> inb_record(d, i) == Step::Emit(
                seq![rel(x, y, COLOR_CHANGE)],
                i + 3,
            )
            &&& ctrl & 0x0F == 2 ==> inb_record(d, i) == Step::Emit(seq![rel(x, y, JUMP)], i + 3)
        }),
{
}

/// The INB steps of `d`.
pub open spec fn inb_steps(d: Seq<u8>) -> spec_fn(int) -> Step {
    |i: int| inb_record(d, i)
}

/// The INB records that can be read: the y byte is negated as a signed byte,
/// which overflows for 0x80.
pub open spec fn inb_ok(d: Seq<u8>) -> spec_fn(int) -> bool {
    |i: int| !(0 <= i && i + 3 <= d.len() && d[i + 1] == 0x80)
}

/// Whether reading an INB file comes to a y byte of 0x80, whose negation as
/// a signed byte overflows.
pub open spec fn inb_overflows(d: Seq<u8>) -> bool {
    !run_ok(inb_steps(d), inb_ok(d), d.len() as int, INB_DATA_START as int)
}

/// The operations of an INB file, ending with an end command.
pub open spec fn inb_ops(d: Seq<u8>) -> Seq<PatternOp> {
    ops_then(run_steps(inb_steps(d), d.len() as int, INB_DATA_START as int), cmd(END)).unwrap()
}

/// The stitch records of an INB file.
pub struct InbRecords<'a> {
    /// The bytes of the file
    pub data: &'a [u8],
}

impl<'a> StepDecoder for InbRecords<'a> {
    open spec fn step_spec(&self, i: int) -> Step {
        inb_record(self.data@, i)
    }

    open spec fn step_ok(&self, i: int) -> bool {
        !(0 <= i && i + 3 <= self.data@.len() && self.data@[i + 1] == 0x80)
    }

    fn step(&self, i: usize, out: &mut Vec<PatternOp>) -> (r: StepOut) {
        let d = self.data;
        let n = d.len();
        if i > n || n - i < 3 {
            return StepOut::Stop(i);
        }
        let ghost before = out@;
        let xb = d[i];
        let neg = -byte_as_i8(d[i + 1]);
        let ctrl = d[i + 2];
        let y: i64 = if ctrl & 0x20 != 0 {
            -(neg as i64)
        } else {
            neg as i64
        };
        let x: i64 = if ctrl & 0x40 != 0 {
            -(xb as i64)
        } else {
            xb as i64
        };
        let c = ctrl & 0x0F;
        if c == 0 {
            push_rel(out, x, y, STITCH);
            assert(out@ =~= before + seq![rel(x as int, y as int, STITCH)]);
        } else if c == 1 {
            push_rel(out, x, y, COLOR_CHANGE);
            assert(out@ =~= before + seq![rel(x as int, y as int, COLOR_CHANGE)]);
        } else if c == 2 {
            push_rel(out, x, y, JUMP);
            assert(out@ =~= before + seq![rel(x as int, y as int, JUMP)]);
        } else {
            return StepOut::Stop(i + 3);
        }
        StepOut::Next(i + 3)
    }
}

/// Reading INB records never fails.
proof fn lemma_inb_total(d: Seq<u8>, i: int)
    ensures
        run_steps(inb_steps(d), d.len() as int, i) is Some,
    decreases d.len() - i,
{
    match inb_record(d, i) {
        Step::Emit(_, next) => {
            if i < next <= d.len() {
                lemma_inb_total(d, next);
            }
        },
        _ => {},
    }
}

impl<'a> StepCheck for InbRecords<'a> {
    fn step_allowed(&self, i: usize) -> (b: bool) {
        let n = self.data.len();
        !(i <= n && n - i >= 3 && self.data[i + 1] == 0x80)
    }
}

/// Whether an INB file can be read without overflow, as `inb_overflows` says.
pub fn is_inb_readable(d: &[u8]) -> (b: bool)
    ensures
        b == !inb_overflows(d@),
{
    let dec = InbRecords { data: d };
    assert(decoder_steps(dec) =~= inb_steps(d@));
    assert(decoder_ok(dec) =~= inb_ok(d@));
    run_is_ok(&dec, d.len(), INB_DATA_START)
}

/// Decodes an INB file into its operations, ending with an end command.
pub fn read(d: &[u8]) -> (r: Vec<PatternOp>)
    requires
        !inb_overflows(d@),
    ensures
        r@ == inb_ops(d@),
{
    let dec = InbRecords { data: d };
    assert(decoder_steps(dec) =~= inb_steps(d@));
    assert(decoder_ok(dec) =~= inb_ok(d@));
    proof {
        lemma_inb_total(d@, INB_DATA_START as int);
    }
    match drive(&dec, d.len(), INB_DATA_START) {
        Some((mut ops, _)) => {
            push_command(&mut ops, END);
            ops
        },
        None => {
            let mut ops: Vec<PatternOp> = Vec::new();
            push_command(&mut ops, END);
            ops
        },
    }
}

} // verus!
