//! Gunold STC: 3-byte stitch records after a 40-byte header: a signed x byte,
//! a signed y byte and a control byte.

use vstd::prelude::*;
use crate::bytes::{signed8, byte_as_i8};
use crate::constants::{STITCH, JUMP, END, NEEDLE_SET, thread_change_value, encode_thread_change};
use crate::ops::{PatternOp, Step, StepOut, StepDecoder, rel, cmd, run_steps, ops_then, decoder_steps, decoder_ok, run_ok, run_is_ok, StepCheck, drive, push_command, push_rel};

verus! {

/// Where the stitch records of an STC file start.
pub const STC_DATA_START: usize = 0x28;

/// One STC record at position `i`: control 1 a stitch, 0 a move, 25 the end,
/// anything else a change to needle `control - 2` (at least 0); the offset is
/// the signed x byte and the signed y byte pointing the other way.
pub open spec fn stc_record(d: Seq<u8>, i: int) -> Step {
    if i < 0 || i + 3 > d.len() {
        Step::Stop(i)
    } else {
        let x = signed8(d[i] as int);
        let y = -signed8(d[i + 1] as int);
        let c = d[i + 2];
        if c == 0x01 {
            Step::Emit(seq![rel(x, y, STITCH)], i + 3)
        } else if c == 0x00 {
            Step::Emit(seq![rel(x, y, JUMP)], i + 3)
        } else if c == 25 {
            Step::Stop(i + 3)
        } else {
            Step::Emit(
                seq![cmd(thread_change_value(NEEDLE_SET, None, Some((if c >= 2 { c - 2 } else { 0 }) as u8), None))],
                i + 3,
            )
        }
    }
}

/// What an STC record `xb yb c` at `i` means: control 1 one stitch and 0
/// one jump by the signed x byte and the signed y byte pointing the other
/// way; 25 ends the stitches.
pub proof fn lemma_stc_record_meaning(d: Seq<u8>, i: int)
    requires
        0 <= i,
        i + 3 <= d.len(),
    ensures
        ({
            let x = signed8(d[i] as int);
            let y = -signed8(d[i + 1] as int);
            &&& d[i + 2] == 1 ==> stc_record(d, i) == Step::Emit(seq![rel(x, y, STITCH)], i + 3)
            &&& d[i + 2] == 0 ==> stc_record(d, i) == Step::Emit(seq![rel(x, y, JUMP)], i + 3)
            &&& d[i + 2] == 25 ==> stc_record(d, i) == Step::Stop(i + 3)
        }),
{
}

/// The STC steps of `d`.
pub open spec fn stc_steps(d: Seq<u8>) -> spec_fn(int) -> Step {
    |i: int| stc_record(d, i)
}

/// The STC records that can be read: the y byte is negated as a signed byte,
/// which overflows for 0x80.
pub open spec fn stc_ok(d: Seq<u8>) -> spec_fn(int) -> bool {
    |i: int| !(0 <= i && i + 3 <= d.len() && d[i + 1] == 0x80)
}

/// Whether reading an STC file comes to a y byte of 0x80, whose negation as
/// a signed byte overflows.
pub open spec fn stc_overflows(d: Seq<u8>) -> bool {
    !run_ok(stc_steps(d), stc_ok(d), d.len() as int, STC_DATA_START as int)
}

/// The operations of an STC file, ending with an end command.
pub open spec fn stc_ops(d: Seq<u8>) -> Seq<PatternOp> {
    ops_then(run_steps(stc_steps(d), d.len() as int, STC_DATA_START as int), cmd(END)).unwrap()
}

/// The stitch records of an STC file.
pub struct StcRecords<'a> {
    /// The bytes of the file
    pub data: &'a [u8],
}

impl<'a> StepDecoder for StcRecords<'a> {
    open spec fn step_spec(&self, i: int) -> Step {
        stc_record(self.data@, i)
    }

    open spec fn step_ok(&self, i: int) -> bool {
        !(0 <= i && i + 3 <= self.data@.len() && self.data@[i + 1] == 0x80)
    }

    fn step(&self, i: usize, out: &mut Vec<PatternOp>) -> (r: StepOut) {
        let d = self.data;
        let n = d.len();
        if i > n || n - i < 3 {
            return StepOut::Stop(i);
        }
        let ghost before = out@;
        let x = byte_as_i8(d[i]) as i64;
        let neg = -byte_as_i8(d[i + 1]);
        let y = neg as i64;
        let c = d[i + 2];
        if c == 0x01 {
            push_rel(out, x, y, STITCH);
            assert(out@ =~= before + seq![rel(x as int, y as int, STITCH)]);
        } else if c == 0x00 {
            push_rel(out, x, y, JUMP);
            assert(out@ =~= before + seq![rel(x as int, y as int, JUMP)]);
        } else if c == 25 {
            return StepOut::Stop(i + 3);
        } else {
            let needle = c.saturating_sub(2);
            let code = encode_thread_change(NEEDLE_SET, None, Some(needle), None);
            push_command(out, code);
            assert(out@ =~= before + seq![cmd(code)]);
        }
        StepOut::Next(i + 3)
    }
}

/// Reading STC records never fails.
proof fn lemma_stc_total(d: Seq<u8>, i: int)
    ensures
        run_steps(stc_steps(d), d.len() as int, i) is Some,
    decreases d.len() - i,
{
    match stc_record(d, i) {
        Step::Emit(_, next) => {
            if i < next <= d.len() {
                lemma_stc_total(d, next);
            }
        },
        _ => {},
    }
}

impl<'a> StepCheck for StcRecords<'a> {
    fn step_allowed(&self, i: usize) -> (b: bool) {
        let n = self.data.len();
        !(i <= n && n - i >= 3 && self.data[i + 1] == 0x80)
    }
}

/// Whether an STC file can be read without overflow, as `stc_overflows` says.
pub fn is_stc_readable(d: &[u8]) -> (b: bool)
    ensures
        b == !stc_overflows(d@),
{
    let dec = StcRecords { data: d };
    assert(decoder_steps(dec) =~= stc_steps(d@));
    assert(decoder_ok(dec) =~= stc_ok(d@));
    run_is_ok(&dec, d.len(), STC_DATA_START)
}

/// Decodes an STC file into its operations, ending with an end command.
pub fn read(d: &[u8]) -> (r: Vec<PatternOp>)
    requires
        !stc_overflows(d@),
    ensures
        r@ == stc_ops(d@),
{
    let dec = StcRecords { data: d };
    assert(decoder_steps(dec) =~= stc_steps(d@));
    assert(decoder_ok(dec) =~= stc_ok(d@));
    proof {
        lemma_stc_total(d@, STC_DATA_START as int);
    }
    match drive(&dec, d.len(), STC_DATA_START) {
        Some((mut ops, _)) => {
            push_command(&mut ops, END);
            ops
        },
        None => {
            let mut ops: Vec<PatternOp> = Vec::new();
            push_command(&mut ops, END);
            ops
        },
    }
}

} // verus!
