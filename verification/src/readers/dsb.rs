//! Barudan DSB: a DST header and records, followed by B-stitch records: a
//! control byte with sign bits and a command, then a signed y byte and an x
//! byte.

use vstd::prelude::*;
use crate::bytes::{signed8, byte_as_i8};
use crate::constants::{STITCH, JUMP, TRIM, STOP, END, NEEDLE_SET, thread_change_value, encode_thread_change};
use crate::error::Error;
use crate::readers::dst::{self as dst, DstPattern, dst_readable, dst_header_ok, dst_stitches, dst_end, header_lines, dst_header_at, header_metadata, lines_view, metadata_of};
use crate::ops::{PatternOp, Step, StepOut, StepDecoder, rel, cmd, run_steps, ops_then, decoder_steps, decoder_ok, run_ok, run_is_ok, StepCheck, drive, push_command, push_rel};

verus! {

/// The x and y offsets of a B-stitch record: x the third byte, y the second
/// as a signed byte pointing the other way, negated by the sign bits 0x20
/// (x) and 0x40 (y) of the control byte.
pub open spec fn b_offsets(ctrl: u8, yb: u8, xb: u8) -> (int, int) {
    (if ctrl & 0x20 != 0 {
        -(xb as int)
    } else {
        xb as int
    }, if ctrl & 0x40 != 0 {
        signed8(yb as int)
    } else {
        -signed8(yb as int)
    })
}

/// One B-stitch record at position `i`: command bits 0 a stitch, 1 a move;
/// control 0xF8 the end, 0xE7 a trim, 0xE8 a stop, 0xE9..0xF7 a needle
/// change; anything else ends the stitches, as does the end of the data.
pub open spec fn b_record(d: Seq<u8>, i: int) -> Step {
    if i < 0 || i + 3 > d.len() {
        Step::Stop(i)
    } else {
        let ctrl = d[i];
        let (x, y) = b_offsets(ctrl, d[i + 1], d[i + 2]);
        let c = ctrl & 0x1F;
        if c == 0 {
            Step::Emit(seq![rel(x, y, STITCH)], i + 3)
        } else if c == 1 {
            Step::Emit(seq![rel(x, y, JUMP)], i + 3)
        } else if ctrl == 0xE7 {
            Step::Emit(seq![cmd(TRIM)], i + 3)
        } else if ctrl == 0xE8 {
            Step::Emit(seq![cmd(STOP)], i + 3)
        } else if 0xE9 <= ctrl < 0xF8 {
            Step::Emit(
                seq![cmd(thread_change_value(NEEDLE_SET, None, Some((ctrl - 0xE8) as u8), None))],
                i + 3,
            )
        } else {
            Step::Stop(i + 3)
        }
    }
}

/// What a B-stitch record `ctrl yb xb` at `i` means: command bits
/// `ctrl & 0x1F` of 0 one stitch and 1 one jump by the record's offsets;
/// otherwise control 0xE7 a trim and 0xE8 a stop.
pub proof fn lemma_b_record_meaning(d: Seq<u8>, i: int)
    requires
        0 <= i,
        i + 3 <= d.len(),
    ensures
        ({
            let ctrl = d[i];
            let (x, y) = b_offsets(ctrl, d[i + 1], d[i + 2]);
            &&& ctrl & 0x1F == 0 ==> b_record(d, i) == Step::Emit(seq![rel(x, y, STITCH)], i + 3)
            &&& ctrl & 0x1F == 1 ==> b_record(d, i) == Step::Emit(seq![rel(x, y, JUMP)], i + 3)
            &&& ctrl == 0xE7 ==> b_record(d, i) == Step::Emit(seq![cmd(TRIM)], i + 3)
            &&& ctrl == 0xE8 ==> b_record(d, i) == Step::Emit(seq![cmd(STOP)], i + 3)
        }),
{
    assert(0xE7u8 & 0x1F == 7 && 0xE8u8 & 0x1F == 8) by (bit_vector);
}

/// The B-stitch steps of `d`.
pub open spec fn b_steps(d: Seq<u8>) -> spec_fn(int) -> Step {
    |i: int| b_record(d, i)
}

/// The B-stitch records that can be read: the y byte is negated as a signed
/// byte, which overflows for 0x80.
pub open spec fn b_ok(d: Seq<u8>) -> spec_fn(int) -> bool {
    |i: int| !(0 <= i && i + 3 <= d.len() && d[i + 1] == 0x80)
}

/// Whether reading B-stitch records from `start` on comes to a y byte of
/// 0x80, whose negation as a signed byte overflows.
pub open spec fn b_overflows(d: Seq<u8>, start: int) -> bool {
    !run_ok(b_steps(d), b_ok(d), d.len() as int, start)
}

/// The operations of the B-stitch records from position `start` on, ending
/// with an end command.
pub open spec fn b_ops(d: Seq<u8>, start: int) -> Seq<PatternOp> {
    ops_then(run_steps(b_steps(d), d.len() as int, start), cmd(END)).unwrap()
}

/// The B-stitch records of a file.
pub struct BRecords<'a> {
    /// The bytes of the file
    pub data: &'a [u8],
}

impl<'a> StepDecoder for BRecords<'a> {
    open spec fn step_spec(&self, i: int) -> Step {
        b_record(self.data@, i)
    }

    open spec fn step_ok(&self, i: int) -> bool {
        !(0 <= i && i + 3 <= self.data@.len() && self.data@[i + 1] == 0x80)
    }

    fn step(&self, i: usize, out: &mut Vec<PatternOp>) -> (r: StepOut) {
        let d = self.data;
        let n = d.len();
        if i > n || n - i < 3 {
            return StepOut::Stop(i);
        }
        let ghost before = out@;
        let ctrl = d[i];
        let neg = -byte_as_i8(d[i + 1]);
        let y0 = neg as i64;
        let xb = d[i + 2];
        let y: i64 = if ctrl & 0x40 != 0 {
            -y0
        } else {
            y0
        };
        let x: i64 = if ctrl & 0x20 != 0 {
            -(xb as i64)
        } else {
            xb as i64
        };
        let c = ctrl & 0x1F;
        if c == 0 {
            push_rel(out, x, y, STITCH);
            assert(out@ =~= before + seq![rel(x as int, y as int, STITCH)]);
        } else if c == 1 {
            push_rel(out, x, y, JUMP);
            assert(out@ =~= before + seq![rel(x as int, y as int, JUMP)]);
        } else if ctrl == 0xE7 {
            push_command(out, TRIM);
            assert(out@ =~= before + seq![cmd(TRIM)]);
        } else if ctrl == 0xE8 {
            push_command(out, STOP);
            assert(out@ =~= before + seq![cmd(STOP)]);
        } else if 0xE9 <= ctrl && ctrl < 0xF8 {
            let code = encode_thread_change(NEEDLE_SET, None, Some(ctrl - 0xE8), None);
            push_command(out, code);
            assert(out@ =~= before + seq![cmd(code)]);
        } else {
            return StepOut::Stop(i + 3);
        }
        StepOut::Next(i + 3)
    }
}

/// Reading B-stitch records never fails.
proof fn lemma_b_total(d: Seq<u8>, i: int)
    ensures
        run_steps(b_steps(d), d.len() as int, i) is Some,
    decreases d.len() - i,
{
    match b_record(d, i) {
        Step::Emit(_, next) => {
            if i < next <= d.len() {
                lemma_b_total(d, next);
            }
        },
        _ => {},
    }
}

impl<'a> StepCheck for BRecords<'a> {
    fn step_allowed(&self, i: usize) -> (b: bool) {
        let n = self.data.len();
        !(i <= n && n - i >= 3 && self.data[i + 1] == 0x80)
    }
}

/// Whether the B-stitch records from `start` on can be read without overflow,
/// as `b_overflows` says.
pub fn is_b_readable(d: &[u8], start: usize) -> (b: bool)
    ensures
        b == !b_overflows(d@, start as int),
{
    let dec = BRecords { data: d };
    assert(decoder_steps(dec) =~= b_steps(d@));
    assert(decoder_ok(dec) =~= b_ok(d@));
    run_is_ok(&dec, d.len(), start)
}

/// Decodes the B-stitch records from position `start` on, ending with an end
/// command.
pub fn read_b_stitch_encoding(d: &[u8], start: usize) -> (r: Vec<PatternOp>)
    requires
        !b_overflows(d@, start as int),
    ensures
        r@ == b_ops(d@, start as int),
{
    let dec = BRecords { data: d };
    assert(decoder_steps(dec) =~= b_steps(d@));
    assert(decoder_ok(dec) =~= b_ok(d@));
    proof {
        lemma_b_total(d@, start as int);
    }
    match drive(&dec, d.len(), start) {
        Some((mut ops, _)) => {
            push_command(&mut ops, END);
            ops
        },
        None => {
            let mut ops: Vec<PatternOp> = Vec::new();
            push_command(&mut ops, END);
            ops
        },
    }
}

/// Whether a file of DST header and records followed by B-stitch records
/// can be read without a panic: its DST part as `dst_readable` says, and its
/// B-stitch records as `b_overflows` says.
pub fn is_dsb_readable(d: &[u8]) -> (b: bool)
    ensures
        b == (dst_readable(d@, 0) && !b_overflows(d@, dst_end(d@, 512))),
{
    if !dst::is_dst_readable(d, 0) {
        return false;
    }
    let end = dst::dst_records_end(d, 512);
    is_b_readable(d, end)
}

/// A file of DST header and records followed by records of another kind.
pub struct DstVariant {
    /// The metadata entries of the DST header
    pub metadata: Vec<(String, String)>,
    /// The operations of the records after the DST records
    pub ops: Vec<PatternOp>,
}

/// Decodes the file: its DST header and records are read first (and must be
/// readable), the metadata of the header is kept, and the records after the
/// DST records give the stitches.
pub fn read(d: &[u8]) -> (r: Result<DstVariant, Error>)
    requires
        dst_readable(d@, 0),
        !b_overflows(d@, dst_end(d@, 512)),
    ensures
        r is Ok <==> (dst_header_ok(d@, 0) && dst_stitches(d@, 512, 0, false) is Some),
        r matches Ok(p) ==> lines_view(p.metadata@) == header_metadata(
            header_lines(dst_header_at(d@, 0), 0, 0),
        ) && p.ops@ == b_ops(d@, dst_end(d@, 512)),
{
    let p = match dst::read(d, 0) {
        Ok(p) => p,
        Err(e) => return Err(e),
    };
    let metadata = metadata_of(&p.header, Ghost(header_lines(dst_header_at(d@, 0), 0, 0)));
    let ops = read_b_stitch_encoding(d, p.end);
    Ok(DstVariant { metadata, ops })
}

} // verus!
