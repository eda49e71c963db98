//! ZSK DSZ: a DST header and records, followed by Z-stitch records: y byte,
//! x byte (both magnitudes) and a control byte with sign bits and a command.

use vstd::prelude::*;
use crate::constants::{STITCH, JUMP, TRIM, STOP, END, NEEDLE_SET, thread_change_value, encode_thread_change};
use crate::error::Error;
use crate::readers::dst::{self as dst, DstPattern, dst_readable, dst_header_ok, dst_stitches, dst_end, header_lines, dst_header_at, header_metadata, lines_view, metadata_of};
use crate::ops::{PatternOp, Step, StepOut, StepDecoder, rel, cmd, run_steps, ops_then, decoder_steps, decoder_ok, run_ok, drive, push_command, push_rel};

verus! {

/// The x and y offsets of a Z-stitch record: x the second byte and y the
/// first, pointing the other way, negated by the sign bits 0x40 (x) and 0x20
/// (y) of the control byte.
pub open spec fn z_offsets(yb: u8, xb: u8, ctrl: u8) -> (int, int) {
    (if ctrl & 0x40 != 0 {
        -(xb as int)
    } else {
        xb as int
    }, if ctrl & 0x20 != 0 {
        yb as int
    } else {
        -(yb as int)
    })
}

/// One Z-stitch record at position `i`: command bits 0 a stitch, 1 a jump;
/// control 0x82 a stop, 0x9B a trim, 0x83..0x9A a needle change; anything
/// else ends the stitches, as does the end of the data.
pub open spec fn z_record(d: Seq<u8>, i: int) -> Step {
    if i < 0 || i + 3 > d.len() {
        Step::Stop(i)
    } else {
        let ctrl = d[i + 2];
        let (x, y) = z_offsets(d[i], d[i + 1], ctrl);
        let c = ctrl & 0x1F;
        if c == 0 {
            Step::Emit(seq![rel(x, y, STITCH)], i + 3)
        } else if c == 1 {
            Step::Emit(seq![rel(x, y, JUMP)], i + 3)
        } else if ctrl == 0x82 {
            Step::Emit(seq![cmd(STOP)], i + 3)
        } else if ctrl == 0x9B {
            Step::Emit(seq![cmd(TRIM)], i + 3)
        } else if 0x83 <= ctrl <= 0x9A {
            Step::Emit(
                seq![cmd(thread_change_value(NEEDLE_SET, None, Some(((ctrl - 0x83) / 2) as u8), None))],
                i + 3,
            )
        } else {
            Step::Stop(i + 3)
        }
    }
}

/// What a Z-stitch record `yb xb ctrl` at `i` means: command bits
/// `ctrl & 0x1F` of 0 one stitch and 1 one jump by the record's offsets;
/// otherwise control 0x82 a stop and 0x9B a trim.
pub proof fn lemma_z_record_meaning(d: Seq<u8>, i: int)
    requires
        0 <= i,
        i + 3 <= d.len(),
    ensures
        ({
            let ctrl = d[i + 2];
            let (x, y) = z_offsets(d[i], d[i + 1], ctrl);
            &&& ctrl & 0x1F == 0 ==> z_record(d, i) == Step::Emit(seq![rel(x, y, STITCH)], i + 3)
            &&& ctrl & 0x1F == 1 ==> z_record(d, i) == Step::Emit(seq![rel(x, y, JUMP)], i + 3)
            &&& ctrl == 0x82 ==> z_record(d, i) == Step::Emit(seq![cmd(STOP)], i + 3)
            &&& ctrl == 0x9B ==> z_record(d, i) == Step::Emit(seq![cmd(TRIM)], i + 3)
        }),
{
    assert(0x82u8 & 0x1F == 2 && 0x9Bu8 & 0x1F == 0x1B) by (bit_vector);
}

/// The Z-stitch steps of `d`.
pub open spec fn z_steps(d: Seq<u8>) -> spec_fn(int) -> Step {
    |i: int| z_record(d, i)
}

/// Every Z-stitch step can be taken.
pub open spec fn z_ok(d: Seq<u8>) -> spec_fn(int) -> bool {
    |i: int| true
}

/// The operations of the Z-stitch records from position `start` on, ending
/// with an end command.
pub open spec fn z_ops(d: Seq<u8>, start: int) -> Seq<PatternOp> {
    ops_then(run_steps(z_steps(d), d.len() as int, start), cmd(END)).unwrap()
}

/// The Z-stitch records of a file.
pub struct ZRecords<'a> {
    /// The bytes of the file
    pub data: &'a [u8],
}

impl<'a> StepDecoder for ZRecords<'a> {
    open spec fn step_spec(&self, i: int) -> Step {
        z_record(self.data@, i)
    }

    open spec fn step_ok(&self, i: int) -> bool {
        true
    }

    fn step(&self, i: usize, out: &mut Vec<PatternOp>) -> (r: StepOut) {
        let d = self.data;
        let n = d.len();
        if i > n || n - i < 3 {
            return StepOut::Stop(i);
        }
        let ghost before = out@;
        let yb = d[i];
        let xb = d[i + 1];
        let ctrl = d[i + 2];
        let x: i64 = if ctrl & 0x40 != 0 {
            -(xb as i64)
        } else {
            xb as i64
        };
        let y: i64 = if ctrl & 0x20 != 0 {
            yb as i64
        } else {
            -(yb as i64)
        };
        let c = ctrl & 0x1F;
        if c == 0 {
            push_rel(out, x, y, STITCH);
            assert(out@ =~= before + seq![rel(x as int, y as int, STITCH)]);
        } else if c == 1 {
            push_rel(out, x, y, JUMP);
            assert(out@ =~= before + seq![rel(x as int, y as int, JUMP)]);
        } else if ctrl == 0x82 {
            push_command(out, STOP);
            assert(out@ =~= before + seq![cmd(STOP)]);
        } else if ctrl == 0x9B {
            push_command(out, TRIM);
            assert(out@ =~= before + seq![cmd(TRIM)]);
        } else if 0x83 <= ctrl && ctrl <= 0x9A {
            let needle = (ctrl - 0x83) >> 1;
            assert((ctrl - 0x83) as u8 >> 1u8 == (ctrl - 0x83) as u8 / 2) by (bit_vector);
            let code = encode_thread_change(NEEDLE_SET, None, Some(needle), None);
            push_command(out, code);
            assert(out@ =~= before + seq![cmd(code)]);
        } else {
            return StepOut::Stop(i + 3);
        }
        StepOut::Next(i + 3)
    }
}

/// Reading Z-stitch records never fails.
proof fn lemma_z_total(d: Seq<u8>, i: int)
    ensures
        run_steps(z_steps(d), d.len() as int, i) is Some,
        run_ok(z_steps(d), z_ok(d), d.len() as int, i),
    decreases d.len() - i,
{
    match z_record(d, i) {
        Step::Emit(_, next) => {
            if i < next <= d.len() {
                lemma_z_total(d, next);
            }
        },
        _ => {},
    }
}

/// Decodes the Z-stitch records from position `start` on, ending with an
/// end command.
pub fn read_z_stitches(d: &[u8], start: usize) -> (r: Vec<PatternOp>)
    ensures
        r@ == z_ops(d@, start as int),
{
    let dec = ZRecords { data: d };
    assert(decoder_steps(dec) =~= z_steps(d@));
    assert(decoder_ok(dec) =~= z_ok(d@));
    proof {
        lemma_z_total(d@, start as int);
    }
    match drive(&dec, d.len(), start) {
        Some((mut ops, _)) => {
            push_command(&mut ops, END);
            ops
        },
        None => {
            let mut ops: Vec<PatternOp> = Vec::new();
            push_command(&mut ops, END);
            ops
        },
    }
}

/// A file of DST header and records followed by records of another kind.
pub struct DstVariant {
    /// The metadata entries of the DST header
    pub metadata: Vec<(String, String)>,
    /// The operations of the records after the DST records
    pub ops: Vec<PatternOp>,
}

/// Decodes the file: its DST header and records are read first (and must be
/// readable), the metadata of the header is kept, and the records after the
/// DST records give the stitches.
pub fn read(d: &[u8]) -> (r: Result<DstVariant, Error>)
    requires
        dst_readable(d@, 0),
    ensures
        r is Ok <==> (dst_header_ok(d@, 0) && dst_stitches(d@, 512, 0, false) is Some),
        r matches Ok(p) ==> lines_view(p.metadata@) == header_metadata(
            header_lines(dst_header_at(d@, 0), 0, 0),
        ) && p.ops@ == z_ops(d@, dst_end(d@, 512)),
{
    let p = match dst::read(d, 0) {
        Ok(p) => p,
        Err(e) => return Err(e),
    };
    let metadata = metadata_of(&p.header, Ghost(header_lines(dst_header_at(d@, 0), 0, 0)));
    let ops = read_z_stitches(d, p.end);
    Ok(DstVariant { metadata, ops })
}

} // verus!
