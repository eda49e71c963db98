//! Janome SEW: a list of indices into the 79-colour SEW thread palette, then
//! 2-byte stitch records from offset 0x1D78; a first byte of 0x80 starts a
//! control record of four bytes.

use vstd::prelude::*;
use crate::bytes::{signed8, byte_as_i8, le16, ByteReader};
use crate::constants::{STITCH, JUMP, END, COLOR_CHANGE};
use crate::error::Error;
use crate::ops::{PatternOp, Step, StepOut, StepDecoder, rel, cmd, run_steps, ops_then, decoder_steps, decoder_ok, run_ok, drive, push_command, push_rel};

verus! {

/// Where the stitch records of a SEW file start.
pub const SEW_DATA_START: usize = 0x1D78;

/// The number of threads in the SEW palette.
pub const SEW_PALETTE_SIZE: usize = 79;

/// One SEW record at position `i`: a stitch by two signed bytes (y pointing
/// the other way) unless the first byte is 0x80; then the second byte is a
/// control code and two more bytes follow: an odd code is a colour change,
/// 0x02 or 0x04 a move by those bytes, 0x10 a stitch by them; anything else
/// ends the stitches, as does the end of the data.
pub open spec fn sew_record(d: Seq<u8>, i: int) -> Step {
    let n = d.len() as int;
    if i < 0 || i + 2 > n {
        Step::Stop(i)
    } else if d[i] != 0x80 {
        Step::Emit(seq![rel(signed8(d[i] as int), -signed8(d[i + 1] as int), STITCH)], i + 2)
    } else if i + 4 > n {
        Step::Stop(i + 2)
    } else {
        let c = d[i + 1];
        let x = signed8(d[i + 2] as int);
        let y = -signed8(d[i + 3] as int);
        if c & 0x01 != 0 {
            Step::Emit(seq![cmd(COLOR_CHANGE)], i + 4)
        } else if c == 0x04 || c == 0x02 {
            Step::Emit(seq![rel(x, y, JUMP)], i + 4)
        } else if c == 0x10 {
            Step::Emit(seq![rel(x, y, STITCH)], i + 4)
        } else {
            Step::Stop(i + 4)
        }
    }
}

/// The SEW steps of `d`.
pub open spec fn sew_steps(d: Seq<u8>) -> spec_fn(int) -> Step {
    |i: int| sew_record(d, i)
}

/// Every SEW step can be taken.
pub open spec fn sew_ok(d: Seq<u8>) -> spec_fn(int) -> bool {
    |i: int| true
}

/// The stitch operations of a SEW file, ending with an end command.
pub open spec fn sew_ops(d: Seq<u8>) -> Seq<PatternOp> {
    ops_then(run_steps(sew_steps(d), d.len() as int, SEW_DATA_START as int), cmd(END)).unwrap()
}

/// The stitch records of a SEW file.
pub struct SewRecords<'a> {
    /// The bytes of the file
    pub data: &'a [u8],
}

impl<'a> StepDecoder for SewRecords<'a> {
    open spec fn step_spec(&self, i: int) -> Step {
        sew_record(self.data@, i)
    }

    open spec fn step_ok(&self, i: int) -> bool {
        true
    }

    fn step(&self, i: usize, out: &mut Vec<PatternOp>) -> (r: StepOut) {
        let d = self.data;
        let n = d.len();
        if i > n || n - i < 2 {
            return StepOut::Stop(i);
        }
        let ghost before = out@;
        if d[i] != 0x80 {
            let x = byte_as_i8(d[i]) as i64;
            let y = -(byte_as_i8(d[i + 1]) as i64);
            push_rel(out, x, y, STITCH);
            assert(out@ =~= before + seq![rel(x as int, y as int, STITCH)]);
            return StepOut::Next(i + 2);
        }
        if n - i < 4 {
            return StepOut::Stop(i + 2);
        }
        let c = d[i + 1];
        let x = byte_as_i8(d[i + 2]) as i64;
        let y = -(byte_as_i8(d[i + 3]) as i64);
        if c & 0x01 != 0 {
            push_command(out, COLOR_CHANGE);
            assert(out@ =~= before + seq![cmd(COLOR_CHANGE)]);
            return StepOut::Next(i + 4);
        }
        if c == 0x04 || c == 0x02 {
            push_rel(out, x, y, JUMP);
            assert(out@ =~= before + seq![rel(x as int, y as int, JUMP)]);
            return StepOut::Next(i + 4);
        }
        if c == 0x10 {
            push_rel(out, x, y, STITCH);
            assert(out@ =~= before + seq![rel(x as int, y as int, STITCH)]);
            return StepOut::Next(i + 4);
        }
        StepOut::Stop(i + 4)
    }
}

/// Reading SEW records never fails.
proof fn lemma_sew_total(d: Seq<u8>, i: int)
    ensures
        run_steps(sew_steps(d), d.len() as int, i) is Some,
        run_ok(sew_steps(d), sew_ok(d), d.len() as int, i),
    decreases d.len() - i,
{
    match sew_record(d, i) {
        Step::Emit(_, next) => {
            if i < next <= d.len() {
                lemma_sew_total(d, next);
            }
        },
        _ => {},
    }
}

/// Decodes the stitch records of a SEW file, ending with an end command.
pub fn read_sew_stitches(d: &[u8]) -> (r: Vec<PatternOp>)
    ensures
        r@ == sew_ops(d@),
{
    let dec = SewRecords { data: d };
    assert(decoder_steps(dec) =~= sew_steps(d@));
    assert(decoder_ok(dec) =~= sew_ok(d@));
    proof {
        lemma_sew_total(d@, SEW_DATA_START as int);
    }
    match drive(&dec, d.len(), SEW_DATA_START) {
        Some((mut ops, _)) => {
            push_command(&mut ops, END);
            ops
        },
        None => {
            let mut ops: Vec<PatternOp> = Vec::new();
            push_command(&mut ops, END);
            ops
        },
    }
}

/// The 16-bit little-endian value at position `i`.
pub open spec fn u16_at(d: Seq<u8>, i: int) -> int {
    le16(d[i], d[i + 1])
}

/// The palette positions of the threads of a SEW file: a 16-bit count, then
/// that many 16-bit indices, each taken modulo the palette size; none when
/// the list is cut short.
pub open spec fn sew_thread_indices(d: Seq<u8>) -> Option<Seq<usize>> {
    if d.len() < 2 {
        None
    } else {
        let count = u16_at(d, 0);
        if 2 + 2 * count > d.len() {
            None
        } else {
            Some(Seq::new(count as nat, |k: int| (u16_at(d, 2 + 2 * k) % (SEW_PALETTE_SIZE as int)) as usize))
        }
    }
}

/// A decoded SEW file.
pub struct SewPattern {
    /// The positions in the SEW palette of the threads, in order
    pub palette_indices: Vec<usize>,
    /// The stitch operations
    pub ops: Vec<PatternOp>,
}

/// Decodes a SEW file: its thread palette positions and its stitches.
pub fn read(d: &[u8]) -> (r: Result<SewPattern, Error>)
    ensures
        match sew_thread_indices(d@) {
            None => r is Err,
            Some(ix) => r matches Ok(p) && p.palette_indices@ == ix && p.ops@ == sew_ops(d@),
        },
{
    let mut reader = ByteReader::new(d);
    let count = match reader.read_u16_le() {
        Ok(c) => c,
        Err(e) => return Err(e),
    };
    let mut indices: Vec<usize> = Vec::new();
    let mut k: u16 = 0;
    while k < count
        invariant
            reader.bytes() == d@,
            d@.len() >= 2,
            count == u16_at(d@, 0),
            reader.pos() == 2 + 2 * k,
            reader.pos() <= d@.len(),
            k <= count,
            indices@.len() == k,
            forall|j: int| 0 <= j < k ==> indices@[j] == (u16_at(d@, 2 + 2 * j) % (
            SEW_PALETTE_SIZE as int)) as usize,
        decreases count - k,
    {
        let index = match reader.read_u16_le() {
            Ok(v) => v,
            Err(e) => {
                assert(2 + 2 * count > d@.len());
                return Err(e);
            },
        };
        indices.push(index as usize % SEW_PALETTE_SIZE);
        k = k + 1;
    }
    assert(indices@ =~= sew_thread_indices(d@).unwrap());
    let ops = read_sew_stitches(d);
    Ok(SewPattern { palette_indices: indices, ops })
}

} // verus!
