//! Pfaff PCD (and the PC stitch records it shares with PCM, PCQ and PCS):
//! 9-byte records holding absolute 24-bit coordinates in units of 3/5 of a
//! tenth of a millimetre, and a control byte.

use vstd::prelude::*;
use crate::bytes::{le16, le24, be24, signed24, ByteReader};
use crate::constants::{STITCH, JUMP, END, COLOR_CHANGE};
use crate::error::Error;
use crate::thread::{EmbThread, rgb_value};
use crate::ops::{PatternOp, Step, StepOut, StepDecoder, abs, cmd, run_steps, ops_then, decoder_steps, decoder_ok, run_ok, drive, push_command};

verus! {

/// The coordinates of a PC record: little-endian (PCD: `c0 x c1 y ctrl`) or
/// big-endian (PCM: `x c0 y c1 ctrl`) 24-bit signed values.
pub open spec fn pc_coords(d: Seq<u8>, i: int, big_endian: bool) -> (int, int) {
    if big_endian {
        (signed24(be24(d[i], d[i + 1], d[i + 2])), signed24(be24(d[i + 4], d[i + 5], d[i + 6])))
    } else {
        (signed24(le24(d[i + 1], d[i + 2], d[i + 3])), signed24(le24(d[i + 5], d[i + 6], d[i + 7])))
    }
}

/// One PC record at position `i`: control 0 a stitch at `(x, -y)`, bit 0 a
/// colour change, bit 2 a move to `(x, -y)`; anything else, or a record cut
/// short, ends the stitches.
pub open spec fn pc_record(d: Seq<u8>, i: int, big_endian: bool) -> Step {
    if i < 0 || i + 9 > d.len() {
        Step::Stop(i)
    } else {
        let (x, y) = pc_coords(d, i, big_endian);
        let c = d[i + 8];
        if c == 0 {
            Step::Emit(seq![abs(x, -y, STITCH)], i + 9)
        } else if c & 0x01 != 0 {
            Step::Emit(seq![cmd(COLOR_CHANGE)], i + 9)
        } else if c & 0x04 != 0 {
            Step::Emit(seq![abs(x, -y, JUMP)], i + 9)
        } else {
            Step::Stop(i + 9)
        }
    }
}

/// The PC steps of `d`.
pub open spec fn pc_steps(d: Seq<u8>, big_endian: bool) -> spec_fn(int) -> Step {
    |i: int| pc_record(d, i, big_endian)
}

/// Every PC step can be taken.
pub open spec fn pc_ok(d: Seq<u8>) -> spec_fn(int) -> bool {
    |i: int| true
}

/// The operations of the PC records from position `start` on, ending with an
/// end command.
pub open spec fn pc_ops(d: Seq<u8>, start: int, big_endian: bool) -> Seq<PatternOp> {
    ops_then(run_steps(pc_steps(d, big_endian), d.len() as int, start), cmd(END)).unwrap()
}

/// The PC stitch records of a file.
pub struct PcRecords<'a> {
    /// The bytes of the file
    pub data: &'a [u8],
    /// Whether the coordinates are big-endian
    pub big_endian: bool,
}

/// A signed 24-bit value of three bytes, least significant first.
fn i24_le_of(b0: u8, b1: u8, b2: u8) -> (v: i64)
    ensures
        v == signed24(le24(b0, b1, b2)),
{
    let u = (b2 as i64) * 65536 + (b1 as i64) * 256 + (b0 as i64);
    if u >= 0x80_0000 {
        u - 0x100_0000
    } else {
        u
    }
}

impl<'a> StepDecoder for PcRecords<'a> {
    open spec fn step_spec(&self, i: int) -> Step {
        pc_record(self.data@, i, self.big_endian)
    }

    open spec fn step_ok(&self, i: int) -> bool {
        true
    }

    fn step(&self, i: usize, out: &mut Vec<PatternOp>) -> (r: StepOut) {
        let d = self.data;
        let n = d.len();
        if i > n || n - i < 9 {
            return StepOut::Stop(i);
        }
        let ghost before = out@;
        let (x, y) = if self.big_endian {
            (i24_le_of(d[i + 2], d[i + 1], d[i]), i24_le_of(d[i + 6], d[i + 5], d[i + 4]))
        } else {
            (i24_le_of(d[i + 1], d[i + 2], d[i + 3]), i24_le_of(d[i + 5], d[i + 6], d[i + 7]))
        };
        let c = d[i + 8];
        if c == 0 {
            out.push(PatternOp::Absolute { x, y: -y, command: STITCH });
            assert(out@ =~= before + seq![abs(x as int, -y, STITCH)]);
        } else if c & 0x01 != 0 {
            push_command(out, COLOR_CHANGE);
            assert(out@ =~= before + seq![cmd(COLOR_CHANGE)]);
        } else if c & 0x04 != 0 {
            out.push(PatternOp::Absolute { x, y: -y, command: JUMP });
            assert(out@ =~= before + seq![abs(x as int, -y, JUMP)]);
        } else {
            return StepOut::Stop(i + 9);
        }
        StepOut::Next(i + 9)
    }
}

/// Reading PC records never fails.
proof fn lemma_pc_total(d: Seq<u8>, i: int, big_endian: bool)
    ensures
        run_steps(pc_steps(d, big_endian), d.len() as int, i) is Some,
        run_ok(pc_steps(d, big_endian), pc_ok(d), d.len() as int, i),
    decreases d.len() - i,
{
    match pc_record(d, i, big_endian) {
        Step::Emit(_, next) => {
            if i < next <= d.len() {
                lemma_pc_total(d, next, big_endian);
            }
        },
        _ => {},
    }
}

/// Decodes the PC stitch records from position `start` on, ending with an
/// end command.
pub fn read_pc_stitches(d: &[u8], start: usize, big_endian: bool) -> (r: Vec<PatternOp>)
    ensures
        r@ == pc_ops(d@, start as int, big_endian),
{
    let dec = PcRecords { data: d, big_endian };
    assert(decoder_steps(dec) =~= pc_steps(d@, big_endian));
    assert(decoder_ok(dec) =~= pc_ok(d@));
    proof {
        lemma_pc_total(d@, start as int, big_endian);
    }
    match drive(&dec, d.len(), start) {
        Some((mut ops, _)) => {
            push_command(&mut ops, END);
            ops
        },
        None => {
            let mut ops: Vec<PatternOp> = Vec::new();
            push_command(&mut ops, END);
            ops
        },
    }
}

/// The colour count of a PCD file (after the version and hoop bytes).
pub open spec fn pcd_color_count(d: Seq<u8>) -> int {
    le16(d[2], d[3])
}

/// A decoded PC-family file.
pub struct PcPattern {
    /// The threads, in order
    pub threads: Vec<EmbThread>,
    /// The stitch operations, in units of 3/5 of the pattern unit
    pub ops: Vec<PatternOp>,
}

/// Decodes a PCD file: a version byte, a hoop byte, a 16-bit little-endian
/// colour count, that many colours (3 bytes of big-endian RGB and a padding
/// byte), a stitch count, then the stitch records.
pub fn read(d: &[u8]) -> (r: Result<PcPattern, Error>)
    ensures
        r is Ok <==> (d@.len() >= 4 && 4 + 4 * pcd_color_count(d@) + 2 <= d@.len()),
        r matches Ok(p) ==> p.ops@ == pc_ops(d@, 6 + 4 * pcd_color_count(d@), false)
            && p.threads@.len() == pcd_color_count(d@) && forall|k: int|
            0 <= k < p.threads@.len() ==> (#[trigger] p.threads@[k]).color == rgb_value(
                d@[4 + 4 * k],
                d@[5 + 4 * k],
                d@[6 + 4 * k],
            ),
{
    let mut reader = ByteReader::new(d);
    if d.len() < 4 {
        return Err(Error::Parse("Unexpected EOF".to_owned()));
    }
    reader.seek(2);
    let count = match reader.read_u16_le() {
        Ok(c) => c,
        Err(e) => return Err(e),
    };
    let mut threads: Vec<EmbThread> = Vec::new();
    let mut k: u16 = 0;
    while k < count
        invariant
            reader.bytes() == d@,
            d@.len() >= 4,
            count == pcd_color_count(d@),
            reader.pos() == 4 + 4 * k,
            k <= count,
            threads@.len() == k,
            forall|j: int|
                0 <= j < k ==> (#[trigger] threads@[j]).color == rgb_value(
                    d@[4 + 4 * j],
                    d@[5 + 4 * j],
                    d@[6 + 4 * j],
                ),
        decreases count - k,
    {
        let p = reader.position();
        if p > d.len() || d.len() - p < 3 {
            return Err(Error::Parse("Unexpected EOF".to_owned()));
        }
        threads.push(EmbThread::from_rgb(d[p], d[p + 1], d[p + 2]));
        reader.seek(p + 4);
        k = k + 1;
    }
    let p = reader.position();
    if p > d.len() || d.len() - p < 2 {
        return Err(Error::Parse("Unexpected EOF".to_owned()));
    }
    let ops = read_pc_stitches(d, p + 2, false);
    Ok(PcPattern { threads, ops })
}

} // verus!
