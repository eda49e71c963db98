//! Janome JPX: a header with the position of the stitches and a list of
//! colour indices, then 2-byte stitch records; a first byte of 0x80 starts a
//! control record of four bytes.

use vstd::prelude::*;
use crate::bytes::{signed8, byte_as_i8, le32, ByteReader};
use crate::constants::{STITCH, JUMP, END, COLOR_CHANGE};
use crate::error::Error;
use crate::text::{decimal_digits, with_decimal};
use crate::thread::{EmbThread, opt_view};
use crate::ops::{PatternOp, Step, StepOut, StepDecoder, rel, cmd, if_moved, run_steps, ops_then, decoder_steps, decoder_ok, run_ok, drive, push_command, push_rel, push_if_moved};

verus! {

/// Where the colour count of a JPX file is.
pub const JPX_COLOR_COUNT_AT: usize = 0x20;

/// Where the colour indices of a JPX file start.
pub const JPX_COLORS_AT: usize = 0x3C;

/// One JPX record at position `i`: a stitch by two signed bytes (y pointing
/// the other way) unless the first byte is 0x80; then the second byte is a
/// control code and two more bytes give an offset: 0x02 a move by it, 0x01
/// a colour change followed by a move when it moves; anything else ends the
/// stitches, as does the end of the data.
pub open spec fn jpx_record(d: Seq<u8>, i: int) -> Step {
    let n = d.len() as int;
    if i < 0 || i + 2 > n {
        Step::Stop(i)
    } else if d[i] != 0x80 {
        Step::Emit(seq![rel(signed8(d[i] as int), -signed8(d[i + 1] as int), STITCH)], i + 2)
    } else if i + 4 > n {
        Step::Stop(i + 2)
    } else {
        let c = d[i + 1];
        let x = signed8(d[i + 2] as int);
        let y = -signed8(d[i + 3] as int);
        if c == 0x02 {
            Step::Emit(seq![rel(x, y, JUMP)], i + 4)
        } else if c == 0x01 {
            Step::Emit(seq![cmd(COLOR_CHANGE)] + if_moved(x, y, JUMP), i + 4)
        } else {
            Step::Stop(i + 4)
        }
    }
}

/// The JPX steps of `d`.
pub open spec fn jpx_steps(d: Seq<u8>) -> spec_fn(int) -> Step {
    |i: int| jpx_record(d, i)
}

/// Every JPX step can be taken.
pub open spec fn jpx_ok(d: Seq<u8>) -> spec_fn(int) -> bool {
    |i: int| true
}

/// The operations of the JPX records from position `start` on, ending with
/// an end command.
pub open spec fn jpx_ops(d: Seq<u8>, start: int) -> Seq<PatternOp> {
    ops_then(run_steps(jpx_steps(d), d.len() as int, start), cmd(END)).unwrap()
}

/// The stitch records of a JPX file.
pub struct JpxRecords<'a> {
    /// The bytes of the file
    pub data: &'a [u8],
}

impl<'a> StepDecoder for JpxRecords<'a> {
    open spec fn step_spec(&self, i: int) -> Step {
        jpx_record(self.data@, i)
    }

    open spec fn step_ok(&self, i: int) -> bool {
        true
    }

    fn step(&self, i: usize, out: &mut Vec<PatternOp>) -> (r: StepOut) {
        let d = self.data;
        let n = d.len();
        if i > n || n - i < 2 {
            return StepOut::Stop(i);
        }
        let ghost before = out@;
        if d[i] != 0x80 {
            let x = byte_as_i8(d[i]) as i64;
            let y = -(byte_as_i8(d[i + 1]) as i64);
            push_rel(out, x, y, STITCH);
            assert(out@ =~= before + seq![rel(x as int, y as int, STITCH)]);
            return StepOut::Next(i + 2);
        }
        if n - i < 4 {
            return StepOut::Stop(i + 2);
        }
        let c = d[i + 1];
        let x = byte_as_i8(d[i + 2]) as i64;
        let y = -(byte_as_i8(d[i + 3]) as i64);
        if c == 0x02 {
            push_rel(out, x, y, JUMP);
            assert(out@ =~= before + seq![rel(x as int, y as int, JUMP)]);
            return StepOut::Next(i + 4);
        }
        if c == 0x01 {
            push_command(out, COLOR_CHANGE);
            push_if_moved(out, x, y, JUMP);
            assert(out@ =~= before + (seq![cmd(COLOR_CHANGE)] + if_moved(x as int, y as int, JUMP)));
            return StepOut::Next(i + 4);
        }
        StepOut::Stop(i + 4)
    }
}

/// Reading JPX records never fails.
proof fn lemma_jpx_total(d: Seq<u8>, i: int)
    ensures
        run_steps(jpx_steps(d), d.len() as int, i) is Some,
        run_ok(jpx_steps(d), jpx_ok(d), d.len() as int, i),
    decreases d.len() - i,
{
    match jpx_record(d, i) {
        Step::Emit(_, next) => {
            if i < next <= d.len() {
                lemma_jpx_total(d, next);
            }
        },
        _ => {},
    }
}

/// Decodes the JPX stitch records from position `start` on, ending with an
/// end command.
pub fn read_jpx_stitches(d: &[u8], start: usize) -> (r: Vec<PatternOp>)
    ensures
        r@ == jpx_ops(d@, start as int),
{
    let dec = JpxRecords { data: d };
    assert(decoder_steps(dec) =~= jpx_steps(d@));
    assert(decoder_ok(dec) =~= jpx_ok(d@));
    proof {
        lemma_jpx_total(d@, start as int);
    }
    match drive(&dec, d.len(), start) {
        Some((mut ops, _)) => {
            push_command(&mut ops, END);
            ops
        },
        None => {
            let mut ops: Vec<PatternOp> = Vec::new();
            push_command(&mut ops, END);
            ops
        },
    }
}

/// The 32-bit little-endian value at position `i`.
pub open spec fn u32_at(d: Seq<u8>, i: int) -> int {
    le32(d[i], d[i + 1], d[i + 2], d[i + 3])
}

/// How many colour indices a JPX file lists and holds: its colour count,
/// or fewer when the data ends first.
pub open spec fn jpx_color_count(d: Seq<u8>) -> int {
    let count = u32_at(d, JPX_COLOR_COUNT_AT as int);
    let room = if d.len() >= JPX_COLORS_AT {
        (d.len() - JPX_COLORS_AT) / 4
    } else {
        0
    };
    if count < room {
        count
    } else {
        room
    }
}

/// The colour that a JPX thread with colour index `k` gets.
pub open spec fn jpx_color(k: u32) -> u32 {
    ((0x100000 * (k % 256)) as u32) & 0xFF_FFFF
}

/// A decoded JPX file.
pub struct JpxPattern {
    /// The threads, one per colour index
    pub threads: Vec<EmbThread>,
    /// The stitch operations
    pub ops: Vec<PatternOp>,
}

/// Decodes a JPX file: a thread for each colour index (coloured from the
/// index and described as `JPX index <k>`) and the stitches from the
/// position that the header gives; the header must hold that position and
/// the colour count.
pub fn read(d: &[u8]) -> (r: Result<JpxPattern, Error>)
    ensures
        d@.len() < JPX_COLORS_AT - 0x18 ==> r is Err,
        d@.len() >= JPX_COLORS_AT - 0x18 ==> (r matches Ok(p) && p.ops@ == jpx_ops(
            d@,
            u32_at(d@, 0),
        ) && p.threads@.len() == jpx_color_count(d@) && forall|k: int|
            0 <= k < p.threads@.len() ==> {
                let t = #[trigger] p.threads@[k];
                let c = u32_at(d@, JPX_COLORS_AT + 4 * k) as u32;
                t.color == jpx_color(c) && opt_view(t.description) == Some(
                    "JPX index "@ + decimal_digits(c as nat),
                )
            }),
{
    let mut reader = ByteReader::new(d);
    let start = match reader.read_u32_le() {
        Ok(v) => v,
        Err(e) => return Err(e),
    };
    reader.seek(JPX_COLOR_COUNT_AT);
    let colors = match reader.read_u32_le() {
        Ok(v) => v,
        Err(e) => return Err(e),
    };
    reader.seek(JPX_COLORS_AT);
    let mut threads: Vec<EmbThread> = Vec::new();
    let mut k: u32 = 0;
    while k < colors && reader.remaining() >= 4
        invariant
            reader.bytes() == d@,
            d@.len() >= JPX_COLORS_AT - 0x18,
            colors == u32_at(d@, JPX_COLOR_COUNT_AT as int),
            reader.pos() == JPX_COLORS_AT + 4 * k,
            k <= colors,
            k <= jpx_color_count(d@),
            threads@.len() == k,
            forall|j: int|
                0 <= j < k ==> {
                    let t = #[trigger] threads@[j];
                    let c = u32_at(d@, JPX_COLORS_AT + 4 * j) as u32;
                    t.color == jpx_color(c) && opt_view(t.description) == Some(
                        "JPX index "@ + decimal_digits(c as nat),
                    )
                },
        decreases colors - k,
    {
        let index = match reader.read_u32_le() {
            Ok(v) => v,
            Err(e) => return Err(e),
        };
        let color = 0x100000 * (index % 256);
        let t = EmbThread::new(color).with_description(with_decimal("JPX index ", index as u64).as_str());
        threads.push(t);
        k = k + 1;
    }
    assert(threads@.len() == jpx_color_count(d@));
    let ops = read_jpx_stitches(d, start as usize);
    Ok(JpxPattern { threads, ops })
}

} // verus!
