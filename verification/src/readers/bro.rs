//! Bits & Volts BRO: 2-byte stitch records from offset 0x100; a first byte
//! of 0x80 starts a control record (moves and needle changes with 16-bit
//! offsets).

use vstd::prelude::*;
use crate::bytes::{signed8, signed16, le16, byte_as_i8, u16_le, i16_of};
use crate::constants::{STITCH, JUMP, END, NEEDLE_SET, thread_change_value, encode_thread_change};
use crate::ops::{PatternOp, Step, StepOut, StepDecoder, rel, cmd, run_steps, ops_then, decoder_steps, decoder_ok, run_ok, run_is_ok, StepCheck, drive, push_command, push_rel};

verus! {

/// Where the stitch records of a BRO file start.
pub const BRO_DATA_START: usize = 0x100;

/// The signed 16-bit little-endian value at position `i`.
pub open spec fn i16_at(d: Seq<u8>, i: int) -> int {
    signed16(le16(d[i], d[i + 1]))
}

/// One BRO record at position `i`. A record whose first byte is not 0x80 is
/// a stitch by two signed bytes (y pointing the other way); otherwise its
/// control byte says: 0x00 nothing, 0x02 or 0xE0 the end, 0x7E or 0x03 a
/// move by two signed 16-bit offsets, 0xE1..0xEF a needle change followed by
/// such a move; anything else, or data that ends early, ends the stitches.
pub open spec fn bro_record(d: Seq<u8>, i: int) -> Step {
    let n = d.len() as int;
    if i < 0 || i + 2 > n {
        Step::Stop(i)
    } else if d[i] != 0x80 {
        Step::Emit(seq![rel(signed8(d[i] as int), -signed8(d[i + 1] as int), STITCH)], i + 2)
    } else if i + 3 > n {
        Step::Stop(i + 2)
    } else {
        let c = d[i + 2];
        if c == 0x00 {
            Step::Emit(Seq::empty(), i + 3)
        } else if c == 0x7E || c == 0x03 {
            if i + 7 > n {
                Step::Stop(i + 3)
            } else {
                Step::Emit(seq![rel(i16_at(d, i + 3), -i16_at(d, i + 5), JUMP)], i + 7)
            }
        } else if 0xE1 <= c <= 0xEF {
            let change = cmd(thread_change_value(NEEDLE_SET, None, Some((c - 0xE0) as u8), None));
            if i + 7 > n {
                Step::Last(seq![change], i + 3)
            } else {
                Step::Emit(seq![change, rel(i16_at(d, i + 3), -i16_at(d, i + 5), JUMP)], i + 7)
            }
        } else {
            Step::Stop(i + 3)
        }
    }
}

/// What a BRO record at `i` means: a first byte other than 0x80 is one
/// stitch by the two signed bytes (y pointing the other way); `0x80 0 0x7E`
/// or `0x80 0 0x03` followed by two 16-bit offsets is one jump by them (y
/// pointing the other way); `0x80 0 c` with `c` in 0xE1..0xEF starts with a
/// change to needle `c - 0xE0`.
pub proof fn lemma_bro_record_meaning(d: Seq<u8>, i: int)
    requires
        0 <= i,
        i + 2 <= d.len(),
    ensures
        d[i] != 0x80 ==> bro_record(d, i) == Step::Emit(
            seq![rel(signed8(d[i] as int), -signed8(d[i + 1] as int), STITCH)],
            i + 2,
        ),
        d[i] == 0x80 && i + 7 <= d.len() && (d[i + 2] == 0x7E || d[i + 2] == 0x03) ==> bro_record(
            d,
            i,
        ) == Step::Emit(seq![rel(i16_at(d, i + 3), -i16_at(d, i + 5), JUMP)], i + 7),
        d[i] == 0x80 && i + 3 <= d.len() && 0xE1 <= d[i + 2] <= 0xEF ==> (bro_record(d, i) matches Step::Emit(
            ops,
            _,
        ) && ops[0] == cmd(thread_change_value(NEEDLE_SET, None, Some((d[i + 2] - 0xE0) as u8), None)))
            || (bro_record(d, i) matches Step::Last(ops, _) && ops[0] == cmd(
            thread_change_value(NEEDLE_SET, None, Some((d[i + 2] - 0xE0) as u8), None),
        )),
{
}

/// Whether the record at position `i` negates the smallest 16-bit value,
/// which overflows.
pub open spec fn bro_record_overflows(d: Seq<u8>, i: int) -> bool {
    0 <= i && i + 7 <= d.len() && d[i] == 0x80 && (d[i + 2] == 0x7E || d[i + 2] == 0x03 || (0xE1
        <= d[i + 2] <= 0xEF)) && i16_at(d, i + 5) == -0x8000
}

/// The BRO steps of `d`.
pub open spec fn bro_steps(d: Seq<u8>) -> spec_fn(int) -> Step {
    |i: int| bro_record(d, i)
}

/// The operations of a BRO file, ending with an end command.
pub open spec fn bro_ops(d: Seq<u8>) -> Seq<PatternOp> {
    ops_then(run_steps(bro_steps(d), d.len() as int, BRO_DATA_START as int), cmd(END)).unwrap()
}

/// The records of a BRO file.
pub struct BroRecords<'a> {
    /// The bytes of the file
    pub data: &'a [u8],
}

impl<'a> StepDecoder for BroRecords<'a> {
    open spec fn step_spec(&self, i: int) -> Step {
        bro_record(self.data@, i)
    }

    open spec fn step_ok(&self, i: int) -> bool {
        !bro_record_overflows(self.data@, i)
    }

    fn step(&self, i: usize, out: &mut Vec<PatternOp>) -> (r: StepOut) {
        let d = self.data;
        let n = d.len();
        if i > n || n - i < 2 {
            return StepOut::Stop(i);
        }
        let ghost before = out@;
        if d[i] != 0x80 {
            let x = byte_as_i8(d[i]) as i32;
            let y = -(byte_as_i8(d[i + 1]) as i32);
            push_rel(out, x as i64, y as i64, STITCH);
            assert(out@ =~= before + seq![rel(x as int, y as int, STITCH)]);
            return StepOut::Next(i + 2);
        }
        if n - i < 3 {
            return StepOut::Stop(i + 2);
        }
        let c = d[i + 2];
        if c == 0x00 {
            assert(out@ =~= before + Seq::<PatternOp>::empty());
            return StepOut::Next(i + 3);
        }
        if c == 0x7E || c == 0x03 {
            if n - i < 7 {
                return StepOut::Stop(i + 3);
            }
            let x = i16_of(u16_le(d[i + 3], d[i + 4]));
            let y = i16_of(u16_le(d[i + 5], d[i + 6]));
            push_rel(out, x as i64, -y as i64, JUMP);
            assert(out@ =~= before + seq![rel(x as int, -y, JUMP)]);
            return StepOut::Next(i + 7);
        }
        if 0xE1 <= c && c <= 0xEF {
            let code = encode_thread_change(NEEDLE_SET, None, Some(c - 0xE0), None);
            push_command(out, code);
            if n - i < 7 {
                assert(out@ =~= before + seq![cmd(code)]);
                return StepOut::Last(i + 3);
            }
            let x = i16_of(u16_le(d[i + 3], d[i + 4]));
            let y = i16_of(u16_le(d[i + 5], d[i + 6]));
            push_rel(out, x as i64, -y as i64, JUMP);
            assert(out@ =~= before + seq![cmd(code), rel(x as int, -y, JUMP)]);
            return StepOut::Next(i + 7);
        }
        StepOut::Stop(i + 3)
    }
}

/// The BRO records of `d` that can be read without overflow.
pub open spec fn bro_ok(d: Seq<u8>) -> spec_fn(int) -> bool {
    |i: int| !bro_record_overflows(d, i)
}

/// Whether reading the BRO file `d` comes to a move whose y offset is the
/// smallest 16-bit value, whose negation overflows.
pub open spec fn bro_overflows(d: Seq<u8>) -> bool {
    !run_ok(bro_steps(d), bro_ok(d), d.len() as int, BRO_DATA_START as int)
}

impl<'a> StepCheck for BroRecords<'a> {
    fn step_allowed(&self, i: usize) -> (b: bool) {
        let d = self.data;
        let n = d.len();
        if i > n || n - i < 7 || d[i] != 0x80 {
            return true;
        }
        let c = d[i + 2];
        if !(c == 0x7E || c == 0x03 || (0xE1 <= c && c <= 0xEF)) {
            return true;
        }
        i16_of(u16_le(d[i + 5], d[i + 6])) != i16::MIN
    }
}

/// Whether a BRO file can be read without overflow, as `bro_overflows` says.
pub fn is_bro_readable(d: &[u8]) -> (b: bool)
    ensures
        b == !bro_overflows(d@),
{
    let dec = BroRecords { data: d };
    assert(decoder_steps(dec) =~= bro_steps(d@));
    assert(decoder_ok(dec) =~= bro_ok(d@));
    run_is_ok(&dec, d.len(), BRO_DATA_START)
}

/// Decodes a BRO file into its operations, ending with an end command.
pub fn read(d: &[u8]) -> (r: Vec<PatternOp>)
    requires
        !bro_overflows(d@),
    ensures
        r@ == bro_ops(d@),
{
    let dec = BroRecords { data: d };
    assert(decoder_steps(dec) =~= bro_steps(d@));
    assert(decoder_ok(dec) =~= bro_ok(d@));
    proof {
        lemma_bro_total(d@, BRO_DATA_START as int);
    }
    match drive(&dec, d.len(), BRO_DATA_START) {
        Some((mut ops, _)) => {
            push_command(&mut ops, END);
            ops
        },
        None => {
            let mut ops: Vec<PatternOp> = Vec::new();
            push_command(&mut ops, END);
            ops
        },
    }
}

/// Reading BRO records never fails.
proof fn lemma_bro_total(d: Seq<u8>, i: int)
    ensures
        run_steps(bro_steps(d), d.len() as int, i) is Some,
    decreases d.len() - i,
{
    match bro_record(d, i) {
        Step::Emit(_, next) => {
            if i < next <= d.len() {
                lemma_bro_total(d, next);
            }
        },
        _ => {},
    }
}

} // verus!
