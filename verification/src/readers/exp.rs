//! Melco EXP: 2-byte stitch records of signed offsets; a first byte of 0x80
//! starts a 4-byte control record.

use vstd::prelude::*;
use crate::bytes::{signed8, byte_as_i8};
use crate::constants::{STITCH, JUMP, TRIM, END, COLOR_CHANGE};
use crate::error::Error;
use crate::ops::{PatternOp, Step, StepOut, rel, if_moved, step_done, after_prefix, lemma_after_prefix_twice, push_rel, push_if_moved};

verus! {

/// The most stitch records an EXP file may hold.
pub const EXP_MAX_STITCHES: usize = 1_000_000;

/// One EXP record at position `i` (at least two bytes remain): a stitch by
/// two signed bytes (y pointing the other way) unless the first byte is
/// 0x80; then the second byte is a control code and two more bytes give an
/// offset: 0x80 a trim, 0x02 a stitch, 0x04 a jump, 0x01 a colour change
/// followed by a jump when it moves; anything else, or a control record cut
/// short, ends the stitches.
pub open spec fn exp_record(d: Seq<u8>, i: int) -> Step {
    if d[i] != 0x80 {
        Step::Emit(seq![rel(signed8(d[i] as int), -signed8(d[i + 1] as int), STITCH)], i + 2)
    } else if i + 4 > d.len() {
        Step::Stop(d.len() as int)
    } else {
        let c = d[i + 1];
        let x = signed8(d[i + 2] as int);
        let y = -signed8(d[i + 3] as int);
        if c == 0x80 {
            Step::Emit(seq![rel(0, 0, TRIM)], i + 4)
        } else if c == 0x02 {
            Step::Emit(seq![rel(x, y, STITCH)], i + 4)
        } else if c == 0x04 {
            Step::Emit(seq![rel(x, y, JUMP)], i + 4)
        } else if c == 0x01 {
            Step::Emit(seq![rel(0, 0, COLOR_CHANGE)] + if_moved(x, y, JUMP), i + 4)
        } else {
            Step::Stop(i + 4)
        }
    }
}

/// The operations of the EXP records from position `i` on, after `k`
/// records; none when there are more than `EXP_MAX_STITCHES` records.
pub open spec fn exp_stitches(d: Seq<u8>, i: int, k: nat) -> Option<Seq<PatternOp>>
    decreases d.len() - i,
{
    if i < 0 || i + 2 > d.len() {
        Some(Seq::empty())
    } else if k + 1 > EXP_MAX_STITCHES {
        None
    } else {
        match exp_record(d, i) {
            Step::Emit(ops, next) => if i < next <= d.len() {
                match exp_stitches(d, next, k + 1) {
                    Some(rest) => Some(ops + rest),
                    None => None,
                }
            } else {
                None
            },
            _ => Some(Seq::empty()),
        }
    }
}

/// The records after position `i` put behind the given operations.
pub open spec fn exp_then(d: Seq<u8>, ops: Seq<PatternOp>, next: int, k: nat) -> Option<Seq<PatternOp>> {
    match exp_stitches(d, next, k + 1) {
        Some(rest) => Some(ops + rest),
        None => None,
    }
}

/// What an EXP record at `i` (within the record limit) does: a plain record
/// (first byte not 0x80) is one stitch by its two signed bytes, y pointing
/// the other way; a control record `0x80 c a b` is a trim when `c` is 0x80,
/// one stitch by `a`, `b` when `c` is 0x02, one jump by `a`, `b` when `c` is
/// 0x04, and a colour change followed by a jump (when it moves) when `c` is
/// 0x01; the records after it follow. Any other control code, or a control
/// record cut short, ends the stitches.
pub proof fn lemma_exp_record_meaning(d: Seq<u8>, i: int, k: nat)
    requires
        0 <= i,
        i + 2 <= d.len(),
        k + 1 <= EXP_MAX_STITCHES,
    ensures
        d[i] != 0x80 ==> exp_stitches(d, i, k) == exp_then(
            d,
            seq![rel(signed8(d[i] as int), -signed8(d[i + 1] as int), STITCH)],
            i + 2,
            k,
        ),
        d[i] == 0x80 && i + 4 > d.len() ==> exp_stitches(d, i, k) == Some(Seq::<PatternOp>::empty()),
        d[i] == 0x80 && i + 4 <= d.len() ==> ({
            let (c, a, b) = (d[i + 1], d[i + 2], d[i + 3]);
            let x = signed8(a as int);
            let y = -signed8(b as int);
            &&& c == 0x80 ==> exp_stitches(d, i, k) == exp_then(d, seq![rel(0, 0, TRIM)], i + 4, k)
            &&& c == 0x02 ==> exp_stitches(d, i, k) == exp_then(d, seq![rel(x, y, STITCH)], i + 4, k)
            &&& c == 0x04 ==> exp_stitches(d, i, k) == exp_then(d, seq![rel(x, y, JUMP)], i + 4, k)
            &&& c == 0x01 ==> exp_stitches(d, i, k) == exp_then(
                d,
                seq![rel(0, 0, COLOR_CHANGE)] + if x != 0 || y != 0 {
                    seq![rel(x, y, JUMP)]
                } else {
                    Seq::empty()
                },
                i + 4,
                k,
            )
            &&& (c != 0x80 && c != 0x02 && c != 0x04 && c != 0x01) ==> exp_stitches(d, i, k)
                == Some(Seq::<PatternOp>::empty())
        }),
{
    if d[i] == 0x80 && i + 4 <= d.len() && d[i + 1] == 0x01 {
        let x = signed8(d[i + 2] as int);
        let y = -signed8(d[i + 3] as int);
        assert(if_moved(x, y, JUMP) == if x != 0 || y != 0 {
            seq![rel(x, y, JUMP)]
        } else {
            Seq::<PatternOp>::empty()
        });
    }
}

/// The operations of the EXP records from position `start` on, ending with
/// an end command.
pub open spec fn exp_ops(d: Seq<u8>, start: int) -> Option<Seq<PatternOp>> {
    match exp_stitches(d, start, 0) {
        Some(ops) => Some(ops.push(rel(0, 0, END))),
        None => None,
    }
}

/// Decodes the record at position `i`.
fn exp_step(d: &[u8], i: usize, out: &mut Vec<PatternOp>) -> (r: StepOut)
    requires
        i + 2 <= d@.len(),
    ensures
        step_done(r, exp_record(d@, i as int), old(out)@, final(out)@),
{
    let n = d.len();
    let ghost before = out@;
    if d[i] != 0x80 {
        let x = byte_as_i8(d[i]) as i64;
        let y = -(byte_as_i8(d[i + 1]) as i64);
        push_rel(out, x, y, STITCH);
        assert(out@ =~= before + seq![rel(x as int, y as int, STITCH)]);
        return StepOut::Next(i + 2);
    }
    if n - i < 4 {
        return StepOut::Stop(n);
    }
    let c = d[i + 1];
    let x = byte_as_i8(d[i + 2]) as i64;
    let y = -(byte_as_i8(d[i + 3]) as i64);
    if c == 0x80 {
        push_rel(out, 0, 0, TRIM);
        assert(out@ =~= before + seq![rel(0, 0, TRIM)]);
    } else if c == 0x02 {
        push_rel(out, x, y, STITCH);
        assert(out@ =~= before + seq![rel(x as int, y as int, STITCH)]);
    } else if c == 0x04 {
        push_rel(out, x, y, JUMP);
        assert(out@ =~= before + seq![rel(x as int, y as int, JUMP)]);
    } else if c == 0x01 {
        push_rel(out, 0, 0, COLOR_CHANGE);
        push_if_moved(out, x, y, JUMP);
        assert(out@ =~= before + (seq![rel(0, 0, COLOR_CHANGE)] + if_moved(x as int, y as int, JUMP)));
    } else {
        return StepOut::Stop(i + 4);
    }
    StepOut::Next(i + 4)
}

/// Decodes an EXP file into its operations, ending with an end command.
pub fn read(d: &[u8]) -> (r: Result<Vec<PatternOp>, Error>)
    ensures
        match exp_ops(d@, 0) {
            None => r matches Err(Error::Parse(_)),
            Some(ops) => r matches Ok(v) && v@ == ops,
        },
{
    read_from(d, 0)
}

/// Decodes the EXP records from position `start` on, ending with an end
/// command.
pub fn read_from(d: &[u8], start: usize) -> (r: Result<Vec<PatternOp>, Error>)
    ensures
        match exp_ops(d@, start as int) {
            None => r matches Err(Error::Parse(_)),
            Some(ops) => r matches Ok(v) && v@ == ops,
        },
{
    let mut out: Vec<PatternOp> = Vec::new();
    let mut i: usize = start;
    let mut k: usize = 0;
    assert(out@ + Seq::<PatternOp>::empty() =~= out@);
    loop
        invariant
            k <= EXP_MAX_STITCHES,
            exp_stitches(d@, start as int, 0) == (match exp_stitches(d@, i as int, k as nat) {
                Some(rest) => Some(out@ + rest),
                None => None,
            }),
        decreases d@.len() - i,
    {
        if i > d.len() || d.len() - i < 2 {
            assert(out@ + Seq::<PatternOp>::empty() =~= out@);
            push_rel(&mut out, 0, 0, END);
            return Ok(out);
        }
        if k + 1 > EXP_MAX_STITCHES {
            return Err(Error::Parse("EXP file exceeds maximum stitch count of 1000000".to_owned()));
        }
        let ghost before = out@;
        match exp_step(d, i, &mut out) {
            StepOut::Next(next) => {
                let ghost ops = out@.subrange(before.len() as int, out@.len() as int);
                assert(out@ =~= before + ops);
                if next <= i || next > d.len() {
                    return Err(Error::Parse("Unexpected EOF in EXP stitch data".to_owned()));
                }
                proof {
                    if let Some(rest) = exp_stitches(d@, next as int, (k + 1) as nat) {
                        assert(before + (ops + rest) =~= out@ + rest);
                    }
                }
                i = next;
                k = k + 1;
            },
            _ => {
                assert(out@ + Seq::<PatternOp>::empty() =~= out@);
                push_rel(&mut out, 0, 0, END);
                return Ok(out);
            },
        }
    }
}

} // verus!
