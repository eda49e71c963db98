//! Barudan and Sunstar DAT: 3-byte stitch records. A Barudan record has the
//! high bit of its control byte set; a file whose records do not is read as
//! Sunstar, whose records start at offset 0x100.

use vstd::prelude::*;
use crate::bytes::signed8;
use crate::constants::{STITCH, JUMP, TRIM, STOP, END, COLOR_CHANGE, NEEDLE_SET, thread_change_value, encode_thread_change};
use crate::ops::{PatternOp, Step, StepOut, rel, cmd, if_moved, step_done, after_prefix, lemma_after_prefix_twice, run_steps, ops_then, push_if_moved, push_command, push_rel};
use crate::bytes::byte_as_i8;

verus! {

/// Where the records of a Sunstar DAT file start.
pub const SUNSTAR_DATA_START: usize = 0x100;

/// The x and y offsets of a Barudan record: signed bytes, y first and
/// pointing the other way, each negated by its sign bit in the control byte.
pub open spec fn barudan_offsets(ctrl: u8, b1: u8, b2: u8) -> (int, int) {
    let dy0 = -signed8(b1 as int);
    let dx0 = signed8(b2 as int);
    let dx = if ctrl & 0x20 != 0 {
        -dx0
    } else {
        dx0
    };
    let dy = if ctrl & 0x40 != 0 {
        -dy0
    } else {
        dy0
    };
    (dx, dy)
}

/// One Barudan record at position `i`: fails when the control byte lacks its
/// high bit (the data is not Barudan), stops at the end of the data, at the
/// end command (0x18) and at an unknown command.
pub open spec fn barudan_record(d: Seq<u8>, i: int) -> Step {
    if i < 0 || i + 3 > d.len() {
        Step::Stop(i)
    } else {
        let ctrl = d[i];
        let (x, y) = barudan_offsets(ctrl, d[i + 1], d[i + 2]);
        let c = ctrl & 0x1F;
        if ctrl & 0x80 == 0 {
            Step::Fail
        } else if c == 0 {
            Step::Emit(seq![rel(x, y, STITCH)], i + 3)
        } else if c == 1 {
            Step::Emit(seq![rel(x, y, JUMP)], i + 3)
        } else if c == 2 || c == 4 {
            Step::Emit(if_moved(x, y, STITCH), i + 3)
        } else if c == 3 || c == 5 {
            Step::Emit(if_moved(x, y, JUMP), i + 3)
        } else if c == 6 || c == 7 {
            Step::Emit(seq![cmd(TRIM)] + if_moved(x, y, JUMP), i + 3)
        } else if c == 8 {
            Step::Emit(seq![cmd(STOP)] + if_moved(x, y, JUMP), i + 3)
        } else if 9 <= c <= 0x17 {
            Step::Emit(
                seq![cmd(thread_change_value(NEEDLE_SET, None, Some((c - 8) as u8), None))]
                    + if_moved(x, y, JUMP),
                i + 3,
            )
        } else {
            Step::Stop(i + 3)
        }
    }
}

/// What a Barudan record `ctrl b1 b2` at `i` means, for a control byte with
/// its high bit set and command bits `ctrl & 0x1F`: 0 one stitch and 1 one
/// jump by the record's offsets; 6 and 7 start with a trim, 8 with a stop;
/// a control byte without its high bit means the data is not Barudan.
pub proof fn lemma_barudan_record_meaning(d: Seq<u8>, i: int)
    requires
        0 <= i,
        i + 3 <= d.len(),
    ensures
        ({
            let ctrl = d[i];
            let (x, y) = barudan_offsets(ctrl, d[i + 1], d[i + 2]);
            &&& ctrl & 0x80 == 0 ==> barudan_record(d, i) == Step::Fail
            &&& ctrl & 0x80 != 0 && ctrl & 0x1F == 0 ==> barudan_record(d, i) == Step::Emit(
                seq![rel(x, y, STITCH)],
                i + 3,
            )
            &&& ctrl & 0x80 != 0 && ctrl & 0x1F == 1 ==> barudan_record(d, i) == Step::Emit(
                seq![rel(x, y, JUMP)],
                i + 3,
            )
            &&& ctrl & 0x80 != 0 && (ctrl & 0x1F == 6 || ctrl & 0x1F == 7) ==> (barudan_record(d, i)
                matches Step::Emit(ops, next) && next == i + 3 && ops[0] == cmd(TRIM))
            &&& ctrl & 0x80 != 0 && ctrl & 0x1F == 8 ==> (barudan_record(d, i) matches Step::Emit(
                ops,
                next,
            ) && next == i + 3 && ops[0] == cmd(STOP))
        }),
{
}

/// The Barudan steps of `d`.
pub open spec fn barudan_steps(d: Seq<u8>) -> spec_fn(int) -> Step {
    |i: int| barudan_record(d, i)
}

/// The operations of `d` read as Barudan, ending with an end command; none
/// when it is not Barudan.
pub open spec fn barudan_ops(d: Seq<u8>) -> Option<Seq<PatternOp>> {
    ops_then(run_steps(barudan_steps(d), d.len() as int, 0), cmd(END))
}

/// The x and y offsets of a Sunstar record: 7-bit magnitudes with a sign bit,
/// y pointing the other way.
pub open spec fn sunstar_offsets(b0: u8, b1: u8) -> (int, int) {
    let x = if b0 & 0x80 != 0 {
        -((b0 & 0x7F) as int)
    } else {
        (b0 & 0x7F) as int
    };
    let y = if b1 & 0x80 != 0 {
        -((b1 & 0x7F) as int)
    } else {
        (b1 & 0x7F) as int
    };
    (x, -y)
}

/// One Sunstar record at position `i`: stops at the end of the data, at the
/// end control (0x00) and at an unknown control byte.
pub open spec fn sunstar_record(d: Seq<u8>, i: int) -> Step {
    if i < 0 || i + 3 > d.len() {
        Step::Stop(i)
    } else {
        let (x, y) = sunstar_offsets(d[i], d[i + 1]);
        let ctrl = d[i + 2];
        if ctrl == 0x07 || ctrl == 0x84 {
            Step::Emit(seq![rel(x, y, STITCH)], i + 3)
        } else if ctrl == 0x04 {
            Step::Emit(seq![rel(x, y, JUMP)], i + 3)
        } else if ctrl == 0x80 {
            Step::Emit(seq![cmd(TRIM)] + if_moved(x, y, JUMP), i + 3)
        } else if ctrl == 0x87 {
            Step::Emit(seq![cmd(COLOR_CHANGE)] + if_moved(x, y, JUMP), i + 3)
        } else {
            Step::Stop(i + 3)
        }
    }
}

/// What a Sunstar record `b0 b1 ctrl` at `i` means: control 0x07 or 0x84
/// one stitch and 0x04 one jump by the record's offsets; 0x80 starts with a
/// trim and 0x87 with a colour change.
pub proof fn lemma_sunstar_record_meaning(d: Seq<u8>, i: int)
    requires
        0 <= i,
        i + 3 <= d.len(),
    ensures
        ({
            let ctrl = d[i + 2];
            let (x, y) = sunstar_offsets(d[i], d[i + 1]);
            &&& (ctrl == 0x07 || ctrl == 0x84) ==> sunstar_record(d, i) == Step::Emit(
                seq![rel(x, y, STITCH)],
                i + 3,
            )
            &&& ctrl == 0x04 ==> sunstar_record(d, i) == Step::Emit(seq![rel(x, y, JUMP)], i + 3)
            &&& ctrl == 0x80 ==> (sunstar_record(d, i) matches Step::Emit(ops, next) && next == i + 3
                && ops[0] == cmd(TRIM))
            &&& ctrl == 0x87 ==> (sunstar_record(d, i) matches Step::Emit(ops, next) && next == i + 3
                && ops[0] == cmd(COLOR_CHANGE))
        }),
{
}

/// The Sunstar steps of `d`.
pub open spec fn sunstar_steps(d: Seq<u8>) -> spec_fn(int) -> Step {
    |i: int| sunstar_record(d, i)
}

/// The operations of `d` read as Sunstar, ending with an end command.
pub open spec fn sunstar_ops(d: Seq<u8>) -> Option<Seq<PatternOp>> {
    ops_then(run_steps(sunstar_steps(d), d.len() as int, SUNSTAR_DATA_START as int), cmd(END))
}

/// The operations of a DAT file: Barudan when it is Barudan, else Sunstar.
pub open spec fn dat_ops(d: Seq<u8>) -> Seq<PatternOp> {
    match barudan_ops(d) {
        Some(ops) => ops,
        None => sunstar_ops(d).unwrap(),
    }
}

/// Decodes the Barudan record at position `i`.
fn barudan_step(d: &[u8], i: usize, out: &mut Vec<PatternOp>) -> (r: StepOut)
    ensures
        step_done(r, barudan_record(d@, i as int), old(out)@, final(out)@),
{
    if i > d.len() || d.len() - i < 3 {
        return StepOut::Stop(i);
    }
    let ctrl = d[i];
    let dy0: i32 = -(byte_as_i8(d[i + 1]) as i32);
    let dx0: i32 = byte_as_i8(d[i + 2]) as i32;
    let x: i32 = if ctrl & 0x20 != 0 {
        -dx0
    } else {
        dx0
    };
    let y: i32 = if ctrl & 0x40 != 0 {
        -dy0
    } else {
        dy0
    };
    let c = ctrl & 0x1F;
    assert(ctrl & 0x1F <= 0x1F) by (bit_vector);
    if ctrl & 0x80 == 0 {
        return StepOut::Fail;
    }
    let ghost before = out@;
    if c == 0 {
        push_rel(out, x as i64, y as i64, STITCH);
        assert(out@ =~= before + seq![rel(x as int, y as int, STITCH)]);
    } else if c == 1 {
        push_rel(out, x as i64, y as i64, JUMP);
        assert(out@ =~= before + seq![rel(x as int, y as int, JUMP)]);
    } else if c == 2 || c == 4 {
        push_if_moved(out, x as i64, y as i64, STITCH);
    } else if c == 3 || c == 5 {
        push_if_moved(out, x as i64, y as i64, JUMP);
    } else if c == 6 || c == 7 {
        push_command(out, TRIM);
        push_if_moved(out, x as i64, y as i64, JUMP);
        assert(out@ =~= before + (seq![cmd(TRIM)] + if_moved(x as int, y as int, JUMP)));
    } else if c == 8 {
        push_command(out, STOP);
        push_if_moved(out, x as i64, y as i64, JUMP);
        assert(out@ =~= before + (seq![cmd(STOP)] + if_moved(x as int, y as int, JUMP)));
    } else if c <= 0x17 {
        let code = encode_thread_change(NEEDLE_SET, None, Some(c - 8), None);
        push_command(out, code);
        push_if_moved(out, x as i64, y as i64, JUMP);
        assert(out@ =~= before + (seq![cmd(code)] + if_moved(x as int, y as int, JUMP)));
    } else {
        return StepOut::Stop(i + 3);
    }
    StepOut::Next(i + 3)
}

/// Reads `d` as Barudan; none when it is not Barudan.
pub fn read_barudan_dat(d: &[u8]) -> (r: Option<Vec<PatternOp>>)
    ensures
        match barudan_ops(d@) {
            None => r is None,
            Some(ops) => r matches Some(v) && v@ == ops,
        },
{
    let ghost steps = barudan_steps(d@);
    let mut out: Vec<PatternOp> = Vec::new();
    let mut i: usize = 0;
    assert(out@ + Seq::<PatternOp>::empty() =~= out@);
    loop
        invariant
            steps == barudan_steps(d@),
            run_steps(steps, d@.len() as int, 0) == after_prefix(
                out@,
                run_steps(steps, d@.len() as int, i as int),
            ),
        decreases d@.len() - i,
    {
        let ghost before = out@;
        match barudan_step(d, i, &mut out) {
            StepOut::Fail => {
                return None;
            },
            StepOut::Stop(_) | StepOut::Last(_) => {
                assert(before + Seq::<PatternOp>::empty() =~= before);
                push_command(&mut out, END);
                return Some(out);
            },
            StepOut::Next(next) => {
                let ghost ops = out@.subrange(before.len() as int, out@.len() as int);
                assert(out@ =~= before + ops);
                proof {
                    lemma_after_prefix_twice(before, ops, run_steps(steps, d@.len() as int, next as int));
                }
                if next <= i || next > d.len() {
                    return None;
                }
                i = next;
            },
        }
    }
}

/// Decodes the Sunstar record at position `i`.
fn sunstar_step(d: &[u8], i: usize, out: &mut Vec<PatternOp>) -> (r: StepOut)
    ensures
        step_done(r, sunstar_record(d@, i as int), old(out)@, final(out)@),
{
    if i > d.len() || d.len() - i < 3 {
        return StepOut::Stop(i);
    }
    let b0 = d[i];
    let b1 = d[i + 1];
    assert(b0 & 0x7F <= 0x7F) by (bit_vector);
    assert(b1 & 0x7F <= 0x7F) by (bit_vector);
    let x: i32 = if b0 & 0x80 != 0 {
        -((b0 & 0x7F) as i32)
    } else {
        (b0 & 0x7F) as i32
    };
    let y0: i32 = if b1 & 0x80 != 0 {
        -((b1 & 0x7F) as i32)
    } else {
        (b1 & 0x7F) as i32
    };
    let y = -y0;
    let ctrl = d[i + 2];
    let ghost before = out@;
    if ctrl == 0x07 || ctrl == 0x84 {
        push_rel(out, x as i64, y as i64, STITCH);
        assert(out@ =~= before + seq![rel(x as int, y as int, STITCH)]);
    } else if ctrl == 0x04 {
        push_rel(out, x as i64, y as i64, JUMP);
        assert(out@ =~= before + seq![rel(x as int, y as int, JUMP)]);
    } else if ctrl == 0x80 {
        push_command(out, TRIM);
        push_if_moved(out, x as i64, y as i64, JUMP);
        assert(out@ =~= before + (seq![cmd(TRIM)] + if_moved(x as int, y as int, JUMP)));
    } else if ctrl == 0x87 {
        push_command(out, COLOR_CHANGE);
        push_if_moved(out, x as i64, y as i64, JUMP);
        assert(out@ =~= before + (seq![cmd(COLOR_CHANGE)] + if_moved(x as int, y as int, JUMP)));
    } else {
        return StepOut::Stop(i + 3);
    }
    StepOut::Next(i + 3)
}

/// Reading Sunstar records never fails.
proof fn lemma_sunstar_total(d: Seq<u8>, i: int)
    ensures
        run_steps(sunstar_steps(d), d.len() as int, i) is Some,
    decreases d.len() - i,
{
    if 0 <= i && i + 3 <= d.len() {
        lemma_sunstar_total(d, i + 3);
    }
}

/// Reads `d` as Sunstar.
pub fn read_sunstar_dat(d: &[u8]) -> (r: Vec<PatternOp>)
    ensures
        sunstar_ops(d@) == Some(r@),
{
    let ghost steps = sunstar_steps(d@);
    let mut out: Vec<PatternOp> = Vec::new();
    let mut i: usize = SUNSTAR_DATA_START;
    assert(out@ + Seq::<PatternOp>::empty() =~= out@);
    proof {
        lemma_sunstar_total(d@, i as int);
    }
    loop
        invariant
            steps == sunstar_steps(d@),
            run_steps(steps, d@.len() as int, SUNSTAR_DATA_START as int) == after_prefix(
                out@,
                run_steps(steps, d@.len() as int, i as int),
            ),
            run_steps(steps, d@.len() as int, i as int) is Some,
        decreases d@.len() - i,
    {
        let ghost before = out@;
        match sunstar_step(d, i, &mut out) {
            StepOut::Fail => {
                return out;
            },
            StepOut::Stop(_) | StepOut::Last(_) => {
                assert(before + Seq::<PatternOp>::empty() =~= before);
                push_command(&mut out, END);
                return out;
            },
            StepOut::Next(next) => {
                let ghost ops = out@.subrange(before.len() as int, out@.len() as int);
                assert(out@ =~= before + ops);
                proof {
                    lemma_after_prefix_twice(before, ops, run_steps(steps, d@.len() as int, next as int));
                }
                if next <= i || next > d.len() {
                    return out;
                }
                i = next;
            },
        }
    }
}

/// Reads a DAT file: as Barudan when its records are Barudan's, else as
/// Sunstar.
pub fn read(d: &[u8]) -> (r: Vec<PatternOp>)
    ensures
        r@ == dat_ops(d@),
{
    match read_barudan_dat(d) {
        Some(ops) => ops,
        None => read_sunstar_dat(d),
    }
}

} // verus!
