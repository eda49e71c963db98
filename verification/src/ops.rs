//! What the format decoders produce: the stitch operations of a pattern in
//! the order in which they are added to it, with whole-number coordinates in
//! the units of the file.

use vstd::prelude::*;

verus! {

/// One operation on a pattern being built.
#[derive(Debug, Clone, Copy, PartialEq, Eq, Structural)]
pub enum PatternOp {
    /// A stitch command at an offset from the previous needle position, which
    /// becomes the new needle position
    Relative { dx: i64, dy: i64, command: u32 },
    /// A stitch command at an absolute position, which becomes the new needle
    /// position
    Absolute { x: i64, y: i64, command: u32 },
    /// A command recorded at a position without moving the needle position
    Command { x: i64, y: i64, command: u32 },
}

/// A relative operation.
pub open spec fn rel(dx: int, dy: int, command: u32) -> PatternOp {
    PatternOp::Relative { dx: dx as i64, dy: dy as i64, command }
}

/// An absolute operation.
pub open spec fn abs(x: int, y: int, command: u32) -> PatternOp {
    PatternOp::Absolute { x: x as i64, y: y as i64, command }
}

/// A command that leaves the needle where it is, recorded at the origin.
pub open spec fn cmd(command: u32) -> PatternOp {
    PatternOp::Command { x: 0, y: 0, command }
}

/// What one step of a decoder does at a position.
pub enum Step {
    /// The data is broken: decoding fails
    Fail,
    /// Decoding ends normally, the reader left at the given position
    Stop(int),
    /// The step adds these operations and decoding goes on at the position
    Emit(Seq<PatternOp>, int),
    /// The step adds these operations and decoding ends, the reader left at
    /// the position
    Last(Seq<PatternOp>, int),
}

/// What an executable decoder step reports.
#[derive(Debug, Clone, Copy, PartialEq, Eq, Structural)]
pub enum StepOut {
    /// The data is broken
    Fail,
    /// Decoding ends, the reader left at this position
    Stop(usize),
    /// Decoding goes on at this position
    Next(usize),
    /// Decoding ends after this step, the reader left at this position
    Last(usize),
}

/// Whether an executable step `r`, which took the operations from `before`
/// to `after`, did what the step `s` says.
pub open spec fn step_done(r: StepOut, s: Step, before: Seq<PatternOp>, after: Seq<PatternOp>) -> bool {
    match s {
        Step::Fail => r == StepOut::Fail,
        Step::Stop(e) => r == StepOut::Stop(e as usize) && after == before && 0 <= e <= usize::MAX,
        Step::Emit(ops, next) => r == StepOut::Next(next as usize) && after == before + ops && 0
            <= next <= usize::MAX,
        Step::Last(ops, e) => r == StepOut::Last(e as usize) && after == before + ops && 0 <= e
            <= usize::MAX,
    }
}

/// A decoding result with `pre` put in front of its operations.
pub open spec fn after_prefix(pre: Seq<PatternOp>, r: Option<(Seq<PatternOp>, int)>) -> Option<
    (Seq<PatternOp>, int),
> {
    match r {
        None => None,
        Some((rest, e)) => Some((pre + rest, e)),
    }
}

/// Putting two runs of operations in front, one after the other, is putting
/// them in front together.
pub proof fn lemma_after_prefix_twice(
    a: Seq<PatternOp>,
    b: Seq<PatternOp>,
    r: Option<(Seq<PatternOp>, int)>,
)
    ensures
        after_prefix(a, after_prefix(b, r)) == after_prefix(a + b, r),
{
    match r {
        None => {},
        Some((rest, e)) => {
            assert(a + (b + rest) =~= (a + b) + rest);
        },
    }
}

/// A relative operation that is only there when it moves: `(x, y)` not zero.
pub open spec fn if_moved(x: int, y: int, command: u32) -> Seq<PatternOp> {
    if x != 0 || y != 0 {
        seq![rel(x, y, command)]
    } else {
        Seq::empty()
    }
}

/// Pushes a relative operation when it moves.
pub fn push_if_moved(out: &mut Vec<PatternOp>, x: i64, y: i64, command: u32)
    ensures
        final(out)@ == old(out)@ + if_moved(x as int, y as int, command),
{
    if x != 0 || y != 0 {
        out.push(PatternOp::Relative { dx: x, dy: y, command });
    }
    assert(final(out)@ =~= old(out)@ + if_moved(x as int, y as int, command));
}

/// Pushes a command that leaves the needle where it is.
pub fn push_command(out: &mut Vec<PatternOp>, command: u32)
    ensures
        final(out)@ == old(out)@.push(cmd(command)),
{
    out.push(PatternOp::Command { x: 0, y: 0, command });
}

/// Pushes a relative operation.
pub fn push_rel(out: &mut Vec<PatternOp>, x: i64, y: i64, command: u32)
    ensures
        final(out)@ == old(out)@.push(rel(x as int, y as int, command)),
{
    out.push(PatternOp::Relative { dx: x, dy: y, command });
}

/// The operations that a decoder produces by taking steps from position `i`
/// until a step stops or fails, with the position where it stopped; none
/// when a step fails. Each step that goes on moves forward, at most to `len`.
pub open spec fn run_steps(step: spec_fn(int) -> Step, len: int, i: int) -> Option<
    (Seq<PatternOp>, int),
>
    decreases len - i,
{
    match step(i) {
        Step::Fail => None,
        Step::Stop(e) => Some((Seq::empty(), e)),
        Step::Last(ops, e) => Some((ops, e)),
        Step::Emit(ops, next) => if i < next <= len {
            after_prefix(ops, run_steps(step, len, next))
        } else {
            None
        },
    }
}

/// The operations of a run, with a final operation added.
pub open spec fn ops_then(r: Option<(Seq<PatternOp>, int)>, last: PatternOp) -> Option<Seq<PatternOp>> {
    match r {
        Some((ops, _)) => Some(ops.push(last)),
        None => None,
    }
}

/// A decoder that reads its data one step at a time.
pub trait StepDecoder {
    /// What the step at position `i` does.
    spec fn step_spec(&self, i: int) -> Step;

    /// Whether the step at position `i` can be taken without a panic of the
    /// arithmetic that the format prescribes.
    spec fn step_ok(&self, i: int) -> bool;

    /// Takes the step at position `i`, pushing its operations.
    fn step(&self, i: usize, out: &mut Vec<PatternOp>) -> (r: StepOut)
        requires
            self.step_ok(i as int),
        ensures
            step_done(r, self.step_spec(i as int), old(out)@, final(out)@),
    ;
}

/// The steps of a decoder.
pub open spec fn decoder_steps<D: StepDecoder>(dec: D) -> spec_fn(int) -> Step {
    |i: int| dec.step_spec(i)
}

/// Which steps of a decoder can be taken.
pub open spec fn decoder_ok<D: StepDecoder>(dec: D) -> spec_fn(int) -> bool {
    |i: int| dec.step_ok(i)
}

/// Whether every step that a run from `i` takes can be taken.
pub open spec fn run_ok(step: spec_fn(int) -> Step, ok: spec_fn(int) -> bool, len: int, i: int) -> bool
    decreases len - i,
{
    ok(i) && match step(i) {
        Step::Emit(_, next) => (i < next <= len) ==> run_ok(step, ok, len, next),
        _ => true,
    }
}

/// Runs a decoder from position `start` to its end: the operations and the
/// position where it stopped, or none when a step fails.
pub fn drive<D: StepDecoder>(dec: &D, len: usize, start: usize) -> (r: Option<(Vec<PatternOp>, usize)>)
    requires
        run_ok(decoder_steps(*dec), decoder_ok(*dec), len as int, start as int),
    ensures
        match run_steps(decoder_steps(*dec), len as int, start as int) {
            None => r is None,
            Some((ops, e)) => r matches Some((v, p)) && v@ == ops && p == e,
        },
{
    let ghost steps = decoder_steps(*dec);
    let mut out: Vec<PatternOp> = Vec::new();
    let mut i: usize = start;
    assert(out@ + Seq::<PatternOp>::empty() =~= out@);
    loop
        invariant
            steps == decoder_steps(*dec),
            run_ok(steps, decoder_ok(*dec), len as int, i as int),
            run_steps(steps, len as int, start as int) == after_prefix(
                out@,
                run_steps(steps, len as int, i as int),
            ),
        decreases len - i,
    {
        let ghost before = out@;
        match dec.step(i, &mut out) {
            StepOut::Fail => {
                return None;
            },
            StepOut::Stop(e) => {
                assert(before + Seq::<PatternOp>::empty() =~= before);
                return Some((out, e));
            },
            StepOut::Last(e) => {
                return Some((out, e));
            },
            StepOut::Next(next) => {
                let ghost ops = out@.subrange(before.len() as int, out@.len() as int);
                assert(out@ =~= before + ops);
                proof {
                    lemma_after_prefix_twice(before, ops, run_steps(steps, len as int, next as int));
                }
                if next <= i || next > len {
                    return None;
                }
                i = next;
            },
        }
    }
}

/// A step decoder that can tell beforehand whether a step can be taken.
pub trait StepCheck: StepDecoder {
    /// Whether the step at position `i` can be taken.
    fn step_allowed(&self, i: usize) -> (b: bool)
        ensures
            b == self.step_ok(i as int),
    ;
}

/// Whether a run of a decoder from position `start` takes only steps that
/// can be taken.
pub fn run_is_ok<D: StepCheck>(dec: &D, len: usize, start: usize) -> (b: bool)
    ensures
        b == run_ok(decoder_steps(*dec), decoder_ok(*dec), len as int, start as int),
{
    let ghost steps = decoder_steps(*dec);
    let ghost ok = decoder_ok(*dec);
    let mut i: usize = start;
    loop
        invariant
            steps == decoder_steps(*dec),
            ok == decoder_ok(*dec),
            run_ok(steps, ok, len as int, start as int) == run_ok(steps, ok, len as int, i as int),
        decreases len - i,
    {
        if !dec.step_allowed(i) {
            return false;
        }
        let mut scratch: Vec<PatternOp> = Vec::new();
        match dec.step(i, &mut scratch) {
            StepOut::Next(next) => {
                if next <= i || next > len {
                    return true;
                }
                i = next;
            },
            _ => {
                return true;
            },
        }
    }
}

} // verus!
