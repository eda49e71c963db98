//! Brother PEC: the stitch block, with 7-bit and 12-bit signed offsets and
//! jump/trim flags, and the mapping of the colour bytes to threads.

use vstd::prelude::*;
use crate::constants::{STITCH, JUMP, TRIM, COLOR_CHANGE};
use crate::error::Error;
use crate::ops::{PatternOp, Step, StepOut, rel, step_done, after_prefix, lemma_after_prefix_twice};
use crate::bytes::ByteReader;
use crate::text::{trim, trim_chars, str_chars, string_from_chars, utf8_to_string, decimal_digits, with_decimal, decimal, concat};
use vstd::utf8::{valid_utf8, decode_utf8};

verus! {

/// The most stitch records a PEC stitch block may hold.
pub const PEC_MAX_STITCHES: usize = 1_000_000;

/// The value of the low 12 bits of `b` as a two's complement number.
pub open spec fn signed12_value(b: u16) -> int {
    let v = (b & 0xFFF) as int;
    if v > 0x7FF {
        v - 0x1000
    } else {
        v
    }
}

/// The value of a 7-bit two's complement byte.
pub open spec fn signed7_value(b: u8) -> int {
    if b > 63 {
        b - 128
    } else {
        b as int
    }
}

/// Converts the low 12 bits of `b` to a signed value.
pub fn signed12(b: u16) -> (v: i32)
    ensures
        v == signed12_value(b),
        -2048 <= v <= 2047,
{
    let low = b & 0xFFF;
    assert(b & 0xFFF <= 0xFFF) by (bit_vector);
    if low > 0x7FF {
        (low as i32) - 0x1000
    } else {
        low as i32
    }
}

/// Converts a 7-bit byte to a signed value.
pub fn signed7(b: u8) -> (v: i32)
    ensures
        v == signed7_value(b),
{
    if b > 63 {
        (b as i32) - 128
    } else {
        b as i32
    }
}

/// The 12-bit offset that a flagged byte and the byte after it hold.
pub open spec fn long_offset(hi: u8, lo: u8) -> int {
    signed12_value((((hi as u16) << 8u16) | (lo as u16)) as u16)
}

/// The operations of a stitch record with offset `(x, y)`: a jump, a stitch
/// followed by a trim, or a plain stitch.
pub open spec fn pec_record_ops(x: int, y: int, jump: bool, trim: bool) -> Seq<PatternOp> {
    if jump {
        seq![rel(x, y, JUMP)]
    } else if trim {
        seq![rel(x, y, STITCH), rel(0, 0, TRIM)]
    } else {
        seq![rel(x, y, STITCH)]
    }
}

/// Whether a byte carries the long-form flag (0x80).
pub open spec fn is_long(b: u8) -> bool {
    b & 0x80 != 0
}

/// Whether a byte carries the jump flag (0x10).
pub open spec fn has_jump(b: u8) -> bool {
    b & 0x10 != 0
}

/// Whether a byte carries the trim flag (0x20).
pub open spec fn has_trim(b: u8) -> bool {
    b & 0x20 != 0
}

/// One record of a PEC stitch block at position `i`: `00` as second byte
/// ends the block, `FE B0 xx` is a colour change, otherwise a flagged first
/// byte starts a 12-bit x offset (else a 7-bit one), followed likewise by
/// the y offset; a record cut short by the end of the data ends the block,
/// except that the first byte, and the byte after `FE B0`, must be there.
pub open spec fn pec_record(d: Seq<u8>, i: int) -> Step {
    let n = d.len() as int;
    if i < 0 || i >= n {
        Step::Fail
    } else if i + 1 >= n {
        Step::Stop(n)
    } else {
        let v1 = d[i];
        let v2 = d[i + 1];
        if v2 == 0 {
            Step::Stop(i + 2)
        } else if v1 == 0xFE && v2 == 0xB0 {
            if i + 2 >= n {
                Step::Fail
            } else {
                Step::Emit(seq![rel(0, 0, COLOR_CHANGE)], i + 3)
            }
        } else if is_long(v1) {
            let x = long_offset(v1, v2);
            if i + 2 >= n {
                Step::Stop(n)
            } else {
                let w = d[i + 2];
                if is_long(w) {
                    if i + 3 >= n {
                        Step::Stop(n)
                    } else {
                        Step::Emit(
                            pec_record_ops(
                                x,
                                long_offset(w, d[i + 3]),
                                has_jump(v1) || has_jump(w),
                                has_trim(v1) || has_trim(w),
                            ),
                            i + 4,
                        )
                    }
                } else {
                    Step::Emit(
                        pec_record_ops(x, signed7_value(w), has_jump(v1), has_trim(v1)),
                        i + 3,
                    )
                }
            }
        } else {
            let x = signed7_value(v1);
            if is_long(v2) {
                if i + 2 >= n {
                    Step::Stop(n)
                } else {
                    Step::Emit(
                        pec_record_ops(x, long_offset(v2, d[i + 2]), has_jump(v2), has_trim(v2)),
                        i + 3,
                    )
                }
            } else {
                Step::Emit(pec_record_ops(x, signed7_value(v2), false, false), i + 2)
            }
        }
    }
}

/// What a PEC stitch record at `i` means: a zero second byte ends the
/// block; `FE B0 xx` is one colour change; two short bytes (high bit clear)
/// are one stitch by their 7-bit values; a long x (high bit set, 12 bits)
/// with a long y is one jump when either flag byte has bit 0x10, else a
/// stitch followed by a trim when either has bit 0x20, else one stitch.
pub proof fn lemma_pec_record_meaning(d: Seq<u8>, i: int)
    requires
        0 <= i,
        i + 4 <= d.len(),
    ensures
        ({
            let (v1, v2, w) = (d[i], d[i + 1], d[i + 2]);
            &&& v2 == 0 ==> pec_record(d, i) == Step::Stop(i + 2)
            &&& v1 == 0xFE && v2 == 0xB0 ==> pec_record(d, i) == Step::Emit(
                seq![rel(0, 0, COLOR_CHANGE)],
                i + 3,
            )
            &&& v2 != 0 && v1 < 0x80 && v2 < 0x80 ==> pec_record(d, i) == Step::Emit(
                seq![rel(signed7_value(v1), signed7_value(v2), STITCH)],
                i + 2,
            )
            &&& v2 != 0 && v1 >= 0x80 && w >= 0x80 && !(v1 == 0xFE && v2 == 0xB0) ==> ({
                let x = long_offset(v1, v2);
                let y = long_offset(w, d[i + 3]);
                let ops = if v1 & 0x10 != 0 || w & 0x10 != 0 {
                    seq![rel(x, y, JUMP)]
                } else if v1 & 0x20 != 0 || w & 0x20 != 0 {
                    seq![rel(x, y, STITCH), rel(0, 0, TRIM)]
                } else {
                    seq![rel(x, y, STITCH)]
                };
                pec_record(d, i) == Step::Emit(ops, i + 4)
            })
        }),
{
    let (v1, v2, w) = (d[i], d[i + 1], d[i + 2]);
    assert(v1 < 0x80 ==> v1 & 0x80 == 0) by (bit_vector);
    assert(v2 < 0x80 ==> v2 & 0x80 == 0) by (bit_vector);
    assert(v1 >= 0x80 ==> v1 & 0x80 != 0) by (bit_vector);
    assert(w >= 0x80 ==> w & 0x80 != 0) by (bit_vector);
}

/// The operations of the PEC stitch block from position `i` on, after `k`
/// records, with the position where the block ends; none when the data is
/// broken or holds more than `PEC_MAX_STITCHES` records.
pub open spec fn pec_stitches(d: Seq<u8>, i: int, k: nat) -> Option<(Seq<PatternOp>, int)>
    decreases d.len() - i,
{
    if k + 1 > PEC_MAX_STITCHES {
        None
    } else {
        match pec_record(d, i) {
            Step::Fail => None,
            Step::Stop(e) => Some((Seq::empty(), e)),
            Step::Last(ops, e) => Some((ops, e)),
            Step::Emit(ops, next) => if i < next <= d.len() {
                after_prefix(ops, pec_stitches(d, next, k + 1))
            } else {
                None
            },
        }
    }
}

/// Pushes the operations of a stitch record.
fn push_record(out: &mut Vec<PatternOp>, x: i32, y: i32, jump: bool, trim: bool)
    ensures
        final(out)@ == old(out)@ + pec_record_ops(x as int, y as int, jump, trim),
{
    if jump {
        out.push(PatternOp::Relative { dx: x as i64, dy: y as i64, command: JUMP });
    } else if trim {
        out.push(PatternOp::Relative { dx: x as i64, dy: y as i64, command: STITCH });
        out.push(PatternOp::Relative { dx: 0, dy: 0, command: TRIM });
    } else {
        out.push(PatternOp::Relative { dx: x as i64, dy: y as i64, command: STITCH });
    }
    assert(final(out)@ =~= old(out)@ + pec_record_ops(x as int, y as int, jump, trim));
}

/// The 12-bit offset of two bytes.
fn long_value(hi: u8, lo: u8) -> (v: i32)
    ensures
        v == long_offset(hi, lo),
        -2048 <= v <= 2047,
{
    signed12((((hi as u16) << 8u16) | (lo as u16)) as u16)
}

/// Decodes the record at position `i`.
fn pec_record_step(d: &[u8], i: usize, out: &mut Vec<PatternOp>) -> (r: StepOut)
    ensures
        step_done(r, pec_record(d@, i as int), old(out)@, final(out)@),
{
    let n = d.len();
    if i >= n {
        return StepOut::Fail;
    }
    if i + 1 >= n {
        return StepOut::Stop(n);
    }
    let v1 = d[i];
    let v2 = d[i + 1];
    if v2 == 0 {
        return StepOut::Stop(i + 2);
    }
    if v1 == 0xFE && v2 == 0xB0 {
        if i + 2 >= n {
            return StepOut::Fail;
        }
        out.push(PatternOp::Relative { dx: 0, dy: 0, command: COLOR_CHANGE });
        assert(final(out)@ =~= old(out)@ + seq![rel(0, 0, COLOR_CHANGE)]);
        return StepOut::Next(i + 3);
    }
    if v1 & 0x80 != 0 {
        let x = long_value(v1, v2);
        if i + 2 >= n {
            return StepOut::Stop(n);
        }
        let w = d[i + 2];
        if w & 0x80 != 0 {
            if i + 3 >= n {
                return StepOut::Stop(n);
            }
            let y = long_value(w, d[i + 3]);
            push_record(
                out,
                x,
                y,
                v1 & 0x10 != 0 || w & 0x10 != 0,
                v1 & 0x20 != 0 || w & 0x20 != 0,
            );
            StepOut::Next(i + 4)
        } else {
            let y = signed7(w);
            push_record(out, x, y, v1 & 0x10 != 0, v1 & 0x20 != 0);
            StepOut::Next(i + 3)
        }
    } else {
        let x = signed7(v1);
        if v2 & 0x80 != 0 {
            if i + 2 >= n {
                return StepOut::Stop(n);
            }
            let y = long_value(v2, d[i + 2]);
            push_record(out, x, y, v2 & 0x10 != 0, v2 & 0x20 != 0);
            StepOut::Next(i + 3)
        } else {
            let y = signed7(v2);
            push_record(out, x, y, false, false);
            StepOut::Next(i + 2)
        }
    }
}

/// Decodes the PEC stitch block that starts at position `start`: the
/// operations and the position where the block ends.
pub fn read_pec_stitches(d: &[u8], start: usize) -> (r: Result<(Vec<PatternOp>, usize), Error>)
    ensures
        match pec_stitches(d@, start as int, 0) {
            None => r matches Err(Error::Parse(_)),
            Some((ops, e)) => r matches Ok((v, p)) && v@ == ops && p == e,
        },
{
    let mut out: Vec<PatternOp> = Vec::new();
    let mut i: usize = start;
    let mut k: usize = 0;
    assert(out@ + Seq::<PatternOp>::empty() =~= out@);
    loop
        invariant
            k <= PEC_MAX_STITCHES,
            pec_stitches(d@, start as int, 0) == after_prefix(
                out@,
                pec_stitches(d@, i as int, k as nat),
            ),
        decreases d@.len() - i,
    {
        if k + 1 > PEC_MAX_STITCHES {
            return Err(Error::Parse("PEC file exceeds maximum stitch count of 1000000".to_owned()));
        }
        let ghost before = out@;
        let step = pec_record_step(d, i, &mut out);
        match step {
            StepOut::Fail => {
                return Err(Error::Parse("Unexpected EOF in PEC stitch data".to_owned()));
            },
            StepOut::Stop(e) => {
                assert(before + Seq::<PatternOp>::empty() =~= before);
                return Ok((out, e));
            },
            StepOut::Last(e) => {
                return Ok((out, e));
            },
            StepOut::Next(next) => {
                let ghost ops = out@.subrange(before.len() as int, out@.len() as int);
                assert(out@ =~= before + ops);
                proof {
                    lemma_after_prefix_twice(before, ops, pec_stitches(d@, next as int, (k + 1) as nat));
                }
                if next <= i || next > d.len() {
                    return Err(Error::Parse("Unexpected EOF in PEC stitch data".to_owned()));
                }
                i = next;
                k = k + 1;
            },
        }
    }
}

/// The number of threads in the PEC palette.
pub const PEC_PALETTE_SIZE: usize = 64;

/// Where a PEC colour's thread comes from.
#[derive(Debug, Clone, Copy, PartialEq, Eq, Structural)]
pub enum ThreadSource {
    /// The thread at this position of the PEC palette
    Palette(usize),
    /// The thread at this position of the PES thread chart
    Chart(usize),
}

/// The threads of the colour bytes taken straight from the PEC palette.
pub open spec fn palette_sources(bytes: Seq<u8>) -> Seq<ThreadSource> {
    Seq::new(bytes.len(), |k: int| ThreadSource::Palette((bytes[k] as int % 64) as usize))
}

/// A table with no palette position assigned yet.
pub open spec fn empty_table() -> Seq<Option<ThreadSource>> {
    Seq::new(64, |i: int| None::<ThreadSource>)
}

/// The threads of colour bytes when the chart has fewer threads than there
/// are colours: each palette position gets a thread the first time it
/// appears (the next chart thread while there is one, else the palette's),
/// and keeps it; with the table and the number of chart threads used.
pub open spec fn pec_table(bytes: Seq<u8>, chart_len: nat) -> (Seq<ThreadSource>, Seq<
    Option<ThreadSource>,
>, nat)
    decreases bytes.len(),
{
    if bytes.len() == 0 {
        (Seq::empty(), empty_table(), 0)
    } else {
        let (out, table, used) = pec_table(bytes.drop_last(), chart_len);
        let idx = bytes.last() as int % 64;
        match table[idx] {
            Some(t) => (out.push(t), table, used),
            None => {
                let t = if used < chart_len {
                    ThreadSource::Chart(used as usize)
                } else {
                    ThreadSource::Palette(idx as usize)
                };
                (out.push(t), table.update(idx, Some(t)), if used < chart_len {
                    used + 1
                } else {
                    used
                })
            },
        }
    }
}

/// The threads of PEC colour bytes, given the number of threads of a PES
/// chart (none for a standalone PEC file), with the number of chart threads
/// used: straight from the palette without a chart or with an empty one; one
/// chart thread per colour when the chart has enough; else by the table.
pub open spec fn pec_sources(bytes: Seq<u8>, chart_len: Option<usize>) -> (Seq<ThreadSource>, nat) {
    match chart_len {
        None => (palette_sources(bytes), 0),
        Some(n) => if n == 0 {
            (palette_sources(bytes), 0)
        } else if n >= bytes.len() {
            (Seq::new(bytes.len(), |k: int| ThreadSource::Chart(k as usize)), bytes.len())
        } else {
            let (out, _, used) = pec_table(bytes, n as nat);
            (out, used)
        },
    }
}

/// The pec table keeps its shape: 64 positions, never more chart threads
/// than the chart holds.
proof fn lemma_pec_table_shape(bytes: Seq<u8>, chart_len: nat)
    ensures
        pec_table(bytes, chart_len).1.len() == 64,
        pec_table(bytes, chart_len).2 <= chart_len,
        pec_table(bytes, chart_len).0.len() == bytes.len(),
    decreases bytes.len(),
{
    if bytes.len() > 0 {
        lemma_pec_table_shape(bytes.drop_last(), chart_len);
    }
}

/// Maps PEC colour bytes to threads.
pub fn map_pec_colors(bytes: &[u8], chart_len: Option<usize>) -> (r: (Vec<ThreadSource>, usize))
    ensures
        (r.0@, r.1 as nat) == pec_sources(bytes@, chart_len),
{
    let n = bytes.len();
    let mut out: Vec<ThreadSource> = Vec::new();
    let use_palette = match chart_len {
        None => true,
        Some(c) => c == 0,
    };
    if use_palette {
        let mut k: usize = 0;
        while k < n
            invariant
                n == bytes@.len(),
                k <= n,
                out@ == palette_sources(bytes@).take(k as int),
            decreases n - k,
        {
            out.push(ThreadSource::Palette((bytes[k] as usize) % PEC_PALETTE_SIZE));
            k = k + 1;
            assert(out@ =~= palette_sources(bytes@).take(k as int));
        }
        assert(palette_sources(bytes@).take(n as int) =~= palette_sources(bytes@));
        return (out, 0);
    }
    let c = match chart_len {
        Some(c) => c,
        None => 0,
    };
    if c >= n {
        let mut k: usize = 0;
        while k < n
            invariant
                n == bytes@.len(),
                k <= n,
                out@ == Seq::new(n as nat, |j: int| ThreadSource::Chart(j as usize)).take(k as int),
            decreases n - k,
        {
            out.push(ThreadSource::Chart(k));
            k = k + 1;
            assert(out@ =~= Seq::new(n as nat, |j: int| ThreadSource::Chart(j as usize)).take(k as int));
        }
        assert(out@ =~= Seq::new(n as nat, |j: int| ThreadSource::Chart(j as usize)));
        return (out, n);
    }
    process_pec_table(bytes, c)
}

/// Maps PEC colour bytes to threads by the table, for a chart of `chart_len`
/// threads.
pub fn process_pec_table(bytes: &[u8], chart_len: usize) -> (r: (Vec<ThreadSource>, usize))
    ensures
        (r.0@, r.1 as nat) == ({
            let (out, _, used) = pec_table(bytes@, chart_len as nat);
            (out, used)
        }),
{
    let n = bytes.len();
    let mut table: Vec<Option<ThreadSource>> = Vec::new();
    let mut i: usize = 0;
    while i < PEC_PALETTE_SIZE
        invariant
            i <= PEC_PALETTE_SIZE,
            table@ == empty_table().take(i as int),
        decreases PEC_PALETTE_SIZE - i,
    {
        table.push(None);
        i = i + 1;
        assert(table@ =~= empty_table().take(i as int));
    }
    assert(table@ =~= empty_table());
    let mut out: Vec<ThreadSource> = Vec::new();
    let mut used: usize = 0;
    let mut k: usize = 0;
    assert(bytes@.take(0) =~= Seq::<u8>::empty());
    while k < n
        invariant
            n == bytes@.len(),
            k <= n,
            (out@, table@, used as nat) == pec_table(bytes@.take(k as int), chart_len as nat),
            table@.len() == 64,
            used <= chart_len,
        decreases n - k,
    {
        assert(bytes@.take(k + 1).drop_last() =~= bytes@.take(k as int));
        assert(bytes@.take(k + 1).last() == bytes@[k as int]);
        let idx = (bytes[k] as usize) % PEC_PALETTE_SIZE;
        match table[idx] {
            Some(t) => {
                out.push(t);
            },
            None => {
                let t = if used < chart_len {
                    ThreadSource::Chart(used)
                } else {
                    ThreadSource::Palette(idx)
                };
                out.push(t);
                table.set(idx, Some(t));
                if used < chart_len {
                    used = used + 1;
                }
            },
        }
        k = k + 1;
    }
    assert(bytes@.take(n as int) =~= bytes@);
    (out, used)
}

/// The text without the NUL characters at its start.
pub open spec fn trim_nul_start(s: Seq<char>) -> Seq<char>
    decreases s.len(),
{
    if s.len() > 0 && s[0] == '\0' {
        trim_nul_start(s.drop_first())
    } else {
        s
    }
}

/// The text without the NUL characters at its end.
pub open spec fn trim_nul_end(s: Seq<char>) -> Seq<char>
    decreases s.len(),
{
    if s.len() > 0 && s.last() == '\0' {
        trim_nul_end(s.drop_last())
    } else {
        s
    }
}

/// The label of a PEC section: its 16 label bytes as UTF-8, without NULs at
/// either end and trimmed; none when it is not UTF-8 or nothing is left.
pub open spec fn pec_label(b: Seq<u8>) -> Option<Seq<char>> {
    if !valid_utf8(b) {
        None
    } else {
        let t = trim(trim_nul_end(trim_nul_start(decode_utf8(b))));
        if t.len() == 0 {
            None
        } else {
            Some(t)
        }
    }
}

/// The characters without NULs at either end.
fn trim_nuls(s: &Vec<char>) -> (r: Vec<char>)
    ensures
        r@ == trim_nul_end(trim_nul_start(s@)),
{
    let mut start: usize = 0;
    assert(s@.skip(0) =~= s@);
    while start < s.len() && s[start] == '\0'
        invariant
            start <= s@.len(),
            trim_nul_start(s@) == trim_nul_start(s@.skip(start as int)),
        decreases s@.len() - start,
    {
        assert(s@.skip(start as int).drop_first() =~= s@.skip(start + 1));
        start = start + 1;
    }
    let ghost ts = s@.skip(start as int);
    let mut end: usize = s.len();
    assert(s@.subrange(start as int, end as int) =~= ts);
    while end > start && s[end - 1] == '\0'
        invariant
            start <= end <= s@.len(),
            ts == s@.skip(start as int),
            trim_nul_end(ts) == trim_nul_end(s@.subrange(start as int, end as int)),
        decreases end,
    {
        assert(s@.subrange(start as int, end as int).drop_last() =~= s@.subrange(start as int, end - 1));
        end = end - 1;
    }
    let mut r: Vec<char> = Vec::new();
    let mut i = start;
    while i < end
        invariant
            start <= i <= end <= s@.len(),
            r@ == s@.subrange(start as int, i as int),
        decreases end - i,
    {
        r.push(s[i]);
        i = i + 1;
        assert(r@ =~= s@.subrange(start as int, i as int));
    }
    r
}

/// Reads the label of a PEC section from its 16 bytes.
pub fn read_pec_label(b: &Vec<u8>) -> (r: Option<String>)
    ensures
        match pec_label(b@) {
            Some(l) => r matches Some(s) && s@ == l,
            None => r is None,
        },
{
    let text = match utf8_to_string(b.as_slice()) {
        Some(t) => t,
        None => return None,
    };
    let chars = str_chars(text.as_str());
    let no_nul = trim_nuls(&chars);
    let t = trim_chars(no_nul.as_slice());
    if t.len() == 0 {
        return None;
    }
    Some(string_from_chars(t.as_slice()))
}

/// The metadata entry of the `k`-th graphic of a PEC section.
pub open spec fn graphic_entry(k: nat, stride: u8, height: u8) -> (Seq<char>, Seq<char>) {
    ("pec_graphic_"@ + decimal_digits(k), decimal_digits(stride as nat) + "x"@ + decimal_digits(
        height as nat,
    ) + " bitmap"@)
}

/// Where the stitches of a PEC section at `p` start: after the label, the
/// graphic sizes, the colours, the padding, the block length and 8 more bytes.
pub open spec fn pec_stitch_start(p: int) -> int {
    p + 0x20D
}

/// A decoded PEC section.
pub struct PecSection {
    /// The label of the design, if it has one
    pub label: Option<String>,
    /// Where each colour's thread comes from
    pub threads: Vec<ThreadSource>,
    /// How many threads of the PES chart were used
    pub chart_used: usize,
    /// The stitch operations
    pub ops: Vec<PatternOp>,
    /// The metadata entries of the preview graphics
    pub graphics: Vec<(String, String)>,
}

/// The label and value of each graphic entry.
pub open spec fn entries_view(v: Seq<(String, String)>) -> Seq<(Seq<char>, Seq<char>)> {
    v.map_values(|e: (String, String)| (e.0@, e.1@))
}

/// Whether the PEC section at `p` can be read: its header is there, its
/// stitch block decodes, and, when the graphics have a size, the graphics
/// (one per colour plus one) follow the stitch block.
pub open spec fn pec_section_ok(d: Seq<u8>, p: int) -> bool {
    &&& p + 0x20D <= d.len()
    &&& pec_stitches(d, pec_stitch_start(p), 0) matches Some((_, e)) && (d[p + 34] as int * d[
        p + 35
    ] as int == 0 || e + (d[p + 48] + 2) * (d[p + 34] as int * d[p + 35] as int) <= d.len())
}

/// Whether `s` is what the PEC section at `p` holds, with the number of
/// threads of a PES chart (none for a standalone PEC file): the label, the
/// colour threads, the stitch operations and one graphic entry per colour
/// plus one when the graphics have a size.
pub open spec fn section_read(d: Seq<u8>, p: int, chart_len: Option<usize>, s: PecSection) -> bool {
    &&& p + 0x20D <= d.len()
    &&& (match pec_label(d.subrange(p + 3, p + 19)) {
        Some(l) => s.label matches Some(x) && x@ == l,
        None => s.label is None,
    })
    &&& (s.threads@, s.chart_used as nat) == pec_sources(
        d.subrange(p + 49, p + 50 + d[p + 48]),
        chart_len,
    )
    &&& pec_stitches(d, pec_stitch_start(p), 0) matches Some((ops, _)) && s.ops@ == ops
    &&& (d[p + 34] as int * d[p + 35] as int == 0 ==> s.graphics@.len() == 0)
    &&& (d[p + 34] as int * d[p + 35] as int > 0 ==> entries_view(s.graphics@) == Seq::new(
        (d[p + 48] + 2) as nat,
        |k: int| graphic_entry(k as nat, d[p + 34], d[p + 35]),
    ))
}

/// Decodes the PEC section at position `p`, with the number of threads of a
/// PES chart (none for a standalone PEC file): the label, the colour
/// threads, the stitch block and, when the graphics have a size, one
/// graphic per colour plus one, each of which must be there.
pub fn read_pec(d: &[u8], p: usize, chart_len: Option<usize>) -> (r: Result<PecSection, Error>)
    ensures
        r is Ok <==> pec_section_ok(d@, p as int),
        r matches Ok(s) ==> section_read(d@, p as int, chart_len, s),
        r matches Err(e) ==> e is Parse,
{
    let n = d.len();
    if p > n || n - p < 0x20D {
        return Err(Error::Parse("Unexpected EOF in PEC header".to_owned()));
    }
    let mut label_bytes: Vec<u8> = Vec::new();
    let mut i: usize = p + 3;
    while i < p + 19
        invariant
            n == d@.len(),
            p + 0x20D <= n,
            p + 3 <= i <= p + 19,
            label_bytes@ == d@.subrange(p + 3, i as int),
        decreases p + 19 - i,
    {
        label_bytes.push(d[i]);
        i = i + 1;
        assert(label_bytes@ =~= d@.subrange(p + 3, i as int));
    }
    let label = read_pec_label(&label_bytes);
    let stride = d[p + 34];
    let height = d[p + 35];
    let color_changes = d[p + 48];
    let count = color_changes as usize + 1;
    let mut colors: Vec<u8> = Vec::new();
    let mut j: usize = p + 49;
    while j < p + 49 + count
        invariant
            n == d@.len(),
            p + 0x20D <= n,
            count == color_changes + 1,
            color_changes == d@[p + 48],
            p + 49 <= j <= p + 49 + count,
            colors@ == d@.subrange(p + 49, j as int),
        decreases p + 49 + count - j,
    {
        colors.push(d[j]);
        j = j + 1;
        assert(colors@ =~= d@.subrange(p + 49, j as int));
    }
    let (threads, chart_used) = map_pec_colors(colors.as_slice(), chart_len);
    let (ops, end) = match read_pec_stitches(d, p + 0x20D) {
        Ok(x) => x,
        Err(e) => return Err(e),
    };
    let mut graphics: Vec<(String, String)> = Vec::new();
    assert((stride as usize) * (height as usize) <= 65025) by (nonlinear_arith)
        requires
            stride <= 255,
            height <= 255,
    ;
    let size = (stride as usize) * (height as usize);
    if size > 0 {
        let mut reader = ByteReader::new(d);
        reader.seek(end);
        let mut k: usize = 0;
        while k < count + 1
            invariant
                k <= count + 1,
                count == color_changes + 1,
                reader.bytes() == d@,
                n == d@.len(),
                size > 0,
                reader.pos() == end + k * size,
                k > 0 ==> reader.pos() <= n,
                !pec_section_ok(d@, p as int) ==> end + (count + 1) * size > n,
                p + 0x20D <= n,
                stride == d@[p + 34],
                height == d@[p + 35],
                color_changes == d@[p + 48],
                size == stride * height,
                pec_stitches(d@, pec_stitch_start(p as int), 0) matches Some((_, e)) && e == end,
                entries_view(graphics@) == Seq::new(
                    (color_changes + 2) as nat,
                    |q: int| graphic_entry(q as nat, stride, height),
                ).take(k as int),
            decreases count + 1 - k,
        {
            let ghost pos0 = reader.pos();
            match reader.read_bytes(size) {
                Ok(_) => {},
                Err(e) => {
                    assert(pos0 + size > n);
                    assert(end + (k + 1) * size == pos0 + size) by (nonlinear_arith)
                        requires
                            pos0 == end + k * size,
                    ;
                    assert(end + (count + 1) * size >= end + (k + 1) * size) by (nonlinear_arith)
                        requires
                            k + 1 <= count + 1,
                    ;
                    assert(!pec_section_ok(d@, p as int)) by {
                        assert(d@[p + 48] + 2 == count + 1);
                        assert(d@[p + 34] as int * d@[p + 35] as int == size);
                    }
                    return Err(e);
                },
            }
            assert(end + (k + 1) * size == end + k * size + size) by (nonlinear_arith);
            let name = with_decimal("pec_graphic_", k as u64);
            let w = concat(decimal(stride as u64).as_str(), "x");
            let h = concat(decimal(height as u64).as_str(), " bitmap");
            let value = concat(w.as_str(), h.as_str());
            assert(value@ =~= graphic_entry(k as nat, stride, height).1);
            assert(name@ =~= graphic_entry(k as nat, stride, height).0);
            let ghost before = entries_view(graphics@);
            graphics.push((name, value));
            assert(entries_view(graphics@) =~= before.push(graphic_entry(k as nat, stride, height)));
            k = k + 1;
            assert(entries_view(graphics@) =~= Seq::new(
                (color_changes + 2) as nat,
                |q: int| graphic_entry(q as nat, stride, height),
            ).take(k as int));
        }
    }
    assert(Seq::new((color_changes + 2) as nat, |q: int| graphic_entry(q as nat, stride, height)).take(
        (count + 1) as int,
    ) =~= Seq::new((color_changes + 2) as nat, |q: int| graphic_entry(q as nat, stride, height)));
    Ok(PecSection { label, threads, chart_used, ops, graphics })
}

/// `#PEC0001`
pub open spec fn pec_file_magic() -> Seq<u8> {
    seq![0x23u8, 0x50u8, 0x45u8, 0x43u8, 0x30u8, 0x30u8, 0x30u8, 0x31u8]
}

/// Whether the text `#PEC0001` stands at position `p`.
pub open spec fn pec_magic_at(d: Seq<u8>, p: int) -> bool {
    0 <= p && p + 8 <= d.len() && d.subrange(p, p + 8) == pec_file_magic()
}

/// Decodes a PEC file that starts at position `p`: the text `#PEC0001`,
/// then a PEC section.
pub fn read_at(d: &[u8], p: usize) -> (r: Result<PecSection, Error>)
    ensures
        r is Ok <==> (pec_magic_at(d@, p as int) && pec_section_ok(d@, p + 8)),
        r matches Ok(s) ==> section_read(d@, p + 8, None, s),
        r matches Err(e) ==> e is Parse,
{
    let magic: [u8; 8] = [0x23, 0x50, 0x45, 0x43, 0x30, 0x30, 0x30, 0x31];
    let mut reader = ByteReader::new(d);
    reader.seek(p);
    let ghost start = reader;
    match reader.read_magic(&magic) {
        Ok(_) => {},
        Err(_) => {
            assert(magic@ =~= pec_file_magic());
            assert(!pec_magic_at(d@, p as int)) by {
                if pec_magic_at(d@, p as int) {
                    assert(start.next_bytes(8) =~= d@.subrange(p as int, p + 8));
                }
            }
            return Err(Error::Parse("Invalid PEC header: expected '#PEC0001'".to_owned()));
        },
    }
    assert(magic@ =~= pec_file_magic());
    assert(start.next_bytes(8) =~= d@.subrange(p as int, p + 8));
    let n = d.len();
    assert(p + 8 <= n);
    read_pec(d, p + 8, None)
}

/// Decodes a standalone PEC file: the text `#PEC0001`, then a PEC section.
pub fn read(d: &[u8]) -> (r: Result<PecSection, Error>)
    ensures
        r is Ok <==> (d@.len() >= 8 && d@.take(8) == pec_file_magic() && pec_section_ok(d@, 8)),
        r matches Ok(s) ==> section_read(d@, 8, None, s),
        r matches Err(e) ==> e is Parse,
{
    let r = read_at(d, 0);
    assert(d@.len() >= 8 ==> d@.subrange(0, 8) =~= d@.take(8));
    r
}

} // verus!
