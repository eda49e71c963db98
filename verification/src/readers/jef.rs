//! Janome JEF: a header with the stitch offset and the palette indices of
//! the threads, then 2-byte stitch records; a first byte of 0x80 starts a
//! 4-byte control record.

use vstd::prelude::*;
use crate::bytes::{signed8, signed32, le32, byte_as_i8, ByteReader};
use crate::constants::{STITCH, JUMP, STOP, END, COLOR_CHANGE};
use crate::error::Error;
use crate::ops::{PatternOp, rel, push_rel};

verus! {

/// Where the colour count of a JEF file is.
pub const JEF_COLOR_COUNT_AT: usize = 24;

/// Where the palette indices of a JEF file start.
pub const JEF_COLORS_AT: usize = 116;

/// One JEF record at position `i` (at least two bytes remain), with colour
/// changes to go before `color_index` reaches the thread count: its
/// operations, whether reading goes on, the next position and the new colour
/// index. A record is a stitch by two signed bytes (y pointing the other
/// way) unless the first byte is 0x80; then the second byte is a control
/// code and two more bytes follow: 0x02 a jump by them, 0x01 a colour change
/// while threads remain (a stop otherwise); anything else, or a control
/// record cut short, ends the stitches.
pub open spec fn jef_record(d: Seq<u8>, i: int, color_index: int, threads: int) -> (
    Seq<PatternOp>,
    bool,
    int,
    int,
) {
    if d[i] != 0x80 {
        (seq![rel(signed8(d[i] as int), -signed8(d[i + 1] as int), STITCH)], true, i + 2, color_index)
    } else if i + 4 > d.len() {
        (Seq::empty(), false, i + 2, color_index)
    } else {
        let c = d[i + 1];
        if c == 0x02 {
            (
                seq![rel(signed8(d[i + 2] as int), -signed8(d[i + 3] as int), JUMP)],
                true,
                i + 4,
                color_index,
            )
        } else if c == 0x01 {
            if color_index < threads {
                (seq![rel(0, 0, COLOR_CHANGE)], true, i + 4, color_index + 1)
            } else {
                (seq![rel(0, 0, STOP)], true, i + 4, color_index)
            }
        } else {
            (Seq::empty(), false, i + 4, color_index)
        }
    }
}

/// The operations of the JEF records from position `i` on.
pub open spec fn jef_stitches(d: Seq<u8>, i: int, color_index: int, threads: int) -> Seq<PatternOp>
    decreases d.len() - i,
{
    if i < 0 || i + 2 > d.len() {
        Seq::empty()
    } else {
        let (ops, more, next, ci) = jef_record(d, i, color_index, threads);
        if more && i < next {
            ops + jef_stitches(d, next, ci, threads)
        } else {
            ops
        }
    }
}

/// What a JEF record at `i` does, with colour index `ci` of `t` threads: a
/// plain record (first byte not 0x80) is one stitch by its two signed bytes,
/// y pointing the other way; a control record `0x80 0x02 a b` is one jump by
/// `a`, `b`; a control record `0x80 0x01 ..` is a colour change moving on to
/// the next thread while `ci < t`, and a stop that keeps the colour index
/// once the threads are used up; the records after it follow. Any other
/// control code, or a control record cut short, ends the stitches.
pub proof fn lemma_jef_record_meaning(d: Seq<u8>, i: int, ci: int, t: int)
    requires
        0 <= i,
        i + 2 <= d.len(),
    ensures
        d[i] != 0x80 ==> jef_stitches(d, i, ci, t) == seq![
            rel(signed8(d[i] as int), -signed8(d[i + 1] as int), STITCH),
        ] + jef_stitches(d, i + 2, ci, t),
        d[i] == 0x80 && i + 4 > d.len() ==> jef_stitches(d, i, ci, t) == Seq::<PatternOp>::empty(),
        d[i] == 0x80 && i + 4 <= d.len() && d[i + 1] == 0x02 ==> jef_stitches(d, i, ci, t) == seq![
            rel(signed8(d[i + 2] as int), -signed8(d[i + 3] as int), JUMP),
        ] + jef_stitches(d, i + 4, ci, t),
        d[i] == 0x80 && i + 4 <= d.len() && d[i + 1] == 0x01 && ci < t ==> jef_stitches(d, i, ci, t)
            == seq![rel(0, 0, COLOR_CHANGE)] + jef_stitches(d, i + 4, ci + 1, t),
        d[i] == 0x80 && i + 4 <= d.len() && d[i + 1] == 0x01 && ci >= t ==> jef_stitches(d, i, ci, t)
            == seq![rel(0, 0, STOP)] + jef_stitches(d, i + 4, ci, t),
        d[i] == 0x80 && i + 4 <= d.len() && d[i + 1] != 0x01 && d[i + 1] != 0x02 ==> jef_stitches(
            d,
            i,
            ci,
            t,
        ) == Seq::<PatternOp>::empty(),
{
}

/// How many operations of `s` carry the command `c`.
pub open spec fn count_command(s: Seq<PatternOp>, c: u32) -> nat
    decreases s.len(),
{
    if s.len() == 0 {
        0
    } else {
        (if s[0] == rel(0, 0, c) { 1nat } else { 0nat }) + count_command(s.drop_first(), c)
    }
}

/// Counting over a concatenation adds the counts.
proof fn lemma_count_concat(a: Seq<PatternOp>, b: Seq<PatternOp>, c: u32)
    ensures
        count_command(a + b, c) == count_command(a, c) + count_command(b, c),
    decreases a.len(),
{
    if a.len() > 0 {
        assert((a + b).drop_first() =~= a.drop_first() + b);
        lemma_count_concat(a.drop_first(), b, c);
    }
}

/// Colour changes never outnumber the threads: the records from `i` on,
/// read at colour index `ci`, give at most `t - ci` colour changes.
pub proof fn lemma_jef_color_changes_bounded(d: Seq<u8>, i: int, ci: int, t: int)
    requires
        ci <= t,
    ensures
        count_command(jef_stitches(d, i, ci, t), COLOR_CHANGE) <= t - ci,
    decreases d.len() - i,
{
    if 0 <= i && i + 2 <= d.len() {
        let (ops, more, next, nci) = jef_record(d, i, ci, t);
        if more && i < next {
            lemma_jef_color_changes_bounded(d, next, nci, t);
            lemma_count_concat(ops, jef_stitches(d, next, nci, t), COLOR_CHANGE);
        }
        reveal_with_fuel(count_command, 2);
        assert(ops.len() <= 1);
        if ops.len() == 1 {
            assert(ops.drop_first() =~= Seq::<PatternOp>::empty());
        }
    }
}

/// The operations of the stitches of a JEF file from position `start` on, for
/// a pattern with `threads` threads, ending with an end command.
pub open spec fn jef_ops(d: Seq<u8>, start: int, threads: int) -> Seq<PatternOp> {
    jef_stitches(d, start, 1, threads).push(rel(0, 0, END))
}

/// Decodes the JEF stitch records from position `start` on, for a pattern
/// with `threads` threads, ending with an end command.
pub fn read_stitches(d: &[u8], start: usize, threads: usize) -> (r: Vec<PatternOp>)
    ensures
        r@ == jef_ops(d@, start as int, threads as int),
{
    let ghost total = jef_stitches(d@, start as int, 1, threads as int);
    let mut out: Vec<PatternOp> = Vec::new();
    let mut i: usize = start;
    let mut color_index: usize = 1;
    assert(out@ + total =~= total);
    while i <= d.len() && d.len() - i >= 2
        invariant
            total == jef_stitches(d@, start as int, 1, threads as int),
            total == out@ + jef_stitches(d@, i as int, color_index as int, threads as int),
            color_index <= threads + 1,
        decreases d@.len() - i,
    {
        let ghost before = out@;
        let ghost rec = jef_record(d@, i as int, color_index as int, threads as int);
        let n = d.len();
        if d[i] != 0x80 {
            let x = byte_as_i8(d[i]) as i64;
            let y = -(byte_as_i8(d[i + 1]) as i64);
            push_rel(&mut out, x, y, STITCH);
            assert(out@ =~= before + rec.0);
            assert(before + (rec.0 + jef_stitches(d@, i + 2, color_index as int, threads as int))
                =~= out@ + jef_stitches(d@, i + 2, color_index as int, threads as int));
            i = i + 2;
        } else {
            if n - i < 4 {
                assert(out@ + Seq::<PatternOp>::empty() =~= out@);
                push_rel(&mut out, 0, 0, END);
                return out;
            }
            let c = d[i + 1];
            if c == 0x02 {
                let x = byte_as_i8(d[i + 2]) as i64;
                let y = -(byte_as_i8(d[i + 3]) as i64);
                push_rel(&mut out, x, y, JUMP);
            } else if c == 0x01 {
                if color_index < threads {
                    push_rel(&mut out, 0, 0, COLOR_CHANGE);
                    color_index = color_index + 1;
                } else {
                    push_rel(&mut out, 0, 0, STOP);
                }
            } else {
                assert(out@ + Seq::<PatternOp>::empty() =~= out@);
                push_rel(&mut out, 0, 0, END);
                return out;
            }
            assert(out@ =~= before + rec.0);
            assert(before + (rec.0 + jef_stitches(d@, i + 4, color_index as int, threads as int))
                =~= out@ + jef_stitches(d@, i + 4, color_index as int, threads as int));
            i = i + 4;
        }
    }
    assert(out@ + Seq::<PatternOp>::empty() =~= out@);
    push_rel(&mut out, 0, 0, END);
    out
}

/// The header of a JEF file.
pub struct JefHeader {
    /// Where the stitch records start
    pub stitch_offset: i32,
    /// The palette indices of the threads (0 marks a placeholder)
    pub color_indices: Vec<u32>,
}

/// The signed 32-bit little-endian value at position `i`.
pub open spec fn i32_at(d: Seq<u8>, i: int) -> int {
    signed32(le32(d[i], d[i + 1], d[i + 2], d[i + 3]))
}

/// The magnitude of a signed value.
pub open spec fn magnitude(v: int) -> int {
    if v < 0 {
        -v
    } else {
        v
    }
}

/// Reads the header of a JEF file: the stitch offset, 20 bytes, the colour
/// count, 88 bytes, then one signed 32-bit palette index per colour (its
/// magnitude is kept); the header must hold them all. A negative count is
/// read as a count beyond any file, so the header is cut short.
pub fn read_header(d: &[u8]) -> (r: Result<JefHeader, Error>)
    ensures
        r is Ok <==> (d@.len() >= JEF_COLORS_AT && i32_at(d@, JEF_COLOR_COUNT_AT as int) >= 0
            && JEF_COLORS_AT + 4 * i32_at(d@, JEF_COLOR_COUNT_AT as int) <= d@.len()),
        r matches Ok(h) ==> h.stitch_offset == i32_at(d@, 0) && h.color_indices@.len() == i32_at(
            d@,
            JEF_COLOR_COUNT_AT as int,
        ) && forall|k: int|
            0 <= k < h.color_indices@.len() ==> h.color_indices@[k] == magnitude(
                i32_at(d@, JEF_COLORS_AT + 4 * k),
            ),
{
    let mut reader = ByteReader::new(d);
    if d.len() < JEF_COLORS_AT {
        return Err(Error::Parse("Unexpected EOF".to_owned()));
    }
    let offset = match reader.read_i32_le() {
        Ok(v) => v,
        Err(e) => return Err(e),
    };
    reader.seek(JEF_COLOR_COUNT_AT);
    let count = match reader.read_i32_le() {
        Ok(v) => v,
        Err(e) => return Err(e),
    };
    reader.seek(JEF_COLORS_AT);
    let mut indices: Vec<u32> = Vec::new();
    if count < 0 {
        return Err(Error::Parse("Unexpected EOF".to_owned()));
    }
    let mut k: i32 = 0;
    while k < count
        invariant
            reader.bytes() == d@,
            d@.len() >= JEF_COLORS_AT,
            count == i32_at(d@, JEF_COLOR_COUNT_AT as int),
            offset == i32_at(d@, 0),
            0 <= k <= count,
            reader.pos() == JEF_COLORS_AT + 4 * k,
            reader.pos() <= d@.len(),
            indices@.len() == k,
            forall|j: int|
                0 <= j < k ==> indices@[j] == magnitude(i32_at(d@, JEF_COLORS_AT + 4 * j)),
        decreases count - k,
    {
        let v = match reader.read_i32_le() {
            Ok(v) => v,
            Err(e) => return Err(e),
        };
        let m: u32 = if v < 0 {
            (-(v as i64)) as u32
        } else {
            v as u32
        };
        indices.push(m);
        k = k + 1;
    }
    Ok(JefHeader { stitch_offset: offset, color_indices: indices })
}

/// Where the stitch records of a JEF file start: the stitch offset when it
/// lies within the file, else the end of the file (a seek beyond the end
/// finds no records).
pub open spec fn jef_stitch_start(d: Seq<u8>, offset: int) -> int {
    if 0 <= offset <= d.len() {
        offset
    } else {
        d.len() as int
    }
}

/// The number of colours of a colour list that are not placeholders (0).
pub open spec fn real_colors(v: Seq<u32>) -> nat
    decreases v.len(),
{
    if v.len() == 0 {
        0
    } else {
        real_colors(v.drop_last()) + if v.last() != 0 {
            1nat
        } else {
            0nat
        }
    }
}

/// A decoded JEF file.
pub struct JefPattern {
    /// The palette indices of the threads (0 marks a placeholder)
    pub color_indices: Vec<u32>,
    /// The stitch operations
    pub ops: Vec<PatternOp>,
}

/// Counts the colours that are not placeholders.
fn count_real_colors(v: &Vec<u32>) -> (n: usize)
    ensures
        n == real_colors(v@),
{
    let mut n: usize = 0;
    let mut k: usize = 0;
    assert(v@.take(0) =~= Seq::<u32>::empty());
    while k < v.len()
        invariant
            k <= v@.len(),
            n == real_colors(v@.take(k as int)),
            n <= k,
        decreases v@.len() - k,
    {
        assert(v@.take(k + 1).drop_last() =~= v@.take(k as int));
        if v[k] != 0 {
            n = n + 1;
        }
        k = k + 1;
    }
    assert(v@.take(v@.len() as int) =~= v@);
    n
}

/// Decodes a JEF file: its header, then its stitch records from the stitch
/// offset, for as many threads as the header lists colours that are not
/// placeholders.
pub fn read(d: &[u8]) -> (r: Result<JefPattern, Error>)
    ensures
        r is Ok <==> (d@.len() >= JEF_COLORS_AT && i32_at(d@, JEF_COLOR_COUNT_AT as int) >= 0
            && JEF_COLORS_AT + 4 * i32_at(d@, JEF_COLOR_COUNT_AT as int) <= d@.len()),
        r matches Ok(p) ==> p.color_indices@.len() == i32_at(d@, JEF_COLOR_COUNT_AT as int)
            && (forall|k: int|
            0 <= k < p.color_indices@.len() ==> p.color_indices@[k] == magnitude(
                i32_at(d@, JEF_COLORS_AT + 4 * k),
            )) && p.ops@ == jef_ops(
            d@,
            jef_stitch_start(d@, i32_at(d@, 0)),
            real_colors(p.color_indices@) as int,
        ),
{
    let header = match read_header(d) {
        Ok(h) => h,
        Err(e) => return Err(e),
    };
    let start: usize = if header.stitch_offset >= 0 && (header.stitch_offset as usize) <= d.len() {
        header.stitch_offset as usize
    } else {
        d.len()
    };
    let threads = count_real_colors(&header.color_indices);
    let ops = read_stitches(d, start, threads);
    Ok(JefPattern { color_indices: header.color_indices, ops })
}

} // verus!
