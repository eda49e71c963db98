//! Husqvarna Viking HUS: a header with the stitch and colour counts and the
//! offsets of three compressed streams (commands, x offsets, y offsets),
//! indices into the 29-colour HUS palette, and the streams themselves.

use vstd::prelude::*;
use crate::bytes::{signed8, le16, le32, byte_as_i8, ByteReader};
use crate::constants::{STITCH, JUMP, TRIM, END, COLOR_CHANGE};
use crate::error::Error;
use crate::text::{concat, decimal_digits, push_decimal, with_decimal};
use crate::ops::{PatternOp, rel, cmd, if_moved, push_command, push_if_moved, push_rel};

verus! {

/// The number of threads in the HUS palette.
pub const HUS_PALETTE_SIZE: usize = 29;

/// Where the palette indices of a HUS file start.
pub const HUS_COLORS_AT: usize = 42;

/// The operations of HUS stitch `i` on, from the decompressed command, x and
/// y streams: 0x80 a stitch, 0x81 a jump, 0x84 a colour change (after a
/// stitch when it moves), 0x88 a trim (after a jump when it moves), 0x90 the
/// end; any other command byte is an error.
pub open spec fn hus_stitches(c: Seq<u8>, xs: Seq<u8>, ys: Seq<u8>, i: int) -> Option<Seq<PatternOp>>
    decreases c.len() - i,
{
    if i < 0 || i >= c.len() || i >= xs.len() || i >= ys.len() {
        Some(Seq::empty())
    } else {
        let x = signed8(xs[i] as int);
        let y = -signed8(ys[i] as int);
        let k = c[i];
        let here = if k == 0x80 {
            Some(seq![rel(x, y, STITCH)])
        } else if k == 0x81 {
            Some(seq![rel(x, y, JUMP)])
        } else if k == 0x84 {
            Some(if_moved(x, y, STITCH).push(cmd(COLOR_CHANGE)))
        } else if k == 0x88 {
            Some(if_moved(x, y, JUMP).push(cmd(TRIM)))
        } else {
            None
        };
        if k == 0x90 {
            Some(Seq::empty())
        } else {
            match (here, hus_stitches(c, xs, ys, i + 1)) {
                (Some(a), Some(b)) => Some(a + b),
                _ => None,
            }
        }
    }
}

/// The operations of the decompressed HUS streams, ending with an end
/// command; none when a stream does not hold `count` values or a command
/// byte is unknown.
pub open spec fn hus_ops(c: Seq<u8>, xs: Seq<u8>, ys: Seq<u8>, count: int) -> Option<Seq<PatternOp>> {
    if c.len() != count || xs.len() != count || ys.len() != count {
        None
    } else {
        match hus_stitches(c, xs, ys, 0) {
            Some(ops) => Some(ops.push(cmd(END))),
            None => None,
        }
    }
}

/// Turns the decompressed command, x and y streams of a HUS file into
/// operations, ending with an end command; each stream must hold `count`
/// values.
pub fn process_hus_stitches(c: &[u8], xs: &[u8], ys: &[u8], count: u32) -> (r: Result<
    Vec<PatternOp>,
    Error,
>)
    ensures
        match hus_ops(c@, xs@, ys@, count as int) {
            None => r matches Err(Error::Parse(_)),
            Some(ops) => r matches Ok(v) && v@ == ops,
        },
{
    if c.len() as u64 != count as u64 || xs.len() as u64 != count as u64 || ys.len() as u64
        != count as u64 {
        return Err(Error::Parse("Decompressed data size mismatch".to_owned()));
    }
    let ghost total = hus_stitches(c@, xs@, ys@, 0);
    let mut out: Vec<PatternOp> = Vec::new();
    let mut i: usize = 0;
    assert(out@ + Seq::<PatternOp>::empty() =~= out@);
    while i < c.len()
        invariant
            c@.len() == xs@.len() == ys@.len(),
            c@.len() == count,
            i <= c@.len(),
            total == hus_stitches(c@, xs@, ys@, 0),
            total == (match hus_stitches(c@, xs@, ys@, i as int) {
                Some(rest) => Some(out@ + rest),
                None => None,
            }),
        decreases c@.len() - i,
    {
        let ghost before = out@;
        let k = c[i];
        let x = byte_as_i8(xs[i]) as i64;
        let y = -(byte_as_i8(ys[i]) as i64);
        if k == 0x90 {
            assert(out@ + Seq::<PatternOp>::empty() =~= out@);
            push_command(&mut out, END);
            return Ok(out);
        } else if k == 0x80 {
            push_rel(&mut out, x, y, STITCH);
            assert(out@ =~= before + seq![rel(x as int, y as int, STITCH)]);
        } else if k == 0x81 {
            push_rel(&mut out, x, y, JUMP);
            assert(out@ =~= before + seq![rel(x as int, y as int, JUMP)]);
        } else if k == 0x84 {
            push_if_moved(&mut out, x, y, STITCH);
            push_command(&mut out, COLOR_CHANGE);
            assert(out@ =~= before + if_moved(x as int, y as int, STITCH).push(cmd(COLOR_CHANGE)));
        } else if k == 0x88 {
            push_if_moved(&mut out, x, y, JUMP);
            push_command(&mut out, TRIM);
            assert(out@ =~= before + if_moved(x as int, y as int, JUMP).push(cmd(TRIM)));
        } else {
            return Err(Error::Parse("Unknown command byte in HUS stitches".to_owned()));
        }
        let ghost here = out@.subrange(before.len() as int, out@.len() as int);
        assert(out@ =~= before + here);
        proof {
            if let Some(rest) = hus_stitches(c@, xs@, ys@, i + 1) {
                assert(before + (here + rest) =~= out@ + rest);
            }
        }
        i = i + 1;
    }
    assert(out@ + Seq::<PatternOp>::empty() =~= out@);
    push_command(&mut out, END);
    Ok(out)
}

/// The header of a HUS file.
pub struct HusHeader {
    /// The number of stitches
    pub stitch_count: u32,
    /// Where the compressed command stream starts
    pub command_offset: u32,
    /// Where the compressed x stream starts
    pub x_offset: u32,
    /// Where the compressed y stream starts
    pub y_offset: u32,
    /// The positions in the HUS palette of the threads, in order
    pub palette_indices: Vec<u16>,
}

/// The 32-bit little-endian value at position `i`.
pub open spec fn u32_at(d: Seq<u8>, i: int) -> int {
    le32(d[i], d[i + 1], d[i + 2], d[i + 3])
}

/// The 16-bit little-endian value at position `i`.
pub open spec fn u16_at(d: Seq<u8>, i: int) -> int {
    le16(d[i], d[i + 1])
}

/// Whether the palette indices of a HUS file are all there and all within
/// the palette.
pub open spec fn hus_palette_ok(d: Seq<u8>) -> bool {
    let n = u32_at(d, 8);
    HUS_COLORS_AT + 2 * n <= d.len() && forall|k: int|
        0 <= k < n ==> #[trigger] u16_at(d, HUS_COLORS_AT + 2 * k) < HUS_PALETTE_SIZE
}

/// Whether the palette index of colour `k` is there and within the palette.
pub open spec fn hus_index_fits(d: Seq<u8>, k: int) -> bool {
    HUS_COLORS_AT + 2 * k + 2 <= d.len() && u16_at(d, HUS_COLORS_AT + 2 * k) < HUS_PALETTE_SIZE
}

/// Whether colour `k` is the first one whose palette index is missing or
/// outside the palette.
pub open spec fn hus_first_bad_index(d: Seq<u8>, k: int) -> bool {
    &&& 0 <= k < u32_at(d, 8)
    &&& forall|j: int| 0 <= j < k ==> #[trigger] hus_index_fits(d, j)
    &&& !hus_index_fits(d, k)
}

/// `Invalid thread palette index: <index> (max: 28)`.
pub open spec fn bad_palette_index_message(index: nat) -> Seq<char> {
    "Invalid thread palette index: "@ + decimal_digits(index) + " (max: "@ + decimal_digits(
        (HUS_PALETTE_SIZE - 1) as nat,
    ) + ")"@
}

/// The message for a palette index outside the palette.
fn bad_palette_index(index: u16) -> (m: String)
    ensures
        m@ == bad_palette_index_message(index as nat),
{
    let mut m = with_decimal("Invalid thread palette index: ", index as u64);
    m = concat(m.as_str(), " (max: ");
    push_decimal(&mut m, (HUS_PALETTE_SIZE - 1) as u64);
    let m2 = concat(m.as_str(), ")");
    m2
}

/// Reads the header of a HUS file: magic, stitch count, colour count, four
/// extents, the three stream offsets, 8 bytes of text, an unknown 16-bit
/// value, then one 16-bit palette index per colour, each of which must lie
/// within the 29-colour palette.
pub fn read_hus_header(d: &[u8]) -> (r: Result<HusHeader, Error>)
    ensures
        r is Ok <==> (d@.len() >= HUS_COLORS_AT && hus_palette_ok(d@)),
        r matches Ok(h) ==> h.stitch_count == u32_at(d@, 4) && h.command_offset == u32_at(d@, 20)
            && h.x_offset == u32_at(d@, 24) && h.y_offset == u32_at(d@, 28)
            && h.palette_indices@.len() == u32_at(d@, 8) && forall|k: int|
            0 <= k < h.palette_indices@.len() ==> h.palette_indices@[k] == u16_at(
                d@,
                HUS_COLORS_AT + 2 * k,
            ),
        d@.len() < HUS_COLORS_AT ==> (r matches Err(Error::Parse(m)) && m@
            == "Unexpected EOF reading HUS header"@),
        forall|k: int|
            d@.len() >= HUS_COLORS_AT && #[trigger] hus_first_bad_index(d@, k) ==> (if HUS_COLORS_AT
                + 2 * k + 2 <= d@.len() {
                r matches Err(Error::Parse(m)) && m@ == bad_palette_index_message(
                    u16_at(d@, HUS_COLORS_AT + 2 * k) as nat,
                )
            } else {
                r matches Err(Error::Parse(m)) && m@ == "Unexpected EOF reading HUS thread palette"@
            }),
{
    if d.len() < HUS_COLORS_AT {
        return Err(Error::Parse("Unexpected EOF reading HUS header".to_owned()));
    }
    let mut reader = ByteReader::new(d);
    reader.seek(4);
    let stitches = match reader.read_u32_le() {
        Ok(v) => v,
        Err(e) => return Err(e),
    };
    let colors = match reader.read_u32_le() {
        Ok(v) => v,
        Err(e) => return Err(e),
    };
    reader.seek(20);
    let command_offset = match reader.read_u32_le() {
        Ok(v) => v,
        Err(e) => return Err(e),
    };
    let x_offset = match reader.read_u32_le() {
        Ok(v) => v,
        Err(e) => return Err(e),
    };
    let y_offset = match reader.read_u32_le() {
        Ok(v) => v,
        Err(e) => return Err(e),
    };
    reader.seek(HUS_COLORS_AT);
    let mut indices: Vec<u16> = Vec::new();
    let mut k: u32 = 0;
    while k < colors
        invariant
            reader.bytes() == d@,
            d@.len() >= HUS_COLORS_AT,
            colors == u32_at(d@, 8),
            k <= colors,
            reader.pos() == HUS_COLORS_AT + 2 * k,
            reader.pos() <= d@.len(),
            indices@.len() == k,
            forall|j: int| 0 <= j < k ==> indices@[j] == u16_at(d@, HUS_COLORS_AT + 2 * j),
            forall|j: int| 0 <= j < k ==> #[trigger] u16_at(d@, HUS_COLORS_AT + 2 * j) < HUS_PALETTE_SIZE,
            forall|j: int| 0 <= j < k ==> #[trigger] hus_index_fits(d@, j),
        decreases colors - k,
    {
        let index = match reader.read_u16_le() {
            Ok(v) => v,
            Err(_) => {
                proof {
                    assert forall|b: int| #[trigger] hus_first_bad_index(d@, b) implies b == k by {
                        if b < k {
                            assert(hus_index_fits(d@, b));
                        } else if b > k {
                            assert(hus_index_fits(d@, k as int));
                        }
                    }
                }
                return Err(Error::Parse("Unexpected EOF reading HUS thread palette".to_owned()));
            },
        };
        if index as usize >= HUS_PALETTE_SIZE {
            assert(u16_at(d@, HUS_COLORS_AT + 2 * k) >= HUS_PALETTE_SIZE);
            proof {
                assert forall|b: int| #[trigger] hus_first_bad_index(d@, b) implies b == k by {
                    if b < k {
                        assert(hus_index_fits(d@, b));
                    } else if b > k {
                        assert(hus_index_fits(d@, k as int));
                    }
                }
            }
            return Err(Error::Parse(bad_palette_index(index)));
        }
        indices.push(index);
        k = k + 1;
    }
    Ok(HusHeader {
        stitch_count: stitches,
        command_offset,
        x_offset,
        y_offset,
        palette_indices: indices,
    })
}

/// The three compressed streams of a HUS file: from the command offset to
/// the x offset, from the x offset to the y offset, and from the y offset to
/// the end; the first two must be there in full.
pub fn hus_streams(d: &[u8], h: &HusHeader) -> (r: Result<(Vec<u8>, Vec<u8>, Vec<u8>), Error>)
    requires
        h.command_offset <= h.x_offset <= h.y_offset,
    ensures
        r is Ok <==> h.y_offset <= d@.len(),
        r matches Ok((c, x, y)) ==> c@ == d@.subrange(h.command_offset as int, h.x_offset as int)
            && x@ == d@.subrange(h.x_offset as int, h.y_offset as int) && y@ == d@.subrange(
            h.y_offset as int,
            d@.len() as int,
        ),
{
    let mut reader = ByteReader::new(d);
    reader.seek(h.command_offset as usize);
    let c = match reader.read_bytes((h.x_offset - h.command_offset) as usize) {
        Ok(v) => v,
        Err(e) => return Err(e),
    };
    reader.seek(h.x_offset as usize);
    let x = match reader.read_bytes((h.y_offset - h.x_offset) as usize) {
        Ok(v) => v,
        Err(e) => return Err(e),
    };
    let start = h.y_offset as usize;
    let rest = d.len() - start;
    reader.seek(start);
    let y = match reader.read_bytes(rest) {
        Ok(v) => v,
        Err(e) => return Err(e),
    };
    Ok((c, x, y))
}

} // verus!
