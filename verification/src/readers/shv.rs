//! Husqvarna Viking SHV: a header with the design name, a preview bitmap and
//! the colours with their stitch counts, then 2-byte stitch records; a
//! colour change comes after each colour's number of stitches.

use vstd::prelude::*;
use crate::bytes::{signed8, signed16, be16, be32, byte_as_i8, u16_be, i16_of, ByteReader};
use crate::constants::{STITCH, JUMP, END, COLOR_CHANGE};
use crate::error::Error;
use crate::ops::{PatternOp, rel, cmd, push_command, push_rel};
use crate::text::utf8_to_string;
use vstd::utf8::{valid_utf8, decode_utf8};

verus! {

/// The largest SHV file that is read (far beyond any real file): within it
/// the stitch counters cannot overflow.
pub const SHV_MAX_LEN: usize = 0xFFFF_FF00;

/// The stitch count after which colour `k` ends.
pub open spec fn shv_limit(spc: Seq<u32>, k: int) -> int {
    if 0 <= k < spc.len() {
        spc[k] as int
    } else {
        0xFFFF_FFFF
    }
}

/// The reading state: in a jump or not, the stitches since the last colour
/// change, the current colour, and its stitch limit.
pub open spec fn shv_start(spc: Seq<u32>) -> (bool, int, int, int) {
    (false, 0, 0, if spc.len() > 0 {
        spc[0] as int
    } else {
        0
    })
}

/// One SHV record at position `i` (at least two bytes remain) in state `st`:
/// its operations, the next position and the new state; none when a long
/// jump is cut short. A colour change comes first once the stitches since
/// the last one reach the limit. A first byte of 0x80 counts a stitch and
/// makes the second a code: 3 nothing more, 2 the end of a jump, 1 a long
/// jump by two big-endian 16-bit offsets (counting two stitches more), any
/// other a stitch record after all. A stitch record moves by two signed
/// bytes, as a jump while in a jump.
pub open spec fn shv_record(d: Seq<u8>, i: int, spc: Seq<u32>, st: (bool, int, int, int)) -> Option<
    (Seq<PatternOp>, int, (bool, int, int, int)),
> {
    let (jump0, since0, color0, limit0) = st;
    let change = since0 >= limit0;
    let pre = if change {
        seq![cmd(COLOR_CHANGE)]
    } else {
        Seq::empty()
    };
    let since1 = if change {
        0
    } else {
        since0
    };
    let color = if change {
        color0 + 1
    } else {
        color0
    };
    let limit = if change {
        shv_limit(spc, color0 + 1)
    } else {
        limit0
    };
    let (b0, b1) = (d[i], d[i + 1]);
    if b0 == 0x80 && b1 == 3 {
        Some((pre, i + 2, (jump0, since1 + 1, color, limit)))
    } else if b0 == 0x80 && b1 == 2 {
        Some((pre, i + 2, (false, since1 + 1, color, limit)))
    } else if b0 == 0x80 && b1 == 1 {
        if i + 6 > d.len() {
            None
        } else {
            Some((
                pre.push(rel(signed16(be16(d[i + 2], d[i + 3])), signed16(be16(d[i + 4], d[i + 5])), JUMP)),
                i + 6,
                (true, since1 + 3, color, limit),
            ))
        }
    } else {
        let extra = if b0 == 0x80 {
            1int
        } else {
            0int
        };
        Some((
            pre.push(rel(signed8(b0 as int), signed8(b1 as int), if jump0 {
                JUMP
            } else {
                STITCH
            })),
            i + 2,
            (jump0, since1 + extra + 1, color, limit),
        ))
    }
}

/// The operations of the SHV records from position `i` on in state `st`;
/// none when a long jump is cut short.
pub open spec fn shv_stitches(d: Seq<u8>, i: int, spc: Seq<u32>, st: (bool, int, int, int)) -> Option<
    Seq<PatternOp>,
>
    decreases d.len() - i,
{
    if i < 0 || i + 2 > d.len() {
        Some(Seq::empty())
    } else {
        match shv_record(d, i, spc, st) {
            None => None,
            Some((ops, next, st2)) => if i < next {
                match shv_stitches(d, next, spc, st2) {
                    Some(rest) => Some(ops + rest),
                    None => None,
                }
            } else {
                None
            },
        }
    }
}

/// The operations of the SHV stitch records from position `start` on, with
/// the stitch counts of the colours, ending with an end command.
pub open spec fn shv_ops(d: Seq<u8>, start: int, spc: Seq<u32>) -> Option<Seq<PatternOp>> {
    match shv_stitches(d, start, spc, shv_start(spc)) {
        Some(ops) => Some(ops.push(cmd(END))),
        None => None,
    }
}

/// Decodes the SHV stitch records from position `start` on, given the stitch
/// count of each colour, ending with an end command.
pub fn read_shv_stitches(d: &[u8], start: usize, stitch_per_color: &[u32]) -> (r: Result<
    Vec<PatternOp>,
    Error,
>)
    requires
        d@.len() <= SHV_MAX_LEN,
    ensures
        match shv_ops(d@, start as int, stitch_per_color@) {
            None => r matches Err(Error::Parse(_)),
            Some(ops) => r matches Ok(v) && v@ == ops,
        },
{
    let ghost spc = stitch_per_color@;
    let ghost total = shv_stitches(d@, start as int, spc, shv_start(spc));
    let mut out: Vec<PatternOp> = Vec::new();
    let mut i: usize = start;
    let mut in_jump = false;
    let mut since: u32 = 0;
    let mut color: usize = 0;
    let mut limit: u32 = if stitch_per_color.len() > 0 {
        stitch_per_color[0]
    } else {
        0
    };
    assert(out@ + Seq::<PatternOp>::empty() =~= out@);
    while i <= d.len() && d.len() - i >= 2
        invariant
            d@.len() <= SHV_MAX_LEN,
            spc == stitch_per_color@,
            total == shv_stitches(d@, start as int, spc, shv_start(spc)),
            start <= i,
            since <= i - start,
            color <= i - start,
            limit == shv_limit(spc, color as int) || (color == 0 && limit == shv_start(spc).3),
            total == (match shv_stitches(d@, i as int, spc, (in_jump, since as int, color as int, limit as int)) {
                Some(rest) => Some(out@ + rest),
                None => None,
            }),
        decreases d@.len() - i,
    {
        let ghost before = out@;
        let ghost st = (in_jump, since as int, color as int, limit as int);
        let ghost rec = shv_record(d@, i as int, spc, st);
        if since >= limit {
            push_command(&mut out, COLOR_CHANGE);
            since = 0;
            color = color + 1;
            limit = if color < stitch_per_color.len() {
                stitch_per_color[color]
            } else {
                0xFFFF_FFFF
            };
        }
        let b0 = d[i];
        let b1 = d[i + 1];
        let next: usize;
        if b0 == 0x80 && b1 == 3 {
            since = since + 1;
            next = i + 2;
        } else if b0 == 0x80 && b1 == 2 {
            since = since + 1;
            in_jump = false;
            next = i + 2;
        } else if b0 == 0x80 && b1 == 1 {
            if d.len() - i < 6 {
                return Err(Error::Parse("Unexpected EOF in SHV long jump".to_owned()));
            }
            since = since + 3;
            let sx = i16_of(u16_be(d[i + 2], d[i + 3])) as i64;
            let sy = i16_of(u16_be(d[i + 4], d[i + 5])) as i64;
            in_jump = true;
            push_rel(&mut out, sx, sy, JUMP);
            next = i + 6;
        } else {
            if b0 == 0x80 {
                since = since + 1;
            }
            since = since + 1;
            let dx = byte_as_i8(b0) as i64;
            let dy = byte_as_i8(b1) as i64;
            push_rel(&mut out, dx, dy, if in_jump { JUMP } else { STITCH });
            next = i + 2;
        }
        let ghost here = out@.subrange(before.len() as int, out@.len() as int);
        assert(out@ =~= before + here);
        assert(rec == Some((here, next as int, (in_jump, since as int, color as int, limit as int))));
        proof {
            if let Some(rest) = shv_stitches(d@, next as int, spc, (in_jump, since as int, color as int, limit as int)) {
                assert(before + (here + rest) =~= out@ + rest);
            }
        }
        i = next;
    }
    assert(out@ + Seq::<PatternOp>::empty() =~= out@);
    push_command(&mut out, END);
    Ok(out)
}

/// The number of threads in the SHV palette.
pub const SHV_PALETTE_SIZE: usize = 43;

/// Where the name of an SHV design starts: its length byte.
pub const SHV_NAME_AT: usize = 0x56;

/// The stitch count of colour record `k` of the colour list at `c` (14
/// bytes a record: a 32-bit big-endian count, a palette byte, 9 more).
pub open spec fn shv_count_at(d: Seq<u8>, c: int, k: int) -> u32 {
    be32(d[c + 14 * k], d[c + 14 * k + 1], d[c + 14 * k + 2], d[c + 14 * k + 3]) as u32
}

/// The SHV palette position of colour record `k`: its palette byte modulo 43.
pub open spec fn shv_palette_at(d: Seq<u8>, c: int, k: int) -> usize {
    (d[c + 14 * k + 4] as int % 43) as usize
}

/// The header of an SHV file: the design name (when its bytes are UTF-8),
/// the stitch count and palette position of each colour, and where the
/// stitch records start (two bytes before the end of the colour list).
/// The name follows its length byte at 0x56; then a width and height byte,
/// 4 bytes and a preview of width times half the height (rounded up) bytes,
/// the colour count, 18 bytes and the colour records. None when a read
/// field is cut short.
pub open spec fn shv_header(d: Seq<u8>) -> Option<(Option<Seq<char>>, Seq<u32>, Seq<usize>, int)> {
    if d.len() < 0x57 {
        None
    } else {
        let a = 0x57 + d[0x56];
        if a + 2 > d.len() {
            None
        } else {
            let name = d.subrange(0x57, a);
            let b = a + 6 + ((d[a + 1] + 1) / 2) * d[a];
            if b + 1 > d.len() {
                None
            } else {
                let n = d[b] as int;
                let c = b + 19;
                if n > 0 && c + 14 * (n - 1) + 5 > d.len() {
                    None
                } else {
                    Some(
                        (
                            if valid_utf8(name) {
                                Some(decode_utf8(name))
                            } else {
                                None
                            },
                            Seq::new(n as nat, |k: int| shv_count_at(d, c, k)),
                            Seq::new(n as nat, |k: int| shv_palette_at(d, c, k)),
                            c + 14 * n - 2,
                        ),
                    )
                }
            }
        }
    }
}

/// A decoded SHV file.
pub struct ShvPattern {
    /// The design name, when its bytes are UTF-8
    pub name: Option<String>,
    /// The SHV palette positions of the threads, in order
    pub palette_indices: Vec<usize>,
    /// The stitch operations
    pub ops: Vec<PatternOp>,
}

/// Decodes an SHV file: its header, then its stitch records.
pub fn read(d: &[u8]) -> (r: Result<ShvPattern, Error>)
    requires
        d@.len() <= SHV_MAX_LEN,
    ensures
        match shv_header(d@) {
            None => r is Err,
            Some((name, spc, palette, start)) => match shv_ops(d@, start, spc) {
                None => r is Err,
                Some(ops) => r matches Ok(p) && p.ops@ == ops && p.palette_indices@ == palette
                    && match name {
                    Some(t) => p.name matches Some(x) && x@ == t,
                    None => p.name is None,
                },
            },
        },
{
    let n = d.len();
    if n < 0x57 {
        return Err(Error::Parse("SHV: header cut short".to_owned()));
    }
    let a = 0x57 + d[SHV_NAME_AT] as usize;
    if a + 2 > n {
        return Err(Error::Parse("SHV: header cut short".to_owned()));
    }
    let mut name_bytes: Vec<u8> = Vec::new();
    let mut i: usize = 0x57;
    while i < a
        invariant
            0x57 <= i <= a <= n,
            n == d@.len(),
            name_bytes@ == d@.subrange(0x57, i as int),
        decreases a - i,
    {
        name_bytes.push(d[i]);
        i = i + 1;
        assert(name_bytes@ =~= d@.subrange(0x57, i as int));
    }
    let name = utf8_to_string(name_bytes.as_slice());
    let width = d[a] as usize;
    let height = d[a + 1] as usize;
    assert((height + 1) / 2 * width <= 128 * 255) by (nonlinear_arith)
        requires
            height <= 255,
            width <= 255,
    ;
    let b = a + 6 + (height + 1) / 2 * width;
    if b + 1 > n {
        return Err(Error::Parse("SHV: header cut short".to_owned()));
    }
    let count = d[b] as usize;
    let c = b + 19;
    if count > 0 && c + 14 * (count - 1) + 5 > n {
        return Err(Error::Parse("SHV: colour list cut short".to_owned()));
    }
    let mut stitch_per_color: Vec<u32> = Vec::new();
    let mut palette_indices: Vec<usize> = Vec::new();
    let mut k: usize = 0;
    let mut pos: usize = c;
    while k < count
        invariant
            k <= count,
            pos == c + 14 * k,
            n == d@.len(),
            n <= SHV_MAX_LEN,
            count > 0 ==> c + 14 * (count - 1) + 5 <= n,
            stitch_per_color@ == Seq::new(k as nat, |j: int| shv_count_at(d@, c as int, j)),
            palette_indices@ == Seq::new(k as nat, |j: int| shv_palette_at(d@, c as int, j)),
        decreases count - k,
    {
        let v = (d[pos] as u32) << 24 | (d[pos + 1] as u32) << 16 | (d[pos + 2] as u32) << 8
            | d[pos + 3] as u32;
        assert(v == be32(d@[pos as int], d@[pos + 1], d@[pos + 2], d@[pos + 3])) by {
            let b0 = d@[pos as int];
            let b1 = d@[pos + 1];
            let b2 = d@[pos + 2];
            let b3 = d@[pos + 3];
            assert((b0 as u32) << 24 | (b1 as u32) << 16 | (b2 as u32) << 8 | b3 as u32 == b0
                as u32 * 0x1000000 + b1 as u32 * 0x10000 + b2 as u32 * 0x100 + b3 as u32)
                by (bit_vector);
        }
        stitch_per_color.push(v);
        palette_indices.push(d[pos + 4] as usize % SHV_PALETTE_SIZE);
        k = k + 1;
        pos = pos + 14;
        assert(stitch_per_color@ =~= Seq::new(k as nat, |j: int| shv_count_at(d@, c as int, j)));
        assert(palette_indices@ =~= Seq::new(k as nat, |j: int| shv_palette_at(d@, c as int, j)));
    }
    let start = c + 14 * count - 2;
    let ops = match read_shv_stitches(d, start, stitch_per_color.as_slice()) {
        Ok(v) => v,
        Err(e) => return Err(e),
    };
    Ok(ShvPattern { name, palette_indices, ops })
}

} // verus!
