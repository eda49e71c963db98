//! Brother PHB: a colour list into the PEC palette at 0x71, and an embedded
//! PEC file whose position follows a chain of section lengths.

use vstd::prelude::*;
use crate::bytes::{le16, le32, ByteReader};
use crate::error::Error;
use crate::readers::pec::{self as pec, pec_magic_at, pec_section_ok, section_read, PecSection, PEC_PALETTE_SIZE};

verus! {

/// Where the colour count of a PHB file is.
pub const PHB_COLORS_AT: usize = 0x71;

/// The 32-bit little-endian value at position `i`.
pub open spec fn u32_at(d: Seq<u8>, i: int) -> int {
    le32(d[i], d[i + 1], d[i + 2], d[i + 3])
}

/// The PEC palette positions of the `n` colour bytes at `i`: each byte
/// modulo 64.
pub open spec fn palette_positions(d: Seq<u8>, i: int, n: nat) -> Seq<usize> {
    Seq::new(n, |k: int| (d[i + k] as int % 64) as usize)
}

/// The colours of a PHB file: a 16-bit little-endian count at 0x71 and that
/// many palette bytes; none when they are cut short.
pub open spec fn phb_colors(d: Seq<u8>) -> Option<Seq<usize>> {
    if d.len() < 0x73 {
        None
    } else {
        let n = le16(d[0x71], d[0x72]);
        if 0x73 + n > d.len() {
            None
        } else {
            Some(palette_positions(d, 0x73, n as nat))
        }
    }
}

/// Where the embedded PEC file of a PHB file starts: 0x52 plus the length
/// at 0x54 gives a position, the length there plus 2 another, the length
/// there a third, whose byte 14 is a colour count; the PEC file starts
/// 0x15 bytes plus that count after it. None when a length or the count is
/// cut short.
pub open spec fn phb_pec_position(d: Seq<u8>) -> Option<int> {
    if d.len() < 0x58 {
        None
    } else {
        let a = 0x52 + u32_at(d, 0x54);
        if a + 4 > d.len() {
            None
        } else {
            let b = a + u32_at(d, a) + 2;
            if b + 4 > d.len() {
                None
            } else {
                let c = b + u32_at(d, b);
                if c + 15 > d.len() {
                    None
                } else {
                    Some(c + 15 + d[c + 14] + 0x15)
                }
            }
        }
    }
}

/// A decoded PHB file.
pub struct PhbPattern {
    /// The PEC palette positions of the threads, in order
    pub palette_indices: Vec<usize>,
    /// The embedded PEC section, or why it could not be read
    pub pec: Result<PecSection, Error>,
}

/// Reads `n` palette bytes from the reader.
pub(crate) fn read_palette_bytes(r: &mut ByteReader, n: u16) -> (res: Result<Vec<usize>, Error>)
    ensures
        final(r).bytes() == old(r).bytes(),
        (n == 0 || old(r).has(n as int)) ==> (res matches Ok(v) && v@ == palette_positions(
            old(r).bytes(),
            old(r).pos(),
            n as nat,
        ) && final(r).pos() == old(r).pos() + n),
        n > 0 && !old(r).has(n as int) ==> res is Err,
{
    let ghost d = r.bytes();
    let ghost start = r.pos();
    let mut v: Vec<usize> = Vec::new();
    let mut k: u16 = 0;
    while k < n
        invariant
            k <= n,
            r.bytes() == d,
            d == old(r).bytes(),
            start == old(r).pos(),
            r.pos() == start + k,
            k > 0 ==> start + k <= d.len(),
            v@ == palette_positions(d, start, k as nat),
        decreases n - k,
    {
        let b = match r.read_u8() {
            Ok(b) => b,
            Err(e) => return Err(e),
        };
        v.push(b as usize % PEC_PALETTE_SIZE);
        k = k + 1;
        assert(v@ =~= palette_positions(d, start, k as nat));
    }
    Ok(v)
}

/// Reads the 32-bit little-endian value at position `p`.
fn u32_at_exec(d: &[u8], p: u64) -> (r: Option<u64>)
    ensures
        p + 4 <= d@.len() ==> r == Some(u32_at(d@, p as int) as u64),
        p + 4 > d@.len() ==> r is None,
{
    let n = d.len() as u64;
    if p > n || n - p < 4 {
        return None;
    }
    let mut rd = ByteReader::new(d);
    rd.seek(p as usize);
    match rd.read_u32_le() {
        Ok(v) => Some(v as u64),
        Err(_) => None,
    }
}

/// Where the embedded PEC file starts, as `phb_pec_position` gives it.
fn pec_position(d: &[u8]) -> (r: Option<u64>)
    ensures
        match phb_pec_position(d@) {
            None => r is None,
            Some(p) => r == Some(p as u64),
        },
{
    let n = d.len() as u64;
    if n < 0x58 {
        return None;
    }
    let a0 = match u32_at_exec(d, 0x54) {
        Some(v) => v,
        None => return None,
    };
    let a = 0x52 + a0;
    let b0 = match u32_at_exec(d, a) {
        Some(v) => v,
        None => return None,
    };
    let b = a + b0 + 2;
    let c0 = match u32_at_exec(d, b) {
        Some(v) => v,
        None => return None,
    };
    let c = b + c0;
    if c > n || n - c < 15 {
        return None;
    }
    let count = d[(c + 14) as usize] as u64;
    Some(c + 15 + count + 0x15)
}

/// Decodes a PHB file: the palette positions of its colours and its
/// embedded PEC file. The colours are kept when the PEC file cannot be read.
pub fn read(d: &[u8]) -> (r: Result<PhbPattern, Error>)
    ensures
        phb_colors(d@) is None ==> r is Err,
        phb_colors(d@) matches Some(c) ==> (r matches Ok(x) && x.palette_indices@ == c && (x.pec is Ok
            <==> match phb_pec_position(d@) {
            Some(p) => pec_magic_at(d@, p) && pec_section_ok(d@, p + 8),
            None => false,
        }) && (x.pec matches Ok(s) ==> match phb_pec_position(d@) {
            Some(p) => section_read(d@, p + 8, None, s),
            None => false,
        })),
{
    let mut reader = ByteReader::new(d);
    reader.seek(PHB_COLORS_AT);
    let n = match reader.read_u16_le() {
        Ok(v) => v,
        Err(e) => return Err(e),
    };
    let palette_indices = match read_palette_bytes(&mut reader, n) {
        Ok(v) => v,
        Err(e) => return Err(e),
    };
    let pec = match pec_position(d) {
        None => Err(Error::Parse("PHB: section lengths run past the end".to_owned())),
        Some(p) => if p > d.len() as u64 {
            Err(Error::Parse("PHB: PEC position past the end".to_owned()))
        } else {
            pec::read_at(d, p as usize)
        },
    };
    Ok(PhbPattern { palette_indices, pec })
}

} // verus!
