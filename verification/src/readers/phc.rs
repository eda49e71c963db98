//! Brother PHC: graphic sizes and a colour list into the PEC palette at
//! 0x4A, and an embedded PEC file whose position follows a chain of section
//! lengths. A file whose colour list is cut short holds only the colours.

use vstd::prelude::*;
use crate::bytes::{le16, u16_le, ByteReader};
use crate::error::Error;
use crate::readers::pec::{self as pec, pec_magic_at, pec_section_ok, section_read, PecSection};
use crate::readers::phb::{palette_positions, read_palette_bytes, u32_at};

verus! {

/// Where the colour count of a PHC file is.
pub const PHC_COLORS_AT: usize = 0x4D;

/// The colour count of a PHC file, at 0x4D.
pub open spec fn phc_color_count(d: Seq<u8>) -> int {
    le16(d[0x4D], d[0x4E])
}

/// The start of the section chain: the 16-bit offset at 0x30 plus the byte
/// at 0x2B.
pub open spec fn phc_chain_start(d: Seq<u8>) -> int {
    le16(d[0x30], d[0x31]) + d[0x2B]
}

/// Whether the file's 16-bit sum of the offset at 0x30 and the byte at 0x2B
/// overflows, which the format's reading does not allow; only reached when
/// the whole colour list is there.
pub open spec fn phc_overflows(d: Seq<u8>) -> bool {
    d.len() >= 0x4F && 0x4F + phc_color_count(d) <= d.len() && phc_chain_start(d) > 0xFFFF
}

/// Where the embedded PEC file of a PHC file starts: the section chain's
/// start holds a 16-bit length, after which a 32-bit length, after which 10
/// bytes and a colour count; the PEC file starts 0x1D bytes plus that count
/// after it. None when a length or the count is cut short.
pub open spec fn phc_pec_position(d: Seq<u8>) -> Option<int> {
    let q = phc_chain_start(d);
    if q + 2 > d.len() {
        None
    } else {
        let a = q + 2 + le16(d[q], d[q + 1]);
        if a + 4 > d.len() {
            None
        } else {
            let b = a + 4 + u32_at(d, a) + 10;
            if b + 1 > d.len() {
                None
            } else {
                Some(b + 1 + d[b] + 0x1D)
            }
        }
    }
}

/// The colours of a PHC file whose header is there: the palette positions
/// of the listed colour bytes, as many as the file holds.
pub open spec fn phc_colors(d: Seq<u8>) -> Seq<usize> {
    let n = phc_color_count(d);
    let have = if 0x4F + n <= d.len() {
        n
    } else {
        d.len() - 0x4F
    };
    palette_positions(d, 0x4F, have as nat)
}

/// A decoded PHC file.
pub struct PhcPattern {
    /// The PEC palette positions of the threads, in order
    pub palette_indices: Vec<usize>,
    /// The embedded PEC section, or why it could not be read; none when the
    /// colour list is cut short
    pub pec: Option<Result<PecSection, Error>>,
}

/// Whether a PHC file can be read without overflow, as `phc_overflows` says.
pub fn is_phc_readable(d: &[u8]) -> (b: bool)
    ensures
        b == !phc_overflows(d@),
{
    let n = d.len();
    if n < 0x4F {
        return true;
    }
    let count = u16_le(d[0x4D], d[0x4E]) as usize;
    if count > n - 0x4F {
        return true;
    }
    let start = u16_le(d[0x30], d[0x31]) as usize + d[0x2B] as usize;
    start <= 0xFFFF
}

/// Decodes a PHC file: the palette positions of its colours and, when its
/// colour list is complete, its embedded PEC file. The colours are kept when
/// the PEC file cannot be read.
pub fn read(d: &[u8]) -> (r: Result<PhcPattern, Error>)
    requires
        !phc_overflows(d@),
    ensures
        d@.len() < 0x4F ==> r is Err,
        d@.len() >= 0x4F ==> (r matches Ok(x) && x.palette_indices@ == phc_colors(d@)),
        d@.len() >= 0x4F && 0x4F + phc_color_count(d@) > d@.len() ==> (r matches Ok(x)
            && x.pec is None),
        d@.len() >= 0x4F && 0x4F + phc_color_count(d@) <= d@.len() ==> (r matches Ok(x) && x.pec
            matches Some(res) && (res is Ok <==> match phc_pec_position(d@) {
            Some(p) => pec_magic_at(d@, p) && pec_section_ok(d@, p + 8),
            None => false,
        }) && (res matches Ok(s) ==> match phc_pec_position(d@) {
            Some(p) => section_read(d@, p + 8, None, s),
            None => false,
        })),
{
    let n = d.len();
    if n < 0x4F {
        return Err(Error::Parse("PHC: header cut short".to_owned()));
    }
    let mut reader = ByteReader::new(d);
    reader.seek(PHC_COLORS_AT);
    let count = match reader.read_u16_le() {
        Ok(v) => v,
        Err(e) => return Err(e),
    };
    if 0x4F + (count as usize) > n {
        let have = (n - 0x4F) as u16;
        let palette_indices = match read_palette_bytes(&mut reader, have) {
            Ok(v) => v,
            Err(e) => return Err(e),
        };
        return Ok(PhcPattern { palette_indices, pec: None });
    }
    let palette_indices = match read_palette_bytes(&mut reader, count) {
        Ok(v) => v,
        Err(e) => return Err(e),
    };
    let pec = read_phc_pec(d);
    Ok(PhcPattern { palette_indices, pec: Some(pec) })
}

/// Follows the section chain of a PHC file whose colour list is complete
/// and reads the embedded PEC file.
fn read_phc_pec(d: &[u8]) -> (r: Result<PecSection, Error>)
    requires
        d@.len() >= 0x4F,
        0x4F + phc_color_count(d@) <= d@.len(),
        !phc_overflows(d@),
    ensures
        r is Ok <==> match phc_pec_position(d@) {
            Some(p) => pec_magic_at(d@, p) && pec_section_ok(d@, p + 8),
            None => false,
        },
        r matches Ok(s) ==> match phc_pec_position(d@) {
            Some(p) => section_read(d@, p + 8, None, s),
            None => false,
        },
{
    let n = d.len();
    let q = u16_le(d[0x30], d[0x31]) + d[0x2B] as u16;
    let mut rd = ByteReader::new(d);
    rd.seek(q as usize);
    let len1 = match rd.read_u16_le() {
        Ok(v) => v,
        Err(_) => return Err(Error::Parse("PHC: section lengths run past the end".to_owned())),
    };
    let a = q as usize + 2 + len1 as usize;
    rd.seek(a);
    let len2 = match rd.read_u32_le() {
        Ok(v) => v,
        Err(_) => return Err(Error::Parse("PHC: section lengths run past the end".to_owned())),
    };
    let b = a as u64 + 4 + len2 as u64 + 10;
    if b >= n as u64 {
        return Err(Error::Parse("PHC: section lengths run past the end".to_owned()));
    }
    let cc = d[b as usize];
    let p = b + 1 + cc as u64 + 0x1D;
    if p > n as u64 {
        return Err(Error::Parse("PHC: PEC position past the end".to_owned()));
    }
    pec::read_at(d, p as usize)
}

} // verus!
