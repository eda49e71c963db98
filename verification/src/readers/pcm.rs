//! Pfaff PCM: a list of indices into the 16-colour PCM palette, then PC
//! stitch records with big-endian coordinates.

use vstd::prelude::*;
use crate::bytes::{be16, ByteReader};
use crate::error::Error;
use crate::thread::{EmbThread, rgb_value, opt_view};
use crate::readers::pcd::{PcPattern, pc_ops, read_pc_stitches};

verus! {

/// The PCM thread palette: colours and their descriptions.
pub open spec fn pcm_palette() -> Seq<(u32, &'static str)> {
    seq![
        (0x000000u32, "PCM Color 1"),
        (0x000080u32, "PCM Color 2"),
        (0x0000FFu32, "PCM Color 3"),
        (0x008080u32, "PCM Color 4"),
        (0x00FFFFu32, "PCM Color 5"),
        (0x800080u32, "PCM Color 6"),
        (0xFF00FFu32, "PCM Color 7"),
        (0x800000u32, "PCM Color 8"),
        (0xFF0000u32, "PCM Color 9"),
        (0x008000u32, "PCM Color 10"),
        (0x00FF00u32, "PCM Color 11"),
        (0x808000u32, "PCM Color 12"),
        (0xFFFF00u32, "PCM Color 13"),
        (0x808080u32, "PCM Color 14"),
        (0xC0C0C0u32, "PCM Color 15"),
        (0xFFFFFFu32, "PCM Color 16"),
    ]
}

/// The PCM thread palette.
fn pcm_table() -> (t: [(u32, &'static str); 16])
    ensures
        t@ == pcm_palette(),
{
    let t: [(u32, &'static str); 16] = [
        (0x000000u32, "PCM Color 1"),
        (0x000080u32, "PCM Color 2"),
        (0x0000FFu32, "PCM Color 3"),
        (0x008080u32, "PCM Color 4"),
        (0x00FFFFu32, "PCM Color 5"),
        (0x800080u32, "PCM Color 6"),
        (0xFF00FFu32, "PCM Color 7"),
        (0x800000u32, "PCM Color 8"),
        (0xFF0000u32, "PCM Color 9"),
        (0x008000u32, "PCM Color 10"),
        (0x00FF00u32, "PCM Color 11"),
        (0x808000u32, "PCM Color 12"),
        (0xFFFF00u32, "PCM Color 13"),
        (0x808080u32, "PCM Color 14"),
        (0xC0C0C0u32, "PCM Color 15"),
        (0xFFFFFFu32, "PCM Color 16"),
    ];
    assert(t@ =~= pcm_palette());
    t
}

/// The colour count of a PCM file (a big-endian value at offset 2).
pub open spec fn pcm_color_count(d: Seq<u8>) -> int {
    be16(d[2], d[3])
}

/// The palette index of the `k`-th colour entry.
pub open spec fn pcm_index(d: Seq<u8>, k: int) -> int {
    be16(d[4 + 2 * k], d[5 + 2 * k])
}

/// The palette entries that the colour entries before `k` name: entries
/// whose index lies outside the palette give no thread.
pub open spec fn pcm_threads_before(d: Seq<u8>, k: int) -> Seq<(u32, &'static str)>
    decreases k,
{
    if k <= 0 {
        Seq::empty()
    } else {
        let rest = pcm_threads_before(d, k - 1);
        let ix = pcm_index(d, k - 1);
        if ix < 16 {
            rest.push(pcm_palette()[ix])
        } else {
            rest
        }
    }
}

/// Whether a thread is the palette entry `e`: its colour and description.
pub open spec fn is_palette_thread(t: EmbThread, e: (u32, &'static str)) -> bool {
    t.color == (e.0 & 0xFF_FFFF) && opt_view(t.description) == Some(e.1@)
}

/// Decodes a PCM file: a 16-bit big-endian colour count at offset 2, that
/// many 16-bit palette indices, a stitch count, then the stitch records with
/// big-endian coordinates.
pub fn read(d: &[u8]) -> (r: Result<PcPattern, Error>)
    ensures
        r is Ok <==> (d@.len() >= 4 && 4 + 2 * pcm_color_count(d@) + 2 <= d@.len()),
        r matches Ok(p) ==> p.ops@ == pc_ops(d@, 6 + 2 * pcm_color_count(d@), true)
            && p.threads@.len() == pcm_threads_before(d@, pcm_color_count(d@)).len() && forall|
            k: int,
        |
            0 <= k < p.threads@.len() ==> is_palette_thread(
                #[trigger] p.threads@[k],
                pcm_threads_before(d@, pcm_color_count(d@))[k],
            ),
{
    let table = pcm_table();
    let mut reader = ByteReader::new(d);
    if d.len() < 4 {
        return Err(Error::Parse("Unexpected EOF".to_owned()));
    }
    reader.seek(2);
    let count = match reader.read_u16_be() {
        Ok(c) => c,
        Err(e) => return Err(e),
    };
    let mut threads: Vec<EmbThread> = Vec::new();
    let mut k: u16 = 0;
    while k < count
        invariant
            reader.bytes() == d@,
            d@.len() >= 4,
            table@ == pcm_palette(),
            count == pcm_color_count(d@),
            reader.pos() == 4 + 2 * k,
            k <= count,
            threads@.len() == pcm_threads_before(d@, k as int).len(),
            forall|j: int|
                0 <= j < threads@.len() ==> is_palette_thread(
                    #[trigger] threads@[j],
                    pcm_threads_before(d@, k as int)[j],
                ),
        decreases count - k,
    {
        let index = match reader.read_u16_be() {
            Ok(v) => v,
            Err(e) => return Err(e),
        };
        if index < 16 {
            let (rgb, desc) = table[index as usize];
            let t = EmbThread::from_rgb(((rgb >> 16) & 0xFF) as u8, ((rgb >> 8) & 0xFF) as u8, (rgb & 0xFF) as u8).with_description(desc);
            assert(rgb_value(((rgb >> 16) & 0xFF) as u8, ((rgb >> 8) & 0xFF) as u8, (rgb & 0xFF) as u8) == rgb & 0xFF_FFFF) by (bit_vector);
            threads.push(t);
        }
        k = k + 1;
    }
    let p = reader.position();
    if p > d.len() || d.len() - p < 2 {
        return Err(Error::Parse("Unexpected EOF".to_owned()));
    }
    let ops = read_pc_stitches(d, p + 2, true);
    Ok(PcPattern { threads, ops })
}

} // verus!
