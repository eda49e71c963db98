//! Embird EDR: a list of threads, four bytes each (red, green, blue and a
//! padding byte).

use vstd::prelude::*;
use crate::thread::{EmbThread, rgb_value};

verus! {

/// Whether a thread has a colour and nothing else.
pub open spec fn colour_only(t: EmbThread) -> bool {
    &&& t.description is None && t.catalog_number is None && t.details is None
    &&& t.brand is None && t.chart is None && t.weight is None
    &&& t.attributes@.len() == 0
}

/// Decodes an EDR file: a thread for each full 4-byte record (its colour
/// from the first three bytes, nothing else); a partial record at the end
/// is ignored.
pub fn read(d: &[u8]) -> (r: Vec<EmbThread>)
    ensures
        r@.len() == d@.len() / 4,
        forall|k: int| 0 <= k < r@.len() ==> (#[trigger] r@[k]).color == rgb_value(
            d@[4 * k],
            d@[4 * k + 1],
            d@[4 * k + 2],
        ) && colour_only(r@[k]),
{
    let mut threads: Vec<EmbThread> = Vec::new();
    let mut i: usize = 0;
    let n = d.len();
    while i <= n && n - i >= 4
        invariant
            n == d@.len(),
            i % 4 == 0,
            i <= n,
            threads@.len() == i / 4,
            forall|k: int| 0 <= k < threads@.len() ==> (#[trigger] threads@[k]).color == rgb_value(
                d@[4 * k],
                d@[4 * k + 1],
                d@[4 * k + 2],
            ) && colour_only(threads@[k]),
        decreases n - i,
    {
        threads.push(EmbThread::from_rgb(d[i], d[i + 1], d[i + 2]));
        i = i + 4;
    }
    threads
}

} // verus!
