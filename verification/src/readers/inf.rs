//! INF thread information: a big-endian header with the thread count, then a
//! record per thread with its colour and NUL-terminated description and
//! chart.

use vstd::prelude::*;
use byteorder::ByteOrder;
use crate::bytes::{be16, be32, ByteReader};
use crate::error::Error;
use crate::text::utf8_to_string;
use crate::thread::{EmbThread, rgb_value, opt_view};
use vstd::utf8::{valid_utf8, decode_utf8};

verus! {

/// The most threads an INF file may hold.
pub const MAX_INF_THREADS: u32 = 10_000;

/// The smallest INF thread record (after its length): index and colour.
pub const MIN_INF_RECORD_SIZE: u16 = 5;

/// `byteorder::BigEndian::read_u32`: the big-endian value of the first four
/// bytes (the source reads `buf[..4]`, which panics on fewer bytes).
#[verifier::external_body]
fn read_be_u32(buf: &[u8]) -> (v: u32)
    requires
        buf@.len() >= 4,
    ensures
        v == be32(buf@[0], buf@[1], buf@[2], buf@[3]),
{
    byteorder::BigEndian::read_u32(buf)
}

/// `byteorder::BigEndian::read_u16`: the big-endian value of the first two
/// bytes (the source reads `buf[..2]`, which panics on fewer bytes).
#[verifier::external_body]
fn read_be_u16(buf: &[u8]) -> (v: u16)
    requires
        buf@.len() >= 2,
    ensures
        v == be16(buf@[0], buf@[1]),
{
    byteorder::BigEndian::read_u16(buf)
}

/// The position of the first NUL byte of `s`, or -1.
pub open spec fn nul_pos(s: Seq<u8>) -> int
    decreases s.len(),
{
    if s.len() == 0 {
        -1
    } else if s[0] == 0 {
        0
    } else {
        let r = nul_pos(s.drop_first());
        if r < 0 {
            -1
        } else {
            r + 1
        }
    }
}

/// The text of the bytes of `s` before position `z`, when there are some and
/// they are UTF-8.
pub open spec fn text_before(s: Seq<u8>, z: int) -> Option<Seq<char>> {
    if z > 0 && valid_utf8(s.take(z)) {
        Some(decode_utf8(s.take(z)))
    } else {
        None
    }
}

/// The description of a thread record (the bytes after its length): the
/// NUL-terminated text from position 7.
pub open spec fn inf_description(data: Seq<u8>) -> Option<Seq<char>> {
    if data.len() <= 7 {
        None
    } else {
        let rest = data.skip(7);
        text_before(rest, nul_pos(rest))
    }
}

/// The chart of a thread record: the NUL-terminated text after the
/// description's terminator.
pub open spec fn inf_chart(data: Seq<u8>) -> Option<Seq<char>> {
    if data.len() <= 7 {
        None
    } else {
        let rest = data.skip(7);
        let z = nul_pos(rest);
        if z < 0 || rest.len() <= z + 1 {
            None
        } else {
            let r2 = rest.skip(z + 1);
            text_before(r2, nul_pos(r2))
        }
    }
}

/// Whether a thread is the one that a thread record describes: colour from
/// bytes 2..5, description and chart.
pub open spec fn is_record_thread(t: EmbThread, data: Seq<u8>) -> bool {
    t.color == rgb_value(data[2], data[3], data[4]) && opt_view(t.description) == inf_description(
        data,
    ) && opt_view(t.chart) == inf_chart(data)
}

/// The records of the `left` threads from position `p` on: each is a
/// big-endian length (counting itself, at least 7) followed by its bytes;
/// none when one is broken or cut short.
pub open spec fn inf_records(d: Seq<u8>, p: int, left: nat) -> Option<Seq<Seq<u8>>>
    decreases left,
{
    if left == 0 {
        Some(Seq::empty())
    } else if p < 0 || p + 2 > d.len() {
        None
    } else {
        let len = be16(d[p], d[p + 1]);
        if len < 2 || len - 2 < MIN_INF_RECORD_SIZE || p + len > d.len() {
            None
        } else {
            match inf_records(d, p + len, (left - 1) as nat) {
                Some(rest) => Some(seq![d.subrange(p + 2, p + len)] + rest),
                None => None,
            }
        }
    }
}

/// The thread records of an INF file; none when the header is cut short,
/// the thread count exceeds `MAX_INF_THREADS`, or a record is broken.
pub open spec fn inf_file_records(d: Seq<u8>) -> Option<Seq<Seq<u8>>> {
    if d.len() < 16 {
        None
    } else {
        let count = be32(d[12], d[13], d[14], d[15]);
        if count > MAX_INF_THREADS {
            None
        } else {
            inf_records(d, 16, count as nat)
        }
    }
}

/// The NUL-terminated text of `v` from position `start`, if any.
fn text_until_nul(v: &Vec<u8>, start: usize) -> (r: (Option<String>, Option<usize>))
    requires
        start <= v@.len(),
    ensures
        ({
            let s = v@.skip(start as int);
            let z = nul_pos(s);
            &&& (z < 0 ==> r.1 is None)
            &&& (z >= 0 ==> (r.1 matches Some(p) && p == start + z))
            &&& opt_view(r.0) == text_before(s, z)
            &&& (r.1 matches Some(p) ==> start <= p < v@.len())
        }),
{
    let ghost s = v@.skip(start as int);
    let mut k: usize = start;
    while k < v.len() && v[k] != 0
        invariant
            start <= k <= v@.len(),
            s == v@.skip(start as int),
            nul_pos(s) == (if nul_pos(v@.skip(k as int)) < 0 {
                -1
            } else {
                nul_pos(v@.skip(k as int)) + k - start
            }),
        decreases v@.len() - k,
    {
        assert(v@.skip(k as int).drop_first() =~= v@.skip(k + 1));
        k = k + 1;
    }
    if k >= v.len() {
        assert(v@.skip(k as int).len() == 0);
        return (None, None);
    }
    let z = k - start;
    if z == 0 {
        return (None, Some(k));
    }
    let mut bytes: Vec<u8> = Vec::new();
    let mut j: usize = start;
    while j < k
        invariant
            start <= j <= k < v@.len(),
            bytes@ == v@.subrange(start as int, j as int),
        decreases k - j,
    {
        bytes.push(v[j]);
        j = j + 1;
        assert(bytes@ =~= v@.subrange(start as int, j as int));
    }
    assert(bytes@ =~= s.take(z as int));
    (utf8_to_string(bytes.as_slice()), Some(k))
}

/// The thread of an INF record (the bytes after its length).
fn record_thread(data: &Vec<u8>) -> (t: EmbThread)
    requires
        data@.len() >= 5,
    ensures
        is_record_thread(t, data@),
{
    let mut thread = EmbThread::from_rgb(data[2], data[3], data[4]);
    if data.len() > 7 {
        let (desc, z) = text_until_nul(data, 7);
        assert(data@.skip(7) =~= data@.skip(7));
        if let Some(s) = desc {
            thread = thread.with_description(s.as_str());
        }
        if let Some(zp) = z {
            if data.len() > zp + 1 {
                let ghost rest = data@.skip(7);
                assert(rest.skip(zp - 7 + 1) =~= data@.skip(zp + 1));
                assert(nul_pos(rest) == zp - 7);
                let (chart, _) = text_until_nul(data, zp + 1);
                if let Some(c) = chart {
                    thread = thread.with_chart(c.as_str());
                }
            }
        }
    }
    thread
}

/// Decodes an INF file into its threads.
pub fn read(d: &[u8]) -> (r: Result<Vec<EmbThread>, Error>)
    ensures
        match inf_file_records(d@) {
            None => r matches Err(Error::Parse(_)),
            Some(recs) => r matches Ok(v) && v@.len() == recs.len() && forall|k: int|
                0 <= k < recs.len() ==> is_record_thread(#[trigger] v@[k], recs[k]),
        },
{
    if d.len() < 16 {
        return Err(Error::Parse("INF: Unexpected EOF reading header".to_owned()));
    }
    let mut reader = ByteReader::new(d);
    reader.seek(12);
    let head = match reader.read_bytes(4) {
        Ok(v) => v,
        Err(e) => return Err(e),
    };
    let count = read_be_u32(head.as_slice());
    if count > MAX_INF_THREADS {
        return Err(Error::Parse("INF: Thread count exceeds maximum of 10000".to_owned()));
    }
    let ghost total = inf_records(d@, 16, count as nat);
    let mut threads: Vec<EmbThread> = Vec::new();
    let ghost mut done: Seq<Seq<u8>> = Seq::empty();
    let mut k: u32 = 0;
    while k < count
        invariant
            reader.bytes() == d@,
            d@.len() >= 16,
            count <= MAX_INF_THREADS,
            count == be32(d@[12], d@[13], d@[14], d@[15]),
            total == inf_records(d@, 16, count as nat),
            k <= count,
            threads@.len() == done.len(),
            forall|j: int| 0 <= j < done.len() ==> is_record_thread(#[trigger] threads@[j], done[j]),
            reader.pos() >= 0,
            total == (match inf_records(d@, reader.pos(), (count - k) as nat) {
                Some(rest) => Some(done + rest),
                None => None,
            }),
        decreases count - k,
    {
        let ghost p = reader.pos();
        let lb = match reader.read_bytes(2) {
            Ok(v) => v,
            Err(_) => return Err(Error::Parse("INF: Unexpected EOF reading thread length".to_owned())),
        };
        let length = read_be_u16(lb.as_slice());
        if length < 2 {
            return Err(Error::Parse("INF: Thread has invalid record length".to_owned()));
        }
        let data_length = length - 2;
        if data_length < MIN_INF_RECORD_SIZE {
            return Err(Error::Parse("INF: Thread record too small".to_owned()));
        }
        let data = match reader.read_bytes(data_length as usize) {
            Ok(v) => v,
            Err(_) => return Err(Error::Parse("INF: Unexpected EOF reading thread data".to_owned())),
        };
        threads.push(record_thread(&data));
        proof {
            let rest = inf_records(d@, p + length, (count - k - 1) as nat);
            if let Some(r) = rest {
                assert(done + (seq![data@] + r) =~= done.push(data@) + r);
            }
            done = done.push(data@);
        }
        k = k + 1;
    }
    assert(done + Seq::<Seq<u8>>::empty() =~= done);
    Ok(threads)
}

} // verus!
