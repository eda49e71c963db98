//! Brother PES: an 8-byte version text, the position of the embedded PEC
//! section, a header whose layout depends on the version (design texts and,
//! from version 5 on, the thread chart), and the PEC section itself. A file
//! that starts with `#PEC0001` is a standalone PEC section.

use vstd::prelude::*;
use crate::bytes::{le16, le32, signed32, ByteReader};
use crate::error::Error;
use crate::readers::pec::{
    self as pec, entries_view, pec_file_magic, pec_section_ok, section_read, PecSection,
};
use crate::text::utf8_to_string;
use crate::thread::{EmbThread, opt_view, rgb_value};
use vstd::utf8::{valid_utf8, decode_utf8};

verus! {

/// The furthest position at which the PEC section may start.
pub const MAX_PEC_OFFSET: i32 = 100_000_000;

/// A metadata entry: key and value.
pub type Entry = (Seq<char>, Seq<char>);

/// What a PES thread record holds: red, green, blue, catalog number,
/// description, brand and chart.
pub type ThreadFields = (u8, u8, u8, Option<Seq<char>>, Option<Seq<char>>, Option<Seq<char>>, Option<
    Seq<char>,
>);

/// A PES text at `i`: a length byte and that many bytes of UTF-8 text, none
/// when the length is 0; with the position after it. Fails when the bytes
/// run out or are not UTF-8.
pub open spec fn pes_string(d: Seq<u8>, i: int) -> Option<(Option<Seq<char>>, int)> {
    if i >= d.len() {
        None
    } else {
        let n = d[i] as int;
        if n == 0 {
            Some((None, i + 1))
        } else if i + 1 + n > d.len() || !valid_utf8(d.subrange(i + 1, i + 1 + n)) {
            None
        } else {
            Some((Some(decode_utf8(d.subrange(i + 1, i + 1 + n))), i + 1 + n))
        }
    }
}

/// `n` PES texts one after the other from `i`, with the position after them.
pub open spec fn pes_strings(d: Seq<u8>, i: int, n: nat) -> Option<(Seq<Option<Seq<char>>>, int)>
    decreases n,
{
    if n == 0 {
        Some((Seq::empty(), i))
    } else {
        match pes_strings(d, i, (n - 1) as nat) {
            None => None,
            Some((v, p)) => match pes_string(d, p) {
                None => None,
                Some((s, q)) => Some((v.push(s), q)),
            },
        }
    }
}

/// A PES thread record at `i`: its catalog number, three colour bytes, five
/// bytes skipped, its description, brand and chart; with the position after it.
pub open spec fn pes_thread(d: Seq<u8>, i: int) -> Option<(ThreadFields, int)> {
    match pes_string(d, i) {
        None => None,
        Some((catalog, p)) => if p + 8 > d.len() {
            None
        } else {
            match pes_string(d, p + 8) {
                None => None,
                Some((description, q)) => match pes_string(d, q) {
                    None => None,
                    Some((brand, r)) => match pes_string(d, r) {
                        None => None,
                        Some((chart, e)) => Some(
                            ((d[p], d[p + 1], d[p + 2], catalog, description, brand, chart), e),
                        ),
                    },
                },
            }
        },
    }
}

/// `n` PES thread records one after the other from `i`, with the position
/// after them.
pub open spec fn pes_threads(d: Seq<u8>, i: int, n: nat) -> Option<(Seq<ThreadFields>, int)>
    decreases n,
{
    if n == 0 {
        Some((Seq::empty(), i))
    } else {
        match pes_threads(d, i, (n - 1) as nat) {
            None => None,
            Some((v, p)) => match pes_thread(d, p) {
                None => None,
                Some((t, q)) => Some((v.push(t), q)),
            },
        }
    }
}

/// Whether a thread is the one that a PES thread record describes.
pub open spec fn is_pes_thread(t: EmbThread, f: ThreadFields) -> bool {
    &&& t.color == rgb_value(f.0, f.1, f.2)
    &&& opt_view(t.catalog_number) == f.3
    &&& opt_view(t.description) == f.4
    &&& opt_view(t.brand) == f.5
    &&& opt_view(t.chart) == f.6
    &&& t.details is None
    &&& t.weight is None
    &&& t.wf()
    &&& t.attributes@.len() == 0
}

/// Whether the threads are the ones that the records describe, in order.
pub open spec fn threads_match(v: Seq<EmbThread>, f: Seq<ThreadFields>) -> bool {
    v.len() == f.len() && forall|k: int| 0 <= k < v.len() ==> is_pes_thread(#[trigger] v[k], f[k])
}

/// The entry for a text when there is one and it is not empty.
pub open spec fn entry_if(key: Seq<char>, v: Option<Seq<char>>) -> Seq<Entry> {
    match v {
        Some(s) => if s.len() > 0 {
            seq![(key, s)]
        } else {
            Seq::empty()
        },
        None => Seq::empty(),
    }
}

/// The design texts of a PES header: name, category, author, keywords and
/// comments, each entered when it is there and not empty.
pub open spec fn design_entries(v: Seq<Option<Seq<char>>>) -> Seq<Entry> {
    entry_if("name"@, v[0]) + entry_if("category"@, v[1]) + entry_if("author"@, v[2]) + entry_if(
        "keywords"@,
        v[3],
    ) + entry_if("comments"@, v[4])
}

/// The thread chart that follows the three counts at `c` (programmable
/// fills, motifs, feather patterns): empty when one of them is not zero,
/// else the threads that the thread count after them announces.
pub open spec fn pes_chart(d: Seq<u8>, c: int) -> Option<Seq<ThreadFields>> {
    if c + 2 > d.len() {
        None
    } else if le16(d[c], d[c + 1]) != 0 {
        Some(Seq::empty())
    } else if c + 4 > d.len() {
        None
    } else if le16(d[c + 2], d[c + 3]) != 0 {
        Some(Seq::empty())
    } else if c + 6 > d.len() {
        None
    } else if le16(d[c + 4], d[c + 5]) != 0 {
        Some(Seq::empty())
    } else if c + 8 > d.len() {
        None
    } else {
        match pes_threads(d, c + 8, le16(d[c + 6], d[c + 7]) as nat) {
            None => None,
            Some((t, _)) => Some(t),
        }
    }
}

/// The version text and header layout of the version bytes 4..8 after
/// `#PES`: layout 6 for versions 6 to 10, 5 for 5, 5.5 and 5.6, 4 for 4, and
/// 0 (nothing more to read) for 3, 2.2, 2 and 1; none for another version.
pub open spec fn pes_version(a: u8, b: u8, c: u8, e: u8) -> Option<(Seq<char>, nat)> {
    // the bytes are ASCII digits: 0x30 is '0'
    if a != 0x30 {
        None
    } else if b == 0x31 && c == 0x30 && e == 0x30 {
        Some(("10"@, 6))
    } else if b == 0x30 && c == 0x39 && e == 0x30 {
        Some(("9"@, 6))
    } else if b == 0x30 && c == 0x38 && e == 0x30 {
        Some(("8"@, 6))
    } else if b == 0x30 && c == 0x37 && e == 0x30 {
        Some(("7"@, 6))
    } else if b == 0x30 && c == 0x36 && e == 0x30 {
        Some(("6"@, 6))
    } else if b == 0x30 && c == 0x35 && (e == 0x30 || e == 0x35 || e == 0x36) {
        Some(("5"@, 5))
    } else if b == 0x30 && c == 0x34 && e == 0x30 {
        Some(("4"@, 4))
    } else if b == 0x30 && c == 0x33 && e == 0x30 {
        Some(("3"@, 0))
    } else if b == 0x30 && c == 0x32 && e == 0x32 {
        Some(("2.2"@, 0))
    } else if b == 0x30 && c == 0x32 && e == 0x30 {
        Some(("2"@, 0))
    } else if b == 0x30 && c == 0x30 && e == 0x31 {
        Some(("1"@, 0))
    } else {
        None
    }
}

/// The texts and thread chart of a header of the given layout whose body
/// starts at `i`.
pub open spec fn pes_body(d: Seq<u8>, i: int, layout: nat) -> Option<(Seq<Entry>, Seq<ThreadFields>)> {
    if layout == 0 {
        Some((Seq::empty(), Seq::empty()))
    } else if i + 4 > d.len() {
        None
    } else {
        match pes_strings(d, i + 4, 5) {
            None => None,
            Some((v, p)) => if layout == 4 {
                Some((design_entries(v), Seq::empty()))
            } else {
                let gap: int = if layout == 5 {
                    24
                } else {
                    36
                };
                if p + gap > d.len() {
                    None
                } else {
                    match pes_string(d, p + gap) {
                        None => None,
                        Some((image, q)) => if q + 24 > d.len() {
                            None
                        } else {
                            match pes_chart(d, q + 24) {
                                None => None,
                                Some(t) => Some(
                                    (design_entries(v) + entry_if("image_file"@, image), t),
                                ),
                            }
                        },
                    }
                }
            },
        }
    }
}

/// `#PES` and `#PEC` as bytes.
pub open spec fn pes_prefix() -> Seq<u8> {
    seq![0x23u8, 0x50u8, 0x45u8, 0x53u8]
}

/// `#PEC` as bytes.
pub open spec fn pec_prefix() -> Seq<u8> {
    seq![0x23u8, 0x50u8, 0x45u8, 0x43u8]
}

/// Whether the data is a standalone PEC file: it starts with `#PEC0001`.
pub open spec fn is_pec_file(d: Seq<u8>) -> bool {
    d.len() >= 8 && d.take(8) == pec_file_magic()
}

/// What the PES part of a file gives (when it is not a standalone PEC
/// file): its metadata entries (the version first), its thread chart and
/// the position of the PEC section. None when the file is shorter than 12
/// bytes, does not start with `#PES` or `#PEC`, gives a PEC position
/// outside 0..=100 000 000, or its header is cut short or holds a text that
/// is not UTF-8. An unknown version adds no metadata.
pub open spec fn pes_layout(d: Seq<u8>) -> Option<(Seq<Entry>, Seq<ThreadFields>, int)> {
    if d.len() < 12 || !(d.take(4) == pes_prefix() || d.take(4) == pec_prefix()) {
        None
    } else {
        let pos = signed32(le32(d[8], d[9], d[10], d[11]));
        if pos < 0 || pos > MAX_PEC_OFFSET {
            None
        } else if d.take(4) != pes_prefix() {
            Some((Seq::empty(), Seq::empty(), pos))
        } else {
            match pes_version(d[4], d[5], d[6], d[7]) {
                None => Some((Seq::empty(), Seq::empty(), pos)),
                Some((v, layout)) => match pes_body(d, 12, layout) {
                    None => None,
                    Some((m, t)) => Some((seq![("version"@, v)] + m, t, pos)),
                },
            }
        }
    }
}

/// A decoded PES file.
pub struct PesPattern {
    /// The metadata entries of the PES header, in order
    pub metadata: Vec<(String, String)>,
    /// The thread chart of the PES header
    pub chart: Vec<EmbThread>,
    /// The PEC section
    pub pec: PecSection,
}

/// More texts than a failed read cannot be read either.
proof fn lemma_strings_fail(d: Seq<u8>, i: int, n: nat, m: nat)
    requires
        pes_strings(d, i, n) is None,
        n <= m,
    ensures
        pes_strings(d, i, m) is None,
    decreases m - n,
{
    if n < m {
        lemma_strings_fail(d, i, n, (m - 1) as nat);
    }
}

/// Reading `n` texts gives `n` of them.
proof fn lemma_strings_len(d: Seq<u8>, i: int, n: nat)
    requires
        pes_strings(d, i, n) is Some,
    ensures
        pes_strings(d, i, n)->Some_0.0.len() == n,
    decreases n,
{
    if n > 0 {
        lemma_strings_len(d, i, (n - 1) as nat);
    }
}

/// More threads than a failed read cannot be read either.
proof fn lemma_threads_fail(d: Seq<u8>, i: int, n: nat, m: nat)
    requires
        pes_threads(d, i, n) is None,
        n <= m,
    ensures
        pes_threads(d, i, m) is None,
    decreases m - n,
{
    if n < m {
        lemma_threads_fail(d, i, n, (m - 1) as nat);
    }
}

/// The texts of a sequence of optional strings.
pub open spec fn opt_views(v: Seq<Option<String>>) -> Seq<Option<Seq<char>>> {
    v.map_values(|o: Option<String>| opt_view(o))
}

/// Reads a PES text.
fn read_pes_string(r: &mut ByteReader) -> (res: Result<Option<String>, Error>)
    ensures
        final(r).bytes() == old(r).bytes(),
        match pes_string(old(r).bytes(), old(r).pos()) {
            None => res is Err,
            Some((s, next)) => res matches Ok(v) && opt_view(v) == s && final(r).pos() == next,
        },
{
    let n = match r.read_u8() {
        Ok(v) => v,
        Err(e) => return Err(e),
    };
    if n == 0 {
        return Ok(None);
    }
    let bytes = match r.read_bytes(n as usize) {
        Ok(b) => b,
        Err(e) => return Err(e),
    };
    match utf8_to_string(bytes.as_slice()) {
        Some(s) => Ok(Some(s)),
        None => Err(Error::Parse("PES text is not UTF-8".to_owned())),
    }
}

/// Reads `count` PES texts.
fn read_pes_strings(r: &mut ByteReader, count: usize) -> (res: Result<Vec<Option<String>>, Error>)
    ensures
        final(r).bytes() == old(r).bytes(),
        match pes_strings(old(r).bytes(), old(r).pos(), count as nat) {
            None => res is Err,
            Some((v, next)) => res matches Ok(out) && opt_views(out@) == v && final(r).pos() == next,
        },
{
    let ghost d = r.bytes();
    let ghost start = r.pos();
    let mut out: Vec<Option<String>> = Vec::new();
    let mut k: usize = 0;
    while k < count
        invariant
            k <= count,
            r.bytes() == d,
            d == old(r).bytes(),
            start == old(r).pos(),
            pes_strings(d, start, k as nat) == Some((opt_views(out@), r.pos())),
        decreases count - k,
    {
        let ghost before = opt_views(out@);
        match read_pes_string(r) {
            Ok(s) => {
                out.push(s);
                assert(opt_views(out@) =~= before.push(opt_view(s)));
            },
            Err(e) => {
                proof {
                    lemma_strings_fail(d, start, (k + 1) as nat, count as nat);
                }
                return Err(e);
            },
        }
        k = k + 1;
    }
    Ok(out)
}

/// Reads a PES thread record.
fn read_pes_thread(r: &mut ByteReader) -> (res: Result<EmbThread, Error>)
    ensures
        final(r).bytes() == old(r).bytes(),
        match pes_thread(old(r).bytes(), old(r).pos()) {
            None => res is Err,
            Some((f, next)) => res matches Ok(t) && is_pes_thread(t, f) && final(r).pos() == next,
        },
{
    let catalog = match read_pes_string(r) {
        Ok(s) => s,
        Err(e) => return Err(e),
    };
    let ghost p = r.pos();
    let red = match r.read_u8() {
        Ok(v) => v,
        Err(e) => return Err(e),
    };
    let green = match r.read_u8() {
        Ok(v) => v,
        Err(e) => return Err(e),
    };
    let blue = match r.read_u8() {
        Ok(v) => v,
        Err(e) => return Err(e),
    };
    match r.read_bytes(5) {
        Ok(_) => {},
        Err(e) => return Err(e),
    }
    assert(r.pos() == p + 8);
    let description = match read_pes_string(r) {
        Ok(s) => s,
        Err(e) => return Err(e),
    };
    let brand = match read_pes_string(r) {
        Ok(s) => s,
        Err(e) => return Err(e),
    };
    let chart = match read_pes_string(r) {
        Ok(s) => s,
        Err(e) => return Err(e),
    };
    let mut thread = EmbThread::from_rgb(red, green, blue);
    if let Some(c) = catalog {
        thread = thread.with_catalog_number(c.as_str());
    }
    if let Some(c) = description {
        thread = thread.with_description(c.as_str());
    }
    if let Some(c) = brand {
        thread = thread.with_brand(c.as_str());
    }
    if let Some(c) = chart {
        thread = thread.with_chart(c.as_str());
    }
    Ok(thread)
}

/// Reads `count` PES thread records.
fn read_pes_threads(r: &mut ByteReader, count: u16) -> (res: Result<Vec<EmbThread>, Error>)
    ensures
        final(r).bytes() == old(r).bytes(),
        match pes_threads(old(r).bytes(), old(r).pos(), count as nat) {
            None => res is Err,
            Some((v, next)) => res matches Ok(out) && threads_match(out@, v) && final(r).pos()
                == next,
        },
{
    let ghost d = r.bytes();
    let ghost start = r.pos();
    let mut out: Vec<EmbThread> = Vec::new();
    let mut k: u16 = 0;
    while k < count
        invariant
            k <= count,
            r.bytes() == d,
            d == old(r).bytes(),
            start == old(r).pos(),
            pes_threads(d, start, k as nat) matches Some((v, p)) && threads_match(out@, v) && p
                == r.pos(),
        decreases count - k,
    {
        match read_pes_thread(r) {
            Ok(t) => {
                out.push(t);
            },
            Err(e) => {
                proof {
                    lemma_threads_fail(d, start, (k + 1) as nat, count as nat);
                }
                return Err(e);
            },
        }
        k = k + 1;
    }
    Ok(out)
}

/// Adds an entry for a text when there is one and it is not empty.
fn push_entry(out: &mut Vec<(String, String)>, key: &str, v: Option<String>)
    ensures
        entries_view(final(out)@) == entries_view(old(out)@) + entry_if(key@, opt_view(v)),
{
    let ghost before = entries_view(out@);
    if let Some(s) = v {
        if !s.as_str().is_empty() {
            out.push((key.to_owned(), s));
            assert(entries_view(out@) =~= before + entry_if(key@, opt_view(v)));
            return;
        }
    }
    assert(entries_view(out@) =~= before + entry_if(key@, opt_view(v)));
}

/// Reads the five design texts and enters them.
#[verifier::spinoff_prover]
#[verifier::rlimit(40)]
fn read_design_texts(r: &mut ByteReader, out: &mut Vec<(String, String)>) -> (res: Result<(), Error>)
    ensures
        final(r).bytes() == old(r).bytes(),
        match pes_strings(old(r).bytes(), old(r).pos(), 5) {
            None => res is Err,
            Some((v, next)) => res is Ok && final(r).pos() == next && entries_view(final(out)@)
                == entries_view(old(out)@) + design_entries(v),
        },
{
    let mut v = match read_pes_strings(r, 5) {
        Ok(v) => v,
        Err(e) => return Err(e),
    };
    let ghost texts = opt_views(v@);
    proof {
        lemma_strings_len(old(r).bytes(), old(r).pos(), 5);
    }
    assert(v@.len() == 5);
    let comments = v.pop().unwrap();
    let keywords = v.pop().unwrap();
    let author = v.pop().unwrap();
    let category = v.pop().unwrap();
    let name = v.pop().unwrap();
    assert(opt_view(name) == texts[0]);
    assert(opt_view(category) == texts[1]);
    assert(opt_view(author) == texts[2]);
    assert(opt_view(keywords) == texts[3]);
    assert(opt_view(comments) == texts[4]);
    let ghost before = entries_view(out@);
    proof {
        reveal_strlit("name");
        reveal_strlit("category");
        reveal_strlit("author");
        reveal_strlit("keywords");
        reveal_strlit("comments");
    }
    push_entry(out, "name", name);
    push_entry(out, "category", category);
    push_entry(out, "author", author);
    push_entry(out, "keywords", keywords);
    push_entry(out, "comments", comments);
    assert(entries_view(out@) =~= before + design_entries(texts));
    Ok(())
}

/// Skips `n` bytes, which must be there.
fn skip(r: &mut ByteReader, n: usize) -> (res: Result<(), Error>)
    ensures
        final(r).bytes() == old(r).bytes(),
        old(r).has(n as int) ==> res is Ok && final(r).pos() == old(r).pos() + n,
        !old(r).has(n as int) ==> res is Err,
{
    match r.read_bytes(n) {
        Ok(_) => Ok(()),
        Err(e) => Err(e),
    }
}

/// Reads the thread chart that follows the three counts at the position.
fn read_pes_chart(r: &mut ByteReader) -> (res: Result<Vec<EmbThread>, Error>)
    ensures
        match pes_chart(old(r).bytes(), old(r).pos()) {
            None => res is Err,
            Some(t) => res matches Ok(v) && threads_match(v@, t),
        },
{
    let fills = match r.read_u16_le() {
        Ok(v) => v,
        Err(e) => return Err(e),
    };
    if fills != 0 {
        return Ok(Vec::new());
    }
    let motifs = match r.read_u16_le() {
        Ok(v) => v,
        Err(e) => return Err(e),
    };
    if motifs != 0 {
        return Ok(Vec::new());
    }
    let feathers = match r.read_u16_le() {
        Ok(v) => v,
        Err(e) => return Err(e),
    };
    if feathers != 0 {
        return Ok(Vec::new());
    }
    let count = match r.read_u16_le() {
        Ok(v) => v,
        Err(e) => return Err(e),
    };
    read_pes_threads(r, count)
}

/// Reads the header body of the given layout (4, 5 or 6): the design
/// texts, and for 5 and 6 the image file name and the thread chart.
fn read_pes_body(r: &mut ByteReader, layout: u8, out: &mut Vec<(String, String)>) -> (res: Result<
    Vec<EmbThread>,
    Error,
>)
    requires
        layout == 4 || layout == 5 || layout == 6,
    ensures
        match pes_body(old(r).bytes(), old(r).pos(), layout as nat) {
            None => res is Err,
            Some((m, t)) => res matches Ok(v) && threads_match(v@, t) && entries_view(final(out)@)
                == entries_view(old(out)@) + m,
        },
{
    let ghost d = r.bytes();
    let ghost before = entries_view(out@);
    match skip(r, 4) {
        Ok(_) => {},
        Err(e) => return Err(e),
    }
    match read_design_texts(r, out) {
        Ok(_) => {},
        Err(e) => return Err(e),
    }
    if layout == 4 {
        assert(entries_view(out@) =~= before + entries_view(out@).skip(before.len() as int));
        return Ok(Vec::new());
    }
    let gap: usize = if layout == 5 {
        24
    } else {
        36
    };
    match skip(r, gap) {
        Ok(_) => {},
        Err(e) => return Err(e),
    }
    let image = match read_pes_string(r) {
        Ok(s) => s,
        Err(e) => return Err(e),
    };
    match skip(r, 24) {
        Ok(_) => {},
        Err(e) => return Err(e),
    }
    let chart = match read_pes_chart(r) {
        Ok(v) => v,
        Err(e) => return Err(e),
    };
    let ghost mid = entries_view(out@);
    proof {
        reveal_strlit("image_file");
    }
    push_entry(out, "image_file", image);
    assert(entries_view(out@) =~= before + (mid.skip(before.len() as int) + entry_if(
        "image_file"@,
        opt_view(image),
    )));
    Ok(chart)
}

/// The version text and layout of the version bytes, as `pes_version` gives them.
fn version_of(a: u8, b: u8, c: u8, e: u8) -> (r: Option<(String, u8)>)
    ensures
        match pes_version(a, b, c, e) {
            None => r is None,
            Some((v, layout)) => r matches Some((s, l)) && s@ == v && l == layout,
        },
{
    proof {
        reveal_strlit("10");
        reveal_strlit("9");
        reveal_strlit("8");
        reveal_strlit("7");
        reveal_strlit("6");
        reveal_strlit("5");
        reveal_strlit("4");
        reveal_strlit("3");
        reveal_strlit("2.2");
        reveal_strlit("2");
        reveal_strlit("1");
    }
    if a != 0x30 {
        None
    } else if b == 0x31 && c == 0x30 && e == 0x30 {
        Some(("10".to_owned(), 6))
    } else if b == 0x30 && c == 0x39 && e == 0x30 {
        Some(("9".to_owned(), 6))
    } else if b == 0x30 && c == 0x38 && e == 0x30 {
        Some(("8".to_owned(), 6))
    } else if b == 0x30 && c == 0x37 && e == 0x30 {
        Some(("7".to_owned(), 6))
    } else if b == 0x30 && c == 0x36 && e == 0x30 {
        Some(("6".to_owned(), 6))
    } else if b == 0x30 && c == 0x35 && (e == 0x30 || e == 0x35 || e == 0x36) {
        Some(("5".to_owned(), 5))
    } else if b == 0x30 && c == 0x34 && e == 0x30 {
        Some(("4".to_owned(), 4))
    } else if b == 0x30 && c == 0x33 && e == 0x30 {
        Some(("3".to_owned(), 0))
    } else if b == 0x30 && c == 0x32 && e == 0x32 {
        Some(("2.2".to_owned(), 0))
    } else if b == 0x30 && c == 0x32 && e == 0x30 {
        Some(("2".to_owned(), 0))
    } else if b == 0x30 && c == 0x30 && e == 0x31 {
        Some(("1".to_owned(), 0))
    } else {
        None
    }
}

/// Decodes a PES file: the header's metadata and thread chart, then the PEC
/// section at the position the header gives, whose colours are taken from
/// the chart. A file that starts with `#PEC0001` is read as a standalone PEC
/// section from position 8.
pub fn read(d: &[u8]) -> (r: Result<PesPattern, Error>)
    ensures
        is_pec_file(d@) ==> (r is Ok <==> pec_section_ok(d@, 8)),
        is_pec_file(d@) ==> (r matches Ok(p) ==> p.metadata@.len() == 0 && p.chart@.len() == 0
            && section_read(d@, 8, None, p.pec)),
        !is_pec_file(d@) ==> match pes_layout(d@) {
            None => r is Err,
            Some((m, t, pos)) => (r is Ok <==> pec_section_ok(d@, pos)) && (r matches Ok(p) ==> (
            entries_view(p.metadata@) == m && threads_match(p.chart@, t) && section_read(
                d@,
                pos,
                Some(t.len() as usize),
                p.pec,
            ))),
        },
{
    if d.len() < 8 {
        return Err(Error::Parse("PES file too small: header must be at least 8 bytes".to_owned()));
    }
    let is_pes = d[0] == 0x23 && d[1] == 0x50 && d[2] == 0x45 && d[3] == 0x53;
    let is_pec = d[0] == 0x23 && d[1] == 0x50 && d[2] == 0x45 && d[3] == 0x43;
    assert(is_pes <==> d@.take(4) == pes_prefix()) by {
        if d@.take(4) == pes_prefix() {
            assert(d@.take(4)[0] == d@[0]);
        }
        if is_pes {
            assert(d@.take(4) =~= pes_prefix());
        }
    }
    assert(is_pec <==> d@.take(4) == pec_prefix()) by {
        if is_pec {
            assert(d@.take(4) =~= pec_prefix());
        }
    }
    if !is_pes && !is_pec {
        assert(!is_pec_file(d@)) by {
            if is_pec_file(d@) {
                assert(d@.take(8)[3] == d@[3]);
            }
        }
        return Err(Error::Parse("Invalid PES/PEC header: expected '#PES' or '#PEC'".to_owned()));
    }
    if is_pec && d[4] == 0x30 && d[5] == 0x30 && d[6] == 0x30 && d[7] == 0x31 {
        assert(d@.take(8) =~= pec_file_magic());
        let section = match pec::read_pec(d, 8, None) {
            Ok(s) => s,
            Err(e) => return Err(e),
        };
        return Ok(PesPattern { metadata: Vec::new(), chart: Vec::new(), pec: section });
    }
    assert(!is_pec_file(d@)) by {
        if is_pec_file(d@) {
            assert(d@.take(8)[4] == d@[4]);
            assert(d@.take(8)[5] == d@[5]);
            assert(d@.take(8)[6] == d@[6]);
            assert(d@.take(8)[7] == d@[7]);
            assert(d@.take(8)[3] == d@[3]);
        }
    }
    let mut reader = ByteReader::new(d);
    reader.seek(8);
    let pos = match reader.read_i32_le() {
        Ok(v) => v,
        Err(e) => return Err(e),
    };
    if pos < 0 || pos > MAX_PEC_OFFSET {
        return Err(Error::Parse("Invalid PEC block position".to_owned()));
    }
    let mut metadata: Vec<(String, String)> = Vec::new();
    let mut chart: Vec<EmbThread> = Vec::new();
    if is_pes {
        match version_of(d[4], d[5], d[6], d[7]) {
            None => {},
            Some((v, layout)) => {
                proof {
                    reveal_strlit("version");
                }
                metadata.push(("version".to_owned(), v));
                if layout != 0 {
                    chart = match read_pes_body(&mut reader, layout, &mut metadata) {
                        Ok(c) => c,
                        Err(e) => return Err(e),
                    };
                }
                assert(entries_view(metadata@) =~= seq![("version"@, v@)] + entries_view(
                    metadata@,
                ).skip(1));
            },
        }
    }
    let section = match pec::read_pec(d, pos as usize, Some(chart.len())) {
        Ok(s) => s,
        Err(e) => return Err(e),
    };
    Ok(PesPattern { metadata, chart, pec: section })
}

} // verus!
