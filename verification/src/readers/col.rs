//! COL thread lists: a text whose first line is the thread count, followed
//! by one `catalog,red,green,blue` line per thread.

use vstd::prelude::*;
use crate::error::Error;
use crate::text::{
    char_vecs_view, parse_unsigned, parse_unsigned_spec, split_chars, split_on, str_chars,
    trim, trim_chars, utf8_to_string, lemma_split_nonempty,
};
use crate::thread::{EmbThread, opt_view, rgb_value};
use vstd::utf8::{valid_utf8, decode_utf8};

verus! {

/// The most threads a COL file may list.
pub const MAX_COL_THREADS: usize = 10_000;

/// Where the line that starts at `i` ends: the first line feed at or after
/// `i`, or the end of the data.
pub open spec fn line_end(d: Seq<u8>, i: int) -> int
    decreases d.len() - i,
{
    if i >= d.len() {
        d.len() as int
    } else if d[i] == 0x0A {
        i
    } else {
        line_end(d, i + 1)
    }
}

/// The line that starts at `i`, as `BufRead::lines` gives it: its bytes up
/// to the line feed, without a carriage return just before that line feed;
/// with the position of the next line. None at the end of the data.
pub open spec fn line_at(d: Seq<u8>, i: int) -> Option<(Seq<u8>, int)> {
    if i < 0 || i >= d.len() {
        None
    } else {
        let e = line_end(d, i);
        if e < d.len() {
            let raw = d.subrange(i, e);
            let line = if raw.len() > 0 && raw.last() == 0x0D {
                raw.drop_last()
            } else {
                raw
            };
            Some((line, e + 1))
        } else {
            Some((d.subrange(i, e), e))
        }
    }
}

/// The lines from position `i` on, as `BufRead::lines` gives them.
pub open spec fn lines_from(d: Seq<u8>, i: int) -> Seq<Seq<u8>>
    decreases d.len() - i,
{
    match line_at(d, i) {
        None => Seq::empty(),
        Some((l, next)) => if i < next <= d.len() {
            seq![l] + lines_from(d, next)
        } else {
            Seq::empty()
        },
    }
}

/// The text of the line at `i` when there is one and it is UTF-8.
pub open spec fn text_line(d: Seq<u8>, i: int) -> Option<(Seq<char>, int)> {
    match line_at(d, i) {
        None => None,
        Some((l, next)) => if valid_utf8(l) {
            Some((decode_utf8(l), next))
        } else {
            None
        },
    }
}

/// What a thread line holds: red, green, blue and the catalog number,
/// which is there when the first field (trimmed) is neither empty nor `0`.
pub type ColThread = (u8, u8, u8, Option<Seq<char>>);

/// The thread of a line: at least four comma-separated fields, the second
/// to fourth (trimmed) decimal bytes.
pub open spec fn col_thread(text: Seq<char>) -> Option<ColThread> {
    let parts = split_on(text, ',');
    if parts.len() < 4 {
        None
    } else {
        let catalog = trim(parts[0]);
        match (
            parse_unsigned_spec(trim(parts[1]), 10, 255),
            parse_unsigned_spec(trim(parts[2]), 10, 255),
            parse_unsigned_spec(trim(parts[3]), 10, 255),
        ) {
            (Some(r), Some(g), Some(b)) => Some(
                (
                    r as u8,
                    g as u8,
                    b as u8,
                    if catalog.len() > 0 && catalog != "0"@ {
                        Some(catalog)
                    } else {
                        None
                    },
                ),
            ),
            _ => None,
        }
    }
}

/// The threads of `k` lines from position `p`, with the position after them.
pub open spec fn col_threads(d: Seq<u8>, p: int, k: nat) -> Option<(Seq<ColThread>, int)>
    decreases k,
{
    if k == 0 {
        Some((Seq::empty(), p))
    } else {
        match col_threads(d, p, (k - 1) as nat) {
            None => None,
            Some((v, q)) => match text_line(d, q) {
                None => None,
                Some((text, r)) => match col_thread(text) {
                    None => None,
                    Some(t) => Some((v.push(t), r)),
                },
            },
        }
    }
}

/// The thread count of the first line (trimmed) and where the thread lines
/// start.
pub open spec fn col_count(d: Seq<u8>) -> Option<(nat, int)> {
    match text_line(d, 0) {
        None => None,
        Some((text, p)) => match parse_unsigned_spec(trim(text), 10, usize::MAX as nat) {
            None => None,
            Some(n) => Some((n, p)),
        },
    }
}

/// What a COL file lists: none when the count line is missing, not a
/// number or above 10 000, or a thread line is missing or broken.
pub open spec fn col_list(d: Seq<u8>) -> Option<Seq<ColThread>> {
    match col_count(d) {
        None => None,
        Some((n, p)) => if n > MAX_COL_THREADS {
            None
        } else {
            match col_threads(d, p, n) {
                None => None,
                Some((v, _)) => Some(v),
            }
        },
    }
}

/// Whether a thread is the one that a thread line describes.
pub open spec fn is_col_thread(t: EmbThread, c: ColThread) -> bool {
    &&& t.color == rgb_value(c.0, c.1, c.2)
    &&& opt_view(t.catalog_number) == c.3
    &&& t.description is None && t.brand is None && t.chart is None
    &&& t.details is None && t.weight is None
}

/// More lines than a failed read cannot be read either.
proof fn lemma_threads_fail(d: Seq<u8>, p: int, n: nat, m: nat)
    requires
        col_threads(d, p, n) is None,
        n <= m,
    ensures
        col_threads(d, p, m) is None,
    decreases m - n,
{
    if n < m {
        lemma_threads_fail(d, p, n, (m - 1) as nat);
    }
}

/// Reads the line that starts at `i`.
pub(crate) fn read_line(d: &[u8], i: usize) -> (r: Option<(Option<String>, usize)>)
    ensures
        match line_at(d@, i as int) {
            None => r is None,
            Some((l, next)) => r matches Some((s, q)) && q == next && (valid_utf8(l) ==> (s matches Some(x) && x@ == decode_utf8(l))) && (!valid_utf8(l) ==> s is None),
        },
{
    let n = d.len();
    if i >= n {
        return None;
    }
    let mut e = i;
    while e < n && d[e] != 0x0A
        invariant
            i <= e <= n,
            n == d@.len(),
            line_end(d@, i as int) == line_end(d@, e as int),
        decreases n - e,
    {
        e = e + 1;
    }
    let mut end = e;
    if e < n && e > i && d[e - 1] == 0x0D {
        end = e - 1;
    }
    let mut bytes: Vec<u8> = Vec::new();
    let mut k = i;
    while k < end
        invariant
            i <= k <= end <= n,
            n == d@.len(),
            bytes@ == d@.subrange(i as int, k as int),
        decreases end - k,
    {
        bytes.push(d[k]);
        k = k + 1;
        assert(bytes@ =~= d@.subrange(i as int, k as int));
    }
    let next = if e < n {
        e + 1
    } else {
        e
    };
    proof {
        if e < n {
            let raw = d@.subrange(i as int, e as int);
            if raw.len() > 0 && raw.last() == 0x0D {
                assert(raw.drop_last() =~= bytes@);
            } else {
                assert(raw =~= bytes@);
            }
        } else {
            assert(d@.subrange(i as int, e as int) =~= bytes@);
        }
    }
    Some((utf8_to_string(bytes.as_slice()), next))
}

/// Reads the thread of one line.
fn parse_thread_line(text: &str) -> (r: Option<EmbThread>)
    ensures
        match col_thread(text@) {
            None => r is None,
            Some(c) => r matches Some(t) && is_col_thread(t, c),
        },
{
    let chars = str_chars(text);
    let parts = split_chars(chars.as_slice(), ',');
    if parts.len() < 4 {
        return None;
    }
    let catalog = trim_chars(parts[0].as_slice());
    let red = match parse_unsigned(trim_chars(parts[1].as_slice()).as_slice(), 10, 255) {
        Some(v) => v as u8,
        None => return None,
    };
    let green = match parse_unsigned(trim_chars(parts[2].as_slice()).as_slice(), 10, 255) {
        Some(v) => v as u8,
        None => return None,
    };
    let blue = match parse_unsigned(trim_chars(parts[3].as_slice()).as_slice(), 10, 255) {
        Some(v) => v as u8,
        None => return None,
    };
    let mut thread = EmbThread::from_rgb(red, green, blue);
    proof {
        reveal_strlit("0");
    }
    let is_zero = catalog.len() == 1 && catalog[0] == '0';
    assert(is_zero <==> catalog@ == "0"@) by {
        if catalog@ == "0"@ {
            assert(catalog@[0] == "0"@[0]);
        }
        if is_zero {
            assert(catalog@ =~= "0"@);
        }
    }
    if catalog.len() > 0 && !is_zero {
        let s = crate::text::string_from_chars(catalog.as_slice());
        thread = thread.with_catalog_number(s.as_str());
    }
    Some(thread)
}

/// Reads a COL file: its thread count, then that many thread lines.
pub fn read(d: &[u8]) -> (r: Result<Vec<EmbThread>, Error>)
    ensures
        match col_list(d@) {
            None => r is Err,
            Some(v) => r matches Ok(t) && t@.len() == v.len() && forall|k: int|
                0 <= k < v.len() ==> is_col_thread(#[trigger] t@[k], v[k]),
        },
        r matches Err(e) ==> e is Parse,
{
    let (first, mut pos) = match read_line(d, 0) {
        Some((Some(s), p)) => (s, p),
        _ => return Err(Error::Parse("COL: Empty file - expected thread count header".to_owned())),
    };
    let chars = str_chars(first.as_str());
    let count = match parse_unsigned(trim_chars(chars.as_slice()).as_slice(), 10, usize::MAX as u64) {
        Some(v) => v as usize,
        None => return Err(Error::Parse("COL: Invalid thread count in header".to_owned())),
    };
    if count > MAX_COL_THREADS {
        return Err(Error::Parse("COL: Thread count exceeds maximum of 10000".to_owned()));
    }
    let ghost start = pos as int;
    assert(col_count(d@) == Some((count as nat, start)));
    let mut threads: Vec<EmbThread> = Vec::new();
    let mut k: usize = 0;
    while k < count
        invariant
            k <= count <= MAX_COL_THREADS,
            col_count(d@) == Some((count as nat, start)),
            col_threads(d@, start, k as nat) matches Some((v, q)) && q == pos && threads@.len()
                == v.len() && forall|j: int| 0 <= j < v.len() ==> is_col_thread(#[trigger] threads@[j], v[j]),
        decreases count - k,
    {
        let (line, next) = match read_line(d, pos) {
            Some((Some(s), q)) => (s, q),
            _ => {
                proof {
                    lemma_threads_fail(d@, start, (k + 1) as nat, count as nat);
                }
                return Err(Error::Parse("COL: Unexpected end of file".to_owned()));
            },
        };
        let t = match parse_thread_line(line.as_str()) {
            Some(t) => t,
            None => {
                proof {
                    lemma_threads_fail(d@, start, (k + 1) as nat, count as nat);
                }
                return Err(Error::Parse("COL: Invalid thread line".to_owned()));
            },
        };
        threads.push(t);
        pos = next;
        k = k + 1;
    }
    Ok(threads)
}

} // verus!
