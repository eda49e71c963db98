//! Telling an embroidery file's format from its first bytes (magic bytes and
//! signatures) or, as a fallback, from the extension of its name.

use vstd::prelude::*;
use crate::error::Error;
use crate::text::{str_chars, chars_eq, fold_name_char, fold_char, is_ascii_whitespace_byte};

verus! {

/// The embroidery file formats that detection tells apart.
#[derive(Debug, Clone, Copy, PartialEq, Eq, Structural)]
pub enum Format {
    /// Tajima DST (no magic bytes, 512-byte header)
    DST,
    /// Brother PES (`#PES` prefix)
    PES,
    /// Pfaff VP3 (`%vsm%` signature)
    VP3,
    /// Janome JEF (0x74 at offset 0)
    JEF,
    /// Melco EXP
    EXP,
    /// Brother PEC (`#PEC` prefix)
    PEC,
    /// Singer XXX
    XXX,
    /// Barudan U01
    U01,
    /// Tajima TBF
    TBF,
    /// Thread colour list (COL)
    COL,
    /// Embird colour list (EDR)
    EDR,
    /// Thread information (INF)
    INF,
    /// JSON embroidery data
    JSON,
    /// CSV embroidery data
    CSV,
    /// G-code embroidery data
    GCODE,
    /// Husqvarna Viking HUS
    HUS,
    /// Unknown or unsupported format
    Unknown,
}

/// Format detection by content and by file name.
pub struct FormatDetector;

// ---------------------------------------------------------------------------
// File names and extensions
// ---------------------------------------------------------------------------

/// The position of the last `c` in `s`, or -1 when `s` holds none.
pub open spec fn last_index_of(s: Seq<char>, c: char) -> int
    decreases s.len(),
{
    if s.len() == 0 {
        -1
    } else if s.last() == c {
        s.len() - 1
    } else {
        last_index_of(s.drop_last(), c)
    }
}

/// `last_index_of` lies in `-1..len`.
pub proof fn lemma_last_index_bounds(s: Seq<char>, c: char)
    ensures
        -1 <= last_index_of(s, c) < s.len(),
        last_index_of(s, c) >= 0 ==> s[last_index_of(s, c)] == c,
    decreases s.len(),
{
    if s.len() > 0 && s.last() != c {
        lemma_last_index_bounds(s.drop_last(), c);
    }
}

/// The file name of a `/`-separated path, as `Path::file_name` gives it: the
/// last piece of the path once empty pieces and `.` pieces are left out;
/// none when there is no such piece or when it is `..`.
pub open spec fn file_name_of(p: Seq<char>) -> Option<Seq<char>>
    decreases p.len(),
{
    let slash = last_index_of(p, '/');
    let piece = p.skip(slash + 1);
    if piece.len() == 0 || piece == seq!['.'] {
        if slash < 0 {
            None
        } else {
            proof {
                lemma_last_index_bounds(p, '/');
            }
            file_name_of(p.take(slash))
        }
    } else if piece == seq!['.', '.'] {
        None
    } else {
        Some(piece)
    }
}

/// The extension of a file name, as `Path::extension` gives it: what follows
/// the last `.`, unless there is no `.` or the only one starts the name.
pub open spec fn extension_of_name(f: Seq<char>) -> Option<Seq<char>> {
    let dot = last_index_of(f, '.');
    if dot <= 0 {
        None
    } else {
        Some(f.skip(dot + 1))
    }
}

/// The extension of a path's file name, if it has one.
pub open spec fn path_extension(p: Seq<char>) -> Option<Seq<char>> {
    match file_name_of(p) {
        Some(f) => extension_of_name(f),
        None => None,
    }
}

/// A text with `fold_name_char` applied to each character.
pub open spec fn fold_chars(s: Seq<char>) -> Seq<char> {
    s.map_values(|c: char| fold_name_char(c))
}

/// Folding a folded character changes nothing.
proof fn lemma_fold_idempotent(c: char)
    ensures
        fold_name_char(fold_name_char(c)) == fold_name_char(c),
{
    if 'A' <= c && c <= 'Z' {
        let f = fold_name_char(c);
        assert(f as u32 == c as u32 + 32);
        assert('a' <= f && f <= 'z');
    }
}

/// Detection by extension ignores letter case: an extension names the same
/// format as its folded (lowercase) form.
pub proof fn lemma_extension_case_insensitive(e: Seq<char>)
    ensures
        format_for_extension(fold_chars(e)) == format_for_extension(e),
{
    assert forall|i: int| 0 <= i < e.len() implies fold_name_char(fold_name_char(e[i]))
        == fold_name_char(e[i]) by {
        lemma_fold_idempotent(e[i]);
    }
    assert(fold_chars(fold_chars(e)) =~= fold_chars(e));
}

/// The format that an extension names, compared without regard to case.
pub open spec fn format_for_extension(e: Seq<char>) -> Format {
    let w = fold_chars(e);
    if w == "dst"@ {
        Format::DST
    } else if w == "pes"@ {
        Format::PES
    } else if w == "pec"@ {
        Format::PEC
    } else if w == "vp3"@ {
        Format::VP3
    } else if w == "jef"@ {
        Format::JEF
    } else if w == "exp"@ {
        Format::EXP
    } else if w == "xxx"@ {
        Format::XXX
    } else if w == "u01"@ {
        Format::U01
    } else if w == "tbf"@ {
        Format::TBF
    } else if w == "col"@ {
        Format::COL
    } else if w == "edr"@ {
        Format::EDR
    } else if w == "inf"@ {
        Format::INF
    } else if w == "json"@ {
        Format::JSON
    } else if w == "csv"@ {
        Format::CSV
    } else if w == "gcode"@ || w == "nc"@ {
        Format::GCODE
    } else if w == "hus"@ || w == "vip"@ {
        Format::HUS
    } else {
        Format::Unknown
    }
}

/// The extension table: each of these extensions names its format whatever
/// the case of its letters (`dst`, `pes`, `pec`, `vp3`, `jef`, `exp`, `xxx`,
/// `u01`, `tbf`, `col`, `edr`, `inf`, `json`, `csv`, `gcode` and `nc`, `hus`
/// and `vip`), and every other extension names no format.
pub proof fn lemma_extension_table(e: Seq<char>)
    ensures
        fold_chars(e) == seq!['d', 's', 't'] ==> format_for_extension(e) == Format::DST,
        fold_chars(e) == seq!['p', 'e', 's'] ==> format_for_extension(e) == Format::PES,
        fold_chars(e) == seq!['p', 'e', 'c'] ==> format_for_extension(e) == Format::PEC,
        fold_chars(e) == seq!['v', 'p', '3'] ==> format_for_extension(e) == Format::VP3,
        fold_chars(e) == seq!['j', 'e', 'f'] ==> format_for_extension(e) == Format::JEF,
        fold_chars(e) == seq!['e', 'x', 'p'] ==> format_for_extension(e) == Format::EXP,
        fold_chars(e) == seq!['x', 'x', 'x'] ==> format_for_extension(e) == Format::XXX,
        fold_chars(e) == seq!['u', '0', '1'] ==> format_for_extension(e) == Format::U01,
        fold_chars(e) == seq!['t', 'b', 'f'] ==> format_for_extension(e) == Format::TBF,
        fold_chars(e) == seq!['c', 'o', 'l'] ==> format_for_extension(e) == Format::COL,
        fold_chars(e) == seq!['e', 'd', 'r'] ==> format_for_extension(e) == Format::EDR,
        fold_chars(e) == seq!['i', 'n', 'f'] ==> format_for_extension(e) == Format::INF,
        fold_chars(e) == seq!['j', 's', 'o', 'n'] ==> format_for_extension(e) == Format::JSON,
        fold_chars(e) == seq!['c', 's', 'v'] ==> format_for_extension(e) == Format::CSV,
        fold_chars(e) == seq!['g', 'c', 'o', 'd', 'e'] ==> format_for_extension(e) == Format::GCODE,
        fold_chars(e) == seq!['n', 'c'] ==> format_for_extension(e) == Format::GCODE,
        fold_chars(e) == seq!['h', 'u', 's'] ==> format_for_extension(e) == Format::HUS,
        fold_chars(e) == seq!['v', 'i', 'p'] ==> format_for_extension(e) == Format::HUS,
        format_for_extension(e) == Format::Unknown <==> !({
            let w = fold_chars(e);
            w == seq!['d', 's', 't'] || w == seq!['p', 'e', 's'] || w == seq!['p', 'e', 'c'] || w == seq!['v', 'p', '3'] || w == seq!['j', 'e', 'f'] || w == seq!['e', 'x', 'p'] || w == seq!['x', 'x', 'x'] || w == seq!['u', '0', '1'] || w == seq!['t', 'b', 'f'] || w == seq!['c', 'o', 'l'] || w == seq!['e', 'd', 'r'] || w == seq!['i', 'n', 'f'] || w == seq!['j', 's', 'o', 'n'] || w == seq!['c', 's', 'v'] || w == seq!['g', 'c', 'o', 'd', 'e'] || w == seq!['n', 'c'] || w == seq!['h', 'u', 's'] || w == seq!['v', 'i', 'p']
        }),
{
    reveal_strlit("dst");
    reveal_strlit("pes");
    reveal_strlit("pec");
    reveal_strlit("vp3");
    reveal_strlit("jef");
    reveal_strlit("exp");
    reveal_strlit("xxx");
    reveal_strlit("u01");
    reveal_strlit("tbf");
    reveal_strlit("col");
    reveal_strlit("edr");
    reveal_strlit("inf");
    reveal_strlit("json");
    reveal_strlit("csv");
    reveal_strlit("gcode");
    reveal_strlit("nc");
    reveal_strlit("hus");
    reveal_strlit("vip");
    assert("dst"@ =~= seq!['d', 's', 't']);
    assert("pes"@ =~= seq!['p', 'e', 's']);
    assert("pec"@ =~= seq!['p', 'e', 'c']);
    assert("vp3"@ =~= seq!['v', 'p', '3']);
    assert("jef"@ =~= seq!['j', 'e', 'f']);
    assert("exp"@ =~= seq!['e', 'x', 'p']);
    assert("xxx"@ =~= seq!['x', 'x', 'x']);
    assert("u01"@ =~= seq!['u', '0', '1']);
    assert("tbf"@ =~= seq!['t', 'b', 'f']);
    assert("col"@ =~= seq!['c', 'o', 'l']);
    assert("edr"@ =~= seq!['e', 'd', 'r']);
    assert("inf"@ =~= seq!['i', 'n', 'f']);
    assert("json"@ =~= seq!['j', 's', 'o', 'n']);
    assert("csv"@ =~= seq!['c', 's', 'v']);
    assert("gcode"@ =~= seq!['g', 'c', 'o', 'd', 'e']);
    assert("nc"@ =~= seq!['n', 'c']);
    assert("hus"@ =~= seq!['h', 'u', 's']);
    assert("vip"@ =~= seq!['v', 'i', 'p']);
}

/// The last position in `start..end` of `v` that holds `c`.
fn last_index_in(v: &[char], start: usize, end: usize, c: char) -> (r: Option<usize>)
    requires
        start <= end <= v@.len(),
    ensures
        match r {
            Some(i) => start <= i < end && last_index_of(v@.subrange(start as int, end as int), c)
                == i - start,
            None => last_index_of(v@.subrange(start as int, end as int), c) == -1,
        },
{
    let mut k: usize = end;
    while k > start
        invariant
            start <= k <= end <= v@.len(),
            last_index_of(v@.subrange(start as int, end as int), c) == last_index_of(
                v@.subrange(start as int, k as int),
                c,
            ),
        decreases k,
    {
        if v[k - 1] == c {
            return Some(k - 1);
        }
        assert(v@.subrange(start as int, k as int).drop_last() =~= v@.subrange(
            start as int,
            (k - 1) as int,
        ));
        k = k - 1;
    }
    None
}

/// The positions `start..end` of the file name of the path `v`.
fn file_name_range(v: &[char]) -> (r: Option<(usize, usize)>)
    ensures
        match r {
            Some((s, e)) => s <= e <= v@.len() && file_name_of(v@) == Some(
                v@.subrange(s as int, e as int),
            ),
            None => file_name_of(v@) is None,
        },
{
    let mut end: usize = v.len();
    assert(v@.take(end as int) =~= v@);
    loop
        invariant
            end <= v@.len(),
            file_name_of(v@) == file_name_of(v@.take(end as int)),
        decreases end,
    {
        let ghost p = v@.take(end as int);
        let slash = last_index_in(v, 0, end, '/');
        assert(v@.subrange(0, end as int) =~= p);
        let start: usize = match slash {
            Some(i) => i + 1,
            None => 0,
        };
        let ghost piece = p.skip(last_index_of(p, '/') + 1);
        assert(piece =~= v@.subrange(start as int, end as int));
        let len = end - start;
        let is_dot = len == 1 && v[start] == '.';
        if len == 0 || is_dot {
            assert(piece.len() == 0 || piece =~= seq!['.']);
            match slash {
                None => {
                    return None;
                },
                Some(i) => {
                    assert(p.take(i as int) =~= v@.take(i as int));
                    end = i;
                },
            }
        } else {
            assert(!(piece =~= seq!['.'])) by {
                if piece =~= seq!['.'] {
                    assert(piece[0] == v@[start as int]);
                }
            }
            if len == 2 && v[start] == '.' && v[start + 1] == '.' {
                assert(piece =~= seq!['.', '.']);
                return None;
            }
            assert(!(piece =~= seq!['.', '.'])) by {
                if piece =~= seq!['.', '.'] {
                    assert(piece[0] == v@[start as int]);
                    assert(piece[1] == v@[start + 1]);
                }
            }
            return Some((start, end));
        }
    }
}

/// Folds the characters `start..end` of `v`.
fn fold_range(v: &[char], start: usize, end: usize) -> (w: Vec<char>)
    requires
        start <= end <= v@.len(),
    ensures
        w@ == fold_chars(v@.subrange(start as int, end as int)),
{
    let mut w: Vec<char> = Vec::new();
    let mut k: usize = start;
    while k < end
        invariant
            start <= k <= end <= v@.len(),
            w@ == fold_chars(v@.subrange(start as int, k as int)),
        decreases end - k,
    {
        w.push(fold_char(v[k]));
        k = k + 1;
        assert(w@ =~= fold_chars(v@.subrange(start as int, k as int)));
    }
    w
}

/// Whether the folded extension `w` is the word `word`.
fn is_word(w: &Vec<char>, word: &str) -> (b: bool)
    ensures
        b == (w@ == word@),
{
    let chars = str_chars(word);
    chars_eq(w.as_slice(), chars.as_slice())
}

/// The format that a folded extension names.
fn format_for_word(w: &Vec<char>) -> (f: Format)
    ensures
        forall|e: Seq<char>| fold_chars(e) == w@ ==> f == format_for_extension(e),
{
    if is_word(w, "dst") {
        Format::DST
    } else if is_word(w, "pes") {
        Format::PES
    } else if is_word(w, "pec") {
        Format::PEC
    } else if is_word(w, "vp3") {
        Format::VP3
    } else if is_word(w, "jef") {
        Format::JEF
    } else if is_word(w, "exp") {
        Format::EXP
    } else if is_word(w, "xxx") {
        Format::XXX
    } else if is_word(w, "u01") {
        Format::U01
    } else if is_word(w, "tbf") {
        Format::TBF
    } else if is_word(w, "col") {
        Format::COL
    } else if is_word(w, "edr") {
        Format::EDR
    } else if is_word(w, "inf") {
        Format::INF
    } else if is_word(w, "json") {
        Format::JSON
    } else if is_word(w, "csv") {
        Format::CSV
    } else if is_word(w, "gcode") || is_word(w, "nc") {
        Format::GCODE
    } else if is_word(w, "hus") || is_word(w, "vip") {
        Format::HUS
    } else {
        Format::Unknown
    }
}

// ---------------------------------------------------------------------------
// Content signatures
// ---------------------------------------------------------------------------

/// The bytes that content detection looks at: at most the first 512.
pub open spec fn head(d: Seq<u8>) -> Seq<u8> {
    if d.len() > 512 {
        d.take(512)
    } else {
        d
    }
}

/// Whether `p` occurs in `s` at position `i`.
pub open spec fn occurs_at(s: Seq<u8>, p: Seq<u8>, i: int) -> bool {
    0 <= i && i + p.len() <= s.len() && s.subrange(i, i + p.len()) == p
}

/// Whether `p` occurs in `s`.
pub open spec fn contains_bytes(s: Seq<u8>, p: Seq<u8>) -> bool {
    exists|i: int| occurs_at(s, p, i)
}

/// Whether the first byte of `s` from position `i` on that is not ASCII white
/// space is `{`.
pub open spec fn brace_after_space(s: Seq<u8>, i: int) -> bool
    decreases s.len() - i,
{
    if i < 0 || i >= s.len() {
        false
    } else if is_ascii_whitespace_byte(s[i]) {
        brace_after_space(s, i + 1)
    } else {
        s[i] == 0x7B
    }
}

/// The commas of `s` from position `i` on that come before the first line feed.
pub open spec fn commas_in_line(s: Seq<u8>, i: int) -> nat
    decreases s.len() - i,
{
    if i < 0 || i >= s.len() || s[i] == 0x0A {
        0
    } else {
        (if s[i] == 0x2C {
            1nat
        } else {
            0nat
        }) + commas_in_line(s, i + 1)
    }
}

/// `#PES`
pub open spec fn pes_magic() -> Seq<u8> {
    seq![0x23u8, 0x50u8, 0x45u8, 0x53u8]
}

/// `#PEC`
pub open spec fn pec_magic() -> Seq<u8> {
    seq![0x23u8, 0x50u8, 0x45u8, 0x43u8]
}

/// `%vsm%`
pub open spec fn vp3_magic() -> Seq<u8> {
    seq![0x25u8, 0x76u8, 0x73u8, 0x6Du8, 0x25u8]
}

/// The DST header labels `LA:`, `ST:` and `CO:`.
pub open spec fn dst_labels() -> Seq<Seq<u8>> {
    seq![seq![0x4Cu8, 0x41u8, 0x3Au8], seq![0x53u8, 0x54u8, 0x3Au8], seq![0x43u8, 0x4Fu8, 0x3Au8]]
}

/// The G-code words `G0`, `G1` and `M3`.
pub open spec fn gcode_words() -> Seq<Seq<u8>> {
    seq![seq![0x47u8, 0x30u8], seq![0x47u8, 0x31u8], seq![0x4Du8, 0x33u8]]
}

/// The smaller of two integers.
pub open spec fn min_int(a: int, b: int) -> int {
    if a < b {
        a
    } else {
        b
    }
}

/// What the first bytes of a file say its format is, checked in this order:
/// `#PES`/`#PEC`, `%vsm%`, the JEF header, a `{` after white space, two commas
/// in the first line (of the first 100 bytes), the DST labels in a full
/// 512-byte header, and G-code words in the first 100 bytes; none when fewer
/// than 4 bytes are given.
pub open spec fn content_format(d: Seq<u8>) -> Option<Format> {
    let h = head(d);
    let n = h.len() as int;
    let front = h.take(min_int(n, 100));
    if n < 4 {
        None
    } else {
        Some(
            if h.take(4) == pes_magic() {
                Format::PES
            } else if h.take(4) == pec_magic() {
                Format::PEC
            } else if n >= 5 && h.take(5) == vp3_magic() {
                Format::VP3
            } else if h[0] == 0x74 && n >= 128 && h[1] < 0x80 && h[2] < 0x80 && h[3] < 0x80 {
                Format::JEF
            } else if brace_after_space(h, 0) {
                Format::JSON
            } else if n >= 20 && commas_in_line(front, 0) >= 2 {
                Format::CSV
            } else if n >= 512 && (contains_bytes(h, dst_labels()[0]) || contains_bytes(
                h,
                dst_labels()[1],
            ) || contains_bytes(h, dst_labels()[2])) {
                Format::DST
            } else if n >= 10 && (contains_bytes(front, gcode_words()[0]) || contains_bytes(
                front,
                gcode_words()[1],
            ) || contains_bytes(front, gcode_words()[2])) {
                Format::GCODE
            } else {
                Format::Unknown
            },
        )
    }
}

/// Whether the first `n` bytes of `s` start with `p`.
fn starts_with(s: &[u8], n: usize, p: &[u8]) -> (b: bool)
    requires
        n <= s@.len(),
    ensures
        b == (p@.len() <= n && s@.take(n as int).take(p@.len() as int) == p@),
{
    if p.len() > n {
        return false;
    }
    let mut j: usize = 0;
    while j < p.len()
        invariant
            j <= p@.len() <= n <= s@.len(),
            forall|k: int| 0 <= k < j ==> s@[k] == p@[k],
        decreases p@.len() - j,
    {
        if s[j] != p[j] {
            assert(s@.take(n as int).take(p@.len() as int)[j as int] != p@[j as int]);
            return false;
        }
        j = j + 1;
    }
    assert(s@.take(n as int).take(p@.len() as int) =~= p@);
    true
}

/// Whether `p` occurs at position `i` of the first `n` bytes of `s`.
fn matches_at(s: &[u8], n: usize, p: &[u8], i: usize) -> (b: bool)
    requires
        n <= s@.len(),
    ensures
        b == occurs_at(s@.take(n as int), p@, i as int),
{
    let ghost h = s@.take(n as int);
    if i > n || p.len() > n - i {
        return false;
    }
    let mut j: usize = 0;
    while j < p.len()
        invariant
            j <= p@.len(),
            i + p@.len() <= n <= s@.len(),
            h == s@.take(n as int),
            forall|k: int| 0 <= k < j ==> s@[i + k] == p@[k],
        decreases p@.len() - j,
    {
        if s[i + j] != p[j] {
            assert(h.subrange(i as int, i + p@.len())[j as int] != p@[j as int]);
            return false;
        }
        j = j + 1;
    }
    assert(h.subrange(i as int, i + p@.len()) =~= p@);
    true
}

/// Whether `p` occurs in the first `n` bytes of `s`.
pub(crate) fn contains_in(s: &[u8], n: usize, p: &[u8]) -> (b: bool)
    requires
        n <= s@.len(),
    ensures
        b == contains_bytes(s@.take(n as int), p@),
{
    let ghost h = s@.take(n as int);
    let mut i: usize = 0;
    while i < n
        invariant
            i <= n <= s@.len(),
            h == s@.take(n as int),
            forall|k: int| 0 <= k < i ==> !occurs_at(h, p@, k),
        decreases n - i,
    {
        if matches_at(s, n, p, i) {
            return true;
        }
        i = i + 1;
    }
    if matches_at(s, n, p, n) {
        return true;
    }
    assert forall|k: int| !occurs_at(h, p@, k) by {
        if 0 <= k && k < n {
        } else if k == n {
        } else if k > n {
            assert(k + p@.len() > h.len());
        }
    }
    false
}

/// Whether the first byte of the first `n` bytes of `s` that is not ASCII
/// white space is `{`.
fn brace_first(s: &[u8], n: usize) -> (b: bool)
    requires
        n <= s@.len(),
    ensures
        b == brace_after_space(s@.take(n as int), 0),
{
    let ghost h = s@.take(n as int);
    let mut i: usize = 0;
    while i < n
        invariant
            i <= n <= s@.len(),
            h == s@.take(n as int),
            brace_after_space(h, 0) == brace_after_space(h, i as int),
        decreases n - i,
    {
        let c = s[i];
        if !(c == 0x20 || c == 0x09 || c == 0x0A || c == 0x0C || c == 0x0D) {
            return c == 0x7B;
        }
        i = i + 1;
    }
    false
}

/// The commas before the first line feed in the first `n` bytes of `s`.
fn line_commas(s: &[u8], n: usize) -> (c: usize)
    requires
        n <= s@.len(),
    ensures
        c == commas_in_line(s@.take(n as int), 0),
{
    let ghost h = s@.take(n as int);
    let mut i: usize = 0;
    let mut count: usize = 0;
    while i < n
        invariant
            i <= n <= s@.len(),
            count <= i,
            h == s@.take(n as int),
            count + commas_in_line(h, i as int) == commas_in_line(h, 0),
        decreases n - i,
    {
        if s[i] == 0x0A {
            return count;
        }
        if s[i] == 0x2C {
            count = count + 1;
        }
        i = i + 1;
    }
    count
}

impl FormatDetector {
    /// Detects the format from the first bytes of a file (the reader of the
    /// file hands over what it read): `#PES`/`#PEC`, `%vsm%`, the JEF header
    /// byte 0x74, a leading `{`, commas in the first line, the DST header
    /// labels, G-code words; `Unknown` when none of them is found.
    pub fn detect_from_content(data: &[u8]) -> (r: Result<Format, Error>)
        ensures
            match content_format(data@) {
                Some(f) => r == Ok::<Format, Error>(f),
                None => r matches Err(Error::Parse(m)) && m@
                    == "File too small to detect format (< 4 bytes)"@,
            },
    {
        let n: usize = if data.len() > 512 {
            512
        } else {
            data.len()
        };
        let ghost h = head(data@);
        assert(h =~= data@.take(n as int));
        if n < 4 {
            return Err(Error::Parse("File too small to detect format (< 4 bytes)".to_owned()));
        }
        let pes: [u8; 4] = [0x23, 0x50, 0x45, 0x53];
        let pec: [u8; 4] = [0x23, 0x50, 0x45, 0x43];
        let vp3: [u8; 5] = [0x25, 0x76, 0x73, 0x6D, 0x25];
        assert(pes@ =~= pes_magic());
        assert(pec@ =~= pec_magic());
        assert(vp3@ =~= vp3_magic());
        if starts_with(data, n, &pes) {
            return Ok(Format::PES);
        }
        if starts_with(data, n, &pec) {
            return Ok(Format::PEC);
        }
        if n >= 5 && starts_with(data, n, &vp3) {
            return Ok(Format::VP3);
        }
        if data[0] == 0x74 && n >= 128 && data[1] < 0x80 && data[2] < 0x80 && data[3] < 0x80 {
            return Ok(Format::JEF);
        }
        if brace_first(data, n) {
            return Ok(Format::JSON);
        }
        let m: usize = if n < 100 {
            n
        } else {
            100
        };
        assert(h.take(min_int(n as int, 100)) =~= data@.take(m as int));
        if n >= 20 && line_commas(data, m) >= 2 {
            return Ok(Format::CSV);
        }
        let la: [u8; 3] = [0x4C, 0x41, 0x3A];
        let st: [u8; 3] = [0x53, 0x54, 0x3A];
        let co: [u8; 3] = [0x43, 0x4F, 0x3A];
        assert(la@ =~= dst_labels()[0]);
        assert(st@ =~= dst_labels()[1]);
        assert(co@ =~= dst_labels()[2]);
        if n >= 512 && (contains_in(data, n, &la) || contains_in(data, n, &st) || contains_in(
            data,
            n,
            &co,
        )) {
            return Ok(Format::DST);
        }
        let g0: [u8; 2] = [0x47, 0x30];
        let g1: [u8; 2] = [0x47, 0x31];
        let m3: [u8; 2] = [0x4D, 0x33];
        assert(g0@ =~= gcode_words()[0]);
        assert(g1@ =~= gcode_words()[1]);
        assert(m3@ =~= gcode_words()[2]);
        if n >= 10 && (contains_in(data, m, &g0) || contains_in(data, m, &g1) || contains_in(
            data,
            m,
            &m3,
        )) {
            return Ok(Format::GCODE);
        }
        Ok(Format::Unknown)
    }

    /// Detects the format from the extension of a path's file name, compared
    /// without regard to case; an extension that names no format gives
    /// `Unknown`, and a file name without extension is an error.
    pub fn detect_from_extension(path: &str) -> (r: Result<Format, Error>)
        ensures
            match path_extension(path@) {
                Some(e) => r == Ok::<Format, Error>(format_for_extension(e)),
                None => r matches Err(Error::Parse(m)) && m@ == "File has no extension"@,
            },
    {
        let v = str_chars(path);
        match file_name_range(v.as_slice()) {
            None => Err(Error::Parse("File has no extension".to_owned())),
            Some((s, e)) => {
                let ghost f = v@.subrange(s as int, e as int);
                let dot = last_index_in(v.as_slice(), s, e, '.');
                match dot {
                    Some(d) if d > s => {
                        assert(f.skip(d - s + 1) =~= v@.subrange(d + 1, e as int));
                        let w = fold_range(v.as_slice(), d + 1, e);
                        Ok(format_for_word(&w))
                    },
                    _ => Err(Error::Parse("File has no extension".to_owned())),
                }
            },
        }
    }

    /// Picks the format of a file: by content first, then, where the content
    /// tells nothing and a file name is given, by its extension; a format that
    /// stays unknown is an error.
    pub fn detect_format(data: &[u8], filename_hint: Option<&str>) -> (r: Result<Format, Error>)
        ensures
            match content_format(data@) {
                None => r is Err,
                Some(Format::Unknown) => match filename_hint {
                    Some(name) => match path_extension(name@) {
                        None => r is Err,
                        Some(e) => if format_for_extension(e) == Format::Unknown {
                            r matches Err(Error::UnsupportedFormat(_))
                        } else {
                            r == Ok::<Format, Error>(format_for_extension(e))
                        },
                    },
                    None => r matches Err(Error::UnsupportedFormat(_)),
                },
                Some(f) => r == Ok::<Format, Error>(f),
            },
    {
        let mut format = match Self::detect_from_content(data) {
            Ok(f) => f,
            Err(e) => return Err(e),
        };
        if format == Format::Unknown {
            if let Some(name) = filename_hint {
                format = match Self::detect_from_extension(name) {
                    Ok(f) => f,
                    Err(e) => return Err(e),
                };
            }
        }
        if format == Format::Unknown {
            return Err(Error::UnsupportedFormat("Unable to detect file format".to_owned()));
        }
        Ok(format)
    }
}

} // verus!
