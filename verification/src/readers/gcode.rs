//! G-code lines: the words of a line of a CNC program (a letter followed by
//! the text of a number), with `(`...`)` and `;` comments. Reading the number
//! texts as decimal numbers and running the program happen elsewhere.

use vstd::prelude::*;
use crate::text::{str_chars, string_from_chars, fold_char, fold_name_char, words, split_words, char_vecs_view, utf8_len, utf8_len_capped, chars_eq};

verus! {

/// What a scan of a G-code line has seen so far.
pub struct GcodeScan {
    /// Inside a comment
    pub in_comment: bool,
    /// The letter of the word being read, if any
    pub code: Option<char>,
    /// The number text collected since it was last used
    pub value: Seq<char>,
    /// The finished words, in order
    pub words: Seq<(char, Seq<char>)>,
    /// Whether some comment was closed by `)`
    pub closed: bool,
    /// The text of the comment opened last
    pub comment: Seq<char>,
}

/// Whether a character ends a word as white space does.
pub open spec fn is_gcode_space(c: char) -> bool {
    c == ' ' || c == '\t' || c == '\n' || c == '\r'
}

/// Whether a character belongs to a number text.
pub open spec fn is_number_char(c: char) -> bool {
    ('0' <= c && c <= '9') || c == '.' || c == '-' || c == '+'
}

/// `char::is_ascii_alphabetic`.
pub open spec fn is_ascii_letter(c: char) -> bool {
    ('a' <= c && c <= 'z') || ('A' <= c && c <= 'Z')
}

/// The scan with the word being read finished, when it has a letter and a
/// number text; otherwise the scan unchanged.
pub open spec fn flush_word(st: GcodeScan) -> (GcodeScan, bool) {
    match st.code {
        Some(c) => if st.value.len() > 0 {
            (GcodeScan { words: st.words.push((c, st.value)), value: Seq::empty(), ..st }, true)
        } else {
            (st, false)
        },
        None => (st, false),
    }
}

/// One character of a G-code line: inside a comment only `)` counts, and it
/// ends the comment; `(` and `;` open a comment; white space finishes the
/// word being read (forgetting its letter); a letter finishes the word being
/// read and starts a new one; number characters are collected; anything else
/// is skipped.
pub open spec fn gcode_step(st: GcodeScan, ch: char) -> GcodeScan {
    if st.in_comment {
        if ch == ')' {
            GcodeScan { in_comment: false, closed: true, ..st }
        } else {
            GcodeScan { comment: st.comment.push(ch), ..st }
        }
    } else if ch == '(' || ch == ';' {
        GcodeScan { in_comment: true, comment: Seq::empty(), ..st }
    } else if is_gcode_space(ch) {
        let (f, done) = flush_word(st);
        if done {
            GcodeScan { code: None, ..f }
        } else {
            st
        }
    } else if is_ascii_letter(ch) {
        GcodeScan { code: Some(fold_name_char(ch)), ..flush_word(st).0 }
    } else if is_number_char(ch) {
        GcodeScan { value: st.value.push(ch), ..st }
    } else {
        st
    }
}

/// The scan of a whole text from the start.
pub open spec fn gcode_scan(s: Seq<char>) -> GcodeScan
    decreases s.len(),
{
    if s.len() == 0 {
        GcodeScan {
            in_comment: false,
            code: None,
            value: Seq::empty(),
            words: Seq::empty(),
            closed: false,
            comment: Seq::empty(),
        }
    } else {
        gcode_step(gcode_scan(s.drop_last()), s.last())
    }
}

/// The words of a G-code line, the last one finished at the end of the line,
/// and whether a comment was closed by `)`.
pub open spec fn gcode_words_spec(s: Seq<char>) -> (Seq<(char, Seq<char>)>, bool) {
    let st = gcode_scan(s);
    (flush_word(st).0.words, st.closed)
}

/// Whether `t` occurs in `s`.
pub open spec fn has_substring(s: Seq<char>, t: Seq<char>) -> bool {
    exists|i: int| 0 <= i && i + t.len() <= s.len() && #[trigger] s.subrange(i, i + t.len()) == t
}

/// Whether the comment opened last on a line names a thread colour: it
/// contains `Thread`, and its second white-space separated word starts with
/// `#` or is 6 bytes long.
pub open spec fn gcode_thread_marker_spec(s: Seq<char>) -> bool {
    let c = gcode_scan(s).comment;
    let w = words(c);
    &&& c.len() > 0
    &&& has_substring(c, seq!['T', 'h', 'r', 'e', 'a', 'd'])
    &&& w.len() > 1
    &&& ((w[1].len() > 0 && w[1][0] == '#') || utf8_len(w[1]) == 6)
}

/// The letters and number texts of a list of words.
pub open spec fn words_view(v: Seq<(char, String)>) -> Seq<(char, Seq<char>)> {
    v.map_values(|e: (char, String)| (e.0, e.1@))
}

/// Scans the characters of a line, returning the finished words, whether a
/// comment was closed by `)`, and the text of the comment opened last.
fn scan_line(chars: &Vec<char>) -> (r: (Vec<(char, String)>, bool, Vec<char>))
    ensures
        words_view(r.0@) == gcode_words_spec(chars@).0,
        r.1 == gcode_words_spec(chars@).1,
        r.2@ == gcode_scan(chars@).comment,
{
    let mut in_comment = false;
    let mut code: Option<char> = None;
    let mut value: Vec<char> = Vec::new();
    let mut out: Vec<(char, String)> = Vec::new();
    let mut closed = false;
    let mut comment: Vec<char> = Vec::new();
    let mut i: usize = 0;
    assert(chars@.take(0) =~= Seq::<char>::empty());
    assert(words_view(out@) =~= Seq::<(char, Seq<char>)>::empty());
    assert(value@ =~= Seq::<char>::empty());
    assert(comment@ =~= Seq::<char>::empty());
    while i < chars.len()
        invariant
            i <= chars@.len(),
            gcode_scan(chars@.take(i as int)) == (GcodeScan {
                in_comment,
                code,
                value: value@,
                words: words_view(out@),
                closed,
                comment: comment@,
            }),
        decreases chars@.len() - i,
    {
        let ghost st = gcode_scan(chars@.take(i as int));
        assert(chars@.take(i + 1).drop_last() =~= chars@.take(i as int));
        let ch = chars[i];
        if in_comment {
            if ch == ')' {
                in_comment = false;
                closed = true;
            } else {
                comment.push(ch);
            }
        } else if ch == '(' || ch == ';' {
            in_comment = true;
            comment = Vec::new();
        } else if ch == ' ' || ch == '\t' || ch == '\n' || ch == '\r' {
            if code.is_some() && value.len() > 0 {
                let c = code.unwrap();
                out.push((c, string_from_chars(value.as_slice())));
                value = Vec::new();
                code = None;
                assert(words_view(out@) =~= st.words.push((c, st.value)));
            }
        } else if ('a' <= ch && ch <= 'z') || ('A' <= ch && ch <= 'Z') {
            if code.is_some() && value.len() > 0 {
                let c = code.unwrap();
                out.push((c, string_from_chars(value.as_slice())));
                value = Vec::new();
                assert(words_view(out@) =~= st.words.push((c, st.value)));
            }
            code = Some(fold_char(ch));
        } else if ('0' <= ch && ch <= '9') || ch == '.' || ch == '-' || ch == '+' {
            value.push(ch);
        }
        proof {
            assert(value@ == gcode_scan(chars@.take(i + 1)).value);
            assert(comment@ == gcode_scan(chars@.take(i + 1)).comment);
        }
        i = i + 1;
    }
    assert(chars@.take(chars@.len() as int) =~= chars@);
    let ghost st = gcode_scan(chars@);
    if code.is_some() && value.len() > 0 {
        let c = code.unwrap();
        out.push((c, string_from_chars(value.as_slice())));
        assert(words_view(out@) =~= st.words.push((c, st.value)));
    }
    (out, closed, comment)
}

/// The words of a G-code line in order: each ASCII letter (lowercased) with the number text
/// (digits, '.', '-', '+') after it, ended by white space, the next letter or the end of the
/// line; text from '(' to ')' and after ';' is a comment. The flag says a comment was closed by ')'.
pub fn gcode_words(line: &str) -> (r: (Vec<(char, String)>, bool))
    ensures
        words_view(r.0@) == gcode_words_spec(line@).0,
        r.1 == gcode_words_spec(line@).1,
{
    let chars = str_chars(line);
    let (w, closed, _) = scan_line(&chars);
    (w, closed)
}

/// Whether `t` occurs in `s`.
fn contains_chars(s: &Vec<char>, t: &Vec<char>) -> (b: bool)
    ensures
        b == has_substring(s@, t@),
{
    if t.len() > s.len() {
        return false;
    }
    let n = s.len();
    let last = n - t.len();
    let mut i: usize = 0;
    loop
        invariant
            t@.len() <= s@.len(),
            last == s@.len() - t@.len(),
            n == s@.len(),
            i <= last,
            forall|j: int| 0 <= j < i ==> #[trigger] s@.subrange(j, j + t@.len()) != t@,
        decreases last - i,
    {
        let mut k: usize = 0;
        let mut same = true;
        while k < t.len()
            invariant
                t@.len() <= s@.len(),
                last == s@.len() - t@.len(),
                n == s@.len(),
                i <= last,
                k <= t@.len(),
                same == (forall|m: int| 0 <= m < k ==> s@[i + m] == t@[m]),
            decreases t@.len() - k,
        {
            if s[i + k] != t[k] {
                same = false;
            }
            k = k + 1;
        }
        if same {
            assert(s@.subrange(i as int, i + t@.len()) =~= t@);
            return true;
        }
        assert(s@.subrange(i as int, i + t@.len()) != t@) by {
            let m = choose|m: int| 0 <= m < t@.len() && s@[i + m] != t@[m];
            assert(s@.subrange(i as int, i + t@.len())[m] == s@[i + m]);
        }
        if i == last {
            assert forall|j: int| 0 <= j && j + t@.len() <= s@.len() implies #[trigger] s@.subrange(
                j,
                j + t@.len(),
            ) != t@ by {
                assert(j <= i);
            }
            return false;
        }
        i = i + 1;
    }
}

/// Whether the comment opened last on a G-code line names a thread colour:
/// it contains `Thread`, and its second white-space separated word starts
/// with `#` or is 6 bytes long.
pub fn gcode_thread_marker(line: &str) -> (b: bool)
    ensures
        b == gcode_thread_marker_spec(line@),
{
    let chars = str_chars(line);
    let (_, _, comment) = scan_line(&chars);
    if comment.len() == 0 {
        return false;
    }
    let thread = vec!['T', 'h', 'r', 'e', 'a', 'd'];
    assert(thread@ =~= seq!['T', 'h', 'r', 'e', 'a', 'd']);
    if !contains_chars(&comment, &thread) {
        return false;
    }
    let parts = split_words(comment.as_slice());
    proof {
        assert(char_vecs_view(parts@) == words(comment@));
    }
    if parts.len() <= 1 {
        return false;
    }
    let second = &parts[1];
    proof {
        assert(second@ == words(comment@)[1]);
    }
    if second.len() > 0 && second[0] == '#' {
        return true;
    }
    let n = utf8_len_capped(second.as_slice(), 0, 6);
    assert(second@.skip(0) =~= second@);
    n == 6
}

} // verus!
