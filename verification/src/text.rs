//! Character-level helpers for the text that the formats hold: splitting a
//! string into characters, comparing, trimming and decoding numbers.

use vstd::prelude::*;

verus! {

broadcast use vstd::string::axiom_spec_iter;

/// The characters of a string, in order.
pub fn str_chars(s: &str) -> (v: Vec<char>)
    ensures
        v@ == s@,
{
    let mut v: Vec<char> = Vec::new();
    for c in it: s.chars()
        invariant
            v@ == it.seq().take(it.index() as int),
            it.seq() == s@,
    {
        v.push(c);
    }
    v
}

/// `String::push`: appends one character.
#[verifier::external_body]
pub(crate) fn push_char(s: &mut String, c: char)
    ensures
        final(s)@ == old(s)@.push(c),
{
    s.push(c);
}

/// `String::from_utf8`: the string that a byte sequence encodes in UTF-8, or
/// `None` where the bytes are not valid UTF-8.
#[verifier::external_body]
pub(crate) fn utf8_to_string(bytes: &[u8]) -> (r: Option<String>)
    ensures
        r is Some <==> vstd::utf8::valid_utf8(bytes@),
        r matches Some(s) ==> s@ == vstd::utf8::decode_utf8(bytes@),
{
    String::from_utf8(bytes.to_vec()).ok()
}

/// A string made of the given characters.
pub fn string_from_chars(v: &[char]) -> (s: String)
    ensures
        s@ == v@,
{
    let mut s = String::new();
    let mut i: usize = 0;
    while i < v.len()
        invariant
            i <= v@.len(),
            s@ == v@.take(i as int),
        decreases v@.len() - i,
    {
        push_char(&mut s, v[i]);
        i = i + 1;
        assert(s@ =~= v@.take(i as int));
    }
    assert(v@.take(v@.len() as int) =~= v@);
    s
}

/// Whether two character sequences are equal.
pub fn chars_eq(a: &[char], b: &[char]) -> (r: bool)
    ensures
        r == (a@ == b@),
{
    if a.len() != b.len() {
        return false;
    }
    let mut i: usize = 0;
    while i < a.len()
        invariant
            a@.len() == b@.len(),
            i <= a@.len(),
            forall|j: int| 0 <= j < i ==> a@[j] == b@[j],
        decreases a@.len() - i,
    {
        if a[i] != b[i] {
            return false;
        }
        i = i + 1;
    }
    assert(a@ =~= b@);
    true
}

/// Whether two strings are equal.
pub fn str_eq(a: &str, b: &str) -> (r: bool)
    ensures
        r == (a@ == b@),
{
    let va = str_chars(a);
    let vb = str_chars(b);
    chars_eq(va.as_slice(), vb.as_slice())
}

/// The characters of each string of a sequence, in order.
pub open spec fn strings_view(v: Seq<String>) -> Seq<Seq<char>> {
    v.map_values(|e: String| e@)
}

/// `char::is_whitespace`: the characters with the Unicode White_Space property.
pub open spec fn is_whitespace(c: char) -> bool {
    ('\u{9}' <= c && c <= '\u{d}') || c == ' ' || c == '\u{85}' || c == '\u{a0}' || c
        == '\u{1680}' || ('\u{2000}' <= c && c <= '\u{200a}') || c == '\u{2028}' || c
        == '\u{2029}' || c == '\u{202f}' || c == '\u{205f}' || c == '\u{3000}'
}

/// `u8::is_ascii_whitespace`: space, tab, line feed, form feed and carriage return.
pub open spec fn is_ascii_whitespace_byte(b: u8) -> bool {
    b == 0x20 || b == 0x09 || b == 0x0A || b == 0x0C || b == 0x0D
}

/// Whether a character is white space.
pub fn char_is_whitespace(c: char) -> (b: bool)
    ensures
        b == is_whitespace(c),
{
    ('\u{9}' <= c && c <= '\u{d}') || c == ' ' || c == '\u{85}' || c == '\u{a0}' || c
        == '\u{1680}' || ('\u{2000}' <= c && c <= '\u{200a}') || c == '\u{2028}' || c
        == '\u{2029}' || c == '\u{202f}' || c == '\u{205f}' || c == '\u{3000}'
}

/// The sequence without its leading white space.
pub open spec fn trim_start(s: Seq<char>) -> Seq<char>
    decreases s.len(),
{
    if s.len() > 0 && is_whitespace(s[0]) {
        trim_start(s.drop_first())
    } else {
        s
    }
}

/// The sequence without its trailing white space.
pub open spec fn trim_end(s: Seq<char>) -> Seq<char>
    decreases s.len(),
{
    if s.len() > 0 && is_whitespace(s.last()) {
        trim_end(s.drop_last())
    } else {
        s
    }
}

/// `str::trim`: the sequence without leading and trailing white space.
pub open spec fn trim(s: Seq<char>) -> Seq<char> {
    trim_end(trim_start(s))
}

/// The characters without leading and trailing white space.
pub fn trim_chars(s: &[char]) -> (r: Vec<char>)
    ensures
        r@ == trim(s@),
{
    let mut start: usize = 0;
    assert(s@.subrange(0, s@.len() as int) =~= s@);
    while start < s.len() && char_is_whitespace(s[start])
        invariant
            start <= s@.len(),
            trim_start(s@) == trim_start(s@.subrange(start as int, s@.len() as int)),
        decreases s@.len() - start,
    {
        assert(s@.subrange(start as int, s@.len() as int).drop_first() =~= s@.subrange(
            start + 1,
            s@.len() as int,
        ));
        start = start + 1;
    }
    let ghost ts = s@.subrange(start as int, s@.len() as int);
    assert(trim_start(s@) == ts);
    let mut end: usize = s.len();
    while end > start && char_is_whitespace(s[end - 1])
        invariant
            start <= end <= s@.len(),
            ts == s@.subrange(start as int, s@.len() as int),
            trim_end(ts) == trim_end(s@.subrange(start as int, end as int)),
        decreases end,
    {
        assert(s@.subrange(start as int, end as int).drop_last() =~= s@.subrange(
            start as int,
            end - 1,
        ));
        end = end - 1;
    }
    let mut r: Vec<char> = Vec::new();
    let mut i = start;
    while i < end
        invariant
            start <= i <= end <= s@.len(),
            r@ == s@.subrange(start as int, i as int),
        decreases end - i,
    {
        r.push(s[i]);
        i = i + 1;
        assert(r@ =~= s@.subrange(start as int, i as int));
    }
    r
}

/// The value of an ASCII digit in the given radix (up to 16), if it is one.
pub open spec fn digit_value(c: char, radix: u32) -> Option<nat> {
    let v: int = if '0' <= c && c <= '9' {
        c as int - '0' as int
    } else if 'a' <= c && c <= 'f' {
        c as int - 'a' as int + 10
    } else if 'A' <= c && c <= 'F' {
        c as int - 'A' as int + 10
    } else {
        99
    };
    if v < radix {
        Some(v as nat)
    } else {
        None
    }
}

/// Whether every character is a digit of the radix.
pub open spec fn all_digits(s: Seq<char>, radix: u32) -> bool {
    forall|i: int| 0 <= i < s.len() ==> (#[trigger] digit_value(s[i], radix)) is Some
}

/// The number that a sequence of digits spells in the radix.
pub open spec fn digits_value(s: Seq<char>, radix: u32) -> nat
    decreases s.len(),
{
    if s.len() == 0 {
        0
    } else {
        digits_value(s.drop_last(), radix) * (radix as nat) + digit_value(s.last(), radix).unwrap()
    }
}

/// The unsigned integer that `from_str_radix` reads: an optional `+` followed by at
/// least one digit of the radix, with a value of at most `max`.
pub open spec fn parse_unsigned_spec(s: Seq<char>, radix: u32, max: nat) -> Option<nat> {
    let d = if s.len() > 0 && s[0] == '+' {
        s.drop_first()
    } else {
        s
    };
    if d.len() > 0 && all_digits(d, radix) && digits_value(d, radix) <= max {
        Some(digits_value(d, radix))
    } else {
        None
    }
}

/// Digits spell a value at least as large as any of their prefixes.
proof fn lemma_digits_value_prefix(s: Seq<char>, radix: u32, k: int)
    requires
        0 <= k <= s.len(),
        all_digits(s, radix),
        radix >= 1,
    ensures
        digits_value(s.take(k), radix) <= digits_value(s, radix),
    decreases s.len() - k,
{
    if k < s.len() {
        let t = s.take(k + 1);
        assert(t.drop_last() =~= s.take(k));
        assert(digit_value(t.last(), radix) is Some);
        lemma_digits_value_prefix(s, radix, k + 1);
        assert(digits_value(s.take(k), radix) * radix >= digits_value(s.take(k), radix))
            by (nonlinear_arith)
            requires
                radix >= 1,
        ;
    } else {
        assert(s.take(k) =~= s);
    }
}

/// The value of one character as a digit of the radix.
fn char_digit(c: char, radix: u32) -> (r: Option<u32>)
    requires
        radix <= 16,
    ensures
        r matches Some(v) ==> digit_value(c, radix) == Some(v as nat),
        r is None ==> digit_value(c, radix) is None,
{
    let v: u32 = if '0' <= c && c <= '9' {
        (c as u32) - ('0' as u32)
    } else if 'a' <= c && c <= 'f' {
        (c as u32) - ('a' as u32) + 10
    } else if 'A' <= c && c <= 'F' {
        (c as u32) - ('A' as u32) + 10
    } else {
        99
    };
    if v < radix {
        Some(v)
    } else {
        None
    }
}

/// Reads an unsigned integer in the given radix as `from_str_radix` does.
pub fn parse_unsigned(s: &[char], radix: u32, max: u64) -> (r: Option<u64>)
    requires
        2 <= radix <= 16,
    ensures
        r matches Some(v) ==> parse_unsigned_spec(s@, radix, max as nat) == Some(v as nat),
        r is None ==> parse_unsigned_spec(s@, radix, max as nat) is None,
{
    let start: usize = if s.len() > 0 && s[0] == '+' {
        1
    } else {
        0
    };
    let ghost d = s@.subrange(start as int, s@.len() as int);
    assert(d =~= (if s@.len() > 0 && s@[0] == '+' {
        s@.drop_first()
    } else {
        s@
    }));
    if start >= s.len() {
        return None;
    }
    let mut acc: u128 = 0;
    let mut i = start;
    while i < s.len()
        invariant
            2 <= radix <= 16,
            start <= i <= s@.len(),
            d == s@.subrange(start as int, s@.len() as int),
            d == (if s@.len() > 0 && s@[0] == '+' {
                s@.drop_first()
            } else {
                s@
            }),
            all_digits(d.take(i - start), radix),
            acc == digits_value(d.take(i - start), radix),
            acc <= max,
        decreases s@.len() - i,
    {
        let c = s[i];
        match char_digit(c, radix) {
            None => {
                assert(d[i - start] == c);
                assert(digit_value(d[(i - start) as int], radix) is None);
                return None;
            },
            Some(v) => {
                let ghost prev = d.take(i - start);
                let ghost next = d.take(i - start + 1);
                assert(next.drop_last() =~= prev);
                assert(next.last() == c);
                assert(all_digits(next, radix)) by {
                    assert forall|j: int| 0 <= j < next.len() implies (#[trigger] digit_value(
                        next[j],
                        radix,
                    )) is Some by {
                        if j < prev.len() {
                            assert(next[j] == prev[j]);
                        }
                    }
                }
                assert(acc * (radix as u128) + (v as u128) <= 0xFFFF_FFFF_FFFF_FFFF * 16 + 16)
                    by (nonlinear_arith)
                    requires
                        acc <= 0xFFFF_FFFF_FFFF_FFFFu64,
                        radix <= 16,
                        v < 16,
                ;
                acc = acc * (radix as u128) + (v as u128);
                i = i + 1;
                assert(next == d.take(i - start));
                assert(acc == digits_value(next, radix));
                if acc > max as u128 {
                    proof {
                        if all_digits(d, radix) {
                            lemma_digits_value_prefix(d, radix, i - start);
                        }
                    }
                    return None;
                }
            },
        }
    }
    assert(d.take(i - start) =~= d);
    Some(acc as u64)
}

/// The concatenation of two strings.
pub fn concat(a: &str, b: &str) -> (s: String)
    ensures
        s@ == a@ + b@,
{
    let mut s = a.to_owned();
    let vb = str_chars(b);
    let mut i: usize = 0;
    while i < vb.len()
        invariant
            i <= vb@.len(),
            vb@ == b@,
            s@ == a@ + b@.take(i as int),
        decreases vb@.len() - i,
    {
        push_char(&mut s, vb[i]);
        i = i + 1;
        assert(s@ =~= a@ + b@.take(i as int));
    }
    assert(b@.take(b@.len() as int) =~= b@);
    s
}

/// Number of bytes of a character in UTF-8.
pub open spec fn utf8_width(c: char) -> nat {
    if (c as u32) < 0x80 {
        1
    } else if (c as u32) < 0x800 {
        2
    } else if (c as u32) < 0x10000 {
        3
    } else {
        4
    }
}

/// Number of bytes of a character sequence in UTF-8 (what `str::len` counts).
pub open spec fn utf8_len(s: Seq<char>) -> nat
    decreases s.len(),
{
    if s.len() == 0 {
        0
    } else {
        utf8_width(s[0]) + utf8_len(s.drop_first())
    }
}

/// The characters that make up exactly the first `n` bytes, if byte `n` starts
/// a character (or ends the text).
pub open spec fn prefix_with_bytes(s: Seq<char>, n: int) -> Option<Seq<char>>
    decreases s.len(),
{
    if n == 0 {
        Some(Seq::empty())
    } else if s.len() == 0 || utf8_width(s[0]) > n {
        None
    } else {
        match prefix_with_bytes(s.drop_first(), n - utf8_width(s[0])) {
            Some(p) => Some(seq![s[0]] + p),
            None => None,
        }
    }
}

/// Number of bytes of a character in UTF-8.
pub fn char_utf8_width(c: char) -> (w: u64)
    ensures
        w == utf8_width(c),
{
    let v = c as u32;
    if v < 0x80 {
        1
    } else if v < 0x800 {
        2
    } else if v < 0x10000 {
        3
    } else {
        4
    }
}

/// The UTF-8 byte length of the characters from `start` on, or `limit + 1` where
/// it exceeds `limit`.
pub fn utf8_len_capped(s: &[char], start: usize, limit: u64) -> (n: u64)
    requires
        start <= s@.len(),
        limit < 0xFFFF_FFFF,
    ensures
        n == if utf8_len(s@.skip(start as int)) <= limit {
            utf8_len(s@.skip(start as int))
        } else {
            (limit + 1) as nat
        },
    decreases s@.len() - start,
{
    if start == s.len() {
        assert(s@.skip(start as int).len() == 0);
        return 0;
    }
    assert(s@.skip(start as int).drop_first() =~= s@.skip(start + 1));
    let w = char_utf8_width(s[start]);
    let rest = utf8_len_capped(s, start + 1, limit);
    if rest > limit || w + rest > limit {
        limit + 1
    } else {
        w + rest
    }
}

/// The characters that make up exactly the first `n` bytes from `start` on.
pub fn prefix_with_bytes_exec(s: &[char], start: usize, n: u64) -> (r: Option<Vec<char>>)
    requires
        start <= s@.len(),
    ensures
        r matches Some(v) ==> prefix_with_bytes(s@.skip(start as int), n as int) == Some(v@),
        r is None ==> prefix_with_bytes(s@.skip(start as int), n as int) is None,
    decreases s@.len() - start,
{
    if n == 0 {
        return Some(Vec::new());
    }
    if start == s.len() {
        return None;
    }
    let w = char_utf8_width(s[start]);
    if w > n {
        return None;
    }
    assert(s@.skip(start as int).drop_first() =~= s@.skip(start + 1));
    match prefix_with_bytes_exec(s, start + 1, n - w) {
        Some(p) => {
            let mut v = Vec::new();
            v.push(s[start]);
            let mut i: usize = 0;
            while i < p.len()
                invariant
                    i <= p@.len(),
                    v@ == seq![s@[start as int]] + p@.take(i as int),
                decreases p@.len() - i,
            {
                v.push(p[i]);
                i = i + 1;
                assert(v@ =~= seq![s@[start as int]] + p@.take(i as int));
            }
            assert(p@.take(p@.len() as int) =~= p@);
            Some(v)
        },
        None => None,
    }
}

/// The character that a name character is compared as: ASCII capitals and the
/// Kelvin sign (the only other character whose lowercase form is an ASCII
/// letter) become their lowercase letter, every other character stays itself.
pub open spec fn fold_name_char(c: char) -> char {
    if 'A' <= c && c <= 'Z' {
        (((c as u32) + 32) as u8) as char
    } else if c == '\u{212A}' {
        'k'
    } else {
        c
    }
}

/// Folds a character as `fold_name_char` does.
pub fn fold_char(c: char) -> (r: char)
    ensures
        r == fold_name_char(c),
{
    if 'A' <= c && c <= 'Z' {
        (((c as u32) + 32) as u8) as char
    } else if c == '\u{212A}' {
        'k'
    } else {
        c
    }
}

/// The decimal digit character of a number below ten.
pub open spec fn digit_char(d: nat) -> char {
    ((d + 48) as u8) as char
}

/// The decimal digits of a number, without leading zeros.
pub open spec fn decimal_digits(n: nat) -> Seq<char>
    decreases n,
{
    if n < 10 {
        seq![digit_char(n)]
    } else {
        decimal_digits(n / 10).push(digit_char(n % 10))
    }
}

/// Appends the decimal digits of `n`.
pub fn push_decimal(s: &mut String, n: u64)
    ensures
        final(s)@ == old(s)@ + decimal_digits(n as nat),
    decreases n,
{
    if n >= 10 {
        push_decimal(s, n / 10);
    }
    let d = (n % 10) as u8;
    push_char(s, (d + 48) as char);
    if n < 10 {
        assert(final(s)@ =~= old(s)@ + decimal_digits(n as nat));
    } else {
        assert(final(s)@ =~= old(s)@ + decimal_digits(n as nat));
    }
}

/// The decimal digits of `n`.
pub fn decimal(n: u64) -> (s: String)
    ensures
        s@ == decimal_digits(n as nat),
{
    let mut s = String::new();
    push_decimal(&mut s, n);
    assert(s@ =~= decimal_digits(n as nat));
    s
}

/// `prefix` followed by the decimal digits of `n`.
pub fn with_decimal(prefix: &str, n: u64) -> (s: String)
    ensures
        s@ == prefix@ + decimal_digits(n as nat),
{
    let mut s = prefix.to_owned();
    push_decimal(&mut s, n);
    s
}

/// The characters of the first bytes are a prefix of the text.
pub proof fn lemma_prefix_with_bytes_len(s: Seq<char>, n: int)
    ensures
        prefix_with_bytes(s, n) matches Some(p) ==> p.len() <= s.len() && p == s.take(
            p.len() as int,
        ),
    decreases s.len(),
{
    if n != 0 && s.len() > 0 && utf8_width(s[0]) <= n {
        lemma_prefix_with_bytes_len(s.drop_first(), n - utf8_width(s[0]));
        if let Some(q) = prefix_with_bytes(s.drop_first(), n - utf8_width(s[0])) {
            assert(seq![s[0]] + q =~= s.take(q.len() as int + 1));
        }
    } else if n == 0 {
        assert(Seq::<char>::empty() =~= s.take(0));
    }
}

/// `str::split` by one character: the pieces between the separators, empty
/// pieces included (a text without separator is one piece).
pub open spec fn split_on(s: Seq<char>, sep: char) -> Seq<Seq<char>>
    decreases s.len(),
{
    if s.len() == 0 {
        seq![Seq::empty()]
    } else {
        let rest = split_on(s.drop_last(), sep);
        if s.last() == sep {
            rest.push(Seq::empty())
        } else {
            rest.update(rest.len() - 1, rest.last().push(s.last()))
        }
    }
}

/// Splitting always gives at least one piece.
pub proof fn lemma_split_nonempty(s: Seq<char>, sep: char)
    ensures
        split_on(s, sep).len() >= 1,
    decreases s.len(),
{
    if s.len() > 0 {
        lemma_split_nonempty(s.drop_last(), sep);
    }
}

/// The characters of each vector.
pub open spec fn char_vecs_view(v: Seq<Vec<char>>) -> Seq<Seq<char>> {
    v.map_values(|x: Vec<char>| x@)
}

/// Splits characters at each separator.
pub fn split_chars(s: &[char], sep: char) -> (r: Vec<Vec<char>>)
    ensures
        char_vecs_view(r@) == split_on(s@, sep),
        r@.len() >= 1,
{
    let mut parts: Vec<Vec<char>> = Vec::new();
    let mut cur: Vec<char> = Vec::new();
    let mut i: usize = 0;
    assert(s@.take(0) =~= Seq::<char>::empty());
    while i < s.len()
        invariant
            i <= s@.len(),
            char_vecs_view(parts@).push(cur@) == split_on(s@.take(i as int), sep),
        decreases s@.len() - i,
    {
        let ghost prev = split_on(s@.take(i as int), sep);
        assert(s@.take(i + 1).drop_last() =~= s@.take(i as int));
        if s[i] == sep {
            let done = cur;
            parts.push(done);
            cur = Vec::new();
            assert(char_vecs_view(parts@).push(cur@) =~= prev.push(Seq::<char>::empty()));
        } else {
            cur.push(s[i]);
            assert(char_vecs_view(parts@).push(cur@) =~= prev.update(prev.len() - 1, prev.last().push(s@[i as int])));
        }
        i = i + 1;
    }
    assert(s@.take(s@.len() as int) =~= s@);
    parts.push(cur);
    assert(char_vecs_view(parts@) =~= split_on(s@, sep));
    parts
}

/// `str::split_whitespace`: the non-empty runs of characters between white
/// space.
pub open spec fn words(s: Seq<char>) -> Seq<Seq<char>>
    decreases s.len(),
{
    if s.len() == 0 {
        Seq::empty()
    } else {
        let w = words(s.drop_last());
        let c = s.last();
        if is_whitespace(c) {
            w
        } else if s.len() >= 2 && !is_whitespace(s[s.len() - 2]) && w.len() > 0 {
            w.update(w.len() - 1, w.last().push(c))
        } else {
            w.push(seq![c])
        }
    }
}

/// A non-empty text without white space is one word.
pub proof fn lemma_single_word(s: Seq<char>)
    requires
        s.len() > 0,
        forall|i: int| 0 <= i < s.len() ==> !is_whitespace(#[trigger] s[i]),
    ensures
        words(s) == seq![s],
    decreases s.len(),
{
    if s.len() == 1 {
        assert(words(s.drop_last()) =~= Seq::<Seq<char>>::empty());
        assert(seq![s.last()] =~= s);
    } else {
        lemma_single_word(s.drop_last());
        assert(!is_whitespace(s[s.len() - 2]));
        assert(s.drop_last().push(s.last()) =~= s);
    }
}

/// Splits characters into their white-space separated words.
pub fn split_words(s: &[char]) -> (r: Vec<Vec<char>>)
    ensures
        char_vecs_view(r@) == words(s@),
{
    let mut parts: Vec<Vec<char>> = Vec::new();
    let mut cur: Vec<char> = Vec::new();
    let mut i: usize = 0;
    assert(s@.take(0) =~= Seq::<char>::empty());
    while i < s.len()
        invariant
            i <= s@.len(),
            cur@.len() > 0 ==> i > 0 && !is_whitespace(s@[i - 1]),
            i > 0 && !is_whitespace(s@[i - 1]) ==> cur@.len() > 0,
            (if cur@.len() > 0 {
                char_vecs_view(parts@).push(cur@)
            } else {
                char_vecs_view(parts@)
            }) == words(s@.take(i as int)),
        decreases s@.len() - i,
    {
        let ghost prev = words(s@.take(i as int));
        assert(s@.take(i + 1).drop_last() =~= s@.take(i as int));
        let c = s[i];
        assert(s@.take(i + 1).last() == c);
        assert(i > 0 ==> s@.take(i + 1)[i - 1] == s@[i - 1]);
        if char_is_whitespace(c) {
            if cur.len() > 0 {
                let done = cur;
                parts.push(done);
                cur = Vec::new();
                assert(char_vecs_view(parts@) =~= prev);
            }
        } else {
            let had = cur.len() > 0;
            cur.push(c);
            if had {
                assert(char_vecs_view(parts@).push(cur@) =~= prev.update(prev.len() - 1, prev.last().push(c)));
            } else {
                assert(cur@ =~= seq![c]);
                assert(char_vecs_view(parts@).push(cur@) =~= prev.push(seq![c]));
            }
        }
        i = i + 1;
    }
    assert(s@.take(s@.len() as int) =~= s@);
    if cur.len() > 0 {
        parts.push(cur);
    }
    assert(char_vecs_view(parts@) =~= words(s@));
    parts
}

} // verus!
