//! The CSV embroidery format: one record per line. Stitch lines name their
//! command with modifiers (`n` needle, `t` thread, `o` order); `@` lines are
//! metadata and `$` lines threads.

use vstd::prelude::*;
use crate::constants::{NO_COMMAND, STITCH, JUMP, TRIM, CUT, STOP, END, COLOR_CHANGE, SEQUIN_MODE, SEQUIN_EJECT, NEEDLE_SET, SLOW, FAST, SET_CHANGE_SEQUENCE, SEW_TO, NEEDLE_AT, STITCH_BREAK, SEQUENCE_BREAK, COLOR_BREAK, TIE_ON, TIE_OFF, FRAME_EJECT, MATRIX_TRANSLATE, MATRIX_SCALE_ORIGIN, MATRIX_ROTATE_ORIGIN, MATRIX_RESET, MATRIX_SCALE, MATRIX_ROTATE};
use crate::error::Error;
use crate::constants::command_name_spec;
use crate::readers::col::{line_at, line_end, lines_from, read_line};
use vstd::utf8::{valid_utf8, decode_utf8};
use crate::text::{words, lemma_single_word, split_words, char_vecs_view, parse_unsigned_spec, parse_unsigned, chars_eq, str_chars, trim, trim_chars, split_on, split_chars, lemma_split_nonempty, utf8_len, utf8_len_capped, string_from_chars};
use crate::thread::{EmbThread, rgb_value, opt_view, is_random_keyword, reads_as_hex, hex_color_panics, color_string_value, color_string_would_panic};

verus! {

/// The command names that CSV lines use, with their command values.
pub open spec fn csv_command_names() -> Seq<(&'static str, u32)> {
    seq![
        ("NO_COMMAND", NO_COMMAND),
        ("STITCH", STITCH),
        ("JUMP", JUMP),
        ("TRIM", TRIM),
        ("CUT", CUT),
        ("STOP", STOP),
        ("END", END),
        ("COLOR_CHANGE", COLOR_CHANGE),
        ("SEQUIN_MODE", SEQUIN_MODE),
        ("SEQUIN_EJECT", SEQUIN_EJECT),
        ("NEEDLE_SET", NEEDLE_SET),
        ("SLOW", SLOW),
        ("FAST", FAST),
        ("SET_CHANGE_SEQUENCE", SET_CHANGE_SEQUENCE),
        ("SEW_TO", SEW_TO),
        ("NEEDLE_AT", NEEDLE_AT),
        ("STITCH_BREAK", STITCH_BREAK),
        ("SEQUENCE_BREAK", SEQUENCE_BREAK),
        ("COLOR_BREAK", COLOR_BREAK),
        ("TIE_ON", TIE_ON),
        ("TIE_OFF", TIE_OFF),
        ("FRAME_EJECT", FRAME_EJECT),
        ("MATRIX_TRANSLATE", MATRIX_TRANSLATE),
        ("MATRIX_SCALE_ORIGIN", MATRIX_SCALE_ORIGIN),
        ("MATRIX_ROTATE_ORIGIN", MATRIX_ROTATE_ORIGIN),
        ("MATRIX_RESET", MATRIX_RESET),
        ("MATRIX_SCALE", MATRIX_SCALE),
        ("MATRIX_ROTATE", MATRIX_ROTATE),
    ]
}

/// The command names that CSV lines use.
fn csv_command_table() -> (t: [(&'static str, u32); 28])
    ensures
        t@ == csv_command_names(),
{
    let t: [(&'static str, u32); 28] = [
        ("NO_COMMAND", NO_COMMAND),
        ("STITCH", STITCH),
        ("JUMP", JUMP),
        ("TRIM", TRIM),
        ("CUT", CUT),
        ("STOP", STOP),
        ("END", END),
        ("COLOR_CHANGE", COLOR_CHANGE),
        ("SEQUIN_MODE", SEQUIN_MODE),
        ("SEQUIN_EJECT", SEQUIN_EJECT),
        ("NEEDLE_SET", NEEDLE_SET),
        ("SLOW", SLOW),
        ("FAST", FAST),
        ("SET_CHANGE_SEQUENCE", SET_CHANGE_SEQUENCE),
        ("SEW_TO", SEW_TO),
        ("NEEDLE_AT", NEEDLE_AT),
        ("STITCH_BREAK", STITCH_BREAK),
        ("SEQUENCE_BREAK", SEQUENCE_BREAK),
        ("COLOR_BREAK", COLOR_BREAK),
        ("TIE_ON", TIE_ON),
        ("TIE_OFF", TIE_OFF),
        ("FRAME_EJECT", FRAME_EJECT),
        ("MATRIX_TRANSLATE", MATRIX_TRANSLATE),
        ("MATRIX_SCALE_ORIGIN", MATRIX_SCALE_ORIGIN),
        ("MATRIX_ROTATE_ORIGIN", MATRIX_ROTATE_ORIGIN),
        ("MATRIX_RESET", MATRIX_RESET),
        ("MATRIX_SCALE", MATRIX_SCALE),
        ("MATRIX_ROTATE", MATRIX_ROTATE),
    ];
    assert(t@ =~= csv_command_names());
    t
}

/// The value of the first command name from position `i` on that is `name`,
/// `STITCH` when none is.
pub open spec fn command_named_from(name: Seq<char>, i: int) -> u32
    decreases csv_command_names().len() - i,
{
    if i < 0 || i >= csv_command_names().len() {
        STITCH
    } else if csv_command_names()[i].0@ == name {
        csv_command_names()[i].1
    } else {
        command_named_from(name, i + 1)
    }
}

/// The command value of a CSV command name; an unknown name is a stitch.
pub open spec fn command_named(name: Seq<char>) -> u32 {
    command_named_from(name, 0)
}

/// What a modifier adds to a command: `n<k>` needle `k`, `t<k>` thread `k`,
/// `o<k>` order `k`, each stored as `k + 1` in its byte; anything else adds
/// nothing.
pub open spec fn modifier_bits(m: Seq<char>) -> u32 {
    if m.len() > 0 && (m[0] == 'n' || m[0] == 't' || m[0] == 'o') {
        match parse_unsigned_spec(m.drop_first(), 10, u32::MAX as nat) {
            Some(v) => {
                let shift: u32 = if m[0] == 'n' {
                    16
                } else if m[0] == 't' {
                    8
                } else {
                    24
                };
                (((v + 1) as u32) << shift) as u32
            },
            None => 0,
        }
    } else {
        0
    }
}

/// Whether a modifier holds the largest 32-bit value, to which one cannot
/// be added.
pub open spec fn modifier_overflows(m: Seq<char>) -> bool {
    m.len() > 0 && (m[0] == 'n' || m[0] == 't' || m[0] == 'o') && parse_unsigned_spec(
        m.drop_first(),
        10,
        u32::MAX as nat,
    ) == Some(u32::MAX as nat)
}

/// A command value with the modifiers `mods` applied.
pub open spec fn with_modifiers(command: u32, mods: Seq<Seq<char>>) -> u32
    decreases mods.len(),
{
    if mods.len() == 0 {
        command
    } else {
        with_modifiers(command, mods.drop_last()) | modifier_bits(mods.last())
    }
}

/// The command value of a CSV command text: its first word names the
/// command (no word: a stitch), the other words are modifiers.
pub open spec fn csv_command_value(s: Seq<char>) -> u32 {
    let w = words(s);
    if w.len() == 0 {
        STITCH
    } else {
        with_modifiers(command_named(w[0]), w.drop_first())
    }
}

/// Whether some modifier of a CSV command text overflows.
pub open spec fn csv_command_overflows(s: Seq<char>) -> bool {
    exists|k: int| 1 <= k < words(s).len() && modifier_overflows(#[trigger] words(s)[k])
}

/// The bits that a modifier adds.
fn modifier_value(m: &Vec<char>) -> (v: u32)
    requires
        !modifier_overflows(m@),
    ensures
        v == modifier_bits(m@),
{
    if m.len() == 0 {
        return 0;
    }
    let c = m[0];
    if c != 'n' && c != 't' && c != 'o' {
        return 0;
    }
    let mut rest: Vec<char> = Vec::new();
    let mut i: usize = 1;
    while i < m.len()
        invariant
            1 <= i <= m@.len(),
            rest@ == m@.subrange(1, i as int),
        decreases m@.len() - i,
    {
        rest.push(m[i]);
        i = i + 1;
        assert(rest@ =~= m@.subrange(1, i as int));
    }
    assert(rest@ =~= m@.drop_first());
    match parse_unsigned(rest.as_slice(), 10, 0xFFFF_FFFF) {
        Some(v) => {
            let k = (v as u32) + 1;
            let shift: u32 = if c == 'n' {
                16
            } else if c == 't' {
                8
            } else {
                24
            };
            k << shift
        },
        None => 0,
    }
}

/// The value of a command name.
fn command_by_name(name: &Vec<char>) -> (v: u32)
    ensures
        v == command_named(name@),
{
    let table = csv_command_table();
    let mut i: usize = 0;
    while i < 28
        invariant
            i <= 28,
            table@ == csv_command_names(),
            command_named(name@) == command_named_from(name@, i as int),
        decreases 28 - i,
    {
        let entry = str_chars(table[i].0);
        if chars_eq(entry.as_slice(), name.as_slice()) {
            return table[i].1;
        }
        i = i + 1;
    }
    STITCH
}

/// Parses a CSV command text like `STITCH n1 t2` into a command value: the
/// first word names the command (an unknown name or no word is a stitch),
/// and each modifier `n<k>`, `t<k>`, `o<k>` stores `k + 1` in the needle,
/// thread or order byte.
pub fn parse_command(cmd_str: &str) -> (r: Result<u32, Error>)
    requires
        !csv_command_overflows(cmd_str@),
    ensures
        r == Ok::<u32, Error>(csv_command_value(cmd_str@)),
{
    let chars = str_chars(cmd_str);
    let parts = split_words(chars.as_slice());
    let ghost w = words(cmd_str@);
    assert(char_vecs_view(parts@) == w);
    if parts.len() == 0 {
        return Ok(STITCH);
    }
    let mut command = command_by_name(&parts[0]);
    let mut k: usize = 1;
    while k < parts.len()
        invariant
            1 <= k <= parts@.len(),
            char_vecs_view(parts@) == w,
            !csv_command_overflows(cmd_str@),
            w == words(cmd_str@),
            command == with_modifiers(command_named(w[0]), w.drop_first().take(k - 1)),
        decreases parts@.len() - k,
    {
        assert(w[k as int] == parts@[k as int]@);
        assert(!modifier_overflows(w[k as int]));
        let bits = modifier_value(&parts[k]);
        assert(w.drop_first().take(k as int).drop_last() =~= w.drop_first().take(k - 1));
        command = command | bits;
        k = k + 1;
    }
    assert(w.drop_first().take(k - 1) =~= w.drop_first());
    Ok(command)
}

/// Every named command reads back from its name: the name that
/// `command_name` gives the no-command value or a core command is a CSV
/// command text that `parse_command` turns into that same command.
pub proof fn lemma_command_name_round_trip(c: u32)
    requires
        c == NO_COMMAND || c <= 0xFF,
        command_name_spec(c)@ != "UNKNOWN"@,
    ensures
        !csv_command_overflows(command_name_spec(c)@),
        csv_command_value(command_name_spec(c)@) == c,
{
    assert(c <= 0xFF ==> c & 0xFF == c) by (bit_vector);
    reveal_strlit("NO_COMMAND");
    reveal_strlit("STITCH");
    reveal_strlit("JUMP");
    reveal_strlit("TRIM");
    reveal_strlit("CUT");
    reveal_strlit("STOP");
    reveal_strlit("END");
    reveal_strlit("COLOR_CHANGE");
    reveal_strlit("SEQUIN_MODE");
    reveal_strlit("SEQUIN_EJECT");
    reveal_strlit("NEEDLE_SET");
    reveal_strlit("SLOW");
    reveal_strlit("FAST");
    reveal_strlit("SET_CHANGE_SEQUENCE");
    reveal_strlit("SEW_TO");
    reveal_strlit("NEEDLE_AT");
    reveal_strlit("STITCH_BREAK");
    reveal_strlit("SEQUENCE_BREAK");
    reveal_strlit("COLOR_BREAK");
    reveal_strlit("TIE_ON");
    reveal_strlit("TIE_OFF");
    reveal_strlit("FRAME_EJECT");
    reveal_strlit("MATRIX_TRANSLATE");
    reveal_strlit("MATRIX_SCALE_ORIGIN");
    reveal_strlit("MATRIX_ROTATE_ORIGIN");
    reveal_strlit("MATRIX_RESET");
    reveal_strlit("MATRIX_SCALE");
    reveal_strlit("MATRIX_ROTATE");
    reveal_strlit("UNKNOWN");
    reveal_with_fuel(command_named_from, 30);
    let name = command_name_spec(c)@;
    lemma_single_word(name);
    assert(words(name).drop_first() =~= Seq::<Seq<char>>::empty());
}

/// What a line of a CSV file gives the pattern.
#[derive(Debug, Clone)]
pub enum CsvRecord {
    /// Nothing: an empty line, a comment, or a line too short for its kind
    Skip,
    /// A stitch command at the position that the two coordinate texts give
    Stitch { command: u32, x: String, y: String },
    /// A command at the origin that leaves the needle where it is
    Command { command: u32 },
    /// A metadata entry
    Metadata { key: String, value: String },
    /// A thread
    Thread(EmbThread),
}

/// Each text trimmed.
pub open spec fn trim_all(v: Seq<Seq<char>>) -> Seq<Seq<char>> {
    v.map_values(|f: Seq<char>| trim(f))
}

/// The trimmed comma-separated fields of a trimmed line.
pub open spec fn csv_fields(line: Seq<char>) -> Seq<Seq<char>> {
    trim_all(split_on(trim(line), ','))
}

/// Field `k` if it is there and not empty.
pub open spec fn nonempty_field(f: Seq<Seq<char>>, k: int) -> Option<Seq<char>> {
    if k < f.len() && f[k].len() > 0 {
        Some(f[k])
    } else {
        None
    }
}

/// Whether a thread line gives its colour as three short decimal
/// components (the Embroidermodder form).
pub open spec fn rgb_form(f: Seq<Seq<char>>) -> bool {
    f.len() >= 5 && utf8_len(f[2]) <= 3 && utf8_len(f[3]) <= 3 && utf8_len(f[4]) <= 3
}

/// A decimal byte value.
pub open spec fn byte_value(s: Seq<char>) -> Option<nat> {
    parse_unsigned_spec(s, 10, 255)
}

/// Whether `t` is the thread that a thread line with fields `f` gives.
pub open spec fn csv_thread(t: EmbThread, f: Seq<Seq<char>>) -> bool {
    if f[2].len() == 0 {
        t.color == 0 && t.description is None && t.catalog_number is None && t.brand is None
            && t.chart is None
    } else if rgb_form(f) {
        match (byte_value(f[2]), byte_value(f[3]), byte_value(f[4])) {
            (Some(r), Some(g), Some(b)) => t.color == rgb_value(r as u8, g as u8, b as u8)
                && opt_view(t.description) == nonempty_field(f, 5) && opt_view(t.catalog_number)
                == nonempty_field(f, 6) && t.brand is None && t.chart is None,
            _ => t.color == 0 && t.description is None && t.catalog_number is None && t.brand is None
                && t.chart is None,
        }
    } else {
        &&& !is_random_keyword(f[2]) ==> (color_string_value(f[2]) matches Some(v) && t.color == v
            & 0xFF_FFFF)
        &&& opt_view(t.description) == nonempty_field(f, 3)
        &&& opt_view(t.brand) == nonempty_field(f, 4)
        &&& opt_view(t.catalog_number) == nonempty_field(f, 5)
        &&& opt_view(t.chart) == (if nonempty_field(f, 7) is Some {
            nonempty_field(f, 7)
        } else {
            nonempty_field(f, 6)
        })
    }
}

/// Whether reading a CSV line would panic: a command modifier that
/// overflows, or a thread colour that the hex parser cannot cut.
pub open spec fn csv_line_panics(line: Seq<char>) -> bool {
    let f = csv_fields(line);
    let t = trim(line);
    t.len() > 0 && f.len() >= 3 && ((f[0].len() > 0 && f[0][0] == '*' && csv_command_overflows(
        f[2],
    )) || (f[0].len() > 0 && f[0][0] == '$' && f[2].len() > 0 && !rgb_form(f)
        && !is_random_keyword(f[2]) && reads_as_hex(f[2]) && hex_color_panics(f[2])))
}

/// Whether `r` is what a CSV line gives: a line starting with `*` gives a
/// stitch (five or more fields) or a command (three or four); `@` a metadata
/// entry; `$` a thread; anything else, or too few fields, nothing. Only a
/// thread whose colour names no colour is an error.
pub open spec fn csv_line_result(line: Seq<char>, r: Result<CsvRecord, Error>) -> bool {
    let f = csv_fields(line);
    let t = trim(line);
    if t.len() == 0 || f[0].len() == 0 || f.len() < 3 {
        r matches Ok(CsvRecord::Skip)
    } else if f[0][0] == '*' {
        if f.len() >= 5 {
            r matches Ok(CsvRecord::Stitch { command, x, y }) && command == csv_command_value(f[2])
                && x@ == f[3] && y@ == f[4]
        } else {
            r matches Ok(CsvRecord::Command { command }) && command == csv_command_value(f[2])
        }
    } else if f[0][0] == '@' {
        r matches Ok(CsvRecord::Metadata { key, value }) && key@ == f[1] && value@ == f[2]
    } else if f[0][0] == '$' {
        if f[2].len() > 0 && !rgb_form(f) && !is_random_keyword(f[2]) && color_string_value(f[2]) is None {
            r is Err
        } else {
            r matches Ok(CsvRecord::Thread(th)) && csv_thread(th, f)
        }
    } else {
        r matches Ok(CsvRecord::Skip)
    }
}

/// The trimmed fields of a line.
fn fields_of(line: &str) -> (r: Vec<Vec<char>>)
    ensures
        char_vecs_view(r@) == csv_fields(line@),
        r@.len() >= 1,
{
    let chars = str_chars(line);
    let t = trim_chars(chars.as_slice());
    let raw = split_chars(t.as_slice(), ',');
    let mut out: Vec<Vec<char>> = Vec::new();
    let mut k: usize = 0;
    while k < raw.len()
        invariant
            k <= raw@.len(),
            char_vecs_view(raw@) == split_on(trim(line@), ','),
            char_vecs_view(out@) == trim_all(split_on(trim(line@), ',').take(k as int)),
        decreases raw@.len() - k,
    {
        let ghost x = split_on(trim(line@), ',');
        assert(char_vecs_view(raw@)[k as int] == raw@[k as int]@);
        let f = trim_chars(raw[k].as_slice());
        let ghost prev = char_vecs_view(out@);
        out.push(f);
        assert(char_vecs_view(out@) =~= prev.push(trim(x[k as int])));
        assert(trim_all(x.take(k + 1)) =~= trim_all(x.take(k as int)).push(trim(x[k as int])));
        k = k + 1;
        assert(char_vecs_view(out@) =~= trim_all(split_on(trim(line@), ',').take(k as int)));
    }
    assert(split_on(trim(line@), ',').take(k as int) =~= split_on(trim(line@), ','));
    out
}

/// A string of a field.
fn field_string(f: &Vec<Vec<char>>, k: usize) -> (s: String)
    requires
        k < f@.len(),
    ensures
        s@ == f@[k as int]@,
{
    string_from_chars(f[k].as_slice())
}

/// A decimal byte value of a field.
fn field_byte(f: &Vec<Vec<char>>, k: usize) -> (r: Option<u8>)
    requires
        k < f@.len(),
    ensures
        r matches Some(v) ==> byte_value(f@[k as int]@) == Some(v as nat),
        r is None ==> byte_value(f@[k as int]@) is None,
{
    match parse_unsigned(f[k].as_slice(), 10, 255) {
        Some(v) => Some(v as u8),
        None => None,
    }
}

/// Reads one line of a CSV file.
pub fn parse_csv_line(line: &str) -> (r: Result<CsvRecord, Error>)
    requires
        !csv_line_panics(line@),
    ensures
        csv_line_result(line@, r),
{
    let f = fields_of(line);
    let ghost fv = csv_fields(line@);
    assert forall|k: int| 0 <= k < f@.len() implies f@[k]@ == fv[k] by {}
    let chars = str_chars(line);
    let t = trim_chars(chars.as_slice());
    if t.len() == 0 || f[0].len() == 0 || f.len() < 3 {
        return Ok(CsvRecord::Skip);
    }
    let lead = f[0][0];
    if lead == '*' {
        let cmd_text = field_string(&f, 2);
        let command = match parse_command(cmd_text.as_str()) {
            Ok(c) => c,
            Err(e) => return Err(e),
        };
        if f.len() >= 5 {
            return Ok(CsvRecord::Stitch { command, x: field_string(&f, 3), y: field_string(&f, 4) });
        }
        return Ok(CsvRecord::Command { command });
    }
    if lead == '@' {
        return Ok(CsvRecord::Metadata { key: field_string(&f, 1), value: field_string(&f, 2) });
    }
    if lead != '$' {
        return Ok(CsvRecord::Skip);
    }
    let mut thread = EmbThread::from_rgb(0, 0, 0);
    assert(rgb_value(0, 0, 0) == 0);
    if f[2].len() == 0 {
        return Ok(CsvRecord::Thread(thread));
    }
    let short = f.len() >= 5 && utf8_len_capped(f[2].as_slice(), 0, 3) <= 3 && utf8_len_capped(
        f[3].as_slice(),
        0,
        3,
    ) <= 3 && utf8_len_capped(f[4].as_slice(), 0, 3) <= 3;
    proof {
        if f@.len() >= 5 {
            assert(f@[2]@.skip(0) =~= f@[2]@);
            assert(f@[3]@.skip(0) =~= f@[3]@);
            assert(f@[4]@.skip(0) =~= f@[4]@);
        }
    }
    if short {
        match (field_byte(&f, 2), field_byte(&f, 3), field_byte(&f, 4)) {
            (Some(r), Some(g), Some(b)) => {
                thread = EmbThread::from_rgb(r, g, b);
                if f.len() > 5 && f[5].len() > 0 {
                    thread.description = Some(field_string(&f, 5));
                }
                if f.len() > 6 && f[6].len() > 0 {
                    thread.catalog_number = Some(field_string(&f, 6));
                }
            },
            _ => {},
        }
        return Ok(CsvRecord::Thread(thread));
    }
    let color_text = field_string(&f, 2);
    thread = match EmbThread::from_string(color_text.as_str()) {
        Ok(t) => t,
        Err(e) => return Err(e),
    };
    if f.len() > 3 && f[3].len() > 0 {
        thread.description = Some(field_string(&f, 3));
    }
    if f.len() > 4 && f[4].len() > 0 {
        thread.brand = Some(field_string(&f, 4));
    }
    if f.len() > 5 && f[5].len() > 0 {
        thread.catalog_number = Some(field_string(&f, 5));
    }
    if f.len() > 6 && f[6].len() > 0 {
        thread.chart = Some(field_string(&f, 6));
    }
    if f.len() > 7 && f[7].len() > 0 {
        thread.chart = Some(field_string(&f, 7));
    }
    Ok(CsvRecord::Thread(thread))
}

/// Whether a CSV line is refused: a thread line whose colour text names no
/// colour.
pub open spec fn csv_line_fails(line: Seq<char>) -> bool {
    let f = csv_fields(line);
    let t = trim(line);
    &&& t.len() > 0 && f[0].len() > 0 && f.len() >= 3
    &&& f[0][0] == '$'
    &&& f[2].len() > 0 && !rgb_form(f) && !is_random_keyword(f[2]) && color_string_value(f[2]) is None
}

/// Whether a line of a CSV file is read: it is UTF-8 and not refused.
pub open spec fn csv_line_ok(l: Seq<u8>) -> bool {
    valid_utf8(l) && !csv_line_fails(decode_utf8(l))
}

/// Whether reading the lines of a CSV file would panic: on the first line
/// that is not read, if it is UTF-8 and makes line reading panic.
pub open spec fn csv_file_panics(d: Seq<u8>) -> bool {
    let ls = lines_from(d, 0);
    exists|k: int|
        0 <= k < ls.len() && (forall|j: int| 0 <= j < k ==> csv_line_ok(#[trigger] ls[j]))
            && valid_utf8(ls[k]) && csv_line_panics(decode_utf8(#[trigger] ls[k]))
}

/// A line starting at a position before the end ends after it.
proof fn lemma_line_advances(d: Seq<u8>, i: int)
    requires
        0 <= i < d.len(),
    ensures
        line_at(d, i) matches Some((_, next)) && i < next <= d.len(),
    decreases d.len() - i,
{
    lemma_line_end_bounds(d, i);
}

/// Where a line ends lies between its start and the end of the data.
proof fn lemma_line_end_bounds(d: Seq<u8>, i: int)
    requires
        0 <= i <= d.len(),
    ensures
        i <= line_end(d, i) <= d.len(),
    decreases d.len() - i,
{
    if i < d.len() && d[i] != 0x0A {
        lemma_line_end_bounds(d, i + 1);
    }
}

/// Reads every line of a CSV file: the record of each line, in order.
/// Fails at the first line that is not UTF-8 or whose thread colour names no
/// colour.
pub fn parse_csv(d: &[u8]) -> (r: Result<Vec<CsvRecord>, Error>)
    requires
        !csv_file_panics(d@),
    ensures
        r is Ok <==> forall|k: int| 0 <= k < lines_from(d@, 0).len() ==> csv_line_ok(
            #[trigger] lines_from(d@, 0)[k],
        ),
        r matches Ok(v) ==> v@.len() == lines_from(d@, 0).len() && forall|k: int|
            0 <= k < v@.len() ==> csv_line_result(
                decode_utf8(lines_from(d@, 0)[k]),
                Ok::<CsvRecord, Error>(#[trigger] v@[k]),
            ),
{
    let ghost ls = lines_from(d@, 0);
    let ghost mut done: Seq<Seq<u8>> = Seq::empty();
    let mut out: Vec<CsvRecord> = Vec::new();
    let mut pos: usize = 0;
    assert(ls =~= done + lines_from(d@, 0));
    loop
        invariant
            pos <= d@.len(),
            ls == lines_from(d@, 0),
            ls == done + lines_from(d@, pos as int),
            out@.len() == done.len(),
            forall|j: int| 0 <= j < done.len() ==> csv_line_ok(#[trigger] done[j]),
            forall|j: int|
                0 <= j < done.len() ==> csv_line_result(
                    decode_utf8(done[j]),
                    Ok::<CsvRecord, Error>(#[trigger] out@[j]),
                ),
            !csv_file_panics(d@),
        decreases d@.len() - pos,
    {
        if pos >= d.len() {
            assert(lines_from(d@, pos as int) =~= Seq::<Seq<u8>>::empty());
            assert(ls =~= done);
            return Ok(out);
        }
        proof {
            lemma_line_advances(d@, pos as int);
        }
        let ghost l = line_at(d@, pos as int).unwrap().0;
        let ghost k = done.len() as int;
        assert(lines_from(d@, pos as int) =~= seq![l] + lines_from(d@, line_at(d@, pos as int).unwrap().1));
        assert(ls[k] == l);
        let (text, next) = match read_line(d, pos) {
            Some((Some(s), q)) => (s, q),
            _ => {
                assert(!csv_line_ok(ls[k]));
                return Err(Error::Parse("Failed to read CSV line".to_owned()));
            },
        };
        assert forall|j: int| 0 <= j < k implies csv_line_ok(#[trigger] ls[j]) by {
            assert(ls[j] == done[j]);
        }
        assert(!csv_line_panics(text@)) by {
            if csv_line_panics(text@) {
                assert(valid_utf8(ls[k]) && csv_line_panics(decode_utf8(ls[k])));
                assert(csv_file_panics(d@));
            }
        }
        let rec = parse_csv_line(text.as_str());
        match rec {
            Ok(v) => {
                out.push(v);
            },
            Err(e) => {
                assert(!csv_line_ok(ls[k]));
                return Err(e);
            },
        }
        proof {
            done = done.push(l);
            assert(ls =~= done + lines_from(d@, next as int));
        }
        pos = next;
    }
}

/// Whether a command modifier's number is the largest 32-bit value, whose
/// successor overflows.
fn modifier_would_overflow(m: &Vec<char>) -> (b: bool)
    ensures
        b == modifier_overflows(m@),
{
    if m.len() == 0 {
        return false;
    }
    let c = m[0];
    if c != 'n' && c != 't' && c != 'o' {
        return false;
    }
    let mut rest: Vec<char> = Vec::new();
    let mut i: usize = 1;
    while i < m.len()
        invariant
            1 <= i <= m@.len(),
            rest@ == m@.subrange(1, i as int),
        decreases m@.len() - i,
    {
        rest.push(m[i]);
        i = i + 1;
        assert(rest@ =~= m@.subrange(1, i as int));
    }
    assert(rest@ =~= m@.drop_first());
    match parse_unsigned(rest.as_slice(), 10, 0xFFFF_FFFF) {
        Some(v) => v == 0xFFFF_FFFF,
        None => false,
    }
}

/// Whether a command text has a modifier whose number overflows.
fn command_would_overflow(s: &Vec<char>) -> (b: bool)
    ensures
        b == csv_command_overflows(s@),
{
    let w = split_words(s.as_slice());
    let mut k: usize = 1;
    while k < w.len()
        invariant
            1 <= k,
            char_vecs_view(w@) == words(s@),
            forall|j: int| 1 <= j < k && j < w@.len() ==> !modifier_overflows(#[trigger] words(s@)[j]),
        decreases w@.len() - k,
    {
        assert(w@[k as int]@ == words(s@)[k as int]);
        if modifier_would_overflow(&w[k]) {
            return true;
        }
        k = k + 1;
    }
    false
}

/// Whether reading a CSV line would panic, as `csv_line_panics` says.
pub fn csv_line_would_panic(line: &str) -> (b: bool)
    ensures
        b == csv_line_panics(line@),
{
    let f = fields_of(line);
    let ghost fv = csv_fields(line@);
    assert forall|k: int| 0 <= k < f@.len() implies f@[k]@ == fv[k] by {}
    let chars = str_chars(line);
    let t = trim_chars(chars.as_slice());
    if t.len() == 0 || f.len() < 3 || f[0].len() == 0 {
        return false;
    }
    let lead = f[0][0];
    if lead == '*' {
        return command_would_overflow(&f[2]);
    }
    if lead != '$' || f[2].len() == 0 {
        return false;
    }
    let rgb = f.len() >= 5 && utf8_len_capped(f[2].as_slice(), 0, 3) <= 3 && utf8_len_capped(
        f[3].as_slice(),
        0,
        3,
    ) <= 3 && utf8_len_capped(f[4].as_slice(), 0, 3) <= 3;
    proof {
        if f@.len() >= 5 {
            assert(f@[2]@.skip(0) =~= f@[2]@);
            assert(f@[3]@.skip(0) =~= f@[3]@);
            assert(f@[4]@.skip(0) =~= f@[4]@);
        }
    }
    if rgb {
        return false;
    }
    color_string_would_panic(f[2].as_slice())
}

/// Whether a CSV file can be read without a panic: the negation of
/// `csv_file_panics`.
pub fn is_csv_readable(d: &[u8]) -> (b: bool)
    ensures
        b == !csv_file_panics(d@),
{
    let ghost ls = lines_from(d@, 0);
    let ghost mut done: Seq<Seq<u8>> = Seq::empty();
    let mut pos: usize = 0;
    assert(ls =~= done + lines_from(d@, 0));
    loop
        invariant
            pos <= d@.len(),
            ls == lines_from(d@, 0),
            ls == done + lines_from(d@, pos as int),
            forall|j: int| 0 <= j < done.len() ==> csv_line_ok(#[trigger] done[j]),
            forall|j: int|
                0 <= j < done.len() ==> !(valid_utf8(#[trigger] done[j]) && csv_line_panics(
                    decode_utf8(done[j]),
                )),
        decreases d@.len() - pos,
    {
        if pos >= d.len() {
            assert(lines_from(d@, pos as int) =~= Seq::<Seq<u8>>::empty());
            assert(ls =~= done);
            assert(!csv_file_panics(d@)) by {
                if csv_file_panics(d@) {
                    let k = choose|k: int|
                        0 <= k < ls.len() && (forall|j: int| 0 <= j < k ==> csv_line_ok(#[trigger] ls[j]))
                            && valid_utf8(ls[k]) && csv_line_panics(decode_utf8(#[trigger] ls[k]));
                    assert(ls[k] == done[k]);
                }
            }
            return true;
        }
        proof {
            lemma_line_advances(d@, pos as int);
        }
        let ghost l = line_at(d@, pos as int).unwrap().0;
        let ghost k = done.len() as int;
        assert(lines_from(d@, pos as int) =~= seq![l] + lines_from(d@, line_at(d@, pos as int).unwrap().1));
        assert(ls[k] == l);
        assert forall|j: int| 0 <= j < k implies ls[j] == done[j] by {}
        let (text, next) = match read_line(d, pos) {
            Some((Some(s), q)) => (s, q),
            _ => {
                assert(!csv_file_panics(d@)) by {
                    if csv_file_panics(d@) {
                        let m = choose|m: int|
                            0 <= m < ls.len() && (forall|j: int| 0 <= j < m ==> csv_line_ok(#[trigger] ls[j]))
                                && valid_utf8(ls[m]) && csv_line_panics(decode_utf8(#[trigger] ls[m]));
                        if m > k {
                            assert(csv_line_ok(ls[k]));
                        } else if m < k {
                            assert(ls[m] == done[m]);
                        }
                    }
                }
                return true;
            },
        };
        if csv_line_would_panic(text.as_str()) {
            assert(forall|j: int| 0 <= j < k ==> csv_line_ok(#[trigger] ls[j]));
            assert(valid_utf8(ls[k]) && csv_line_panics(decode_utf8(ls[k])));
            return false;
        }
        match parse_csv_line(text.as_str()) {
            Ok(_) => {},
            Err(_) => {
                assert(!csv_line_ok(ls[k]));
                assert(!csv_file_panics(d@)) by {
                    if csv_file_panics(d@) {
                        let m = choose|m: int|
                            0 <= m < ls.len() && (forall|j: int| 0 <= j < m ==> csv_line_ok(#[trigger] ls[j]))
                                && valid_utf8(ls[m]) && csv_line_panics(decode_utf8(#[trigger] ls[m]));
                        if m > k {
                            assert(csv_line_ok(ls[k]));
                        } else if m < k {
                            assert(ls[m] == done[m]);
                        }
                    }
                }
                return true;
            },
        }
        proof {
            done = done.push(l);
            assert(ls =~= done + lines_from(d@, next as int));
        }
        pos = next;
    }
}

} // verus!
