//! Tajima DST: 3-byte stitch records whose x and y offsets are sums of
//! balanced-ternary digits spread over the bits of the three bytes, with the
//! record kind in the control bits of the third byte.

use vstd::prelude::*;
use crate::constants::{STITCH, JUMP, END, COLOR_CHANGE, SEQUIN_MODE, SEQUIN_EJECT};
use crate::error::Error;
use crate::ops::{PatternOp, rel};
use crate::detector::{contains_bytes, dst_labels, contains_in};
use crate::thread::{EmbThread, opt_view, is_random_keyword, reads_as_hex, hex_color_panics, color_string_value, color_string_would_panic};
use crate::text::{str_eq, split_on, split_chars, char_vecs_view, lemma_split_nonempty, trim, utf8_len, prefix_with_bytes, str_chars, trim_chars, utf8_len_capped, prefix_with_bytes_exec, string_from_chars, utf8_to_string, strings_view};
use vstd::utf8::{valid_utf8, decode_utf8};

verus! {

/// The DST header size in bytes.
pub const DST_HEADER_SIZE: usize = 512;

/// The most stitch records a DST file may hold.
pub const DST_MAX_STITCHES: usize = 1_000_000;

/// Bit `pos` of `b`, as 0 or 1.
pub open spec fn bit(b: u8, pos: u8) -> int {
    ((b >> pos) & 1u8) as int
}

/// The x offset of a record: +-1, +-3, +-9, +-27, +-81 digits.
pub open spec fn dx_value(b0: u8, b1: u8, b2: u8) -> int {
    81 * bit(b2, 2) - 81 * bit(b2, 3) + 27 * bit(b1, 2) - 27 * bit(b1, 3) + 9 * bit(b0, 2) - 9
        * bit(b0, 3) + 3 * bit(b1, 0) - 3 * bit(b1, 1) + bit(b0, 0) - bit(b0, 1)
}

/// The y offset of a record (the file's y axis points the other way).
pub open spec fn dy_value(b0: u8, b1: u8, b2: u8) -> int {
    -(81 * bit(b2, 5) - 81 * bit(b2, 4) + 27 * bit(b1, 5) - 27 * bit(b1, 4) + 9 * bit(b0, 5) - 9
        * bit(b0, 4) + 3 * bit(b1, 7) - 3 * bit(b1, 6) + bit(b0, 7) - bit(b0, 6))
}

/// Bit `pos` of `b`.
pub fn get_bit(b: u8, pos: u8) -> (v: i32)
    requires
        pos < 8,
    ensures
        v == bit(b, pos),
        0 <= v <= 1,
{
    let r = (b >> pos) & 1;
    assert((b >> pos) & 1u8 <= 1) by (bit_vector);
    r as i32
}

/// Decodes the x offset of a record.
pub fn decode_dx(b0: u8, b1: u8, b2: u8) -> (x: i32)
    ensures
        x == dx_value(b0, b1, b2),
        -121 <= x <= 121,
{
    let mut x: i32 = 0;
    x += get_bit(b2, 2) * 81;
    x += get_bit(b2, 3) * -81;
    x += get_bit(b1, 2) * 27;
    x += get_bit(b1, 3) * -27;
    x += get_bit(b0, 2) * 9;
    x += get_bit(b0, 3) * -9;
    x += get_bit(b1, 0) * 3;
    x += get_bit(b1, 1) * -3;
    x += get_bit(b0, 0);
    x -= get_bit(b0, 1);
    x
}

/// Decodes the y offset of a record.
pub fn decode_dy(b0: u8, b1: u8, b2: u8) -> (y: i32)
    ensures
        y == dy_value(b0, b1, b2),
        -121 <= y <= 121,
{
    let mut y: i32 = 0;
    y += get_bit(b2, 5) * 81;
    y += get_bit(b2, 4) * -81;
    y += get_bit(b1, 5) * 27;
    y += get_bit(b1, 4) * -27;
    y += get_bit(b0, 5) * 9;
    y += get_bit(b0, 4) * -9;
    y += get_bit(b1, 7) * 3;
    y += get_bit(b1, 6) * -3;
    y += get_bit(b0, 7);
    y -= get_bit(b0, 6);
    -y
}

/// What a DST record is, by the control bits of its third byte.
#[derive(Debug, Clone, Copy, PartialEq, Eq, Structural)]
pub enum DstRecord {
    /// The end of the pattern
    End,
    /// A colour change
    ColorChange,
    /// A switch of sequin mode
    SequinMode,
    /// A move (or, in sequin mode, a sequin eject)
    Move,
    /// A normal stitch
    Stitch,
}

/// The kind of a record with third byte `b2`.
pub open spec fn record_kind(b2: u8) -> DstRecord {
    if b2 & 0xF3 == 0xF3 {
        DstRecord::End
    } else if b2 & 0xC3 == 0xC3 {
        DstRecord::ColorChange
    } else if b2 & 0x43 == 0x43 {
        DstRecord::SequinMode
    } else if b2 & 0x83 == 0x83 {
        DstRecord::Move
    } else {
        DstRecord::Stitch
    }
}

/// Tells the kind of a record from its third byte.
pub fn classify_record(b2: u8) -> (k: DstRecord)
    ensures
        k == record_kind(b2),
{
    if b2 & 0xF3 == 0xF3 {
        DstRecord::End
    } else if b2 & 0xC3 == 0xC3 {
        DstRecord::ColorChange
    } else if b2 & 0x43 == 0x43 {
        DstRecord::SequinMode
    } else if b2 & 0x83 == 0x83 {
        DstRecord::Move
    } else {
        DstRecord::Stitch
    }
}

/// The operations of the DST stitch records from position `i` on, after `k`
/// records, in sequin mode or not: each full record gives one operation until
/// an end record or the end of the data, and an end operation closes the
/// pattern; none when there are more than `DST_MAX_STITCHES` records.
pub open spec fn dst_stitches(d: Seq<u8>, i: int, k: nat, sequin: bool) -> Option<Seq<PatternOp>>
    decreases d.len() - i,
{
    if i < 0 || i + 3 > d.len() {
        Some(seq![rel(0, 0, END)])
    } else if k + 1 > DST_MAX_STITCHES {
        None
    } else {
        let (b0, b1, b2) = (d[i], d[i + 1], d[i + 2]);
        let x = dx_value(b0, b1, b2);
        let y = dy_value(b0, b1, b2);
        match record_kind(b2) {
            DstRecord::End => Some(seq![rel(0, 0, END)]),
            DstRecord::ColorChange => prepend(rel(x, y, COLOR_CHANGE), dst_stitches(d, i + 3, k + 1, sequin)),
            DstRecord::SequinMode => prepend(rel(x, y, SEQUIN_MODE), dst_stitches(d, i + 3, k + 1, !sequin)),
            DstRecord::Move => prepend(
                rel(x, y, if sequin { SEQUIN_EJECT } else { JUMP }),
                dst_stitches(d, i + 3, k + 1, sequin),
            ),
            DstRecord::Stitch => prepend(rel(x, y, STITCH), dst_stitches(d, i + 3, k + 1, sequin)),
        }
    }
}

/// What a DST record does, by the control bits of its third byte `b2`, for
/// a record at `i` within the record limit: an end record (`b2 & 0xF3 ==
/// 0xF3`) closes the pattern; otherwise the record gives one operation by
/// its offsets, followed by what the records after it give: a colour change
/// when `b2 & 0xC3 == 0xC3`, else a switch of sequin mode when `b2 & 0x43 ==
/// 0x43` (the records after it are read in the other mode), else a jump when
/// `b2 & 0x83 == 0x83` outside sequin mode and a sequin eject inside it, else
/// a stitch.
pub proof fn lemma_dst_record_meaning(d: Seq<u8>, i: int, k: nat, sequin: bool)
    requires
        0 <= i,
        i + 3 <= d.len(),
        k + 1 <= DST_MAX_STITCHES,
    ensures
        ({
            let (b0, b1, b2) = (d[i], d[i + 1], d[i + 2]);
            let here = |c: u32| rel(dx_value(b0, b1, b2), dy_value(b0, b1, b2), c);
            let then = |c: u32, s: bool|
                match dst_stitches(d, i + 3, k + 1, s) {
                    Some(rest) => Some(seq![here(c)] + rest),
                    None => None,
                };
            if b2 & 0xF3 == 0xF3 {
                dst_stitches(d, i, k, sequin) == Some(seq![rel(0, 0, END)])
            } else if b2 & 0xC3 == 0xC3 {
                dst_stitches(d, i, k, sequin) == then(COLOR_CHANGE, sequin)
            } else if b2 & 0x43 == 0x43 {
                dst_stitches(d, i, k, sequin) == then(SEQUIN_MODE, !sequin)
            } else if b2 & 0x83 == 0x83 {
                &&& !sequin ==> dst_stitches(d, i, k, sequin) == then(JUMP, sequin)
                &&& sequin ==> dst_stitches(d, i, k, sequin) == then(SEQUIN_EJECT, sequin)
            } else {
                dst_stitches(d, i, k, sequin) == then(STITCH, sequin)
            }
        }),
{
}

/// Whether a record with third byte `b2` switches sequin mode.
pub open spec fn switches_sequin(b2: u8) -> bool {
    b2 & 0xF3 != 0xF3 && b2 & 0xC3 != 0xC3 && b2 & 0x43 == 0x43
}

/// Whether a record with third byte `b2` is a plain move.
pub open spec fn is_move_record(b2: u8) -> bool {
    b2 & 0xF3 != 0xF3 && b2 & 0xC3 != 0xC3 && b2 & 0x43 != 0x43 && b2 & 0x83 == 0x83
}

/// How many of the `n` records from position `start` switch sequin mode.
pub open spec fn sequin_switches(d: Seq<u8>, start: int, n: nat) -> nat
    decreases n,
{
    if n == 0 {
        0
    } else {
        (if switches_sequin(d[start + 2]) { 1nat } else { 0nat }) + sequin_switches(
            d,
            start + 3,
            (n - 1) as nat,
        )
    }
}

/// A move record is a jump unless sequin mode is on, and sequin mode is on
/// after an odd number of switches: when the `n` records from `start` are
/// no end records and record `n` is a move, operation `n` of what the records
/// give is a sequin eject exactly when the starting mode and the number of
/// switches before it make sequin mode on, a jump otherwise, by the record's
/// offsets.
pub proof fn lemma_dst_move_command(d: Seq<u8>, start: int, n: nat, k: nat, sequin: bool)
    requires
        0 <= start,
        start + 3 * n + 3 <= d.len(),
        k + n + 1 <= DST_MAX_STITCHES,
        forall|m: int| 0 <= m < n ==> #[trigger] d[start + 3 * m + 2] & 0xF3 != 0xF3,
        is_move_record(d[start + 3 * n + 2]),
    ensures
        dst_stitches(d, start, k, sequin) matches Some(ops) ==> ops.len() > n && ops[n as int]
            == rel(
            dx_value(d[start + 3 * n], d[start + 3 * n + 1], d[start + 3 * n + 2]),
            dy_value(d[start + 3 * n], d[start + 3 * n + 1], d[start + 3 * n + 2]),
            if sequin != (sequin_switches(d, start, n) % 2 == 1) {
                SEQUIN_EJECT
            } else {
                JUMP
            },
        ),
    decreases n,
{
    let b2 = d[start + 2];
    if n > 0 {
        assert(d[start + 3 * 0 + 2] & 0xF3 != 0xF3);
        lemma_dst_step(d, start, k, sequin);
        let next = if switches_sequin(b2) { !sequin } else { sequin };
        assert forall|m: int| 0 <= m < n - 1 implies #[trigger] d[(start + 3) + 3 * m + 2] & 0xF3
            != 0xF3 by {
            assert(d[start + 3 * (m + 1) + 2] & 0xF3 != 0xF3);
            assert((start + 3) + 3 * m + 2 == start + 3 * (m + 1) + 2);
        }
        assert(start + 3 + 3 * (n - 1) == start + 3 * n);
        lemma_dst_move_command(d, start + 3, (n - 1) as nat, k + 1, next);
    } else {
        lemma_dst_record_meaning(d, start, k, sequin);
        assert(is_move_record(b2));
    }
}

/// A record that is no end record gives the first operation, and the rest
/// comes from the records after it, read in the mode that it leaves.
proof fn lemma_dst_step(d: Seq<u8>, i: int, k: nat, sequin: bool)
    requires
        0 <= i,
        i + 3 <= d.len(),
        k + 1 <= DST_MAX_STITCHES,
        d[i + 2] & 0xF3 != 0xF3,
    ensures
        dst_stitches(d, i, k, sequin) matches Some(ops) ==> ops.len() >= 1 && dst_stitches(
            d,
            i + 3,
            k + 1,
            if switches_sequin(d[i + 2]) {
                !sequin
            } else {
                sequin
            },
        ) == Some(ops.drop_first()),
{
    let b2 = d[i + 2];
    let next = if switches_sequin(b2) { !sequin } else { sequin };
    assert(record_kind(b2) != DstRecord::End);
    assert(record_kind(b2) == DstRecord::SequinMode <==> switches_sequin(b2));
    if let Some(ops) = dst_stitches(d, i, k, sequin) {
        let rest = dst_stitches(d, i + 3, k + 1, next);
        assert(rest is Some);
        assert(ops.drop_first() =~= rest.unwrap());
    }
}

/// In a DST file, a move record met before any switch of sequin mode is a
/// jump: when the first `n` stitch records of the file are no end records
/// and no sequin-mode records and record `n` is a move, operation `n` that
/// the file gives is a jump by the record's offsets.
pub proof fn lemma_dst_file_move_is_jump(d: Seq<u8>, base: int, n: nat, r: Result<DstPattern, Error>)
    requires
        dst_read_result(d, base, r),
        0 <= base,
        base + DST_HEADER_SIZE + 3 * n + 3 <= d.len(),
        n + 1 <= DST_MAX_STITCHES,
        forall|m: int|
            0 <= m < n ==> #[trigger] d[base + DST_HEADER_SIZE + 3 * m + 2] & 0xF3 != 0xF3
                && !switches_sequin(d[base + DST_HEADER_SIZE + 3 * m + 2]),
        is_move_record(d[base + DST_HEADER_SIZE + 3 * n + 2]),
    ensures
        r matches Ok(p) ==> p.ops@.len() > n && p.ops@[n as int] == rel(
            dx_value(
                d[base + DST_HEADER_SIZE + 3 * n],
                d[base + DST_HEADER_SIZE + 3 * n + 1],
                d[base + DST_HEADER_SIZE + 3 * n + 2],
            ),
            dy_value(
                d[base + DST_HEADER_SIZE + 3 * n],
                d[base + DST_HEADER_SIZE + 3 * n + 1],
                d[base + DST_HEADER_SIZE + 3 * n + 2],
            ),
            JUMP,
        ),
{
    let start = base + DST_HEADER_SIZE;
    lemma_no_switches(d, start, n);
    lemma_dst_move_command(d, start, n, 0, false);
}

/// Records that switch no sequin mode count no switches.
proof fn lemma_no_switches(d: Seq<u8>, start: int, n: nat)
    requires
        forall|m: int| 0 <= m < n ==> !switches_sequin(#[trigger] d[start + 3 * m + 2]),
    ensures
        sequin_switches(d, start, n) == 0,
    decreases n,
{
    if n > 0 {
        assert(!switches_sequin(d[start + 3 * 0 + 2]));
        assert forall|m: int| 0 <= m < n - 1 implies !switches_sequin(
            #[trigger] d[(start + 3) + 3 * m + 2],
        ) by {
            assert(!switches_sequin(d[start + 3 * (m + 1) + 2]));
            assert((start + 3) + 3 * m + 2 == start + 3 * (m + 1) + 2);
        }
        lemma_no_switches(d, start + 3, (n - 1) as nat);
    }
}

/// A result with one operation put in front.
pub open spec fn prepend(op: PatternOp, r: Option<Seq<PatternOp>>) -> Option<Seq<PatternOp>> {
    match r {
        Some(rest) => Some(seq![op] + rest),
        None => None,
    }
}

/// The operations of the stitch records that follow the header of a DST
/// file (the records start at position `start`).
pub fn read_stitches(d: &[u8], start: usize) -> (r: Result<Vec<PatternOp>, Error>)
    ensures
        match dst_stitches(d@, start as int, 0, false) {
            None => r matches Err(Error::Parse(_)),
            Some(ops) => r matches Ok(v) && v@ == ops,
        },
{
    let mut out: Vec<PatternOp> = Vec::new();
    let mut i: usize = start;
    let mut k: usize = 0;
    let mut sequin = false;
    loop
        invariant
            k <= DST_MAX_STITCHES,
            i >= start,
            dst_stitches(d@, start as int, 0, false) == (match dst_stitches(d@, i as int, k as nat, sequin) {
                Some(rest) => Some(out@ + rest),
                None => None,
            }),
        decreases d@.len() - i,
    {
        if i > d.len() || d.len() - i < 3 {
            let ghost before = out@;
            out.push(PatternOp::Relative { dx: 0, dy: 0, command: END });
            assert(out@ =~= before + seq![rel(0, 0, END)]);
            return Ok(out);
        }
        if k + 1 > DST_MAX_STITCHES {
            return Err(Error::Parse("DST file exceeds maximum stitch count of 1000000".to_owned()));
        }
        let (b0, b1, b2) = (d[i], d[i + 1], d[i + 2]);
        let x = decode_dx(b0, b1, b2);
        let y = decode_dy(b0, b1, b2);
        let ghost before = out@;
        let command = match classify_record(b2) {
            DstRecord::End => {
                out.push(PatternOp::Relative { dx: 0, dy: 0, command: END });
                assert(out@ =~= before + seq![rel(0, 0, END)]);
                return Ok(out);
            },
            DstRecord::ColorChange => COLOR_CHANGE,
            DstRecord::SequinMode => {
                sequin = !sequin;
                SEQUIN_MODE
            },
            DstRecord::Move => if sequin {
                SEQUIN_EJECT
            } else {
                JUMP
            },
            DstRecord::Stitch => STITCH,
        };
        out.push(PatternOp::Relative { dx: x as i64, dy: y as i64, command });
        proof {
            let rest = dst_stitches(d@, i + 3, (k + 1) as nat, sequin);
            if let Some(r) = rest {
                assert(before + (seq![rel(x as int, y as int, command)] + r) =~= out@ + r);
            }
        }
        i = i + 3;
        k = k + 1;
    }
}

/// Where the DST records of `d` (from position `i` on) stop: after an end
/// record, or at the end of the data.
pub open spec fn dst_end(d: Seq<u8>, i: int) -> int
    decreases d.len() - i,
{
    if i < 0 || i + 3 > d.len() {
        d.len() as int
    } else if record_kind(d[i + 2]) == DstRecord::End {
        i + 3
    } else {
        dst_end(d, i + 3)
    }
}

/// Finds where the DST records from position `start` on stop.
pub fn dst_records_end(d: &[u8], start: usize) -> (e: usize)
    ensures
        e == dst_end(d@, start as int),
{
    let mut i = start;
    while i <= d.len() && d.len() - i >= 3
        invariant
            dst_end(d@, start as int) == dst_end(d@, i as int),
        decreases d@.len() - i,
    {
        if classify_record(d[i + 2]) == DstRecord::End {
            return i + 3;
        }
        i = i + 3;
    }
    d.len()
}

/// Whether a header byte counts as text: printable ASCII, NUL, CR or LF.
pub open spec fn is_header_text_byte(b: u8) -> bool {
    (32 <= b && b < 127) || b == 0 || b == 13 || b == 10
}

/// The number of text bytes in `s`.
pub open spec fn text_byte_count(s: Seq<u8>) -> nat
    decreases s.len(),
{
    if s.len() == 0 {
        0
    } else {
        text_byte_count(s.drop_last()) + if is_header_text_byte(s.last()) {
            1nat
        } else {
            0nat
        }
    }
}

/// Whether the first 32 bytes of a DST header look like one: they hold one of
/// the labels `LA:`, `ST:`, `CO:`, or at least 24 of them are text bytes.
pub open spec fn header_looks_valid(h32: Seq<u8>) -> bool {
    contains_bytes(h32, dst_labels()[0]) || contains_bytes(h32, dst_labels()[1]) || contains_bytes(
        h32,
        dst_labels()[2],
    ) || text_byte_count(h32) >= 24
}

/// The label and value of a header line: when its bytes are UTF-8 and the
/// trimmed text is longer than 3 bytes, its first two bytes (trimmed) and
/// what follows its first three bytes (trimmed).
pub open spec fn header_line(seg: Seq<u8>) -> Option<(Seq<char>, Seq<char>)> {
    if !valid_utf8(seg) {
        None
    } else {
        let t = trim(decode_utf8(seg));
        if utf8_len(t) <= 3 {
            None
        } else {
            match (prefix_with_bytes(t, 2), prefix_with_bytes(t, 3)) {
                (Some(p2), Some(p3)) => Some((trim(p2), trim(t.skip(p3.len() as int)))),
                _ => None,
            }
        }
    }
}

/// Whether taking the label and value of a header line would cut a
/// character: byte 2 or byte 3 of the trimmed text is inside a character.
pub open spec fn header_line_splits_char(seg: Seq<u8>) -> bool {
    valid_utf8(seg) && utf8_len(trim(decode_utf8(seg))) > 3 && (prefix_with_bytes(
        trim(decode_utf8(seg)),
        2,
    ) is None || prefix_with_bytes(trim(decode_utf8(seg)), 3) is None)
}

/// The lines of a header `h` from position `i` on, the current line having
/// started at `start`: lines end at a CR or LF byte, empty lines and text
/// after the last line end are skipped.
pub open spec fn header_lines(h: Seq<u8>, start: int, i: int) -> Seq<(Seq<char>, Seq<char>)>
    decreases h.len() - i,
{
    if i < 0 || i >= h.len() {
        Seq::empty()
    } else if h[i] == 13 || h[i] == 10 {
        (if start < i {
            match header_line(h.subrange(start, i)) {
                Some(l) => seq![l],
                None => Seq::empty(),
            }
        } else {
            Seq::empty()
        }) + header_lines(h, i + 1, i + 1)
    } else {
        header_lines(h, start, i + 1)
    }
}

/// Whether some line of a header from position `i` on cuts a character.
pub open spec fn header_splits_char(h: Seq<u8>, start: int, i: int) -> bool
    decreases h.len() - i,
{
    if i < 0 || i >= h.len() {
        false
    } else if h[i] == 13 || h[i] == 10 {
        (start < i && header_line_splits_char(h.subrange(start, i))) || header_splits_char(
            h,
            i + 1,
            i + 1,
        )
    } else {
        header_splits_char(h, start, i + 1)
    }
}

/// The header of the DST data at `base`: its 512 bytes.
pub open spec fn dst_header_at(d: Seq<u8>, base: int) -> Seq<u8> {
    d.subrange(base, base + DST_HEADER_SIZE)
}

/// The label and value of a line, as strings.
pub open spec fn line_view(l: (String, String)) -> (Seq<char>, Seq<char>) {
    (l.0@, l.1@)
}

/// The label and value of each line, as character sequences.
pub open spec fn lines_view(v: Seq<(String, String)>) -> Seq<(Seq<char>, Seq<char>)> {
    v.map_values(|l: (String, String)| line_view(l))
}

/// The characters of `v` from position `start` on.
fn chars_from(v: &Vec<char>, start: usize) -> (r: Vec<char>)
    requires
        start <= v@.len(),
    ensures
        r@ == v@.skip(start as int),
{
    let mut r: Vec<char> = Vec::new();
    let mut i = start;
    while i < v.len()
        invariant
            start <= i <= v@.len(),
            r@ == v@.subrange(start as int, i as int),
        decreases v@.len() - i,
    {
        r.push(v[i]);
        i = i + 1;
        assert(r@ =~= v@.subrange(start as int, i as int));
    }
    assert(v@.subrange(start as int, v@.len() as int) =~= v@.skip(start as int));
    r
}

/// The label and value of the header line made of bytes `s..e` of `d`.
fn read_header_line(d: &[u8], s: usize, e: usize) -> (r: Option<(String, String)>)
    requires
        s <= e <= d@.len(),
        !header_line_splits_char(d@.subrange(s as int, e as int)),
    ensures
        match header_line(d@.subrange(s as int, e as int)) {
            Some(l) => r matches Some(x) && line_view(x) == l,
            None => r is None,
        },
{
    let mut seg: Vec<u8> = Vec::new();
    let mut i = s;
    while i < e
        invariant
            s <= i <= e <= d@.len(),
            seg@ == d@.subrange(s as int, i as int),
        decreases e - i,
    {
        seg.push(d[i]);
        i = i + 1;
        assert(seg@ =~= d@.subrange(s as int, i as int));
    }
    let text = match utf8_to_string(seg.as_slice()) {
        Some(t) => t,
        None => return None,
    };
    let chars = str_chars(text.as_str());
    let t = trim_chars(chars.as_slice());
    assert(t@.skip(0) =~= t@);
    if utf8_len_capped(t.as_slice(), 0, 3) <= 3 {
        return None;
    }
    let p2 = match prefix_with_bytes_exec(t.as_slice(), 0, 2) {
        Some(p) => p,
        None => return None,
    };
    let p3 = match prefix_with_bytes_exec(t.as_slice(), 0, 3) {
        Some(p) => p,
        None => return None,
    };
    proof {
        crate::text::lemma_prefix_with_bytes_len(t@, 3);
    }
    let rest = chars_from(&t, p3.len());
    let label = trim_chars(p2.as_slice());
    let value = trim_chars(rest.as_slice());
    Some((string_from_chars(label.as_slice()), string_from_chars(value.as_slice())))
}

/// Reads the lines of the 512-byte DST header at `base`: each line's label
/// and value.
pub fn read_header_lines(d: &[u8], base: usize) -> (r: Vec<(String, String)>)
    requires
        base + DST_HEADER_SIZE <= d@.len(),
        !header_splits_char(dst_header_at(d@, base as int), 0, 0),
    ensures
        lines_view(r@) == header_lines(dst_header_at(d@, base as int), 0, 0),
{
    let ghost h = dst_header_at(d@, base as int);
    let mut out: Vec<(String, String)> = Vec::new();
    let mut start: usize = 0;
    let mut i: usize = 0;
    assert(lines_view(out@) + header_lines(h, 0, 0) =~= header_lines(h, 0, 0));
    let n = d.len();
    while i < DST_HEADER_SIZE
        invariant
            n == d@.len(),
            base + DST_HEADER_SIZE <= d@.len(),
            h == dst_header_at(d@, base as int),
            start <= i <= DST_HEADER_SIZE,
            !header_splits_char(h, start as int, i as int),
            header_lines(h, 0, 0) == lines_view(out@) + header_lines(h, start as int, i as int),
        decreases DST_HEADER_SIZE - i,
    {
        let b = d[base + i];
        if b == 13 || b == 10 {
            let ghost before = out@;
            if start < i {
                assert(h.subrange(start as int, i as int) =~= d@.subrange(base + start, base + i));
                match read_header_line(d, base + start, base + i) {
                    Some(l) => {
                        out.push(l);
                        assert(lines_view(out@) =~= lines_view(before) + seq![line_view(l)]);
                    },
                    None => {},
                }
            }
            let ghost here = if start < i {
                match header_line(h.subrange(start as int, i as int)) {
                    Some(l) => seq![l],
                    None => Seq::<(Seq<char>, Seq<char>)>::empty(),
                }
            } else {
                Seq::<(Seq<char>, Seq<char>)>::empty()
            };
            assert(lines_view(out@) =~= lines_view(before) + here);
            assert(lines_view(before) + (here + header_lines(h, i + 1, i + 1)) =~= lines_view(out@)
                + header_lines(h, i + 1, i + 1));
            start = i + 1;
        }
        i = i + 1;
    }
    assert(lines_view(out@) + Seq::<(Seq<char>, Seq<char>)>::empty() =~= lines_view(out@));
    out
}

/// Whether the 512-byte DST header at `base` can be read: it is all there
/// and its first 32 bytes look like a DST header.
pub open spec fn dst_header_ok(d: Seq<u8>, base: int) -> bool {
    base + DST_HEADER_SIZE <= d.len() && header_looks_valid(d.subrange(base, base + 32))
}

/// Reads and checks the 512-byte DST header at `base`: its lines' labels and
/// values.
pub fn read_header(d: &[u8], base: usize) -> (r: Result<Vec<(String, String)>, Error>)
    requires
        base + DST_HEADER_SIZE <= d@.len() ==> !header_splits_char(dst_header_at(d@, base as int), 0, 0),
    ensures
        r is Ok <==> dst_header_ok(d@, base as int),
        r matches Ok(v) ==> lines_view(v@) == header_lines(dst_header_at(d@, base as int), 0, 0),
        r matches Err(e) ==> e is Parse,
{
    if base > d.len() || d.len() - base < DST_HEADER_SIZE {
        return Err(Error::Parse("DST file too small: header must be 512 bytes".to_owned()));
    }
    let mut first: Vec<u8> = Vec::new();
    let mut count: usize = 0;
    let mut i: usize = 0;
    let n = d.len();
    while i < 32
        invariant
            n == d@.len(),
            base + DST_HEADER_SIZE <= d@.len(),
            i <= 32,
            first@ == d@.subrange(base as int, base + i),
            count == text_byte_count(first@),
            count <= i,
        decreases 32 - i,
    {
        let b = d[base + i];
        first.push(b);
        if (32 <= b && b < 127) || b == 0 || b == 13 || b == 10 {
            count = count + 1;
        }
        i = i + 1;
        assert(first@.drop_last() =~= d@.subrange(base as int, base + i - 1));
        assert(first@ =~= d@.subrange(base as int, base + i));
    }
    let la: [u8; 3] = [0x4C, 0x41, 0x3A];
    let st: [u8; 3] = [0x53, 0x54, 0x3A];
    let co: [u8; 3] = [0x43, 0x4F, 0x3A];
    assert(la@ =~= dst_labels()[0]);
    assert(st@ =~= dst_labels()[1]);
    assert(co@ =~= dst_labels()[2]);
    assert(first@.take(32) =~= first@);
    let labelled = contains_in(first.as_slice(), 32, &la) || contains_in(first.as_slice(), 32, &st)
        || contains_in(first.as_slice(), 32, &co);
    if !labelled && count < 24 {
        return Err(
            Error::Parse(
                "Invalid DST header: expected DST text markers (LA:, ST:, CO:) or ASCII text".to_owned(),
            ),
        );
    }
    Ok(read_header_lines(d, base))
}

/// What a header line gives the pattern.
#[derive(Debug, Clone)]
pub enum HeaderInfo {
    /// A metadata entry: key and value
    Metadata(String, String),
    /// A thread
    Thread(EmbThread),
}

/// The metadata key of a header label: `LA` the name, `AU` the author, `CP`
/// the copyright, any other label itself.
pub open spec fn metadata_key(label: Seq<char>) -> Seq<char> {
    if label == "LA"@ {
        "name"@
    } else if label == "AU"@ {
        "author"@
    } else if label == "CP"@ {
        "copyright"@
    } else {
        label
    }
}

/// The trimmed comma-separated parts of a thread line's value: colour,
/// description, catalog number.
pub open spec fn thread_parts(value: Seq<char>) -> Seq<Seq<char>> {
    split_on(value, ',').map_values(|p: Seq<char>| trim(p))
}

/// Whether reading the colour of a thread line would fail on a colour text
/// that cannot be cut where the hex parser cuts it.
pub open spec fn thread_line_panics(value: Seq<char>) -> bool {
    let c = trim(split_on(value, ',')[0]);
    !is_random_keyword(c) && reads_as_hex(c) && hex_color_panics(c)
}

/// The colour that a thread line's colour text gives: the colour it denotes,
/// black when it denotes none.
pub open spec fn thread_line_color(c: Seq<char>) -> u32 {
    match color_string_value(c) {
        Some(v) => v & 0xFF_FFFF,
        None => 0,
    }
}

/// The part `k` of a thread line, if there is one.
pub open spec fn part(parts: Seq<Seq<char>>, k: int) -> Option<Seq<char>> {
    if k < parts.len() {
        Some(parts[k])
    } else {
        None
    }
}

/// Whether `r` is what a header line with label `prefix` and value `value`
/// gives: a thread for `TC`, whose colour (unless it is random), description
/// and catalog number are the line's parts; else the metadata entry under
/// the label's key.
pub open spec fn info_of(r: HeaderInfo, prefix: Seq<char>, value: Seq<char>) -> bool {
    if prefix != "TC"@ {
        r matches HeaderInfo::Metadata(k, v) && k@ == metadata_key(prefix) && v@ == value
    } else {
        r matches HeaderInfo::Thread(t) && {
            let parts = thread_parts(value);
            &&& !is_random_keyword(parts[0]) ==> t.color == thread_line_color(parts[0])
            &&& opt_view(t.description) == part(parts, 1)
            &&& opt_view(t.catalog_number) == part(parts, 2)
        }
    }
}

/// What a header line with label `prefix` and value `value` gives: a thread
/// for `TC` (colour, description, catalog number separated by commas), else
/// a metadata entry.
pub fn process_header_info(prefix: &str, value: &str) -> (r: HeaderInfo)
    requires
        prefix@ == "TC"@ ==> !thread_line_panics(value@),
    ensures
        info_of(r, prefix@, value@),
{
    proof {
        reveal_strlit("LA");
        reveal_strlit("AU");
        reveal_strlit("CP");
        reveal_strlit("TC");
        assert("LA"@[0] != "TC"@[0]);
        assert("AU"@[0] != "TC"@[0]);
        assert("CP"@[0] != "TC"@[0]);
    }
    if str_eq(prefix, "LA") {
        return HeaderInfo::Metadata("name".to_owned(), value.to_owned());
    }
    if str_eq(prefix, "AU") {
        return HeaderInfo::Metadata("author".to_owned(), value.to_owned());
    }
    if str_eq(prefix, "CP") {
        return HeaderInfo::Metadata("copyright".to_owned(), value.to_owned());
    }
    if !str_eq(prefix, "TC") {
        return HeaderInfo::Metadata(prefix.to_owned(), value.to_owned());
    }
    let chars = str_chars(value);
    let raw = split_chars(chars.as_slice(), ',');
    let ghost parts = thread_parts(value@);
    proof {
        lemma_split_nonempty(value@, ',');
    }
    let c0 = trim_chars(raw[0].as_slice());
    let color_text = string_from_chars(c0.as_slice());
    assert(color_text@ == parts[0]);
    let mut thread = match EmbThread::from_string(color_text.as_str()) {
        Ok(t) => t,
        Err(_) => EmbThread::new(0x000000),
    };
    assert(0x000000u32 & 0xFF_FFFF == 0) by (bit_vector);
    if raw.len() > 1 {
        let c1 = trim_chars(raw[1].as_slice());
        let desc = string_from_chars(c1.as_slice());
        assert(desc@ == parts[1]);
        thread = thread.with_description(desc.as_str());
    }
    if raw.len() > 2 {
        let c2 = trim_chars(raw[2].as_slice());
        let cat = string_from_chars(c2.as_slice());
        assert(cat@ == parts[2]);
        thread = thread.with_catalog_number(cat.as_str());
    }
    HeaderInfo::Thread(thread)
}

/// Whether no thread line of a header has a colour text that the hex parser
/// cannot cut.
pub open spec fn thread_lines_ok(lines: Seq<(Seq<char>, Seq<char>)>) -> bool {
    forall|k: int| 0 <= k < lines.len() && (#[trigger] lines[k]).0 == "TC"@ ==> !thread_line_panics(lines[k].1)
}

/// Whether the DST data at `base` can be read without a panic: no header
/// line cuts a character and no thread line has an uncuttable colour.
pub open spec fn dst_readable(d: Seq<u8>, base: int) -> bool {
    base + DST_HEADER_SIZE <= d.len() ==> (!header_splits_char(dst_header_at(d, base), 0, 0)
        && thread_lines_ok(header_lines(dst_header_at(d, base), 0, 0)))
}

/// Whether the header line made of bytes `s..e` of `d` cuts a character.
fn header_line_would_split(d: &[u8], s: usize, e: usize) -> (b: bool)
    requires
        s <= e <= d@.len(),
    ensures
        b == header_line_splits_char(d@.subrange(s as int, e as int)),
{
    let mut seg: Vec<u8> = Vec::new();
    let mut i = s;
    while i < e
        invariant
            s <= i <= e <= d@.len(),
            seg@ == d@.subrange(s as int, i as int),
        decreases e - i,
    {
        seg.push(d[i]);
        i = i + 1;
        assert(seg@ =~= d@.subrange(s as int, i as int));
    }
    let text = match utf8_to_string(seg.as_slice()) {
        Some(t) => t,
        None => return false,
    };
    let chars = str_chars(text.as_str());
    let t = trim_chars(chars.as_slice());
    assert(t@.skip(0) =~= t@);
    if utf8_len_capped(t.as_slice(), 0, 3) <= 3 {
        return false;
    }
    prefix_with_bytes_exec(t.as_slice(), 0, 2).is_none() || prefix_with_bytes_exec(
        t.as_slice(),
        0,
        3,
    ).is_none()
}

/// Whether the colour of a thread line's value would make colour parsing
/// panic.
fn thread_line_would_panic(value: &String) -> (b: bool)
    ensures
        b == thread_line_panics(value@),
{
    let chars = str_chars(value.as_str());
    let parts = split_chars(chars.as_slice(), ',');
    let c = trim_chars(parts[0].as_slice());
    color_string_would_panic(c.as_slice())
}

/// Whether the DST data at `base` can be read without a panic, as
/// `dst_readable` says.
pub fn is_dst_readable(d: &[u8], base: usize) -> (b: bool)
    ensures
        b == dst_readable(d@, base as int),
{
    let n = d.len();
    if base > n || n - base < DST_HEADER_SIZE {
        return true;
    }
    let ghost h = dst_header_at(d@, base as int);
    let mut start: usize = 0;
    let mut i: usize = 0;
    while i < DST_HEADER_SIZE
        invariant
            n == d@.len(),
            base + DST_HEADER_SIZE <= n,
            h == dst_header_at(d@, base as int),
            start <= i <= DST_HEADER_SIZE,
            header_splits_char(h, 0, 0) == header_splits_char(h, start as int, i as int),
        decreases DST_HEADER_SIZE - i,
    {
        let b = d[base + i];
        assert(h[i as int] == b);
        if b == 13 || b == 10 {
            if start < i {
                assert(h.subrange(start as int, i as int) =~= d@.subrange(base + start, base + i));
                if header_line_would_split(d, base + start, base + i) {
                    assert(header_splits_char(h, start as int, i as int));
                    return false;
                }
            }
            start = i + 1;
        }
        i = i + 1;
    }
    let lines = read_header_lines(d, base);
    proof {
        reveal_strlit("TC");
    }
    let mut k: usize = 0;
    while k < lines.len()
        invariant
            k <= lines@.len(),
            h == dst_header_at(d@, base as int),
            base + DST_HEADER_SIZE <= d@.len(),
            lines_view(lines@) == header_lines(h, 0, 0),
            forall|j: int|
                0 <= j < k && (#[trigger] lines_view(lines@)[j]).0 == "TC"@ ==> !thread_line_panics(
                    lines_view(lines@)[j].1,
                ),
        decreases lines@.len() - k,
    {
        let is_tc = str_eq(lines[k].0.as_str(), "TC");
        if is_tc && thread_line_would_panic(&lines[k].1) {
            assert(lines_view(lines@)[k as int] == line_view(lines@[k as int]));
            assert(!thread_lines_ok(header_lines(h, 0, 0)));
            return false;
        }
        assert(lines_view(lines@)[k as int] == line_view(lines@[k as int]));
        k = k + 1;
    }
    assert(thread_lines_ok(header_lines(h, 0, 0))) by {
        assert forall|j: int|
            0 <= j < header_lines(h, 0, 0).len() && (#[trigger] header_lines(h, 0, 0)[j]).0
                == "TC"@ implies !thread_line_panics(header_lines(h, 0, 0)[j].1) by {
            assert(lines_view(lines@)[j] == header_lines(h, 0, 0)[j]);
        }
    }
    true
}

/// A decoded DST file.
pub struct DstPattern {
    /// What the header lines give, in order
    pub header: Vec<HeaderInfo>,
    /// The stitch operations
    pub ops: Vec<PatternOp>,
    /// Where the stitch records stop
    pub end: usize,
}

/// Turns header lines into what they give the pattern.
pub fn process_header_lines(lines: &Vec<(String, String)>) -> (r: Vec<HeaderInfo>)
    requires
        thread_lines_ok(lines_view(lines@)),
    ensures
        r@.len() == lines@.len(),
        forall|k: int| 0 <= k < r@.len() ==> info_of(#[trigger] r@[k], lines@[k].0@, lines@[k].1@),
{
    let mut out: Vec<HeaderInfo> = Vec::new();
    let mut k: usize = 0;
    while k < lines.len()
        invariant
            k <= lines@.len(),
            thread_lines_ok(lines_view(lines@)),
            out@.len() == k,
            forall|j: int| 0 <= j < k ==> info_of(#[trigger] out@[j], lines@[j].0@, lines@[j].1@),
        decreases lines@.len() - k,
    {
        let (label, value) = &lines[k];
        assert(lines_view(lines@)[k as int] == line_view(lines@[k as int]));
        out.push(process_header_info(label.as_str(), value.as_str()));
        k = k + 1;
    }
    out
}

/// What reading the DST data at `base` gives: success exactly when the
/// header is there and looks like a DST header and the stitch records
/// decode; then what each header line gives, the operations and where the
/// records stop. Failures are parse errors.
pub open spec fn dst_read_result(d: Seq<u8>, base: int, r: Result<DstPattern, Error>) -> bool {
    &&& (r is Ok <==> (dst_header_ok(d, base) && dst_stitches(d, base + DST_HEADER_SIZE, 0, false)
        is Some))
    &&& (r matches Ok(p) ==> ({
        let lines = header_lines(dst_header_at(d, base), 0, 0);
        &&& p.header@.len() == lines.len()
        &&& forall|k: int| 0 <= k < lines.len() ==> info_of(#[trigger] p.header@[k], lines[k].0, lines[k].1)
        &&& dst_stitches(d, base + DST_HEADER_SIZE, 0, false) == Some(p.ops@)
        &&& p.end == dst_end(d, base + DST_HEADER_SIZE)
    }))
    &&& (r matches Err(e) ==> e is Parse)
}

/// Decodes the DST data at `base`: the 512-byte header (its lines give
/// metadata and threads) and the stitch records after it, ending with an end
/// operation.
pub fn read(d: &[u8], base: usize) -> (r: Result<DstPattern, Error>)
    requires
        dst_readable(d@, base as int),
    ensures
        dst_read_result(d@, base as int, r),
{
    let lines = match read_header(d, base) {
        Ok(l) => l,
        Err(e) => return Err(e),
    };
    let header = process_header_lines(&lines);
    assert forall|k: int| 0 <= k < lines@.len() implies lines_view(lines@)[k] == (lines@[k].0@, lines@[k].1@) by {}
    let _n = d.len();
    let start = base + DST_HEADER_SIZE;
    let ops = match read_stitches(d, start) {
        Ok(v) => v,
        Err(e) => return Err(e),
    };
    let end = dst_records_end(d, start);
    Ok(DstPattern { header, ops, end })
}

/// The metadata entries of header lines: every line but the thread lines,
/// under its label's key.
pub open spec fn header_metadata(lines: Seq<(Seq<char>, Seq<char>)>) -> Seq<(Seq<char>, Seq<char>)>
    decreases lines.len(),
{
    if lines.len() == 0 {
        Seq::empty()
    } else {
        let rest = header_metadata(lines.drop_last());
        let l = lines.last();
        if l.0 == "TC"@ {
            rest
        } else {
            rest.push((metadata_key(l.0), l.1))
        }
    }
}

/// The metadata entries among what header lines give.
pub(crate) fn metadata_of(header: &Vec<HeaderInfo>, lines: Ghost<Seq<(Seq<char>, Seq<char>)>>) -> (r: Vec<
    (String, String),
>)
    requires
        header@.len() == lines@.len(),
        forall|k: int| 0 <= k < lines@.len() ==> info_of(#[trigger] header@[k], lines@[k].0, lines@[k].1),
    ensures
        lines_view(r@) == header_metadata(lines@),
{
    let mut out: Vec<(String, String)> = Vec::new();
    let mut k: usize = 0;
    while k < header.len()
        invariant
            k <= header@.len(),
            header@.len() == lines@.len(),
            forall|j: int| 0 <= j < lines@.len() ==> info_of(#[trigger] header@[j], lines@[j].0, lines@[j].1),
            lines_view(out@) == header_metadata(lines@.take(k as int)),
        decreases header@.len() - k,
    {
        assert(lines@.take(k + 1).drop_last() =~= lines@.take(k as int));
        let ghost before = out@;
        match &header[k] {
            HeaderInfo::Metadata(key, value) => {
                out.push((key.clone(), value.clone()));
                assert(lines_view(out@) =~= lines_view(before).push((key@, value@)));
            },
            HeaderInfo::Thread(_) => {},
        }
        k = k + 1;
    }
    assert(lines@.take(lines@.len() as int) =~= lines@);
    out
}

} // verus!
