//! The JSON embroidery format: the colour and command texts of its threads
//! and stitches, and the threads it describes. (The JSON text itself is
//! parsed into plain fields around this module.)

use vstd::prelude::*;
use crate::constants::{STITCH, JUMP, TRIM, STOP, END, COLOR_CHANGE, NEEDLE_SET, SEQUENCE_BREAK, COLOR_BREAK, SLOW, FAST, SEQUIN_MODE, SEQUIN_EJECT};
use crate::error::Error;
use crate::text::{str_chars, parse_unsigned, parse_unsigned_spec, concat, str_eq};
use crate::thread::{EmbThread, opt_view};

verus! {

/// What `str::to_uppercase` gives for a text (full Unicode case mapping).
pub uninterp spec fn uppercase(s: Seq<char>) -> Seq<char>;

/// `str::to_uppercase`: the text in upper case, by the Unicode case mapping;
/// its result is named, not stated.
#[verifier::external_body]
fn to_uppercase(s: &str) -> (r: String)
    ensures
        r@ == uppercase(s@),
{
    s.to_uppercase()
}

/// The hexadecimal colour value of a colour text: after one leading `#`, or
/// else after a leading `0x`, a 32-bit hexadecimal number.
pub open spec fn json_color_value(s: Seq<char>) -> Option<nat> {
    let digits = if s.len() > 0 && s[0] == '#' {
        s.drop_first()
    } else if s.len() > 1 && s[0] == '0' && s[1] == 'x' {
        s.skip(2)
    } else {
        s
    };
    parse_unsigned_spec(digits, 16, u32::MAX as nat)
}

/// Parses a colour text: `#RRGGBB`, `0xRRGGBB` or plain hexadecimal.
pub fn parse_color(color_str: &str) -> (r: Result<u32, Error>)
    ensures
        match json_color_value(color_str@) {
            Some(v) => r == Ok::<u32, Error>(v as u32),
            None => r matches Err(Error::Parse(m)) && m@ == "Invalid color: "@ + color_str@,
        },
{
    let chars = str_chars(color_str);
    let start: usize = if chars.len() > 0 && chars[0] == '#' {
        1
    } else if chars.len() > 1 && chars[0] == '0' && chars[1] == 'x' {
        2
    } else {
        0
    };
    let mut digits: Vec<char> = Vec::new();
    let mut i = start;
    while i < chars.len()
        invariant
            start <= i <= chars@.len(),
            digits@ == chars@.subrange(start as int, i as int),
        decreases chars@.len() - i,
    {
        digits.push(chars[i]);
        i = i + 1;
        assert(digits@ =~= chars@.subrange(start as int, i as int));
    }
    proof {
        if start == 1 {
            assert(digits@ =~= chars@.drop_first());
        } else if start == 0 {
            assert(digits@ =~= chars@);
        } else {
            assert(digits@ =~= chars@.skip(2));
        }
    }
    match parse_unsigned(digits.as_slice(), 16, 0xFFFF_FFFF) {
        Some(v) => Ok(v as u32),
        None => Err(Error::Parse(concat("Invalid color: ", color_str))),
    }
}

/// The command value that an upper-case command name names.
pub open spec fn json_command_value(name: Seq<char>) -> Option<u32> {
    if name == "STITCH"@ {
        Some(STITCH)
    } else if name == "JUMP"@ {
        Some(JUMP)
    } else if name == "TRIM"@ {
        Some(TRIM)
    } else if name == "COLOR_CHANGE"@ {
        Some(COLOR_CHANGE)
    } else if name == "NEEDLE_SET"@ {
        Some(NEEDLE_SET)
    } else if name == "STOP"@ {
        Some(STOP)
    } else if name == "END"@ {
        Some(END)
    } else if name == "SEQUENCE_BREAK"@ {
        Some(SEQUENCE_BREAK)
    } else if name == "COLOR_BREAK"@ {
        Some(COLOR_BREAK)
    } else if name == "SLOW"@ {
        Some(SLOW)
    } else if name == "FAST"@ {
        Some(FAST)
    } else if name == "SEQUIN_MODE"@ {
        Some(SEQUIN_MODE)
    } else if name == "SEQUIN_EJECT"@ {
        Some(SEQUIN_EJECT)
    } else {
        None
    }
}

/// The command value of an upper-case name.
pub fn command_for_name(name: &str) -> (r: Option<u32>)
    ensures
        r == json_command_value(name@),
{
    if str_eq(name, "STITCH") {
        Some(STITCH)
    } else if str_eq(name, "JUMP") {
        Some(JUMP)
    } else if str_eq(name, "TRIM") {
        Some(TRIM)
    } else if str_eq(name, "COLOR_CHANGE") {
        Some(COLOR_CHANGE)
    } else if str_eq(name, "NEEDLE_SET") {
        Some(NEEDLE_SET)
    } else if str_eq(name, "STOP") {
        Some(STOP)
    } else if str_eq(name, "END") {
        Some(END)
    } else if str_eq(name, "SEQUENCE_BREAK") {
        Some(SEQUENCE_BREAK)
    } else if str_eq(name, "COLOR_BREAK") {
        Some(COLOR_BREAK)
    } else if str_eq(name, "SLOW") {
        Some(SLOW)
    } else if str_eq(name, "FAST") {
        Some(FAST)
    } else if str_eq(name, "SEQUIN_MODE") {
        Some(SEQUIN_MODE)
    } else if str_eq(name, "SEQUIN_EJECT") {
        Some(SEQUIN_EJECT)
    } else {
        None
    }
}

/// Parses a command name, compared in upper case.
pub fn parse_command(cmd_str: &str) -> (r: Result<u32, Error>)
    ensures
        match json_command_value(uppercase(cmd_str@)) {
            Some(v) => r == Ok::<u32, Error>(v),
            None => r matches Err(Error::Parse(m)) && m@ == "Unknown command: "@ + cmd_str@,
        },
{
    let upper = to_uppercase(cmd_str);
    match command_for_name(upper.as_str()) {
        Some(v) => Ok(v),
        None => Err(Error::Parse(concat("Unknown command: ", cmd_str))),
    }
}

/// The thread that a JSON thread entry describes: its colour text parsed by
/// `parse_color`, and the optional texts.
pub fn json_thread(
    color: &str,
    description: Option<&str>,
    catalog_number: Option<&str>,
    brand: Option<&str>,
    chart: Option<&str>,
) -> (r: Result<EmbThread, Error>)
    ensures
        match json_color_value(color@) {
            None => r is Err,
            Some(v) => r matches Ok(t) && t.color == (v as u32) & 0xFF_FFFF && opt_view(t.description)
                == (match description {
                Some(s) => Some(s@),
                None => None,
            }) && opt_view(t.catalog_number) == (match catalog_number {
                Some(s) => Some(s@),
                None => None,
            }) && opt_view(t.brand) == (match brand {
                Some(s) => Some(s@),
                None => None,
            }) && opt_view(t.chart) == (match chart {
                Some(s) => Some(s@),
                None => None,
            }),
        },
{
    let value = match parse_color(color) {
        Ok(v) => v,
        Err(e) => return Err(e),
    };
    let mut thread = EmbThread::new(value);
    if let Some(d) = description {
        thread = thread.with_description(d);
    }
    if let Some(c) = catalog_number {
        thread = thread.with_catalog_number(c);
    }
    if let Some(b) = brand {
        thread = thread.with_brand(b);
    }
    if let Some(c) = chart {
        thread = thread.with_chart(c);
    }
    Ok(thread)
}

} // verus!
