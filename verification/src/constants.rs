//! Command values of embroidery stitches.
//!
//! The low byte of a command value is the core command; the upper bytes carry
//! the thread, needle and order information of a thread change.

use vstd::prelude::*;

verus! {

/// Mask for extracting the core command from a command value
pub const COMMAND_MASK: u32 = 0x0000_00FF;

/// Mask for extracting thread information
pub const THREAD_MASK: u32 = 0x0000_FF00;

/// Mask for extracting needle information
pub const NEEDLE_MASK: u32 = 0x00FF_0000;

/// Mask for extracting order information
pub const ORDER_MASK: u32 = 0xFF00_0000;

/// Mask for flags (same as THREAD_MASK)
pub const FLAGS_MASK: u32 = 0x0000_FF00;

/// No command - placeholder (-1 in signed form)
pub const NO_COMMAND: u32 = 0xFFFF_FFFF;

/// Stitch command - move and drop needle
pub const STITCH: u32 = 0;

/// Jump command - move without dropping needle
pub const JUMP: u32 = 1;

/// Trim thread command - cut thread leaving a tail
pub const TRIM: u32 = 2;

/// Cut thread command - full cut with no tail
pub const CUT: u32 = 0x20;

/// Stop machine command (for applique, thread change, etc.)
pub const STOP: u32 = 3;

/// End pattern command
pub const END: u32 = 4;

/// Color change command
pub const COLOR_CHANGE: u32 = 5;

/// Sequin mode command
pub const SEQUIN_MODE: u32 = 6;

/// Sequin eject command
pub const SEQUIN_EJECT: u32 = 7;

/// Needle set command (explicit needle selection)
pub const NEEDLE_SET: u32 = 9;

/// Slow speed command
pub const SLOW: u32 = 0x0B;

/// Fast speed command
pub const FAST: u32 = 0x0C;

/// Set change sequence - preset/postset thread change sequence
pub const SET_CHANGE_SEQUENCE: u32 = 0x10;

/// Stitch with implied SEW_TO contingency
pub const SEW_TO: u32 = 0xB0;

/// Stitch with implied NEEDLE_AT contingency
pub const NEEDLE_AT: u32 = 0xB1;

/// Stitch break - reallocate jumps
pub const STITCH_BREAK: u32 = 0xE0;

/// Sequence break - break between stitch sequences
pub const SEQUENCE_BREAK: u32 = 0xE1;

/// Color break - break between color blocks
pub const COLOR_BREAK: u32 = 0xE2;

/// Tie on command
pub const TIE_ON: u32 = 0xE4;

/// Tie off command
pub const TIE_OFF: u32 = 0xE5;

/// Frame eject command
pub const FRAME_EJECT: u32 = 0xE9;

/// Translate transformation
pub const MATRIX_TRANSLATE: u32 = 0xC0;

/// Scale from origin
pub const MATRIX_SCALE_ORIGIN: u32 = 0xC1;

/// Rotate from origin
pub const MATRIX_ROTATE_ORIGIN: u32 = 0xC2;

/// Reset matrix to identity
pub const MATRIX_RESET: u32 = 0xC3;

/// Scale from current position
pub const MATRIX_SCALE: u32 = 0xC4;

/// Rotate from current position
pub const MATRIX_ROTATE: u32 = 0xC5;

/// Set maximum stitch length option
pub const OPTION_MAX_STITCH_LENGTH: u32 = 0xD5;

/// Set maximum jump length option
pub const OPTION_MAX_JUMP_LENGTH: u32 = 0xD6;

/// Enable explicit trim before color change
pub const OPTION_EXPLICIT_TRIM: u32 = 0xD7;

/// Trim is implicit in color change
pub const OPTION_IMPLICIT_TRIM: u32 = 0xD8;

/// No tie-on
pub const CONTINGENCY_TIE_ON_NONE: u32 = 0xD3;

/// Tie on with three small stitches
pub const CONTINGENCY_TIE_ON_THREE_SMALL: u32 = 0xD1;

/// No tie-off
pub const CONTINGENCY_TIE_OFF_NONE: u32 = 0xD4;

/// Tie off with three small stitches
pub const CONTINGENCY_TIE_OFF_THREE_SMALL: u32 = 0xD2;

/// No contingency for long stitches
pub const CONTINGENCY_LONG_STITCH_NONE: u32 = 0xF0;

/// Jump needle to destination
pub const CONTINGENCY_LONG_STITCH_JUMP_NEEDLE: u32 = 0xF1;

/// Sew to destination with interpolated stitches
pub const CONTINGENCY_LONG_STITCH_SEW_TO: u32 = 0xF2;

/// Utilize sequin commands as-is
pub const CONTINGENCY_SEQUIN_UTILIZE: u32 = 0xF5;

/// Convert sequins to jumps
pub const CONTINGENCY_SEQUIN_JUMP: u32 = 0xF6;

/// Convert sequins to stitches
pub const CONTINGENCY_SEQUIN_STITCH: u32 = 0xF7;

/// Remove sequin commands
pub const CONTINGENCY_SEQUIN_REMOVE: u32 = 0xF8;

/// Generic alternative form flag
pub const ALTERNATIVE: u32 = 0x100;

/// The core command of a full command value: its low byte.
pub open spec fn core_command(command: u32) -> u32 {
    command & COMMAND_MASK
}

/// Categorization of stitch types based on command
#[derive(Debug, Clone, Copy, PartialEq, Eq, Hash, Structural)]
pub enum StitchType {
    /// Normal stitch - move and drop needle
    Normal,
    /// Jump stitch - move without dropping needle
    Jump,
    /// Trim thread command - cut with tail
    Trim,
    /// Cut thread command - full cut with no tail
    Cut,
    /// Color change command
    ColorChange,
    /// Stop machine command
    Stop,
    /// End of pattern command
    End,
    /// Sequin eject command
    SequinEject,
    /// Sequin mode command
    SequinMode,
    /// Needle set command
    NeedleSet,
    /// Slow speed command
    Slow,
    /// Fast speed command
    Fast,
    /// Unknown or custom command
    Unknown,
}

/// The stitch type that a core command stands for.
pub open spec fn stitch_type_of(core: u32) -> StitchType {
    if core == STITCH {
        StitchType::Normal
    } else if core == JUMP {
        StitchType::Jump
    } else if core == TRIM {
        StitchType::Trim
    } else if core == CUT {
        StitchType::Cut
    } else if core == COLOR_CHANGE {
        StitchType::ColorChange
    } else if core == STOP {
        StitchType::Stop
    } else if core == END {
        StitchType::End
    } else if core == SEQUIN_EJECT {
        StitchType::SequinEject
    } else if core == SEQUIN_MODE {
        StitchType::SequinMode
    } else if core == NEEDLE_SET {
        StitchType::NeedleSet
    } else if core == SLOW {
        StitchType::Slow
    } else if core == FAST {
        StitchType::Fast
    } else {
        StitchType::Unknown
    }
}

/// The name under which a stitch type is displayed.
pub open spec fn stitch_type_name(t: StitchType) -> Seq<char> {
    match t {
        StitchType::Normal => seq!['N', 'o', 'r', 'm', 'a', 'l'],
        StitchType::Jump => seq!['J', 'u', 'm', 'p'],
        StitchType::Trim => seq!['T', 'r', 'i', 'm'],
        StitchType::Cut => seq!['C', 'u', 't'],
        StitchType::ColorChange => seq!['C', 'o', 'l', 'o', 'r', 'C', 'h', 'a', 'n', 'g', 'e'],
        StitchType::Stop => seq!['S', 't', 'o', 'p'],
        StitchType::End => seq!['E', 'n', 'd'],
        StitchType::SequinEject => seq!['S', 'e', 'q', 'u', 'i', 'n', 'E', 'j', 'e', 'c', 't'],
        StitchType::SequinMode => seq!['S', 'e', 'q', 'u', 'i', 'n', 'M', 'o', 'd', 'e'],
        StitchType::NeedleSet => seq!['N', 'e', 'e', 'd', 'l', 'e', 'S', 'e', 't'],
        StitchType::Slow => seq!['S', 'l', 'o', 'w'],
        StitchType::Fast => seq!['F', 'a', 's', 't'],
        StitchType::Unknown => seq!['U', 'n', 'k', 'n', 'o', 'w', 'n'],
    }
}

impl StitchType {
    /// Get the StitchType from a command value (only its low byte counts)
    pub fn from_command(command: u32) -> (t: StitchType)
        ensures
            t == stitch_type_of(core_command(command)),
    {
        let core = command & COMMAND_MASK;
        if core == STITCH {
            StitchType::Normal
        } else if core == JUMP {
            StitchType::Jump
        } else if core == TRIM {
            StitchType::Trim
        } else if core == CUT {
            StitchType::Cut
        } else if core == COLOR_CHANGE {
            StitchType::ColorChange
        } else if core == STOP {
            StitchType::Stop
        } else if core == END {
            StitchType::End
        } else if core == SEQUIN_EJECT {
            StitchType::SequinEject
        } else if core == SEQUIN_MODE {
            StitchType::SequinMode
        } else if core == NEEDLE_SET {
            StitchType::NeedleSet
        } else if core == SLOW {
            StitchType::Slow
        } else if core == FAST {
            StitchType::Fast
        } else {
            StitchType::Unknown
        }
    }

    /// True for Normal, Jump and ColorChange (which includes a stitch)
    pub fn is_movement(&self) -> (b: bool)
        ensures
            b <==> (*self == StitchType::Normal || *self == StitchType::Jump || *self
                == StitchType::ColorChange),
    {
        match self {
            StitchType::Normal | StitchType::Jump | StitchType::ColorChange => true,
            _ => false,
        }
    }

    /// True for Trim, Cut, ColorChange and Stop
    pub fn is_thread_command(&self) -> (b: bool)
        ensures
            b <==> (*self == StitchType::Trim || *self == StitchType::Cut || *self
                == StitchType::ColorChange || *self == StitchType::Stop),
    {
        match self {
            StitchType::Trim | StitchType::Cut | StitchType::ColorChange | StitchType::Stop => true,
            _ => false,
        }
    }

    /// True for Stop, End, Slow and Fast
    pub fn is_control(&self) -> (b: bool)
        ensures
            b <==> (*self == StitchType::Stop || *self == StitchType::End || *self
                == StitchType::Slow || *self == StitchType::Fast),
    {
        match self {
            StitchType::Stop | StitchType::End | StitchType::Slow | StitchType::Fast => true,
            _ => false,
        }
    }

    /// True for the sequin commands
    pub fn is_sequin(&self) -> (b: bool)
        ensures
            b <==> (*self == StitchType::SequinEject || *self == StitchType::SequinMode),
    {
        match self {
            StitchType::SequinEject | StitchType::SequinMode => true,
            _ => false,
        }
    }

    /// The name under which this stitch type is displayed
    pub fn to_display_string(&self) -> (s: String)
        ensures
            s@ == stitch_type_name(*self),
    {
        let name: &str = match self {
            StitchType::Normal => "Normal",
            StitchType::Jump => "Jump",
            StitchType::Trim => "Trim",
            StitchType::Cut => "Cut",
            StitchType::ColorChange => "ColorChange",
            StitchType::Stop => "Stop",
            StitchType::End => "End",
            StitchType::SequinEject => "SequinEject",
            StitchType::SequinMode => "SequinMode",
            StitchType::NeedleSet => "NeedleSet",
            StitchType::Slow => "Slow",
            StitchType::Fast => "Fast",
            StitchType::Unknown => "Unknown",
        };
        proof {
            reveal_strlit("Normal");
            reveal_strlit("Jump");
            reveal_strlit("Trim");
            reveal_strlit("Cut");
            reveal_strlit("ColorChange");
            reveal_strlit("Stop");
            reveal_strlit("End");
            reveal_strlit("SequinEject");
            reveal_strlit("SequinMode");
            reveal_strlit("NeedleSet");
            reveal_strlit("Slow");
            reveal_strlit("Fast");
            reveal_strlit("Unknown");
        }
        name.to_owned()
    }
}

/// The name of a core command value.
pub open spec fn command_name_of(core: u32) -> &'static str {
    if core == STITCH {
        "STITCH"
    } else if core == JUMP {
        "JUMP"
    } else if core == TRIM {
        "TRIM"
    } else if core == CUT {
        "CUT"
    } else if core == STOP {
        "STOP"
    } else if core == END {
        "END"
    } else if core == COLOR_CHANGE {
        "COLOR_CHANGE"
    } else if core == SEQUIN_MODE {
        "SEQUIN_MODE"
    } else if core == SEQUIN_EJECT {
        "SEQUIN_EJECT"
    } else if core == NEEDLE_SET {
        "NEEDLE_SET"
    } else if core == SLOW {
        "SLOW"
    } else if core == FAST {
        "FAST"
    } else if core == SET_CHANGE_SEQUENCE {
        "SET_CHANGE_SEQUENCE"
    } else if core == SEW_TO {
        "SEW_TO"
    } else if core == NEEDLE_AT {
        "NEEDLE_AT"
    } else if core == STITCH_BREAK {
        "STITCH_BREAK"
    } else if core == SEQUENCE_BREAK {
        "SEQUENCE_BREAK"
    } else if core == COLOR_BREAK {
        "COLOR_BREAK"
    } else if core == TIE_ON {
        "TIE_ON"
    } else if core == TIE_OFF {
        "TIE_OFF"
    } else if core == FRAME_EJECT {
        "FRAME_EJECT"
    } else if core == MATRIX_TRANSLATE {
        "MATRIX_TRANSLATE"
    } else if core == MATRIX_SCALE_ORIGIN {
        "MATRIX_SCALE_ORIGIN"
    } else if core == MATRIX_ROTATE_ORIGIN {
        "MATRIX_ROTATE_ORIGIN"
    } else if core == MATRIX_RESET {
        "MATRIX_RESET"
    } else if core == MATRIX_SCALE {
        "MATRIX_SCALE"
    } else if core == MATRIX_ROTATE {
        "MATRIX_ROTATE"
    } else {
        "UNKNOWN"
    }
}

/// The name of a command value: `NO_COMMAND` for the no-command value, else
/// the name of its core command.
pub open spec fn command_name_spec(command: u32) -> &'static str {
    if command == NO_COMMAND {
        "NO_COMMAND"
    } else {
        command_name_of(core_command(command))
    }
}

/// Get the name of a command constant: `NO_COMMAND` for the no-command value,
/// else the name of the core command in its low byte
pub fn command_name(command: u32) -> (name: &'static str)
    ensures
        name == command_name_spec(command),
        command == NO_COMMAND ==> name@ == "NO_COMMAND"@,
{
    if command == NO_COMMAND {
        return "NO_COMMAND";
    }
    let core = command & COMMAND_MASK;
    if core == STITCH {
        "STITCH"
    } else if core == JUMP {
        "JUMP"
    } else if core == TRIM {
        "TRIM"
    } else if core == CUT {
        "CUT"
    } else if core == STOP {
        "STOP"
    } else if core == END {
        "END"
    } else if core == COLOR_CHANGE {
        "COLOR_CHANGE"
    } else if core == SEQUIN_MODE {
        "SEQUIN_MODE"
    } else if core == SEQUIN_EJECT {
        "SEQUIN_EJECT"
    } else if core == NEEDLE_SET {
        "NEEDLE_SET"
    } else if core == SLOW {
        "SLOW"
    } else if core == FAST {
        "FAST"
    } else if core == SET_CHANGE_SEQUENCE {
        "SET_CHANGE_SEQUENCE"
    } else if core == SEW_TO {
        "SEW_TO"
    } else if core == NEEDLE_AT {
        "NEEDLE_AT"
    } else if core == STITCH_BREAK {
        "STITCH_BREAK"
    } else if core == SEQUENCE_BREAK {
        "SEQUENCE_BREAK"
    } else if core == COLOR_BREAK {
        "COLOR_BREAK"
    } else if core == TIE_ON {
        "TIE_ON"
    } else if core == TIE_OFF {
        "TIE_OFF"
    } else if core == FRAME_EJECT {
        "FRAME_EJECT"
    } else if core == MATRIX_TRANSLATE {
        "MATRIX_TRANSLATE"
    } else if core == MATRIX_SCALE_ORIGIN {
        "MATRIX_SCALE_ORIGIN"
    } else if core == MATRIX_ROTATE_ORIGIN {
        "MATRIX_ROTATE_ORIGIN"
    } else if core == MATRIX_RESET {
        "MATRIX_RESET"
    } else if core == MATRIX_SCALE {
        "MATRIX_SCALE"
    } else if core == MATRIX_ROTATE {
        "MATRIX_ROTATE"
    } else {
        "UNKNOWN"
    }
}

/// Check if a command is valid: its core command fits the command byte,
/// which holds of every command value.
pub fn is_valid_command(command: u32) -> (b: bool)
    ensures
        b == (core_command(command) <= 0xFF),
        b,
{
    let cmd = command & COMMAND_MASK;
    assert(cmd <= 0xFF) by (bit_vector)
        requires
            cmd == command & 0xFF,
    ;
    cmd <= 0xFF
}

/// Extract the core command from a full command value
pub fn extract_command(command: u32) -> (c: u32)
    ensures
        c == core_command(command),
        c <= 0xFF,
{
    let c = command & COMMAND_MASK;
    assert(c <= 0xFF) by (bit_vector)
        requires
            c == command & 0xFF,
    ;
    c
}

/// Extracting the core command twice gives the same value as extracting it once.
pub proof fn lemma_extract_command_idempotent(command: u32)
    ensures
        core_command(core_command(command)) == core_command(command),
{
    assert((command & 0xFF) & 0xFF == command & 0xFF) by (bit_vector);
}

/// Metadata in the upper three bytes of a command value never changes its core
/// command, so its stitch type and the name of its core command are those of its low byte.
pub proof fn lemma_upper_bits_ignored(core: u32, metadata: u32)
    requires
        core <= 0xFF,
    ensures
        core_command(core | (metadata & 0xFFFF_FF00)) == core,
        stitch_type_of(core_command(core | (metadata & 0xFFFF_FF00))) == stitch_type_of(core),
        command_name_of(core_command(core | (metadata & 0xFFFF_FF00))) == command_name_of(core),
{
    assert((core | (metadata & 0xFFFF_FF00)) & 0xFF == core) by (bit_vector)
        requires
            core <= 0xFF,
    ;
}

/// The number that a thread, needle or order field of a command holds: 0 for
/// none, else the given value plus one.
pub open spec fn field_code(v: Option<u8>) -> u32 {
    match v {
        Some(x) => (x + 1) as u32,
        None => 0,
    }
}

/// The command value that `encode_thread_change` builds: the core command in
/// the low byte, then the thread, needle and order fields.
pub open spec fn thread_change_value(
    command: u32,
    thread: Option<u8>,
    needle: Option<u8>,
    order: Option<u8>,
) -> u32 {
    (command & 0xFF) | (field_code(order) << 24u32) | (field_code(needle) << 16u32) | (field_code(
        thread,
    ) << 8u32)
}

/// Builds a thread-change command: the core of `command` with a thread, a
/// needle and an order, each stored as its value plus one (0 meaning none).
pub fn encode_thread_change(
    command: u32,
    thread: Option<u8>,
    needle: Option<u8>,
    order: Option<u8>,
) -> (c: u32)
    ensures
        c == thread_change_value(command, thread, needle, order),
{
    let t: u32 = match thread {
        Some(x) => x as u32 + 1,
        None => 0,
    };
    let n: u32 = match needle {
        Some(x) => x as u32 + 1,
        None => 0,
    };
    let o: u32 = match order {
        Some(x) => x as u32 + 1,
        None => 0,
    };
    (command & 0xFF) | (o << 24u32) | (n << 16u32) | (t << 8u32)
}

} // verus!
