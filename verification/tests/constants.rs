use butabuti::constants::{
    command_name, encode_thread_change, extract_command, is_valid_command, StitchType, COLOR_CHANGE,
    COMMAND_MASK, CUT, END, NO_COMMAND, FAST, JUMP, NEEDLE_SET, SEQUIN_EJECT, SEQUIN_MODE, SLOW, STITCH, STOP,
    TRIM,
};

#[test]
fn test_command_mask() {
    let encoded = 0x12345678u32;
    assert_eq!(encoded & COMMAND_MASK, 0x78);
}

#[test]
fn test_command_names() {
    assert_eq!(command_name(STITCH), "STITCH");
    assert_eq!(command_name(JUMP), "JUMP");
    assert_eq!(command_name(TRIM), "TRIM");
    assert_eq!(command_name(CUT), "CUT");
}

#[test]
fn test_is_valid_command() {
    assert!(is_valid_command(STITCH));
    assert!(is_valid_command(0xFF));
    assert!(is_valid_command(0x12345678));
}

#[test]
fn test_extract_command() {
    assert_eq!(extract_command(0x12345678), 0x78);
    assert_eq!(extract_command(STITCH), STITCH);
}

#[test]
fn test_stitch_type_from_command() {
    assert_eq!(StitchType::from_command(STITCH), StitchType::Normal);
    assert_eq!(StitchType::from_command(JUMP), StitchType::Jump);
    assert_eq!(StitchType::from_command(TRIM), StitchType::Trim);
    assert_eq!(StitchType::from_command(CUT), StitchType::Cut);
    assert_eq!(StitchType::from_command(COLOR_CHANGE), StitchType::ColorChange);
    assert_eq!(StitchType::from_command(STOP), StitchType::Stop);
    assert_eq!(StitchType::from_command(END), StitchType::End);
    assert_eq!(StitchType::from_command(SEQUIN_EJECT), StitchType::SequinEject);
    assert_eq!(StitchType::from_command(SEQUIN_MODE), StitchType::SequinMode);
    assert_eq!(StitchType::from_command(NEEDLE_SET), StitchType::NeedleSet);
    assert_eq!(StitchType::from_command(SLOW), StitchType::Slow);
    assert_eq!(StitchType::from_command(FAST), StitchType::Fast);
}

#[test]
fn test_stitch_type_from_command_with_metadata() {
    assert_eq!(StitchType::from_command(0x12345600), StitchType::Normal);
    assert_eq!(StitchType::from_command(0xFF000001), StitchType::Jump);
    assert_eq!(StitchType::from_command(0x00FF0002), StitchType::Trim);
}

#[test]
fn test_stitch_type_unknown() {
    assert_eq!(StitchType::from_command(0xFF), StitchType::Unknown);
    assert_eq!(StitchType::from_command(0x99), StitchType::Unknown);
}

#[test]
fn test_stitch_type_is_movement() {
    assert!(StitchType::Normal.is_movement());
    assert!(StitchType::Jump.is_movement());
    assert!(StitchType::ColorChange.is_movement());
    assert!(!StitchType::Trim.is_movement());
    assert!(!StitchType::Cut.is_movement());
    assert!(!StitchType::Stop.is_movement());
    assert!(!StitchType::End.is_movement());
}

#[test]
fn test_stitch_type_is_thread_command() {
    assert!(StitchType::Trim.is_thread_command());
    assert!(StitchType::Cut.is_thread_command());
    assert!(StitchType::ColorChange.is_thread_command());
    assert!(StitchType::Stop.is_thread_command());
    assert!(!StitchType::Normal.is_thread_command());
    assert!(!StitchType::Jump.is_thread_command());
    assert!(!StitchType::End.is_thread_command());
}

#[test]
fn test_stitch_type_is_control() {
    assert!(StitchType::Stop.is_control());
    assert!(StitchType::End.is_control());
    assert!(StitchType::Slow.is_control());
    assert!(StitchType::Fast.is_control());
    assert!(!StitchType::Normal.is_control());
    assert!(!StitchType::Jump.is_control());
    assert!(!StitchType::Trim.is_control());
}

#[test]
fn test_stitch_type_is_sequin() {
    assert!(StitchType::SequinEject.is_sequin());
    assert!(StitchType::SequinMode.is_sequin());
    assert!(!StitchType::Normal.is_sequin());
    assert!(!StitchType::Jump.is_sequin());
}

#[test]
fn test_stitch_type_display() {
    assert_eq!(StitchType::Normal.to_display_string(), "Normal");
    assert_eq!(StitchType::Jump.to_display_string(), "Jump");
    assert_eq!(StitchType::Trim.to_display_string(), "Trim");
    assert_eq!(StitchType::ColorChange.to_display_string(), "ColorChange");
    assert_eq!(StitchType::Unknown.to_display_string(), "Unknown");
}

#[test]
fn test_stitch_type_equality() {
    assert_eq!(StitchType::Normal, StitchType::Normal);
    assert_ne!(StitchType::Normal, StitchType::Jump);
    assert_eq!(StitchType::from_command(STITCH), StitchType::from_command(STITCH));
    assert_ne!(StitchType::from_command(STITCH), StitchType::from_command(JUMP));
}

#[test]
fn constants_test_cut_command() {
    assert_eq!(CUT, 0x20);
    assert_eq!(command_name(CUT), "CUT");
    assert_eq!(StitchType::from_command(CUT), StitchType::Cut);
    assert_eq!(StitchType::Cut.to_display_string(), "Cut");
    assert!(StitchType::Cut.is_thread_command());
    assert!(!StitchType::Cut.is_movement());
    assert!(!StitchType::Cut.is_control());
    assert!(!StitchType::Cut.is_sequin());
}

#[test]
fn constants_test_cut_vs_trim() {
    assert_ne!(CUT, TRIM);
    assert_ne!(StitchType::Cut, StitchType::Trim);
    assert!(StitchType::Cut.is_thread_command());
    assert!(StitchType::Trim.is_thread_command());
    let cut_with_meta = CUT | 0xFF00;
    let trim_with_meta = TRIM | 0xFF00;
    assert_eq!(StitchType::from_command(cut_with_meta), StitchType::Cut);
    assert_eq!(StitchType::from_command(trim_with_meta), StitchType::Trim);
}

#[test]
fn command_name_ignores_upper_bits() {
    assert_eq!(command_name(0xAB00_0005), "COLOR_CHANGE");
    assert_eq!(command_name(0x99), "UNKNOWN");
}

#[test]
fn command_name_of_no_command() {
    assert_eq!(command_name(NO_COMMAND), "NO_COMMAND");
    assert_eq!(command_name(0x0000_00FF), "UNKNOWN");
}

#[test]
fn thread_change_encodes_fields_plus_one() {
    assert_eq!(encode_thread_change(NEEDLE_SET, None, Some(3), None), 0x0004_0009);
    assert_eq!(encode_thread_change(COLOR_CHANGE, Some(1), Some(2), Some(0)), 0x0103_0205);
    assert_eq!(encode_thread_change(0x1234, None, None, None), 0x34);
}
