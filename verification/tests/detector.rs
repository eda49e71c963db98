use butabuti::detector::{Format, FormatDetector};

#[test]
fn test_detect_pes_from_content() {
    let data = b"#PES0001\x00\x00\x00\x00";
    let format = FormatDetector::detect_from_content(data).unwrap();
    assert_eq!(format, Format::PES);
}

#[test]
fn test_detect_pec_from_content() {
    let data = b"#PEC0001\x00\x00\x00\x00";
    let format = FormatDetector::detect_from_content(data).unwrap();
    assert_eq!(format, Format::PEC);
}

#[test]
fn test_detect_vp3_from_content() {
    let data = b"%vsm%\x00\x00\x00\x00";
    let format = FormatDetector::detect_from_content(data).unwrap();
    assert_eq!(format, Format::VP3);
}

#[test]
fn test_detect_jef_from_content() {
    let data = [0x74u8; 512];
    let format = FormatDetector::detect_from_content(&data[..]).unwrap();
    assert_eq!(format, Format::JEF);
}

#[test]
fn test_detect_json_from_content() {
    let data = b"{\"stitches\": []}";
    let format = FormatDetector::detect_from_content(data).unwrap();
    assert_eq!(format, Format::JSON);
}

#[test]
fn test_detect_csv_from_content() {
    let data = b"x,y,command\n10,20,0\n";
    let format = FormatDetector::detect_from_content(data).unwrap();
    assert_eq!(format, Format::CSV);
}

#[test]
fn test_detect_dst_from_content() {
    let mut data = vec![0x20u8; 512];
    let header_text = "LA:Design Name  ST:1000  CO:123  ";
    data[..header_text.len()].copy_from_slice(header_text.as_bytes());
    let format = FormatDetector::detect_from_content(&data).unwrap();
    assert_eq!(format, Format::DST);
}

#[test]
fn test_detect_gcode_from_content() {
    let data = b"G0 X10 Y20\nG1 X30 Y40\n";
    let format = FormatDetector::detect_from_content(data).unwrap();
    assert_eq!(format, Format::GCODE);
}

#[test]
fn test_detect_from_extension_dst() {
    let format = FormatDetector::detect_from_extension("design.dst").unwrap();
    assert_eq!(format, Format::DST);
}

#[test]
fn test_detect_from_extension_pes() {
    let format = FormatDetector::detect_from_extension("design.PES").unwrap();
    assert_eq!(format, Format::PES);
}

#[test]
fn test_detect_from_extension_unknown() {
    let format = FormatDetector::detect_from_extension("design.xyz").unwrap();
    assert_eq!(format, Format::Unknown);
}

#[test]
fn test_detect_from_extension_no_extension() {
    let result = FormatDetector::detect_from_extension("design");
    assert!(result.is_err());
}

#[test]
fn test_detect_too_small_file() {
    let data = b"123";
    let result = FormatDetector::detect_from_content(data);
    assert!(result.is_err());
}

#[test]
fn test_detect_unknown_content() {
    let data = vec![0xFFu8; 512];
    let format = FormatDetector::detect_from_content(&data).unwrap();
    assert_eq!(format, Format::Unknown);
}

#[test]
fn extension_rules_follow_paths() {
    assert_eq!(FormatDetector::detect_from_extension("dir.d/file.Json").unwrap(), Format::JSON);
    assert_eq!(FormatDetector::detect_from_extension("a/b.nc").unwrap(), Format::GCODE);
    assert_eq!(FormatDetector::detect_from_extension("x.VIP").unwrap(), Format::HUS);
    assert_eq!(FormatDetector::detect_from_extension("a/b.dst/").unwrap(), Format::DST);
    assert!(FormatDetector::detect_from_extension(".dst").is_err());
    assert!(FormatDetector::detect_from_extension("x.dst/..").is_err());
    assert_eq!(FormatDetector::detect_from_extension("x.").unwrap(), Format::Unknown);
}

#[test]
fn content_checks_in_order() {
    // a JEF header byte needs at least 128 bytes
    let mut short = vec![0x74u8; 20];
    short[19] = b'\n';
    assert_eq!(FormatDetector::detect_from_content(&short).unwrap(), Format::Unknown);
    // leading white space before a brace is JSON
    assert_eq!(FormatDetector::detect_from_content(b" \t\n{}").unwrap(), Format::JSON);
    // commas after the first line do not make CSV
    let data = b"0123456789abcdefghij\n,,,,";
    assert_eq!(FormatDetector::detect_from_content(data).unwrap(), Format::Unknown);
}

#[test]
fn detect_format_falls_back_to_extension() {
    let data = vec![0xFFu8; 600];
    assert_eq!(FormatDetector::detect_format(&data, Some("a.exp")).unwrap(), Format::EXP);
    assert!(FormatDetector::detect_format(&data, None).is_err());
    assert!(FormatDetector::detect_format(&data, Some("a.zzz")).is_err());
    assert_eq!(FormatDetector::detect_format(b"#PES0001", Some("a.exp")).unwrap(), Format::PES);
}
