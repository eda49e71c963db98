use butabuti::constants::{COLOR_CHANGE, COMMAND_MASK, CUT, END, JUMP, NEEDLE_SET, STITCH, TRIM};
use butabuti::error::Error;
use butabuti::ops::PatternOp;
use butabuti::readers::{
    bro, col, csv, dat, dsb, dsz, dst, edr, emd, exp, gcode, hus, inb, inf, jef, jpx, json, ksm, max, mit,
    new,
    pcd, pcm, pcq, pcs, pec, pmv, sew, shv, spx, stc, stx, tap, exy, fxy, gt,
};
use butabuti::readers::csv::CsvRecord;
use butabuti::thread::color_from_hash;

/// The stitches that a pattern gets from the operations: each with its
/// absolute position and command.
fn stitches(ops: &[PatternOp]) -> Vec<(i64, i64, u32)> {
    let mut x: i64 = 0;
    let mut y: i64 = 0;
    let mut out = Vec::new();
    for op in ops {
        match *op {
            PatternOp::Relative { dx, dy, command } => {
                x += dx;
                y += dy;
                out.push((x, y, command));
            }
            PatternOp::Absolute { x: ax, y: ay, command } => {
                x = ax;
                y = ay;
                out.push((x, y, command));
            }
            PatternOp::Command { x: cx, y: cy, command } => out.push((cx, cy, command)),
        }
    }
    out
}

// ---- DST ----

#[test]
fn test_decode_dx() {
    assert_eq!(dst::decode_dx(0, 0, 0), 0);
    assert_eq!(dst::decode_dx(0b00000001, 0, 0), 1);
    assert_eq!(dst::decode_dx(0, 0b00000001, 0), 3);
    assert_eq!(dst::decode_dx(0b00000100, 0, 0), 9);
}

#[test]
fn test_decode_dy() {
    assert_eq!(dst::decode_dy(0, 0, 0), 0);
    assert_eq!(dst::decode_dy(0b10000000, 0, 0), -1);
}

#[test]
fn test_get_bit() {
    assert_eq!(dst::get_bit(0b00000001, 0), 1);
    assert_eq!(dst::get_bit(0b00000001, 1), 0);
    assert_eq!(dst::get_bit(0b00000010, 1), 1);
    assert_eq!(dst::get_bit(0b10000000, 7), 1);
}

#[test]
fn dst_decode_extremes() {
    // every x bit set: 1 + 9 + 27 + 81 + 3 + ... = 121
    assert_eq!(dst::decode_dx(0b0000_0101, 0b0000_0101, 0b0000_0100), 1 + 9 + 3 + 27 + 81);
    assert_eq!(dst::decode_dx(0b0000_1010, 0b0000_1010, 0b0000_1000), -(1 + 9 + 3 + 27 + 81));
}

#[test]
fn dst_too_small_header_is_error() {
    let data = vec![0u8; 100];
    assert!(matches!(dst::read(&data, 0), Err(Error::Parse(_))));
}

#[test]
fn dst_header_metadata_and_end() {
    let mut data = vec![b' '; 512];
    let label = b"LA:Flower\r";
    data[..label.len()].copy_from_slice(label);
    // a stitch of +1 in x, then the end record
    data.extend_from_slice(&[0x01, 0x00, 0x03]);
    data.extend_from_slice(&[0x00, 0x00, 0xF3]);
    let p = dst::read(&data, 0).unwrap();
    assert!(!p.ops.is_empty());
    let s = stitches(&p.ops);
    assert_eq!(s[0], (1, 0, STITCH));
    assert_eq!(s.last().unwrap().2, END);
    assert!(p.header.iter().any(|h| matches!(h, dst::HeaderInfo::Metadata(k, v) if k == "name" && v == "Flower")));
}

#[test]
fn dst_invalid_header_is_error() {
    let mut data = vec![0xFFu8; 512];
    data.extend_from_slice(&[0x00, 0x00, 0xF3]);
    assert!(matches!(dst::read(&data, 0), Err(Error::Parse(_))));
}

#[test]
fn test_read_tap() {
    let mut tap_data = vec![0u8; 512];
    tap_data.extend_from_slice(&[0x03, 0x03, 0x03]);
    tap_data.extend_from_slice(&[0xF3, 0x00, 0x00]);
    let p = tap::read(&tap_data).expect("Failed to read TAP");
    assert!(!p.ops.is_empty());
}

#[test]
fn test_tap_compatibility_with_dst() {
    let dst_data = vec![0u8; 512];
    let p1 = dst::read(&dst_data, 0).expect("DST read failed");
    let p2 = tap::read(&dst_data).expect("TAP read failed");
    assert_eq!(p1.ops.len(), p2.ops.len());
    assert_eq!(p1.ops, p2.ops);
}

#[test]
fn test_read_exy_basic() {
    let mut exy_data = vec![0u8; 0x100];
    exy_data.extend_from_slice(&vec![0u8; 512]);
    exy_data.extend_from_slice(&[0x01, 0x40, 0x80]);
    exy_data.extend_from_slice(&[0x00, 0x00, 0xF3]);
    let p = exy::read(&exy_data).expect("Failed to read EXY");
    assert!(!p.ops.is_empty());
}

// ---- PEC ----

#[test]
fn test_signed12() {
    assert_eq!(pec::signed12(0x000), 0);
    assert_eq!(pec::signed12(0x7FF), 2047);
    assert_eq!(pec::signed12(0x800), -2048);
    assert_eq!(pec::signed12(0xFFF), -1);
}

#[test]
fn test_signed7() {
    assert_eq!(pec::signed7(0), 0);
    assert_eq!(pec::signed7(63), 63);
    assert_eq!(pec::signed7(64), -64);
    assert_eq!(pec::signed7(127), -1);
}

#[test]
fn pec_bad_magic_is_error() {
    let data = vec![0u8; 0x300];
    assert!(pec::read(&data).is_err());
}

#[test]
fn pec_palette_colors_wrap() {
    let (sources, used) = pec::map_pec_colors(&[0, 65, 3], None);
    assert_eq!(used, 0);
    assert_eq!(
        sources,
        vec![
            pec::ThreadSource::Palette(0),
            pec::ThreadSource::Palette(1),
            pec::ThreadSource::Palette(3)
        ]
    );
}

#[test]
fn pec_label_trimmed() {
    let mut b = b"\0 Rose".to_vec();
    b.resize(16, 0);
    assert_eq!(pec::read_pec_label(&b), Some("Rose".to_string()));
    assert_eq!(pec::read_pec_label(&vec![0u8; 16]), None);
}

// ---- JSON ----

#[test]
fn test_parse_color() {
    assert_eq!(json::parse_color("#FF0000").unwrap(), 0xFF0000);
    assert_eq!(json::parse_color("0xFF0000").unwrap(), 0xFF0000);
    assert_eq!(json::parse_color("FF0000").unwrap(), 0xFF0000);
}

#[test]
fn test_parse_command() {
    assert_eq!(json::parse_command("STITCH").unwrap(), STITCH);
    assert_eq!(json::parse_command("JUMP").unwrap(), JUMP);
    assert_eq!(json::parse_command("COLOR_CHANGE").unwrap(), COLOR_CHANGE);
    assert_eq!(json::parse_command("END").unwrap(), END);
}

#[test]
fn json_command_names_fold_case() {
    assert_eq!(json::parse_command("stitch").unwrap(), STITCH);
    assert_eq!(json::parse_command("Trim").unwrap(), TRIM);
    assert!(json::parse_command("SPIN").is_err());
}

#[test]
fn json_bad_color_is_error() {
    assert!(json::parse_color("#GG0000").is_err());
}

// ---- CSV ----

#[test]
fn test_csv_parse_command_cut() {
    assert_eq!(csv::parse_command("CUT").unwrap(), CUT);
    assert_eq!(
        csv::parse_command(butabuti::constants::command_name(CUT)).unwrap(),
        CUT
    );
    assert_eq!(csv::parse_command("CUT t1").unwrap(), CUT | (2 << 8));
}

#[test]
fn test_parse_command_modifiers() {
    let cmd = csv::parse_command("COLOR_CHANGE n2 t3").unwrap();
    assert_eq!(cmd & COMMAND_MASK, COLOR_CHANGE);
    assert_eq!((cmd >> 16) & 0xFF, 3);
    assert_eq!((cmd >> 8) & 0xFF, 4);
}

#[test]
fn test_read_basic_csv() {
    let csv_data = "\
# Comment line
$,0,#FF0000,Red Thread,BrandA,CAT001
$,1,#00FF00,Green Thread
*,0,STITCH,100.0,200.0
*,1,STITCH,110.0,210.0
*,2,JUMP,150.0,250.0
*,3,COLOR_CHANGE
@,name,Test Pattern
";
    let mut threads = Vec::new();
    let mut stitch_count = 0;
    let mut name = None;
    for line in csv_data.lines() {
        match csv::parse_csv_line(line).expect("Failed to read CSV") {
            CsvRecord::Thread(t) => threads.push(t),
            CsvRecord::Stitch { .. } | CsvRecord::Command { .. } => stitch_count += 1,
            CsvRecord::Metadata { key, value } => {
                if key == "name" {
                    name = Some(value)
                }
            }
            CsvRecord::Skip => {}
        }
    }
    assert_eq!(threads.len(), 2);
    assert_eq!(threads[0].red(), 255);
    assert_eq!(threads[0].green(), 0);
    assert_eq!(threads[0].blue(), 0);
    assert!(stitch_count >= 4);
    assert_eq!(name, Some("Test Pattern".to_string()));
}

#[test]
fn test_embroidermodder_format() {
    let rec = csv::parse_csv_line("$,0,255,128,64,Orange Thread,EM001").expect("Failed to read CSV");
    match rec {
        CsvRecord::Thread(t) => {
            assert_eq!(t.red(), 255);
            assert_eq!(t.green(), 128);
            assert_eq!(t.blue(), 64);
            assert_eq!(t.description, Some("Orange Thread".to_string()));
        }
        _ => panic!("expected a thread"),
    }
}

#[test]
fn csv_stitch_line_keeps_coordinates() {
    match csv::parse_csv_line("*,0,JUMP,1.5,-2").unwrap() {
        CsvRecord::Stitch { command, x, y } => {
            assert_eq!(command, JUMP);
            assert_eq!(x, "1.5");
            assert_eq!(y, "-2");
        }
        _ => panic!("expected a stitch"),
    }
}

#[test]
fn csv_unknown_command_is_stitch() {
    assert_eq!(csv::parse_command("WOBBLE").unwrap(), STITCH);
    assert_eq!(csv::parse_command("").unwrap(), STITCH);
    assert_eq!(csv::parse_command("JUMP o0 x9").unwrap(), JUMP | (1 << 24));
}

#[test]
fn csv_short_lines_skip() {
    assert!(matches!(csv::parse_csv_line(""), Ok(CsvRecord::Skip)));
    assert!(matches!(csv::parse_csv_line("# x,y,z"), Ok(CsvRecord::Skip)));
    assert!(matches!(csv::parse_csv_line("*,0"), Ok(CsvRecord::Skip)));
}

// ---- HUS ----

#[test]
fn test_hus_command_types() {
    for cmd_byte in [0x80u8, 0x81, 0x84, 0x88, 0x90] {
        let r = hus::process_hus_stitches(&[cmd_byte], &[1], &[1], 1);
        assert!(r.is_ok(), "command {:02X} should be recognized", cmd_byte);
    }
    let unknown_cmd = 0xABu8;
    assert!(hus::process_hus_stitches(&[unknown_cmd], &[0], &[0], 1).is_err());
}

#[test]
fn test_hus_decompression_size_validation() {
    // streams whose sizes differ from the stitch count are refused
    assert!(hus::process_hus_stitches(&[0x80, 0x80], &[1, 1], &[1, 1], 3).is_err());
    assert!(hus::process_hus_stitches(&[0x80], &[1, 1], &[1], 1).is_err());
    assert!(hus::process_hus_stitches(&[0x80], &[1], &[1], 1).is_ok());
}

#[test]
fn hus_stitches_exact() {
    let ops = hus::process_hus_stitches(&[0x80, 0x84, 0x90], &[5, 0, 9], &[3, 0, 9], 3).unwrap();
    assert_eq!(
        stitches(&ops),
        vec![(5, -3, STITCH), (0, 0, COLOR_CHANGE), (0, 0, END)]
    );
}

fn hus_header_bytes(magic: [u8; 4], stitches: u32, colors: u32, thread: u16) -> Vec<u8> {
    let mut data = vec![];
    data.extend_from_slice(&magic);
    data.extend_from_slice(&stitches.to_le_bytes());
    data.extend_from_slice(&colors.to_le_bytes());
    data.extend_from_slice(&[0; 8]);
    data.extend_from_slice(&42u32.to_le_bytes());
    data.extend_from_slice(&52u32.to_le_bytes());
    data.extend_from_slice(&62u32.to_le_bytes());
    data.extend_from_slice(&[0; 8]);
    data.extend_from_slice(&[0, 0]);
    data.extend_from_slice(&thread.to_le_bytes());
    data
}

#[test]
fn test_read_hus_header() {
    let mut data = hus_header_bytes([0, 0, 0, 0], 10, 1, 0);
    data.extend_from_slice(&[0; 30]);
    let h = hus::read_hus_header(&data).unwrap();
    assert_eq!(h.palette_indices.len(), 1);
    assert_eq!(h.stitch_count, 10);
}

#[test]
fn test_hus_thread_palette_validation() {
    let data = hus_header_bytes([0x5B, 0xAF, 0xC8, 0x00], 1, 1, 99);
    let result = hus::read_hus_header(&data);
    assert!(result.is_err());
    if let Err(Error::Parse(m)) = result {
        assert!(m.contains("thread") || m.contains("palette"));
    } else {
        panic!("expected a parse error");
    }
}

#[test]
fn test_hus_header_too_short() {
    let data = vec![0u8; 20];
    assert!(matches!(hus::read_hus_header(&data), Err(Error::Parse(_))));
}

#[test]
fn test_hus_palette_truncated() {
    let mut data = hus_header_bytes([0x5B, 0xAF, 0xC8, 0x00], 1, 2, 3);
    data.truncate(44);
    match hus::read_hus_header(&data) {
        Err(Error::Parse(m)) => assert!(m.contains("EOF")),
        _ => panic!("expected a parse error"),
    }
}

// ---- simple binary formats ----

#[test]
fn test_read_bro_basic() {
    let mut d = vec![0u8; 0x100];
    d.extend_from_slice(&[10, 10]);
    d.extend_from_slice(&[0x80, 0x02]);
    let ops = bro::read(&d);
    assert!(!ops.is_empty());
    assert_eq!(stitches(&ops), vec![(10, -10, STITCH), (0, 0, END)]);
}

#[test]
fn test_bro_move() {
    let mut d = vec![0u8; 0x100];
    d.extend_from_slice(&[0x80, 0x03]);
    d.extend_from_slice(&100i16.to_le_bytes());
    d.extend_from_slice(&200i16.to_le_bytes());
    d.extend_from_slice(&[5, 5]);
    d.extend_from_slice(&[0x80, 0x02]);
    assert!(!bro::read(&d).is_empty());
}

#[test]
fn test_bro_needle_change() {
    let mut d = vec![0u8; 0x100];
    d.extend_from_slice(&[5, 5]);
    d.extend_from_slice(&[0x80, 0xE1]);
    d.extend_from_slice(&10i16.to_le_bytes());
    d.extend_from_slice(&10i16.to_le_bytes());
    d.extend_from_slice(&[10, 10]);
    d.extend_from_slice(&[0x80, 0x02]);
    assert!(!bro::read(&d).is_empty());
}

#[test]
fn bro_empty_file_only_ends() {
    assert_eq!(stitches(&bro::read(&[])), vec![(0, 0, END)]);
}

#[test]
fn test_read_barudan_dat() {
    let mut d = vec![];
    d.extend_from_slice(&[0x80, 10, 10]);
    d.extend_from_slice(&[0x98, 0, 0]);
    assert!(!dat::read(&d).is_empty());
}

#[test]
fn test_read_sunstar_dat() {
    let mut d = vec![0u8; 0x100];
    d.extend_from_slice(&[10, 10, 0x07]);
    d.extend_from_slice(&[0, 0, 0x00]);
    assert!(!dat::read(&d).is_empty());
}

#[test]
fn test_barudan_needle_change() {
    let mut d = vec![];
    d.extend_from_slice(&[0x80, 5, 5]);
    d.extend_from_slice(&[0x80 | 0x09, 0, 0]);
    d.extend_from_slice(&[0x98, 0, 0]);
    let ops = dat::read(&d);
    assert!(!ops.is_empty());
    assert!(stitches(&ops).iter().any(|s| s.2 & COMMAND_MASK == NEEDLE_SET));
}

#[test]
fn test_read_dsb_basic() {
    let mut d = vec![0u8; 512];
    d.extend_from_slice(&[0x00, 10, 10]);
    d.extend_from_slice(&[0x01, 5, 5]);
    d.extend_from_slice(&[0xE7, 0, 0]);
    d.extend_from_slice(&[0xF8, 0, 0]);
    let p = dsb::read(&d).expect("Failed to read DSB");
    assert!(!p.ops.is_empty());
}

#[test]
fn test_b_stitch_negative_coordinates() {
    let mut d = vec![0u8; 512];
    d.extend_from_slice(&[0x20, 5, 10]);
    d.extend_from_slice(&[0x40, 5, 10]);
    d.extend_from_slice(&[0xF8, 0, 0]);
    let p = dsb::read(&d).expect("Failed to read DSB");
    assert!(!p.ops.is_empty());
}

#[test]
fn test_b_stitch_needle_change() {
    let mut d = vec![0u8; 512];
    d.extend_from_slice(&[0xE9, 0, 0]);
    d.extend_from_slice(&[0xED, 0, 0]);
    d.extend_from_slice(&[0xF8, 0, 0]);
    let p = dsb::read(&d).expect("Failed to read DSB");
    assert!(!p.ops.is_empty());
}

#[test]
fn test_read_dsz_basic() {
    let mut d = vec![0u8; 512];
    d.extend_from_slice(&[10, 10, 0x00]);
    d.extend_from_slice(&[5, 5, 0x01]);
    d.extend_from_slice(&[0, 0, 0x9B]);
    let p = dsz::read(&d).expect("Failed to read DSZ");
    assert!(!p.ops.is_empty());
}

#[test]
fn test_z_stitch_negative_coordinates() {
    let z = vec![10, 10, 0x60];
    assert!(!dsz::read_z_stitches(&z, 0).is_empty());
}

#[test]
fn test_z_stitch_needle_change() {
    let z = vec![0, 0, 0x83, 0, 0, 0x85];
    assert!(dsz::read_z_stitches(&z, 0).len() >= 2);
}

#[test]
fn test_read_fxy_basic() {
    let mut d = vec![0u8; 0x100];
    d.extend_from_slice(&[0x00, 10, 10]);
    d.extend_from_slice(&[0xF3, 0x00, 0x00]);
    assert!(!fxy::read(&d).is_empty());
}

#[test]
fn test_read_gt_basic() {
    let mut d = vec![0u8; 512];
    d.extend_from_slice(&[10, 10, 0x00]);
    d.extend_from_slice(&[5, 5, 0x01]);
    d.extend_from_slice(&[0, 0, 0x9B]);
    assert!(!gt::read(&d).is_empty());
}

#[test]
fn test_gt_header_skip() {
    let mut d = vec![0xFFu8; 512];
    d.extend_from_slice(&[10, 10, 0x00]);
    assert!(!gt::read(&d).is_empty());
}

#[test]
fn test_read_basic_edr() {
    let d = vec![255, 0, 0, 0, 0, 255, 0, 0, 0, 0, 255, 0];
    let t = edr::read(&d);
    assert_eq!(t.len(), 3);
    assert_eq!((t[0].red(), t[0].green(), t[0].blue()), (255, 0, 0));
    assert_eq!((t[1].red(), t[1].green(), t[1].blue()), (0, 255, 0));
    assert_eq!((t[2].red(), t[2].green(), t[2].blue()), (0, 0, 255));
}

#[test]
fn test_read_empty_edr() {
    assert_eq!(edr::read(&[]).len(), 0);
}

#[test]
fn test_read_partial_edr() {
    let t = edr::read(&[255, 0, 0, 0, 128, 64]);
    assert_eq!(t.len(), 1);
    assert_eq!(t[0].red(), 255);
}

#[test]
fn test_read_emd_basic() {
    let mut d = vec![0u8; 0x30];
    d.extend_from_slice(&[10, 10]);
    d.extend_from_slice(&[0x80, 0xFD]);
    assert!(!emd::read(&d).is_empty());
}

#[test]
fn test_emd_move() {
    let mut d = vec![0u8; 0x30];
    d.extend_from_slice(&[0x80, 0x80, 5, 5]);
    d.extend_from_slice(&[10, 10]);
    d.extend_from_slice(&[0x80, 0xFD]);
    assert!(!emd::read(&d).is_empty());
}

#[test]
fn test_emd_color_change() {
    let mut d = vec![0u8; 0x30];
    d.extend_from_slice(&[5, 5]);
    d.extend_from_slice(&[0x80, 0x2A]);
    d.extend_from_slice(&[10, 10]);
    d.extend_from_slice(&[0x80, 0xFD]);
    assert!(!emd::read(&d).is_empty());
}

#[test]
fn test_exp_basic() {
    let data = [0x10, 0x20, 0x05, 0x0A, 0x80, 0x80, 0x00, 0x00];
    let ops = exp::read(&data).unwrap();
    assert!(!ops.is_empty());
}

#[test]
fn test_read_stx_basic() {
    let mut d = vec![0u8; 0x0C];
    d.extend_from_slice(&100u32.to_le_bytes());
    d.extend_from_slice(&200u32.to_le_bytes());
    d.extend_from_slice(&300u32.to_le_bytes());
    while d.len() < 300 {
        d.push(0);
    }
    d.extend_from_slice(&[0x80, 0x00, 0x00, 0x00]);
    let ops = stx::read(&d).expect("Failed to read STX");
    assert!(!ops.is_empty());
}

#[test]
fn stx_short_header_is_error() {
    assert!(stx::read(&[0u8; 10]).is_err());
}

#[test]
fn test_read_inb_basic() {
    let mut d = vec![0u8; 0x2000];
    d.extend_from_slice(&[10, 10, 0x00]);
    d.extend_from_slice(&[5, 5, 0x02]);
    d.extend_from_slice(&[0, 0, 0x01]);
    d.extend_from_slice(&[0, 0, 0x04]);
    assert!(!inb::read(&d).is_empty());
}

#[test]
fn test_inb_negative_coordinates() {
    let mut d = vec![0u8; 0x2000];
    d.extend_from_slice(&[10, 5, 0x40]);
    d.extend_from_slice(&[10, 5, 0x20]);
    d.extend_from_slice(&[0, 0, 0x04]);
    assert!(!inb::read(&d).is_empty());
}

fn inf_record(index: u16, rgb: [u8; 3], needle: u16, desc: &[u8], chart: &[u8]) -> Vec<u8> {
    let mut r = Vec::new();
    let len = (11 + desc.len() + chart.len()) as u16;
    r.extend_from_slice(&len.to_be_bytes());
    r.extend_from_slice(&index.to_be_bytes());
    r.extend_from_slice(&rgb);
    r.extend_from_slice(&needle.to_be_bytes());
    r.extend_from_slice(desc);
    r.push(0);
    r.extend_from_slice(chart);
    r.push(0);
    r
}

#[test]
fn test_read_inf_basic() {
    let mut d = Vec::new();
    d.extend_from_slice(&1u32.to_be_bytes());
    d.extend_from_slice(&8u32.to_be_bytes());
    d.extend_from_slice(&0u32.to_be_bytes());
    d.extend_from_slice(&1u32.to_be_bytes());
    d.extend(inf_record(0, [255, 0, 0], 1, b"Red Thread", b"Chart1"));
    let t = inf::read(&d).unwrap();
    assert_eq!(t.len(), 1);
    assert_eq!(t[0].red(), 255);
    assert_eq!(t[0].description.as_deref(), Some("Red Thread"));
    assert_eq!(t[0].chart.as_deref(), Some("Chart1"));
}

#[test]
fn test_read_inf_multiple_threads() {
    let mut d = Vec::new();
    d.extend_from_slice(&1u32.to_be_bytes());
    d.extend_from_slice(&8u32.to_be_bytes());
    d.extend_from_slice(&0u32.to_be_bytes());
    d.extend_from_slice(&2u32.to_be_bytes());
    d.extend(inf_record(0, [255, 0, 0], 1, b"Red", b"C1"));
    d.extend(inf_record(1, [0, 0, 255], 2, b"Blue", b"C2"));
    let t = inf::read(&d).unwrap();
    assert_eq!(t.len(), 2);
    assert_eq!(t[0].red(), 255);
    assert_eq!(t[1].blue(), 255);
}

#[test]
fn inf_short_header_is_error() {
    assert!(inf::read(&[0u8; 12]).is_err());
}

fn jpx_data(colors: &[u32]) -> Vec<u8> {
    let mut d = vec![];
    let stitch_pos = 100u32;
    d.extend_from_slice(&stitch_pos.to_le_bytes());
    d.extend_from_slice(&vec![0u8; 0x1C]);
    d.extend_from_slice(&(colors.len() as u32).to_le_bytes());
    d.extend_from_slice(&vec![0u8; 0x18]);
    for c in colors {
        d.extend_from_slice(&c.to_le_bytes());
    }
    while d.len() < stitch_pos as usize {
        d.push(0);
    }
    d
}

#[test]
fn test_read_jpx_basic() {
    let mut d = jpx_data(&[0]);
    d.extend_from_slice(&[10, 10]);
    d.extend_from_slice(&[0x80, 0x10]);
    let p = jpx::read(&d).expect("Failed to read JPX");
    assert!(!p.ops.is_empty());
    assert_eq!(p.threads.len(), 1);
}

#[test]
fn test_jpx_color_change() {
    let mut d = jpx_data(&[0, 1]);
    d.extend_from_slice(&[0x80, 0x01, 0, 0]);
    d.extend_from_slice(&[5, 5]);
    d.extend_from_slice(&[0x80, 0x10]);
    let p = jpx::read(&d).expect("Failed to read JPX");
    assert_eq!(p.threads.len(), 2);
    assert_eq!(p.threads[1].description.as_deref(), Some("JPX index 1"));
}

#[test]
fn test_read_ksm_basic() {
    let mut d = vec![0u8; 0x200];
    d.extend_from_slice(&[10, 10, 0]);
    d.extend_from_slice(&[0, 0, 0x08]);
    assert!(!ksm::read(&d).is_empty());
}

#[test]
fn test_ksm_needle_change() {
    let mut d = vec![0u8; 0x200];
    d.extend_from_slice(&[5, 5, 0]);
    d.extend_from_slice(&[0, 0, 0x0B]);
    d.extend_from_slice(&[10, 10, 0]);
    d.extend_from_slice(&[0, 0, 0x08]);
    assert!(!ksm::read(&d).is_empty());
}

#[test]
fn test_ksm_trim() {
    let mut d = vec![0u8; 0x200];
    d.extend_from_slice(&[5, 5, 0]);
    d.extend_from_slice(&[0, 0, 0x07]);
    d.extend_from_slice(&[10, 10, 0]);
    d.extend_from_slice(&[0, 0, 0x17]);
    d.extend_from_slice(&[5, 5, 0]);
    d.extend_from_slice(&[0, 0, 0x08]);
    assert!(!ksm::read(&d).is_empty());
}

#[test]
fn test_read_max_basic() {
    let mut d = vec![0u8; 0xD5];
    d.extend_from_slice(&[2, 0, 0, 0]);
    d.extend_from_slice(&[100, 0, 0, 0, 200, 0, 0, 0]);
    let x = (-50i32 as u32).to_le_bytes();
    let y = (-100i32 as u32).to_le_bytes();
    d.extend_from_slice(&[x[0], x[1], x[2], 0, y[0], y[1], y[2], 0]);
    let ops = max::read(&d).expect("Failed to read MAX");
    assert!(!ops.is_empty());
}

#[test]
fn test_read_mit_basic() {
    assert!(!mit::read(&[0x3D, 0x65]).is_empty());
}

#[test]
fn test_mit_end() {
    assert!(!mit::read(&[0x00, 0x00]).is_empty());
}

#[test]
fn test_mit_color_change() {
    let d = vec![0x3D, 0x65, 0x40, 0x00, 0x00, 0x00];
    assert!(!mit::read(&d).is_empty());
}

#[test]
fn test_read_new_basic() {
    let mut d = vec![0u8, 3u8];
    d.extend_from_slice(&[10, 10, 0]);
    d.extend_from_slice(&[5, 5, 0b00000001]);
    d.extend_from_slice(&[3, 7, 0b01100000]);
    d.extend_from_slice(&[0, 0, 0b00010001]);
    assert!(!new::read(&d).is_empty());
}

#[test]
fn test_new_color_change() {
    let mut d = vec![0u8, 1u8];
    d.extend_from_slice(&[0, 0, 0b00000010]);
    d.extend_from_slice(&[10, 10, 0]);
    d.extend_from_slice(&[0, 0, 0b00010001]);
    assert!(!new::read(&d).is_empty());
}

fn pc_data(version_hoop: [u8; 2], colors: &[[u8; 4]], stitch: &[u8]) -> Vec<u8> {
    let mut d = vec![];
    d.extend_from_slice(&version_hoop);
    d.extend_from_slice(&(colors.len() as u16).to_le_bytes());
    for c in colors {
        d.extend_from_slice(c);
    }
    d.extend_from_slice(&[1, 0]);
    d.extend_from_slice(stitch);
    d
}

#[test]
fn test_read_pcd_basic() {
    let d = pc_data([0, 0], &[[0xFF, 0, 0, 0]], &[0, 100, 0, 0, 0, 200, 0, 0, 0x00]);
    let p = pcd::read(&d).expect("Failed to read PCD");
    assert!(!p.ops.is_empty());
    assert_eq!(p.threads.len(), 1);
    assert_eq!(p.threads[0].red(), 255);
}

#[test]
fn test_pcd_multiple_colors() {
    let d = pc_data(
        [0, 0],
        &[[0xFF, 0, 0, 0], [0, 0xFF, 0, 0]],
        &[0, 50, 0, 0, 0, 50, 0, 0, 0x01],
    );
    let p = pcd::read(&d).expect("Failed to read PCD");
    assert_eq!(p.threads.len(), 2);
}

#[test]
fn test_read_pcq_basic() {
    let d = pc_data([0, 1], &[[0, 0, 0xFF, 0]], &[0, 100, 0, 0, 0, 200, 0, 0, 0x00]);
    let p = pcq::read(&d).expect("Failed to read PCQ");
    assert!(!p.ops.is_empty());
    assert_eq!(p.threads.len(), 1);
}

#[test]
fn test_read_pcs_basic() {
    let d = pc_data([0, 2], &[[0, 0xFF, 0, 0]], &[0, 50, 0, 0, 0, 100, 0, 0, 0x00]);
    let p = pcs::read(&d).expect("Failed to read PCS");
    assert!(!p.ops.is_empty());
    assert_eq!(p.threads.len(), 1);
}

#[test]
fn test_read_pcm_basic() {
    let mut d = vec![0u8, 0, 0, 1, 0, 0, 0, 1];
    d.extend_from_slice(&[0, 0, 100, 0, 0, 0, 200, 0, 0x00]);
    let p = pcm::read(&d).expect("Failed to read PCM");
    assert!(!p.ops.is_empty());
    assert_eq!(p.threads.len(), 1);
}

#[test]
fn test_pcm_color_change() {
    let mut d = vec![0u8, 0, 0, 2, 0, 0, 0, 8, 0, 1];
    d.extend_from_slice(&[0, 0, 50, 0, 0, 0, 50, 0, 0x01]);
    let p = pcm::read(&d).expect("Failed to read PCM");
    assert_eq!(p.threads.len(), 2);
}

#[test]
fn test_read_pmv_basic() {
    let mut d = vec![0u8; 0x64];
    d.extend_from_slice(&2u16.to_le_bytes());
    d.extend_from_slice(&4u16.to_le_bytes());
    d.extend_from_slice(&[10, 10, 5, 5]);
    d.extend_from_slice(&0u16.to_le_bytes());
    d.extend_from_slice(&256u16.to_le_bytes());
    assert!(!pmv::read(&d).is_empty());
}

#[test]
fn test_pmv_negative_coords() {
    let mut d = vec![0u8; 0x64];
    d.extend_from_slice(&1u16.to_le_bytes());
    d.extend_from_slice(&2u16.to_le_bytes());
    d.extend_from_slice(&[50, 20]);
    d.extend_from_slice(&0u16.to_le_bytes());
    d.extend_from_slice(&256u16.to_le_bytes());
    assert!(!pmv::read(&d).is_empty());
}

#[test]
fn test_pmv_multiple_blocks() {
    let mut d = vec![0u8; 0x64];
    d.extend_from_slice(&1u16.to_le_bytes());
    d.extend_from_slice(&2u16.to_le_bytes());
    d.extend_from_slice(&[10, 10]);
    d.extend_from_slice(&1u16.to_le_bytes());
    d.extend_from_slice(&2u16.to_le_bytes());
    d.extend_from_slice(&[5, 5]);
    d.extend_from_slice(&0u16.to_le_bytes());
    d.extend_from_slice(&256u16.to_le_bytes());
    assert!(!pmv::read(&d).is_empty());
}

fn sew_data(indices: &[u16]) -> Vec<u8> {
    let mut d = vec![];
    d.extend_from_slice(&(indices.len() as u16).to_le_bytes());
    for i in indices {
        d.extend_from_slice(&i.to_le_bytes());
    }
    d.resize(0x1D78, 0);
    d
}

#[test]
fn test_read_sew_basic() {
    let mut d = sew_data(&[0]);
    d.extend_from_slice(&[10, 10]);
    let p = sew::read(&d).expect("Failed to read SEW");
    assert!(!p.ops.is_empty());
    assert_eq!(p.palette_indices.len(), 1);
}

#[test]
fn test_sew_control_sequences() {
    let mut d = sew_data(&[0, 1]);
    d.extend_from_slice(&[5, 5]);
    d.extend_from_slice(&[0x80, 0x01, 0, 0]);
    d.extend_from_slice(&[10, 10]);
    let p = sew::read(&d).expect("Failed to read SEW");
    assert!(!p.ops.is_empty());
    assert_eq!(p.palette_indices.len(), 2);
}

#[test]
fn test_sew_move_command() {
    let mut d = sew_data(&[0]);
    d.extend_from_slice(&[0x80, 0x04]);
    d.extend_from_slice(&[20, 20]);
    d.extend_from_slice(&[5, 5]);
    let p = sew::read(&d).expect("Failed to read SEW");
    assert!(!p.ops.is_empty());
}

#[test]
fn sew_palette_index_wraps() {
    let d = sew_data(&[80]);
    let p = sew::read(&d).unwrap();
    assert_eq!(p.palette_indices, vec![1]);
}

#[test]
fn test_read_spx_basic() {
    let mut d = vec![0u8; 0x11E];
    d.extend_from_slice(&[0, 0, 0, 10, 0, 20, 2, 0, 0]);
    assert!(!spx::read(&d).is_empty());
}

#[test]
fn test_spx_negative_coords() {
    let mut d = vec![0u8; 0x11E];
    d.extend_from_slice(&[0, 0]);
    d.extend_from_slice(&(-20i16).to_be_bytes());
    d.extend_from_slice(&(-10i16).to_be_bytes());
    d.extend_from_slice(&[(-3i8) as u8, 0, 0]);
    assert!(!spx::read(&d).is_empty());
}

#[test]
fn test_read_stc_basic() {
    let mut d = vec![0u8; 0x28];
    d.extend_from_slice(&[10, 10, 0x01]);
    d.extend_from_slice(&[5, 5, 0x00]);
    d.extend_from_slice(&[(-3i8) as u8, (-7i8) as u8, 0x01]);
    d.extend_from_slice(&[0, 0, 25]);
    assert!(!stc::read(&d).is_empty());
}

#[test]
fn test_stc_needle_change() {
    let mut d = vec![0u8; 0x28];
    d.extend_from_slice(&[0, 0, 2]);
    d.extend_from_slice(&[0, 0, 7]);
    d.extend_from_slice(&[10, 10, 0x01]);
    d.extend_from_slice(&[0, 0, 25]);
    assert!(!stc::read(&d).is_empty());
}

#[test]
fn shv_stitches_change_colour_after_count() {
    let d = vec![5, 5, 5, 5, 10, 10];
    let ops = shv::read_shv_stitches(&d, 0, &[2, 2]).unwrap();
    let s = stitches(&ops);
    assert_eq!(
        s,
        vec![
            (5, 5, STITCH),
            (10, 10, STITCH),
            (0, 0, COLOR_CHANGE),
            (20, 20, STITCH),
            (0, 0, END)
        ]
    );
}

// ---- COL ----

#[test]
fn test_read_col_basic() {
    let col_data = "3\r\n0,255,0,0\r\n1,0,255,0\r\n2,0,0,255\r\n";
    let t = col::read(col_data.as_bytes()).unwrap();
    assert_eq!(t.len(), 3);
    assert_eq!(t[0].red(), 255);
    assert_eq!(t[1].green(), 255);
    assert_eq!(t[2].blue(), 255);
    assert_eq!(t[0].catalog_number, None);
    assert_eq!(t[1].catalog_number.as_deref(), Some("1"));
}

#[test]
fn test_read_col_with_catalog() {
    let col_data = "2\r\n1001,255,0,0\r\n1002,0,0,255\r\n";
    let t = col::read(col_data.as_bytes()).unwrap();
    assert_eq!(t.len(), 2);
    assert_eq!(t[0].catalog_number.as_deref(), Some("1001"));
    assert_eq!(t[1].catalog_number.as_deref(), Some("1002"));
}

#[test]
fn test_read_col_empty() {
    let t = col::read("0\r\n".as_bytes()).unwrap();
    assert_eq!(t.len(), 0);
}

#[test]
fn col_errors() {
    // no count line
    assert!(matches!(col::read(b""), Err(Error::Parse(_))));
    // count not a number
    assert!(col::read(b"three\n").is_err());
    // above the limit
    assert!(col::read(b"10001\n").is_err());
    // a missing thread line
    assert!(col::read(b"2\n1,2,3,4\n").is_err());
    // too few fields, or a component above 255
    assert!(col::read(b"1\n1,2,3\n").is_err());
    assert!(col::read(b"1\n1,2,3,256\n").is_err());
}

#[test]
fn col_last_line_without_newline_and_spaces() {
    let t = col::read(b" 1 \n A7 , 1 ,+2, 3").unwrap();
    assert_eq!(t.len(), 1);
    assert_eq!((t[0].red(), t[0].green(), t[0].blue()), (1, 2, 3));
    assert_eq!(t[0].catalog_number.as_deref(), Some("A7"));
}

// ---- SHV ----

fn shv_header(name: &[u8], colors: &[(u32, u8)]) -> Vec<u8> {
    let mut d = vec![0u8; 0x56];
    d.push(name.len() as u8);
    d.extend_from_slice(name);
    d.push(10);
    d.push(10);
    d.extend_from_slice(&[0u8; 54]);
    d.push(colors.len() as u8);
    d.extend_from_slice(&[0u8; 18]);
    for (count, code) in colors {
        d.extend_from_slice(&count.to_be_bytes());
        d.push(*code);
        d.extend_from_slice(&[0u8; 9]);
    }
    d
}

#[test]
fn test_read_shv_basic() {
    let mut d = shv_header(b"Test", &[(10, 0)]);
    d.push(5);
    d.push(5);
    let p = shv::read(&d).expect("Failed to read SHV");
    assert!(!p.ops.is_empty());
    assert_eq!(p.palette_indices.len(), 1);
    assert_eq!(p.name.as_deref(), Some("Test"));
}

#[test]
fn test_shv_long_jump() {
    let mut d = shv_header(b"", &[(20, 0)]);
    d.extend_from_slice(&[0x80, 0x01, 0, 100, 0, 50]);
    d.extend_from_slice(&[5, 5]);
    let p = shv::read(&d).expect("Failed to read SHV");
    assert!(!p.ops.is_empty());
}

#[test]
fn test_shv_color_change() {
    let mut d = shv_header(b"", &[(2, 0), (2, 1)]);
    d.extend_from_slice(&[5, 5, 5, 5, 10, 10]);
    let p = shv::read(&d).expect("Failed to read SHV");
    assert!(!p.ops.is_empty());
    assert_eq!(p.palette_indices, vec![0, 1]);
}

#[test]
fn shv_palette_code_wraps_and_header_errors() {
    let d = shv_header(b"", &[(2, 44)]);
    assert_eq!(shv::read(&d).unwrap().palette_indices, vec![1]);
    assert!(shv::read(&[0u8; 0x50]).is_err());
    let mut cut = shv_header(b"", &[(2, 0)]);
    cut.truncate(cut.len() - 10);
    assert!(shv::read(&cut).is_err());
}

#[test]
fn test_hus_basic_structure() {
    let mut data = vec![
        0, 0, 0, 0, 5, 0, 0, 0, 2, 0, 0, 0, 0, 0, 0, 0, 0, 0, 0, 0, 50, 0, 0, 0, 60, 0, 0, 0, 70,
        0, 0, 0, 0, 0, 0, 0, 0, 0, 0, 0, 0, 0, 0, 0, 1, 0,
    ];
    data.resize(80, 0);
    let h = hus::read_hus_header(&data).unwrap();
    assert_eq!(h.palette_indices.len(), 2);
}

#[test]
fn csv_whole_file_records_in_order() {
    let data = b"# comment\r\n*,0,JUMP,1,2\n\n@,name,Leaf\n$,0,#00FF00\n*,1,END";
    let recs = csv::parse_csv(data).unwrap();
    assert_eq!(recs.len(), 6);
    assert!(matches!(recs[0], CsvRecord::Skip));
    assert!(matches!(recs[1], CsvRecord::Stitch { command: JUMP, .. }));
    assert!(matches!(recs[2], CsvRecord::Skip));
    assert!(matches!(&recs[3], CsvRecord::Metadata { key, value } if key == "name" && value == "Leaf"));
    assert!(matches!(&recs[4], CsvRecord::Thread(t) if t.green() == 255));
    assert!(matches!(recs[5], CsvRecord::Command { command: END }));
}

#[test]
fn csv_whole_file_errors() {
    assert!(csv::parse_csv(b"$,0,notacolour\n").is_err());
    assert!(csv::parse_csv(b"*,0,STITCH,1,2\n\xFF\xFE\n").is_err());
    assert_eq!(csv::parse_csv(b"").unwrap().len(), 0);
}

fn jef_data(count: i32, indices: &[i32], stitches: &[u8]) -> Vec<u8> {
    let mut d = vec![0u8; 116];
    let offset = 116 + 4 * indices.len() as i32;
    d[0..4].copy_from_slice(&offset.to_le_bytes());
    d[24..28].copy_from_slice(&count.to_le_bytes());
    for i in indices {
        d.extend_from_slice(&i.to_le_bytes());
    }
    d.extend_from_slice(stitches);
    d
}

#[test]
fn jef_read_header_and_stitches() {
    let d = jef_data(2, &[0, -3], &[10, 20, 0x80, 0x10]);
    let p = jef::read(&d).unwrap();
    assert_eq!(p.color_indices, vec![0, 3]);
    assert!(!p.ops.is_empty());
    assert_eq!(stitches(&p.ops).last().unwrap().2, END);
}

#[test]
fn jef_negative_colour_count_is_error() {
    let d = jef_data(-1, &[], &[]);
    assert!(jef::read(&d).is_err());
    assert!(jef::read_header(&d).is_err());
    assert!(jef::read(&[0u8; 50]).is_err());
}

// ---- G-code lines ----

/// The words of a G-code line with their numbers read, as the reader uses them.
fn gcode_values(line: &str) -> std::collections::HashMap<String, f64> {
    let mut map = std::collections::HashMap::new();
    let (words, closed) = gcode::gcode_words(line);
    if closed {
        map.insert("comment".to_string(), 0.0);
    }
    for (code, value) in words {
        if let Ok(v) = value.parse::<f64>() {
            map.insert(code.to_string(), v);
        }
    }
    map
}

#[test]
fn test_parse_gcode_line() {
    let line = "G00 X10.5 Y20.3";
    let parsed = gcode_values(line);

    assert_eq!(parsed.get("g"), Some(&0.0));
    assert_eq!(parsed.get("x"), Some(&10.5));
    assert_eq!(parsed.get("y"), Some(&20.3));
}

#[test]
fn test_gcode_words_in_order() {
    let (w, closed) = gcode::gcode_words("G1 x-2.5Y+3 (move) Z9 ; tail X7");
    let got: Vec<(char, &str)> = w.iter().map(|(c, v)| (*c, v.as_str())).collect();
    assert_eq!(got, vec![('g', "1"), ('x', "-2.5"), ('y', "+3"), ('z', "9")]);
    assert!(closed);
}

#[test]
fn test_gcode_words_edge_cases() {
    // a letter without a number is replaced by the next letter
    let (w, _) = gcode::gcode_words("G X5");
    assert_eq!(w, vec![('x', "5".to_string())]);
    // white space after a letter alone keeps the letter
    let (w, _) = gcode::gcode_words("X 5");
    assert_eq!(w, vec![('x', "5".to_string())]);
    // digits before any letter stay collected for the next letter
    let (w, closed) = gcode::gcode_words("5X3");
    assert_eq!(w, vec![('x', "53".to_string())]);
    assert!(!closed);
    // an unclosed comment hides the rest of the line
    let (w, closed) = gcode::gcode_words("(note X1");
    assert!(w.is_empty());
    assert!(!closed);
}

#[test]
fn test_gcode_thread_marker() {
    assert!(gcode::gcode_thread_marker("(Thread #FF0000)"));
    assert!(gcode::gcode_thread_marker("; Thread 00FF00 red"));
    assert!(!gcode::gcode_thread_marker("(Thread red)"));
    assert!(!gcode::gcode_thread_marker("(color #FF0000)"));
    assert!(!gcode::gcode_thread_marker("G0 X1"));
}

#[test]
fn test_hus_palette_error_names_index() {
    let data = hus_header_bytes([0x5B, 0xAF, 0xC8, 0x00], 1, 1, 99);
    match hus::read_hus_header(&data) {
        Err(Error::Parse(m)) => assert_eq!(m, "Invalid thread palette index: 99 (max: 28)"),
        _ => panic!("expected a parse error"),
    }
}

// ---- readability checks ----

#[test]
fn test_overflow_deciders() {
    let mut d = vec![0u8; 0x100];
    d.extend_from_slice(&[0x80, 0, 0x7E, 1, 0, 0, 0x80]);
    assert!(!bro::is_bro_readable(&d));
    d[0x106] = 0x7F;
    assert!(bro::is_bro_readable(&d));
    assert_eq!(bro::read(&d).len() > 0, true);

    let mut d = vec![0u8; 0x2000];
    d.extend_from_slice(&[1, 0x80, 0]);
    assert!(!inb::is_inb_readable(&d));
    d[0x2001] = 2;
    assert!(inb::is_inb_readable(&d));

    let mut d = vec![0u8; 0x28];
    d.extend_from_slice(&[1, 0x80, 1]);
    assert!(!stc::is_stc_readable(&d));
    d[0x29] = 3;
    assert!(stc::is_stc_readable(&d));

    assert!(!dsb::is_b_readable(&[0, 0x80, 0], 0));
    assert!(dsb::is_b_readable(&[0, 0x7F, 0], 0));
    assert!(dsb::is_b_readable(&[0, 0x80, 0], 1));
}

#[test]
fn test_colour_from_hash() {
    assert_eq!(color_from_hash(0x1234_5678_9ABC_DEF0), 0xBC_DEF0);
    assert_eq!(color_from_hash(u64::MAX), 0xFF_FFFF);
}
