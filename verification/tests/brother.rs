use butabuti::constants::{COLOR_CHANGE, STITCH};
use butabuti::ops::PatternOp;
use butabuti::readers::pec::{self, ThreadSource};
use butabuti::readers::{pes, phb, phc};

/// A PEC section: label, no graphics, the colour bytes, and a stitch block
/// of one stitch (10, 10), a colour change and one stitch (1, -1).
fn pec_section(label: &[u8], colors: &[u8]) -> Vec<u8> {
    let mut s = vec![0u8; 0x20D];
    s[0..3].copy_from_slice(b"LA:");
    s[3..3 + label.len()].copy_from_slice(label);
    for b in s[3 + label.len()..19].iter_mut() {
        *b = b' ';
    }
    s[48] = (colors.len() - 1) as u8;
    s[49..49 + colors.len()].copy_from_slice(colors);
    s.extend_from_slice(&[0x0A, 0x0A, 0xFE, 0xB0, 0x01, 0x01, 0x7F, 0xFF, 0x00]);
    s
}

fn pes_string(out: &mut Vec<u8>, s: &str) {
    out.push(s.len() as u8);
    out.extend_from_slice(s.as_bytes());
}

#[test]
fn test_pes_version_strings() {
    let versions = vec![
        "#PES0001", "#PES0020", "#PES0022", "#PES0030", "#PES0040", "#PES0050", "#PES0055",
        "#PES0056", "#PES0060", "#PES0070", "#PES0080", "#PES0090", "#PES0100",
    ];
    for v in versions {
        assert_eq!(v.len(), 8);
    }
}

#[test]
fn pes_version_one_reads_pec_section() {
    let mut d = b"#PES0001".to_vec();
    d.extend_from_slice(&16i32.to_le_bytes());
    d.extend_from_slice(&[0u8; 4]);
    d.extend(pec_section(b"Heart", &[5, 7]));
    let p = pes::read(&d).unwrap();
    assert_eq!(p.metadata, vec![("version".to_string(), "1".to_string())]);
    assert!(p.chart.is_empty());
    assert_eq!(p.pec.label.as_deref(), Some("Heart"));
    assert_eq!(p.pec.threads, vec![ThreadSource::Palette(5), ThreadSource::Palette(7)]);
    assert_eq!(
        p.pec.ops,
        vec![
            PatternOp::Relative { dx: 10, dy: 10, command: STITCH },
            PatternOp::Relative { dx: 0, dy: 0, command: COLOR_CHANGE },
            PatternOp::Relative { dx: 1, dy: -1, command: STITCH },
        ]
    );
}

#[test]
fn pes_version_six_reads_texts_and_chart() {
    let mut body = vec![0u8; 4];
    pes_string(&mut body, "Rose");
    pes_string(&mut body, "");
    pes_string(&mut body, "Ann");
    body.push(0);
    body.push(0);
    body.extend_from_slice(&[0u8; 36]);
    pes_string(&mut body, "rose.png");
    body.extend_from_slice(&[0u8; 24]);
    body.extend_from_slice(&[0, 0, 0, 0, 0, 0]);
    body.extend_from_slice(&1u16.to_le_bytes());
    pes_string(&mut body, "900");
    body.extend_from_slice(&[0xFF, 0x80, 0x00]);
    body.extend_from_slice(&[0u8; 5]);
    pes_string(&mut body, "Orange");
    pes_string(&mut body, "Brand");
    body.push(0);
    let pos = 12 + body.len();
    let mut d = b"#PES0060".to_vec();
    d.extend_from_slice(&(pos as i32).to_le_bytes());
    d.extend(body);
    d.extend(pec_section(b"", &[0]));
    let p = pes::read(&d).unwrap();
    assert_eq!(
        p.metadata,
        vec![
            ("version".to_string(), "6".to_string()),
            ("name".to_string(), "Rose".to_string()),
            ("author".to_string(), "Ann".to_string()),
            ("image_file".to_string(), "rose.png".to_string()),
        ]
    );
    assert_eq!(p.chart.len(), 1);
    let t = &p.chart[0];
    assert_eq!((t.red(), t.green(), t.blue()), (0xFF, 0x80, 0x00));
    assert_eq!(t.catalog_number.as_deref(), Some("900"));
    assert_eq!(t.description.as_deref(), Some("Orange"));
    assert_eq!(t.brand.as_deref(), Some("Brand"));
    assert_eq!(t.chart, None);
    assert_eq!(p.pec.label, None);
    assert_eq!(p.pec.threads, vec![ThreadSource::Chart(0)]);
    assert_eq!(p.pec.chart_used, 1);
}

#[test]
fn pes_standalone_pec() {
    let mut d = b"#PEC0001".to_vec();
    d.extend(pec_section(b"Leaf", &[1]));
    let p = pes::read(&d).unwrap();
    assert!(p.metadata.is_empty());
    assert_eq!(p.pec.label.as_deref(), Some("Leaf"));
    assert_eq!(pec::read(&d).unwrap().ops, p.pec.ops);
}

#[test]
fn pes_errors() {
    // too small
    assert!(pes::read(b"#PES").is_err());
    // wrong magic
    assert!(pes::read(b"ABCDEFGHIJKLMNOP").is_err());
    // PEC position out of range
    let mut d = b"#PES0001".to_vec();
    d.extend_from_slice(&(-1i32).to_le_bytes());
    assert!(pes::read(&d).is_err());
    let mut d = b"#PES0001".to_vec();
    d.extend_from_slice(&200_000_000i32.to_le_bytes());
    assert!(pes::read(&d).is_err());
    // PEC section missing
    let mut d = b"#PES0001".to_vec();
    d.extend_from_slice(&12i32.to_le_bytes());
    assert!(pes::read(&d).is_err());
}

#[test]
fn pes_unknown_version_has_no_metadata() {
    let mut d = b"#PES0099".to_vec();
    d.extend_from_slice(&12i32.to_le_bytes());
    d.extend(pec_section(b"X", &[2]));
    let p = pes::read(&d).unwrap();
    assert!(p.metadata.is_empty());
}

#[test]
fn test_read_phb_basic() {
    let mut phb_data = vec![0u8; 0x71];
    phb_data.extend_from_slice(&1u16.to_le_bytes());
    phb_data.push(0);
    while phb_data.len() < 0x100 {
        phb_data.push(0);
    }
    let p = phb::read(&phb_data).unwrap();
    // the PEC data cannot be read, but the colour is there
    assert!(p.pec.is_err());
    assert_eq!(p.palette_indices.len(), 1);
}

#[test]
fn phb_reads_embedded_pec() {
    let mut d = vec![0u8; 0x100];
    d[0x71] = 1;
    d[0x73] = 70; // wraps to 6
    // 0x52 + 0x2E = 0x80: length 0x0E there, so 0x80 + 0x0E + 2 = 0x90
    d[0x54] = 0x2E;
    d[0x80] = 0x0E;
    // length 0x10 at 0x90: 0xA0; colour count byte at 0xA0 + 14 = 0xAE
    d[0x90] = 0x10;
    d[0xAE] = 2;
    // PEC file at 0xA0 + 15 + 2 + 0x15 = 0xC6
    let p = 0xC6;
    d.truncate(p);
    d.extend_from_slice(b"#PEC0001");
    d.extend(pec_section(b"Bee", &[4]));
    let r = phb::read(&d).unwrap();
    assert_eq!(r.palette_indices, vec![6]);
    let s = r.pec.unwrap();
    assert_eq!(s.label.as_deref(), Some("Bee"));
    assert_eq!(s.ops.len(), 3);
}

#[test]
fn phb_cut_colours_is_error() {
    let mut d = vec![0u8; 0x71];
    d.extend_from_slice(&5u16.to_le_bytes());
    d.push(1);
    assert!(phb::read(&d).is_err());
}

#[test]
fn test_read_phc_basic() {
    let mut phc_data = vec![0u8; 0x4A];
    phc_data.push(10);
    phc_data.push(0);
    phc_data.push(8);
    phc_data.extend_from_slice(&1u16.to_le_bytes());
    phc_data.push(0);
    while phc_data.len() < 0x100 {
        phc_data.push(0);
    }
    let p = phc::read(&phc_data).unwrap();
    assert_eq!(p.palette_indices.len(), 1);
    assert!(matches!(p.pec, Some(Err(_))));
}

#[test]
fn phc_cut_colour_list_keeps_colours() {
    let mut d = vec![0u8; 0x4D];
    d.extend_from_slice(&4u16.to_le_bytes());
    d.extend_from_slice(&[1, 66]);
    let p = phc::read(&d).unwrap();
    assert_eq!(p.palette_indices, vec![1, 2]);
    assert!(p.pec.is_none());
}

#[test]
fn phc_short_header_is_error() {
    assert!(phc::read(&[0u8; 0x40]).is_err());
}

#[test]
fn test_phc_readability() {
    let mut d = vec![0u8; 0x4F];
    assert!(phc::is_phc_readable(&d));
    d[0x30] = 0xFF;
    d[0x31] = 0xFF;
    d[0x2B] = 1;
    assert!(!phc::is_phc_readable(&d));
}
