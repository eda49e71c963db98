use butabuti::constants::{
    command_name, COLOR_BREAK, COLOR_CHANGE, CUT, END, FAST, FRAME_EJECT, JUMP, MATRIX_RESET,
    MATRIX_ROTATE, MATRIX_ROTATE_ORIGIN, MATRIX_SCALE, MATRIX_SCALE_ORIGIN, MATRIX_TRANSLATE,
    NEEDLE_AT, NEEDLE_SET, SEQUENCE_BREAK, SEQUIN_EJECT, SEQUIN_MODE, SET_CHANGE_SEQUENCE, SEW_TO,
    SLOW, STITCH, STITCH_BREAK, STOP, TIE_OFF, TIE_ON, TRIM, NO_COMMAND,
};
use butabuti::thread::{color_distance, color_distance_components};
use butabuti::color_group::{ColorGroup, ThreadGrouping};
use butabuti::detector::{Format, FormatDetector};
use butabuti::readers::{csv, dst};
use butabuti::thread::{color_string_would_panic, parse_color_hex, parse_color_string, EmbThread};

#[test]
fn hex_text_reads_back_as_colour() {
    for color in [0u32, 0x123456, 0xFF8040, 0xFFFFFF, 0xAB00CD] {
        let t = EmbThread::new(color);
        let hex = t.hex_color();
        assert_eq!(parse_color_hex(&hex).unwrap(), color);
        assert_eq!(parse_color_string(&hex).unwrap(), color);
        let mut u = EmbThread::new(0);
        u.set_hex_color(&hex).unwrap();
        assert_eq!(u.color, color);
    }
    // a colour above 24 bits keeps only its low 24 bits
    let mut t = EmbThread::new(0);
    t.color = 0x7F12_3456;
    assert_eq!(parse_color_hex(&t.hex_color()).unwrap(), 0x12_3456);
}

#[test]
fn display_text_starts_with_hex_colour() {
    let t = EmbThread::new(0x00A0FF).with_description("Sky").with_brand("Acme");
    let s = t.to_display_string();
    assert!(s.starts_with("Thread(#00a0ff)"));
    assert_eq!(&s[7..14], t.hex_color());
}

#[test]
fn extension_detection_ignores_case() {
    for name in ["a.dst", "a.DST", "a.DsT", "dir/X.Pes", "b.JSON"] {
        let lower = name.to_lowercase();
        assert_eq!(
            FormatDetector::detect_from_extension(name).ok(),
            FormatDetector::detect_from_extension(&lower).ok()
        );
    }
    assert_eq!(FormatDetector::detect_from_extension("a.DST").unwrap(), Format::DST);
}

#[test]
fn assignment_leaves_no_thread_ungrouped() {
    let mut g = ThreadGrouping::with_default_group("Default");
    g.add_group(ColorGroup::new("Default"));
    g.add_group(ColorGroup::with_threads("Reds", vec![1, 4]));
    assert_eq!(g.ungrouped_threads(6), vec![0, 2, 3, 5]);
    assert_eq!(g.assign_to_default_group(6).unwrap(), 4);
    assert!(g.ungrouped_threads(6).is_empty());
    assert!(g.get_group("Reds").unwrap().contains_thread(4));
}

#[test]
fn colour_strings_that_would_panic() {
    let chars = |s: &str| s.chars().collect::<Vec<char>>();
    assert!(color_string_would_panic(&chars("#aaaaa€")));
    assert!(color_string_would_panic(&chars("#aé")));
    assert!(!color_string_would_panic(&chars("#aabbcc")));
    assert!(!color_string_would_panic(&chars("random")));
    assert!(!color_string_would_panic(&chars("red")));
}

#[test]
fn readability_checks() {
    // a thread line whose colour cuts a character
    let mut header = vec![b' '; 512];
    let line = "TC:#aaaaa€,Red\r".as_bytes();
    header[..line.len()].copy_from_slice(line);
    assert!(!dst::is_dst_readable(&header, 0));
    let mut ok = vec![b' '; 512];
    let line = b"TC:#ff0000,Red\r";
    ok[..line.len()].copy_from_slice(line);
    assert!(dst::is_dst_readable(&ok, 0));
    assert!(dst::is_dst_readable(&[0u8; 10], 0));

    assert!(csv::csv_line_would_panic("$,0,#aaaaa€"));
    assert!(csv::csv_line_would_panic("*,0,STITCH n4294967295"));
    assert!(!csv::csv_line_would_panic("*,0,STITCH n4"));
    assert!(!csv::is_csv_readable("*,0,STITCH\n$,0,#aé\n".as_bytes()));
    // an earlier refused line stops reading before the panicking one
    assert!(csv::is_csv_readable("$,0,nocolour\n$,0,#aé\n".as_bytes()));
    assert!(csv::is_csv_readable(b"@,name,x\n"));
}

#[test]
fn adding_then_removing_undoes() {
    let mut g = ColorGroup::with_threads("G", vec![1, 3]);
    assert!(g.add_thread(7));
    assert!(g.remove_thread(7));
    assert_eq!(g.thread_indices_sorted(), vec![1, 3]);

    let mut grouping = ThreadGrouping::new();
    grouping.add_group(ColorGroup::new("A"));
    let before = grouping.group_names();
    assert!(grouping.add_group(ColorGroup::new("B")).is_none());
    assert!(grouping.remove_group("B").is_some());
    assert_eq!(grouping.group_names(), before);

    let mut t = EmbThread::new(0x102030).with_attribute("sheen", "high");
    t.set_attribute("type", "rayon");
    assert_eq!(t.remove_attribute("type").as_deref(), Some("rayon"));
    assert_eq!(t.attribute_keys(), vec!["sheen".to_string()]);
}

#[test]
fn every_named_command_reads_back_from_csv() {
    let all = [
        NO_COMMAND, STITCH, JUMP, TRIM, CUT, STOP, END, COLOR_CHANGE, SEQUIN_MODE, SEQUIN_EJECT, NEEDLE_SET,
        SLOW, FAST, SET_CHANGE_SEQUENCE, SEW_TO, NEEDLE_AT, STITCH_BREAK, SEQUENCE_BREAK,
        COLOR_BREAK, TIE_ON, TIE_OFF, FRAME_EJECT, MATRIX_TRANSLATE, MATRIX_SCALE_ORIGIN,
        MATRIX_ROTATE_ORIGIN, MATRIX_RESET, MATRIX_SCALE, MATRIX_ROTATE,
    ];
    for c in all {
        assert_eq!(csv::parse_command(command_name(c)).unwrap(), c);
    }
}

#[test]
fn default_grouping_validates() {
    let g = ThreadGrouping::with_default_group("Default");
    assert!(g.validate().is_empty());
    let d = g.get_group("Default").unwrap();
    assert_eq!(d.display_order, 0);
    assert!(d.parent_group.is_none());
    assert!(d.visible);
    assert!(!d.locked);
}

#[test]
fn adding_a_thread_counts_once() {
    let mut g = ColorGroup::new("G");
    assert!(g.add_thread(0));
    assert_eq!(g.thread_count(), 1);
    assert!(!g.add_thread(0));
    assert_eq!(g.thread_count(), 1);
    assert!(g.remove_thread(0));
    assert_eq!(g.thread_count(), 0);
}

#[test]
fn add_and_remove_group_read_back() {
    let mut g = ThreadGrouping::new();
    assert!(g.add_group(ColorGroup::with_threads("A", vec![1])).is_none());
    assert!(g.add_group(ColorGroup::new("B")).is_none());
    let old = g.add_group(ColorGroup::with_threads("A", vec![2])).unwrap();
    assert!(old.contains_thread(1));
    assert_eq!(g.group_count(), 2);
    assert!(g.get_group("A").unwrap().contains_thread(2));
    let removed = g.remove_group("A").unwrap();
    assert!(removed.contains_thread(2));
    assert!(!g.has_group("A"));
    assert!(g.has_group("B"));
    assert_eq!(g.group_count(), 1);
    assert!(g.remove_group("A").is_none());
}

#[test]
fn sorted_groups_are_ordered_and_complete() {
    let mut g = ThreadGrouping::new();
    g.add_group(ColorGroup::new("C").with_display_order(3));
    g.add_group(ColorGroup::new("A").with_display_order(1));
    g.add_group(ColorGroup::new("B").with_display_order(2));
    g.add_group(ColorGroup::new("A2").with_display_order(1));
    let v = g.groups_sorted_by_order();
    let names: Vec<&str> = v.iter().map(|x| x.name.as_str()).collect();
    assert_eq!(names, vec!["A", "A2", "B", "C"]);
}

#[test]
fn groups_with_thread_listed_once() {
    let mut g = ThreadGrouping::new();
    g.add_group(ColorGroup::with_threads("G1", vec![5, 10]));
    g.add_group(ColorGroup::with_threads("G2", vec![5, 15]));
    let found = g.find_groups_with_thread(5);
    assert_eq!(found.len(), 2);
    assert_eq!(found[0].name, "G1");
    assert_eq!(found[1].name, "G2");
    assert_eq!(g.find_groups_with_thread(10).len(), 1);
    assert_eq!(g.find_groups_with_thread(99).len(), 0);
}

#[test]
fn hex_colours_fit_in_24_bits() {
    assert_eq!(parse_color_hex("#FFFFFFFF").unwrap(), 0xFFFFFF);
    assert_eq!(parse_color_hex("fff").unwrap(), 0xFFFFFF);
    assert_eq!(parse_color_hex("+FFFFF").unwrap(), 0xFFFFF);
    assert!(parse_color_hex("12345").is_err());
}

#[test]
fn component_distance_laws() {
    let d = color_distance_components(255, 0, 0, 0, 255, 255);
    assert_eq!(d, color_distance_components(0, 255, 255, 255, 0, 0));
    assert!(d <= 650_000);
    assert_eq!(d, color_distance(0xFF0000, 0x00FFFF));
    assert_eq!(color_distance_components(12, 34, 56, 12, 34, 56), 0);
    assert!(color_distance_components(12, 34, 56, 12, 34, 57) > 0);
    assert_eq!(color_distance_components(0, 0, 0, 0, 0, 255), 194_820);
}
