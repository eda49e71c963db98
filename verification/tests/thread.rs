use butabuti::thread::{
    color_distance, color_distance_components, color_rgb, parse_color_hex, parse_color_string,
    EmbThread,
};

#[test]
fn test_color_rgb() {
    assert_eq!(color_rgb(255, 0, 0), 0xFF0000);
    assert_eq!(color_rgb(0, 255, 0), 0x00FF00);
    assert_eq!(color_rgb(0, 0, 255), 0x0000FF);
}

#[test]
fn test_parse_hex() {
    assert_eq!(parse_color_hex("#FF0000").unwrap(), 0xFF0000);
    assert_eq!(parse_color_hex("FF0000").unwrap(), 0xFF0000);
    assert_eq!(parse_color_hex("#F00").unwrap(), 0xFF0000);
    assert_eq!(parse_color_hex("F00").unwrap(), 0xFF0000);
}

#[test]
fn test_named_colors() {
    assert_eq!(parse_color_string("red").unwrap(), 0xFF0000);
    assert_eq!(parse_color_string("green").unwrap(), 0x008000);
    assert_eq!(parse_color_string("blue").unwrap(), 0x0000FF);
}

#[test]
fn test_thread_creation() {
    let thread = EmbThread::new(0xFF0000);
    assert_eq!(thread.color, 0xFF0000);
    assert_eq!(thread.red(), 255);
    assert_eq!(thread.green(), 0);
    assert_eq!(thread.blue(), 0);
}

#[test]
fn test_thread_from_string() {
    let thread = EmbThread::from_string("red").unwrap();
    assert_eq!(thread.color, 0xFF0000);
}

#[test]
fn test_color_distance() {
    let d1 = color_distance(0xFF0000, 0xFF0000);
    assert_eq!(d1, 0);

    let d2 = color_distance(0xFF0000, 0x00FF00);
    assert!(d2 > 0);
}

#[test]
fn test_thread_display_basic() {
    let thread = EmbThread::new(0xFF0000);
    assert_eq!(thread.to_display_string(), "Thread(#ff0000)");
}

#[test]
fn test_thread_display_with_description() {
    let thread = EmbThread::new(0xFF0000).with_description("Red Thread");
    assert_eq!(thread.to_display_string(), "Thread(#ff0000) - Red Thread");
}

#[test]
fn test_thread_display_with_brand() {
    let thread = EmbThread::new(0x0000FF).with_brand("Isacord");
    assert_eq!(thread.to_display_string(), "Thread(#0000ff) [Isacord]");
}

#[test]
fn test_thread_display_with_catalog() {
    let thread = EmbThread::new(0x00FF00).with_catalog_number("1234");
    assert_eq!(thread.to_display_string(), "Thread(#00ff00) [#1234]");
}

#[test]
fn test_thread_display_with_brand_and_catalog() {
    let thread = EmbThread::new(0xFFFF00)
        .with_brand("Madeira")
        .with_catalog_number("5678");
    assert_eq!(thread.to_display_string(), "Thread(#ffff00) [Madeira #5678]");
}

#[test]
fn test_thread_display_full() {
    let thread = EmbThread::new(0xFF00FF)
        .with_description("Magenta")
        .with_brand("Sulky")
        .with_catalog_number("1109");
    assert_eq!(
        thread.to_display_string(),
        "Thread(#ff00ff) - Magenta [Sulky #1109]"
    );
}

#[test]
fn test_thread_display_black() {
    let thread = EmbThread::new(0x000000).with_description("Black");
    assert_eq!(thread.to_display_string(), "Thread(#000000) - Black");
}

#[test]
fn test_thread_display_white() {
    let thread = EmbThread::new(0xFFFFFF).with_description("White");
    assert_eq!(thread.to_display_string(), "Thread(#ffffff) - White");
}

#[test]
fn test_thread_with_attribute() {
    let thread = EmbThread::new(0xFF0000)
        .with_attribute("type", "polyester")
        .with_attribute("sheen", "high");

    assert_eq!(thread.get_attribute("type"), Some("polyester"));
    assert_eq!(thread.get_attribute("sheen"), Some("high"));
    assert_eq!(thread.get_attribute("nonexistent"), None);
}

#[test]
fn test_thread_set_attribute() {
    let mut thread = EmbThread::new(0xFF0000);
    thread.set_attribute("type", "cotton");
    thread.set_attribute("weight", "40wt");

    assert_eq!(thread.get_attribute("type"), Some("cotton"));
    assert_eq!(thread.get_attribute("weight"), Some("40wt"));
}

#[test]
fn test_thread_remove_attribute() {
    let mut thread = EmbThread::new(0xFF0000).with_attribute("type", "rayon");

    assert!(thread.has_attribute("type"));
    assert_eq!(thread.remove_attribute("type"), Some("rayon".to_string()));
    assert!(!thread.has_attribute("type"));
    assert_eq!(thread.remove_attribute("type"), None);
}

#[test]
fn test_thread_attribute_keys() {
    let thread = EmbThread::new(0xFF0000)
        .with_attribute("type", "polyester")
        .with_attribute("sheen", "high")
        .with_attribute("thickness", "0.25mm");

    let keys: Vec<String> = thread.attribute_keys();
    assert_eq!(keys.len(), 3);
    assert!(keys.contains(&"type".to_string()));
    assert!(keys.contains(&"sheen".to_string()));
    assert!(keys.contains(&"thickness".to_string()));
}

#[test]
fn test_thread_with_weight() {
    let thread = EmbThread::new(0xFF0000).with_weight("40wt");
    assert_eq!(thread.weight, Some("40wt".to_string()));
}

#[test]
fn test_thread_attributes_empty_by_default() {
    let thread = EmbThread::new(0xFF0000);
    assert_eq!(thread.attributes.len(), 0);
    assert!(!thread.has_attribute("any_key"));
}

#[test]
fn test_find_nearest_in_palette() {
    let my_thread = EmbThread::new(0xFF0055);
    let palette = vec![
        EmbThread::new(0xFF0000).with_description("Red"),
        EmbThread::new(0x00FF00).with_description("Green"),
        EmbThread::new(0x0000FF).with_description("Blue"),
    ];

    let nearest = my_thread.find_nearest_in_palette(&palette);
    assert_eq!(nearest, Some(0));
}

#[test]
fn test_find_nearest_perfect_match() {
    let my_thread = EmbThread::new(0x00FF00);
    let palette = vec![
        EmbThread::new(0xFF0000).with_description("Red"),
        EmbThread::new(0x00FF00).with_description("Green"),
        EmbThread::new(0x0000FF).with_description("Blue"),
    ];

    let nearest = my_thread.find_nearest_in_palette(&palette);
    assert_eq!(nearest, Some(1));
}

#[test]
fn test_find_nearest_empty_palette() {
    let my_thread = EmbThread::new(0xFF0000);
    let palette: Vec<EmbThread> = vec![];

    let nearest = my_thread.find_nearest_in_palette(&palette);
    assert_eq!(nearest, None);
}

#[test]
fn test_find_nearest_within_threshold() {
    let my_thread = EmbThread::new(0xFF0055);
    let palette = vec![
        EmbThread::new(0xFF0000).with_description("Red"),
        EmbThread::new(0x00FF00).with_description("Green"),
    ];

    assert!(my_thread
        .find_nearest_within_threshold(&palette, 100000)
        .is_some());

    assert!(my_thread
        .find_nearest_within_threshold(&palette, 10)
        .is_none());
}

#[test]
fn test_find_nearest_within_threshold_perfect_match() {
    let my_thread = EmbThread::new(0xFF0000);
    let palette = vec![EmbThread::new(0xFF0000).with_description("Red")];

    assert_eq!(my_thread.find_nearest_within_threshold(&palette, 0), Some(0));
}

#[test]
fn test_find_nearest_within_threshold_empty_palette() {
    let my_thread = EmbThread::new(0xFF0000);
    let palette: Vec<EmbThread> = vec![];

    assert_eq!(my_thread.find_nearest_within_threshold(&palette, 1000), None);
}

#[test]
fn test_thread_metadata_combination() {
    let thread = EmbThread::new(0xFF0000)
        .with_description("Cardinal Red")
        .with_brand("Madeira")
        .with_catalog_number("1147")
        .with_weight("40wt")
        .with_attribute("type", "polyester")
        .with_attribute("sheen", "trilobal");

    assert_eq!(thread.description, Some("Cardinal Red".to_string()));
    assert_eq!(thread.brand, Some("Madeira".to_string()));
    assert_eq!(thread.catalog_number, Some("1147".to_string()));
    assert_eq!(thread.weight, Some("40wt".to_string()));
    assert_eq!(thread.get_attribute("type"), Some("polyester"));
    assert_eq!(thread.get_attribute("sheen"), Some("trilobal"));
}

#[test]
fn redmean_distance_exact_value() {
    // red difference 255 with red mean 127: (512 + 127) * 255 * 255 / 256
    assert_eq!(color_distance_components(255, 0, 0, 0, 0, 0), 162_308);
    assert_eq!(color_distance(0xFF0000, 0x000000), 162_308);
    assert_eq!(color_distance(0x000000, 0xFF0000), color_distance(0xFF0000, 0x000000));
}

#[test]
fn hex_colors_of_other_lengths() {
    assert_eq!(parse_color_hex("#FF000080").unwrap(), 0xFF0000);
    assert_eq!(parse_color_hex("##abc").unwrap(), 0xAABBCC);
    assert!(parse_color_hex("#12345").is_err());
    assert!(parse_color_hex("#GG0000").is_err());
}

#[test]
fn named_colors_ignore_case() {
    assert_eq!(parse_color_string("DarkGreen").unwrap(), 0x006400);
    assert!(parse_color_string("not a colour").is_err());
    assert!(parse_color_string("random").is_ok());
}

#[test]
fn hex_color_round_trip() {
    let mut t = EmbThread::new(0x123456);
    assert_eq!(t.hex_color(), "#123456");
    t.set_hex_color("#abcdef").unwrap();
    assert_eq!(t.color, 0xABCDEF);
    assert_eq!(t.opaque_color(), 0xFFABCDEF);
}

#[test]
fn threads_equal_by_colour() {
    let a = EmbThread::new(0x10).with_description("a");
    let b = EmbThread::new(0x10).with_description("b");
    assert!(a == b);
    assert!(a != EmbThread::new(0x11));
}
