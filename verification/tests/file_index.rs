use wzmapeditor::file_index::{is_indexed_extension, lookup_in_index, FileIndex};

#[test]
fn indexed_extensions_ignore_ascii_case() {
    assert!(is_indexed_extension("pie"));
    assert!(is_indexed_extension("PIE"));
    assert!(is_indexed_extension("Png"));
    assert!(is_indexed_extension("KTX2"));
    assert!(!is_indexed_extension("jpg"));
    assert!(!is_indexed_extension("pies"));
    assert!(!is_indexed_extension(""));
}

#[test]
fn files_are_found_in_any_case() {
    let mut index = FileIndex::new();
    index.add_file("Body1.PIE", "PIE", "base/components/bodies/Body1.PIE");
    assert_eq!(index.get("Body1.PIE").map(String::as_str), Some("base/components/bodies/Body1.PIE"));
    assert_eq!(index.get("body1.pie").map(String::as_str), Some("base/components/bodies/Body1.PIE"));
    assert!(index.get("BODY1.PIE").is_none());
    assert_eq!(
        lookup_in_index(&index, "BODY1.PIE").map(String::as_str),
        Some("base/components/bodies/Body1.PIE")
    );
    assert!(lookup_in_index(&index, "body2.pie").is_none());
}

#[test]
fn other_files_are_left_out() {
    let mut index = FileIndex::new();
    index.add_file("readme.txt", "txt", "base/readme.txt");
    assert!(lookup_in_index(&index, "readme.txt").is_none());
}

#[test]
fn the_first_file_under_a_name_wins() {
    let mut index = FileIndex::new();
    index.add_file("page-1.png", "png", "base/texpages/page-1.png");
    index.add_file("page-1.png", "png", "mp/texpages/page-1.png");
    index.add_file("PAGE-1.png", "png", "mp/texpages/PAGE-1.png");
    assert_eq!(lookup_in_index(&index, "page-1.png").map(String::as_str), Some("base/texpages/page-1.png"));
    assert_eq!(lookup_in_index(&index, "PAGE-1.png").map(String::as_str), Some("mp/texpages/PAGE-1.png"));
    assert_eq!(lookup_in_index(&index, "Page-1.PNG").map(String::as_str), Some("base/texpages/page-1.png"));
}
