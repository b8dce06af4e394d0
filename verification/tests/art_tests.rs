use tama::art::{AsciiArtSheet, ImageConverter};

#[test]
fn test_dots_to_braille_empty() {
    let dots = [false; 8];
    let result = ImageConverter::dots_to_braille(dots);
    assert_eq!(result, '\u{2800}');
}

#[test]
fn test_dots_to_braille_full() {
    let dots = [true; 8];
    let result = ImageConverter::dots_to_braille(dots);
    assert_eq!(result, '\u{28ff}');
}

#[test]
fn test_dots_to_braille_single_dots() {
    // Weights follow the standard braille dot numbering.
    assert_eq!(ImageConverter::dots_to_braille([true, false, false, false, false, false, false, false]), '\u{2801}');
    assert_eq!(ImageConverter::dots_to_braille([false, true, false, false, false, false, false, false]), '\u{2808}');
    assert_eq!(ImageConverter::dots_to_braille([false, false, true, false, false, false, false, false]), '\u{2802}');
    assert_eq!(ImageConverter::dots_to_braille([false, false, false, false, false, false, true, false]), '\u{2840}');
    assert_eq!(ImageConverter::dots_to_braille([false, false, false, false, false, false, false, true]), '\u{2880}');
}

#[test]
fn test_ascii_art_sheet_creation() {
    let sheet = AsciiArtSheet::new(10, 5);
    assert_eq!(sheet.width, 10);
    assert_eq!(sheet.height, 5);
    assert_eq!(sheet.frame_count(), 0);
}

#[test]
fn test_add_frame() {
    let mut sheet = AsciiArtSheet::new(10, 5);
    sheet.add_frame("test frame".to_string());
    assert_eq!(sheet.frame_count(), 1);
}

#[test]
fn test_to_string() {
    let mut sheet = AsciiArtSheet::new(5, 3);
    sheet.add_frame("\u{2800}\u{2800}\u{2800}\u{2800}\u{2800}\n\u{2800}\u{2800}\u{2800}\u{2800}\u{2800}\n\u{2800}\u{2800}\u{2800}\u{2800}\u{2800}".to_string());
    let output = sheet.to_text();
    assert!(output.starts_with("Ascii Art Animation, 5x3\n"));
}

#[test]
fn test_from_string_with_fps() {
    let content = "Ascii Art Animation, 5x3, 10fps\n\u{2800}\u{2800}\u{2800}\u{2800}\u{2800}\n\u{2800}\u{2800}\u{2800}\u{2800}\u{2800}\n\u{2800}\u{2800}\u{2800}\u{2800}\u{2800}";
    let result = AsciiArtSheet::from_string(content);
    assert!(result.is_ok());

    let sheet = result.unwrap();
    assert_eq!(sheet.width, 5);
    assert_eq!(sheet.height, 3);
    assert_eq!(sheet.frames.len(), 1);
}

#[test]
fn test_from_string_without_fps() {
    let content = "Ascii Art Animation, 5x3\n\u{2800}\u{2800}\u{2800}\u{2800}\u{2800}\n\u{2800}\u{2800}\u{2800}\u{2800}\u{2800}\n\u{2800}\u{2800}\u{2800}\u{2800}\u{2800}";
    let result = AsciiArtSheet::from_string(content);
    assert!(result.is_ok());

    let sheet = result.unwrap();
    assert_eq!(sheet.width, 5);
    assert_eq!(sheet.height, 3);
    assert_eq!(sheet.frames.len(), 1);
}

#[test]
fn test_multi_frame_parsing() {
    let content = "Ascii Art Animation, 5x2\n\u{2801}\u{2801}\u{2801}\u{2801}\u{2801}\n\u{2801}\u{2801}\u{2801}\u{2801}\u{2801}\n\u{2802}\u{2802}\u{2802}\u{2802}\u{2802}\n\u{2802}\u{2802}\u{2802}\u{2802}\u{2802}\n\u{2803}\u{2803}\u{2803}\u{2803}\u{2803}\n\u{2803}\u{2803}\u{2803}\u{2803}\u{2803}";
    let result = AsciiArtSheet::from_string(content);
    assert!(result.is_ok());

    let sheet = result.unwrap();
    assert_eq!(sheet.width, 5);
    assert_eq!(sheet.height, 2);
    assert_eq!(sheet.frames.len(), 3, "Should have 3 frames");

    // Verify frame contents
    assert!(sheet.frames[0].contains("\u{2801}\u{2801}\u{2801}\u{2801}\u{2801}"), "Frame 1 should contain marker \u{2801}");
    assert!(sheet.frames[1].contains("\u{2802}\u{2802}\u{2802}\u{2802}\u{2802}"), "Frame 2 should contain marker \u{2802}");
    assert!(sheet.frames[2].contains("\u{2803}\u{2803}\u{2803}\u{2803}\u{2803}"), "Frame 3 should contain marker \u{2803}");
}

#[test]
fn test_content_editor_format_round_trip() {
    // Simulate the format the content editor produces:
    // 1. Header line
    // 2. Each frame followed by a newline
    // 3. When concatenated, no empty lines between frames

    let frame1 = "\u{2801}\u{2801}\u{2801}\u{2801}\u{2801}\n\u{2801}\u{2801}\u{2801}\u{2801}\u{2801}";
    let frame2 = "\u{2802}\u{2802}\u{2802}\u{2802}\u{2802}\n\u{2802}\u{2802}\u{2802}\u{2802}\u{2802}";
    let frame3 = "\u{2803}\u{2803}\u{2803}\u{2803}\u{2803}\n\u{2803}\u{2803}\u{2803}\u{2803}\u{2803}";

    let content_editor_format = format!(
        "Ascii Art Animation, 5x2, 10fps\n{}\n{}\n{}\n",
        frame1, frame2, frame3
    );

    let result = AsciiArtSheet::from_string(&content_editor_format);
    assert!(result.is_ok(), "Should parse content editor format");

    let sheet = result.unwrap();
    assert_eq!(sheet.frames.len(), 3, "Should preserve all 3 frames from content editor");
    assert!(sheet.frames[0].contains("\u{2801}"), "Frame 1 preserved");
    assert!(sheet.frames[1].contains("\u{2802}"), "Frame 2 preserved");
    assert!(sheet.frames[2].contains("\u{2803}"), "Frame 3 preserved");
}

#[test]
fn test_from_string_errors() {
    assert_eq!(AsciiArtSheet::from_string(""), Err("Empty file".to_string()));
    assert_eq!(AsciiArtSheet::from_string("nonsense"), Err("Invalid header".to_string()));
    assert_eq!(
        AsciiArtSheet::from_string("Ascii Art Animation, 5\nx"),
        Err("Invalid dimensions format, expected WIDTHxHEIGHT".to_string())
    );
    assert_eq!(
        AsciiArtSheet::from_string("Ascii Art Animation, axb\nx"),
        Err("Invalid width".to_string())
    );
    assert_eq!(
        AsciiArtSheet::from_string("Ascii Art Animation, 5xb\nx"),
        Err("Invalid height".to_string())
    );
}

#[test]
fn test_from_string_partial_frame_becomes_whole_sheet() {
    // Fewer lines than the declared height: everything after the header is
    // one frame and the height is what it holds.
    let content = "Ascii Art Animation, 5x9\n\u{2801}\u{2801}\n\u{2802}\u{2802}";
    let sheet = AsciiArtSheet::from_string(content).unwrap();
    assert_eq!(sheet.height, 2);
    assert_eq!(sheet.frames.len(), 1);
    assert_eq!(sheet.frames[0], "\u{2801}\u{2801}\n\u{2802}\u{2802}");
}

#[test]
fn test_calculate_center_crop_wide_image() {
    // 100x50 is wider than 8:5, so the crop keeps the height and centers
    // an 80-pixel-wide window.
    let (x, y, w, h) = ImageConverter::calculate_center_crop(100, 50);
    assert_eq!((x, y, w, h), (10, 0, 80, 50));
}

#[test]
fn test_calculate_center_crop_tall_image() {
    // 64x100 is taller than 8:5, so the crop keeps the width and centers
    // a 40-pixel-tall window.
    let (x, y, w, h) = ImageConverter::calculate_center_crop(64, 100);
    assert_eq!((x, y, w, h), (0, 30, 64, 40));
}

#[test]
fn test_calculate_center_crop_exact_ratio() {
    let (x, y, w, h) = ImageConverter::calculate_center_crop(64, 40);
    assert_eq!((x, y, w, h), (0, 0, 64, 40));
}

#[test]
fn test_braille_rows_from_pixels() {
    // A 4x4 image with only the top-left pixel dark: one cell shows dot 1,
    // the other stays blank.
    let mut pixels = vec![false; 16];
    pixels[0] = true;
    let rows = ImageConverter::braille_rows(&pixels, 4, 4, 2, 1);
    assert_eq!(rows.len(), 1);
    let row: Vec<char> = rows[0].chars().collect();
    assert_eq!(row.len(), 2);
    assert_eq!(row[0], '\u{2801}');
    assert_eq!(row[1], '\u{2800}');
}

#[test]
fn test_image_to_braille_string_layout() {
    let pixels = vec![true; 4 * 8];
    let s = ImageConverter::image_to_braille_string(&pixels, 4, 8, 2, 2);
    let lines: Vec<&str> = s.split('\n').collect();
    assert_eq!(lines.len(), 2);
    assert_eq!(lines[0].chars().count(), 2);
    assert_eq!(lines[1].chars().count(), 2);
    assert!(s.chars().all(|c| c == '\u{28ff}' || c == '\n'));
}

#[test]
fn test_fmt_decimal() {
    assert_eq!(tama::art::fmt_u64(0), "0");
    assert_eq!(tama::art::fmt_u64(7), "7");
    assert_eq!(tama::art::fmt_u64(120), "120");
    assert_eq!(tama::art::fmt_u64(48000), "48000");
}
