use tama::content::{parse_content, ParseError};

fn fpsf(m: i64) -> f64 {
    m as f64 / 1000000.0
}

#[test]
fn test_parse_valid_content() {
    let content = "--- MIDI ---\n8c4t 8e4t 8g4t\n8c5t 8g4t\n--- ART ---\nAscii Art Animation, 16x11\n\u{2800}\u{2800}\u{2800}\u{2800}\u{2800}\u{2800}\u{2800}\u{2800}\u{2800}\u{2800}\u{2800}\u{2800}\u{2800}\u{2800}\u{2800}\u{2800}\n\u{2800}\u{2800}\u{2800}\u{2800}\u{2800}\u{28a0}\u{283b}\u{2840}\u{2800}\u{28b0}\u{28a3}\u{2800}\u{2800}\u{2800}\u{2800}\u{2800}\n";

    let result = parse_content(content);
    assert!(result.is_ok());

    let parsed = result.unwrap();
    assert_eq!(parsed.midi_composition, "8c4t 8e4t 8g4t 8c5t 8g4t");
    assert!(parsed.art.contains("Ascii Art Animation"));
    assert_eq!(fpsf(parsed.fps_millionths), 10.0);
}

#[test]
fn test_parse_missing_midi_section() {
    let content = "--- ART ---\nAscii Art Animation, 16x11\n\u{2800}\u{2800}\u{2800}\u{2800}\n";

    let result = parse_content(content);
    assert!(matches!(result, Err(ParseError::MissingMidiSection)));
}

#[test]
fn test_parse_missing_art_section() {
    let content = "--- MIDI ---\n8c4t 8e4t\n";

    let result = parse_content(content);
    assert!(matches!(result, Err(ParseError::MissingArtSection)));
}

#[test]
fn test_parse_sections_in_wrong_order() {
    let content = "--- ART ---\nAscii Art Animation, 16x11\n--- MIDI ---\n8c4t 8e4t\n";

    let result = parse_content(content);
    assert!(matches!(result, Err(ParseError::InvalidFormat(_))));
}

#[test]
fn test_parse_empty_midi() {
    let content = "--- MIDI ---\n\n--- ART ---\nAscii Art Animation, 16x11\n\u{2800}\u{2800}\u{2800}\u{2800}\n";

    let result = parse_content(content);
    assert!(matches!(result, Err(ParseError::InvalidFormat(_))));
}

#[test]
fn test_parse_custom_fps() {
    let content = "--- MIDI ---\n8c4t 8e4t\n--- ART ---\nAscii Art Animation, 16x11, 5fps\n\u{2800}\u{2800}\u{2800}\u{2800}\n";

    let result = parse_content(content);
    assert!(result.is_ok());

    let parsed = result.unwrap();
    assert_eq!(fpsf(parsed.fps_millionths), 5.0);
}

#[test]
fn test_parse_default_fps() {
    let content = "--- MIDI ---\n8c4t 8e4t\n--- ART ---\nAscii Art Animation, 16x11\n\u{2800}\u{2800}\u{2800}\u{2800}\n";

    let result = parse_content(content);
    assert!(result.is_ok());

    let parsed = result.unwrap();
    assert_eq!(fpsf(parsed.fps_millionths), 10.0);
}

#[test]
fn test_parse_fps_with_trailing_characters() {
    let content = "--- MIDI ---\n8c4t 8e4t\n--- ART ---\nAscii Art Animation, 16x11, 2fps\u{2800}\u{2800}\u{2800}\n\u{2800}\u{2800}\u{2800}\u{2800}\n";

    let result = parse_content(content);
    assert!(result.is_ok());

    let parsed = result.unwrap();
    assert_eq!(fpsf(parsed.fps_millionths), 2.0);
}

#[test]
fn test_parse_fractional_fps() {
    let content = "--- MIDI ---\n4c\n--- ART ---\nAscii Art Animation, 4x2, 2.5fps\n\u{2800}\u{2800}\n";

    let parsed = parse_content(content).unwrap();
    assert_eq!(fpsf(parsed.fps_millionths), 2.5);
}

#[test]
fn test_parse_missing_art_header() {
    let content = "--- MIDI ---\n4c\n--- ART ---\nnot a header\n";
    assert!(matches!(parse_content(content), Err(ParseError::InvalidFormat(_))));
}
