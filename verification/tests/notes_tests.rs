use tama::errors::MusicError;
use tama::notes::{note_to_midi_number, parse_note_modifiers, MidiParser, Waveform};

fn test_parser() -> MidiParser {
    MidiParser::new(120)
}

fn secs(note: &tama::notes::Note) -> f64 {
    note.duration.num as f64 / note.duration.den as f64
}

fn vol(millionths: u32) -> f64 {
    millionths as f64 / 1000000.0
}

#[test]
fn test_parse_note_simple() {
    let parser = test_parser();
    let note = parser.parse_note("4c").unwrap();
    assert_eq!(note.pitch, Some(60));
    assert_eq!(secs(&note), 0.5);
}

#[test]
fn test_parse_note_with_octave() {
    let parser = test_parser();
    let note = parser.parse_note("16e2").unwrap();
    assert_eq!(note.pitch, Some(40));
    assert_eq!(secs(&note), 0.125);
}

#[test]
fn test_parse_note_with_sharp() {
    let parser = test_parser();
    let note = parser.parse_note("8#f").unwrap();
    assert_eq!(note.pitch, Some(66));
    assert_eq!(secs(&note), 0.25);
}

#[test]
fn test_parse_note_with_sharp_and_octave() {
    let parser = test_parser();
    let note = parser.parse_note("8#g2").unwrap();
    assert_eq!(note.pitch, Some(44));
    assert_eq!(secs(&note), 0.25);
}

#[test]
fn test_parse_rest() {
    let parser = test_parser();
    let note = parser.parse_note("2-").unwrap();
    assert_eq!(note.pitch, None);
    assert_eq!(secs(&note), 1.0);
}

#[test]
fn test_note_to_midi_number_c1() {
    assert_eq!(note_to_midi_number('c', 1, false), 24);
}

#[test]
fn test_note_to_midi_number_a1() {
    assert_eq!(note_to_midi_number('a', 1, false), 33);
}

#[test]
fn test_note_to_midi_number_middle_c() {
    assert_eq!(note_to_midi_number('c', 4, false), 60);
}

#[test]
fn test_note_to_midi_number_with_sharp() {
    assert_eq!(note_to_midi_number('c', 1, true), 25);
}

#[test]
fn test_duration_calculation_quarter_note() {
    let parser = test_parser();
    let s = parser.duration_to_seconds(4);
    assert_eq!(s.num as f64 / s.den as f64, 0.5);
}

#[test]
fn test_duration_calculation_eighth_note() {
    let parser = test_parser();
    let s = parser.duration_to_seconds(8);
    assert_eq!(s.num as f64 / s.den as f64, 0.25);
}

#[test]
fn test_duration_calculation_whole_note() {
    let parser = test_parser();
    let s = parser.duration_to_seconds(1);
    assert_eq!(s.num as f64 / s.den as f64, 2.0);
}

#[test]
fn test_parse_notes_sequence() {
    let parser = test_parser();
    let notes = parser.parse_notes("4c 8d 16e2").unwrap();
    assert_eq!(notes.len(), 3);
    assert_eq!(notes[0].pitch, Some(60));
    assert_eq!(notes[1].pitch, Some(62));
    assert_eq!(notes[2].pitch, Some(40));
}

#[test]
fn test_parse_note_modifiers_default() {
    let result = parse_note_modifiers(&vec![], 0).unwrap();
    assert_eq!((result.0, result.1), (4, Waveform::Square));
    assert_eq!(vol(result.2), 1.0);
}

#[test]
fn test_parse_note_modifiers_octave_only() {
    let result = parse_note_modifiers(&vec!['2'], 0).unwrap();
    assert_eq!((result.0, result.1), (2, Waveform::Square));
    assert_eq!(vol(result.2), 1.0);
}

#[test]
fn test_parse_note_modifiers_octave_8() {
    let result = parse_note_modifiers(&vec!['8'], 0).unwrap();
    assert_eq!((result.0, result.1), (8, Waveform::Square));
    assert_eq!(vol(result.2), 1.0);
}

#[test]
fn test_parse_note_modifiers_octave_out_of_range_low() {
    let result = parse_note_modifiers(&vec!['0'], 0);
    assert!(result.is_err());
}

#[test]
fn test_parse_note_modifiers_octave_out_of_range_high() {
    let result = parse_note_modifiers(&vec!['9'], 0);
    assert!(result.is_err());
}

#[test]
fn test_parse_note_modifiers_waveform_square() {
    let result = parse_note_modifiers(&vec!['q'], 0).unwrap();
    assert_eq!((result.0, result.1), (4, Waveform::Square));
    assert_eq!(vol(result.2), 1.0);
}

#[test]
fn test_parse_note_modifiers_waveform_triangle() {
    let result = parse_note_modifiers(&vec!['t'], 0).unwrap();
    assert_eq!((result.0, result.1), (4, Waveform::Triangle));
    assert_eq!(vol(result.2), 1.0);
}

#[test]
fn test_parse_note_modifiers_waveform_sawtooth() {
    let result = parse_note_modifiers(&vec!['s'], 0).unwrap();
    assert_eq!((result.0, result.1), (4, Waveform::Sawtooth));
    assert_eq!(vol(result.2), 1.0);
}

#[test]
fn test_parse_note_modifiers_waveform_pulse() {
    let result = parse_note_modifiers(&vec!['p'], 0).unwrap();
    assert_eq!((result.0, result.1), (4, Waveform::Pulse));
    assert_eq!(vol(result.2), 1.0);
}

#[test]
fn test_parse_note_modifiers_volume_0() {
    let result = parse_note_modifiers(&vec!['.', '0'], 0).unwrap();
    assert_eq!((result.0, result.1), (4, Waveform::Square));
    assert_eq!(vol(result.2), 0.0);
}

#[test]
fn test_parse_note_modifiers_volume_5() {
    let result = parse_note_modifiers(&vec!['.', '5'], 0).unwrap();
    assert_eq!((result.0, result.1), (4, Waveform::Square));
    assert_eq!(vol(result.2), 0.5);
}

#[test]
fn test_parse_note_modifiers_volume_9() {
    let result = parse_note_modifiers(&vec!['.', '9'], 0).unwrap();
    assert_eq!((result.0, result.1), (4, Waveform::Square));
    assert_eq!(vol(result.2), 0.9);
}

#[test]
fn test_parse_note_modifiers_octave_and_waveform() {
    let result = parse_note_modifiers(&vec!['2', 't'], 0).unwrap();
    assert_eq!((result.0, result.1), (2, Waveform::Triangle));
    assert_eq!(vol(result.2), 1.0);
}

#[test]
fn test_parse_note_modifiers_octave_and_volume() {
    let result = parse_note_modifiers(&vec!['3', '.', '7'], 0).unwrap();
    assert_eq!((result.0, result.1), (3, Waveform::Square));
    assert_eq!(vol(result.2), 0.7);
}

#[test]
fn test_parse_note_modifiers_all_combined() {
    let result = parse_note_modifiers(&vec!['2', 't', '.', '5'], 0).unwrap();
    assert_eq!((result.0, result.1), (2, Waveform::Triangle));
    assert_eq!(vol(result.2), 0.5);
}

#[test]
fn test_parse_note_modifiers_all_combined_pulse() {
    let result = parse_note_modifiers(&vec!['6', 'p', '.', '3'], 0).unwrap();
    assert_eq!((result.0, result.1), (6, Waveform::Pulse));
    assert_eq!(vol(result.2), 0.3);
}

#[test]
fn test_parse_note_modifiers_invalid_character() {
    let result = parse_note_modifiers(&vec!['x'], 0);
    assert!(result.is_err());
}

#[test]
fn test_parse_note_modifiers_invalid_waveform() {
    let result = parse_note_modifiers(&vec!['w'], 0);
    assert!(result.is_err());
}

#[test]
fn test_invalid_note_missing_duration() {
    let parser = test_parser();
    assert!(parser.parse_note("c").is_err());
}

#[test]
fn test_invalid_note_letter() {
    let parser = test_parser();
    assert!(parser.parse_note("4x").is_err());
}

#[test]
fn test_invalid_octave_range() {
    let parser = test_parser();
    assert!(parser.parse_note("4c9").is_err());
}

#[test]
fn test_parse_notes_with_flags() {
    let parser = test_parser();
    let notes = parser.parse_notes("--bpm 150 4c 4e 4g --volume 80 4c").unwrap();
    assert_eq!(notes.len(), 4);
    assert_eq!(notes[0].pitch, Some(60));
    assert_eq!(notes[1].pitch, Some(64));
    assert_eq!(notes[2].pitch, Some(67));
    assert_eq!(notes[3].pitch, Some(60));
}

#[test]
fn test_parse_arpeggio_basic() {
    let parser = test_parser();
    let note = parser.parse_note("4(c e g)").unwrap();
    assert_eq!(note.arpeggio_notes.len(), 3);
    assert_eq!(note.arpeggio_notes[0], 60);
    assert_eq!(note.arpeggio_notes[1], 64);
    assert_eq!(note.arpeggio_notes[2], 67);
}

#[test]
fn test_parse_arpeggio_with_sharps() {
    let parser = test_parser();
    let note = parser.parse_note("4(#c #f a)").unwrap();
    assert_eq!(note.arpeggio_notes.len(), 3);
    assert_eq!(note.arpeggio_notes[0], 61);
    assert_eq!(note.arpeggio_notes[1], 66);
    assert_eq!(note.arpeggio_notes[2], 69);
}

#[test]
fn test_parse_arpeggio_with_octaves() {
    let parser = test_parser();
    let note = parser.parse_note("4(c2 e3 g4)").unwrap();
    assert_eq!(note.arpeggio_notes.len(), 3);
    assert_eq!(note.arpeggio_notes[0], 36);
    assert_eq!(note.arpeggio_notes[1], 52);
    assert_eq!(note.arpeggio_notes[2], 67);
}

#[test]
fn test_parse_arpeggio_duration_division() {
    let parser = test_parser();
    let note = parser.parse_note("4(c e g)").unwrap();
    let expected_duration = parser.duration_to_seconds(4);
    assert_eq!(note.duration, expected_duration);
}

#[test]
fn test_parse_arpeggio_missing_closing_paren() {
    let parser = test_parser();
    let result = parser.parse_note("4(c e g");
    assert!(result.is_err());
}

#[test]
fn test_parse_arpeggio_empty() {
    let parser = test_parser();
    let result = parser.parse_note("4()");
    assert!(result.is_err());
}

#[test]
fn test_parse_note_with_waveform_and_volume() {
    let parser = test_parser();
    let note = parser.parse_note("4ct.5").unwrap();
    assert_eq!(note.pitch, Some(60));
    assert_eq!(note.waveform, Waveform::Triangle);
    assert_eq!(vol(note.volume), 0.5);
}

#[test]
fn test_parse_note_with_all_features() {
    let parser = test_parser();
    let note = parser.parse_note("8#f3s.7").unwrap();
    assert_eq!(note.pitch, Some(54));
    assert_eq!(note.waveform, Waveform::Sawtooth);
    assert_eq!(vol(note.volume), 0.7);
    let expected_duration = parser.duration_to_seconds(8);
    assert_eq!(note.duration, expected_duration);
}

#[test]
fn test_nokia_ringtone() {
    let parser = test_parser();
    let input = "16e2 16d2 8#f 8#g";
    let notes = parser.parse_notes(input).unwrap();

    println!("\nNokia ringtone notes:");
    for (i, note) in notes.iter().enumerate() {
        if let Some(pitch) = note.pitch {
            let freq = 440.0 * 2.0_f32.powf((pitch as f32 - 69.0) / 12.0);
            println!("  Note {}: MIDI {} ({:.1} Hz)", i + 1, pitch, freq);
        }
    }

    assert_eq!(notes[0].pitch, Some(40));
    assert_eq!(notes[1].pitch, Some(38));
    assert_eq!(notes[2].pitch, Some(66));
    assert_eq!(notes[3].pitch, Some(68));
}

#[test]
fn test_error_missing_duration_kind() {
    let parser = test_parser();
    assert!(matches!(parser.parse_note("c"), Err(MusicError::MissingDuration(_))));
}

#[test]
fn test_error_invalid_duration_zero() {
    let parser = test_parser();
    assert!(matches!(parser.parse_note("0c"), Err(MusicError::InvalidDurationNumber(_))));
}

#[test]
fn test_error_invalid_duration_too_big() {
    let parser = test_parser();
    assert!(matches!(parser.parse_note("300c"), Err(MusicError::InvalidDurationNumber(_))));
}

#[test]
fn test_error_missing_note_letter_kind() {
    let parser = test_parser();
    assert!(matches!(parser.parse_note("4"), Err(MusicError::MissingNoteLetter(_))));
    assert!(matches!(parser.parse_note("4#"), Err(MusicError::MissingNoteLetter(_))));
}

#[test]
fn test_error_invalid_note_letter_kind() {
    let parser = test_parser();
    assert!(matches!(parser.parse_note("4x"), Err(MusicError::InvalidNoteLetter('x'))));
}

#[test]
fn test_error_invalid_octave_kind() {
    let parser = test_parser();
    assert!(matches!(parser.parse_note("4c9"), Err(MusicError::InvalidOctave(9))));
    assert!(matches!(parser.parse_note("4c0"), Err(MusicError::InvalidOctave(0))));
}

#[test]
fn test_error_invalid_waveform_kind() {
    let parser = test_parser();
    assert!(matches!(parser.parse_note("4cw"), Err(MusicError::InvalidWaveform('w'))));
}

#[test]
fn test_error_invalid_volume_syntax_kind() {
    let parser = test_parser();
    assert!(matches!(parser.parse_note("4c."), Err(MusicError::InvalidVolumeSyntax)));
    assert!(matches!(parser.parse_note("4c.5.6"), Err(MusicError::InvalidVolumeSyntax)));
}

#[test]
fn test_error_unterminated_arpeggio_kind() {
    let parser = test_parser();
    assert!(matches!(parser.parse_note("4(c e"), Err(MusicError::UnterminatedArpeggio)));
}

#[test]
fn test_error_empty_arpeggio_kind() {
    let parser = test_parser();
    assert!(matches!(parser.parse_note("4()"), Err(MusicError::EmptyArpeggio)));
}

#[test]
fn test_error_invalid_arpeggio_note_kind() {
    let parser = test_parser();
    assert!(matches!(parser.parse_note("4(x)"), Err(MusicError::InvalidArpeggioNote(_))));
}

#[test]
fn test_error_unexpected_character_kind() {
    let parser = test_parser();
    assert!(matches!(parser.parse_note("4c2t5"), Err(MusicError::UnexpectedCharacter(_, _))));
}

#[test]
fn test_note_letters_case_insensitive() {
    let parser = test_parser();
    let upper = parser.parse_note("4C").unwrap();
    let lower = parser.parse_note("4c").unwrap();
    assert_eq!(upper.pitch, lower.pitch);
}

#[test]
fn test_parse_empty_note_string() {
    let parser = test_parser();
    assert!(matches!(parser.parse_note(""), Err(MusicError::EmptyInput)));
    assert!(matches!(parser.parse_note("   "), Err(MusicError::EmptyInput)));
}

#[test]
fn test_validate_midi_composition_ok() {
    let notes = tama::validate_midi_composition("4c 8d 16e2").unwrap();
    assert_eq!(notes.len(), 3);
    assert_eq!(notes[0].pitch, Some(60));
}

#[test]
fn test_validate_midi_composition_rejects() {
    assert!(tama::validate_midi_composition("invalid midi notes xyz").is_err());
}

#[test]
fn test_parse_arpeggio_sharp_with_octave() {
    // Inside an arpeggio, a sharp and an explicit octave combine.
    let parser = test_parser();
    let note = parser.parse_note("4(#c2 #f3)").unwrap();
    assert_eq!(note.arpeggio_notes.len(), 2);
    assert_eq!(note.arpeggio_notes[0], 37);
    assert_eq!(note.arpeggio_notes[1], 54);
}

#[test]
fn test_parse_arpeggio_trailing_modifiers() {
    // Waveform and volume after the closing parenthesis apply to the whole
    // group.
    let parser = test_parser();
    let note = parser.parse_note("4(c e g)t.5").unwrap();
    assert_eq!(note.waveform, Waveform::Triangle);
    assert_eq!(vol(note.volume), 0.5);
    assert_eq!(note.arpeggio_notes.len(), 3);
}

#[test]
fn test_parse_arpeggio_bad_octave_range() {
    let parser = test_parser();
    assert!(matches!(parser.parse_note("4(c9)"), Err(MusicError::InvalidOctave(9))));
}

#[test]
fn test_parse_note_leading_zero_octave_digits() {
    // Leading zeros in the octave digits are read as their value.
    let parser = test_parser();
    let note = parser.parse_note("4c04").unwrap();
    assert_eq!(note.pitch, Some(60));
}
