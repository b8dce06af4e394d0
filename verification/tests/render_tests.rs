use tama::notes::MidiParser;
use tama::render::{adsr_envelope, mix_length, plan_note, plan_notes, total_samples, wav_bytes};

#[test]
fn test_rest_plan_is_silent_full_second() {
    // A half-note rest at 120 bpm spans one second: 48,000 samples of
    // silence, marked by an absent pitch.
    let parser = MidiParser::new(120);
    let note = parser.parse_note("2-").unwrap();
    assert_eq!(note.pitch, None);
    let segs = plan_note(&note);
    assert_eq!(segs.len(), 1);
    assert_eq!(segs[0].pitch, None);
    assert_eq!(segs[0].samples, 48000);
}

#[test]
fn test_arpeggio_plan_divides_evenly() {
    // A quarter-note arpeggio of three pitches at 120 bpm: 24,000 samples
    // split as three segments of 8,000, one per pitch, in order.
    let parser = MidiParser::new(120);
    let note = parser.parse_note("4(c e g)").unwrap();
    let segs = plan_note(&note);
    assert_eq!(segs.len(), 3);
    assert_eq!(segs[0].pitch, Some(60));
    assert_eq!(segs[1].pitch, Some(64));
    assert_eq!(segs[2].pitch, Some(67));
    for seg in &segs {
        assert_eq!(seg.samples, 8000);
    }
}

#[test]
fn test_plan_notes_concatenates() {
    let parser = MidiParser::new(120);
    let notes = parser.parse_notes("4c 2-").unwrap();
    let segs = plan_notes(&notes);
    assert_eq!(segs.len(), 2);
    assert_eq!(segs[0].pitch, Some(60));
    assert_eq!(segs[0].samples, 24000);
    assert_eq!(segs[1].pitch, None);
    assert_eq!(segs[1].samples, 48000);
    assert_eq!(total_samples(&segs), 72000);
}

#[test]
fn test_sample_count_rounds_to_nearest() {
    // A whole note at 299 bpm: 240/299 seconds is 38528.42... samples,
    // so the buffer rounds down to 38528.
    let parser = MidiParser::new(299);
    let note = parser.parse_note("1c").unwrap();
    let segs = plan_note(&note);
    assert_eq!(segs[0].samples, 38528);
}

#[test]
fn test_envelope_attack_decay_sustain_release() {
    // Over 100 samples: rising at 2, falling at 10, flat at 50, fading at 90.
    let (n0, d0) = adsr_envelope(0, 100);
    assert_eq!(n0 as f64 / d0 as f64, 0.0);
    let (n1, d1) = adsr_envelope(2, 100);
    assert_eq!(n1 as f64 / d1 as f64, 0.4);
    let (n2, d2) = adsr_envelope(10, 100);
    assert_eq!(n2 as f64 / d2 as f64, 0.9);
    let (n3, d3) = adsr_envelope(50, 100);
    assert_eq!(n3 as f64 / d3 as f64, 0.7);
    let (n4, d4) = adsr_envelope(90, 100);
    assert_eq!(n4 as f64 / d4 as f64, 0.35);
    let (n5, d5) = adsr_envelope(99, 100);
    assert_eq!(n5 as f64 / d5 as f64, 0.035);
}

#[test]
fn test_mix_length_is_longest_channel() {
    // Two channels of 100 and 60 samples mix into 100; the shorter one is
    // silent past its own end.
    assert_eq!(mix_length(&vec![100, 60]), 100);
    assert_eq!(mix_length(&vec![60, 100]), 100);
    assert_eq!(mix_length(&vec![]), 0);
    assert_eq!(mix_length(&vec![7]), 7);
}

#[test]
fn test_wav_bytes_header_and_samples() {
    let samples: Vec<i16> = vec![0, 1000, -1000];
    let bytes = wav_bytes(&samples);
    assert_eq!(bytes.len(), 44 + 6);
    // "RIFF" ... "WAVE"
    assert_eq!(&bytes[0..4], b"RIFF");
    assert_eq!(&bytes[8..12], b"WAVE");
    assert_eq!(&bytes[12..16], b"fmt ");
    // PCM, mono
    assert_eq!(&bytes[20..22], &[1, 0]);
    assert_eq!(&bytes[22..24], &[1, 0]);
    // 48,000 Hz; byte rate 96,000; block align 2; 16 bits
    assert_eq!(&bytes[24..28], &[0x80, 0xBB, 0x00, 0x00]);
    assert_eq!(&bytes[28..32], &[0x00, 0x77, 0x01, 0x00]);
    assert_eq!(&bytes[32..34], &[2, 0]);
    assert_eq!(&bytes[34..36], &[16, 0]);
    // data chunk of six bytes
    assert_eq!(&bytes[36..40], b"data");
    assert_eq!(&bytes[40..44], &[6, 0, 0, 0]);
    // the samples, little endian, two's complement
    assert_eq!(&bytes[44..46], &[0x00, 0x00]);
    assert_eq!(&bytes[46..48], &[0xE8, 0x03]);
    assert_eq!(&bytes[48..50], &[0x18, 0xFC]);
}

#[test]
fn test_wav_bytes_empty() {
    let bytes = wav_bytes(&vec![]);
    assert_eq!(bytes.len(), 44);
    assert_eq!(&bytes[4..8], &[36, 0, 0, 0]);
}
