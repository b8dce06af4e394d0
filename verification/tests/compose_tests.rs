use tama::compose::{apply_channel_defaults, compile_composition, has_channel_flag};
use tama::notes::MidiParser;
use tama::channels::parse_channels;

fn volf(m: u32) -> f64 {
    m as f64 / 1000000.0
}

#[test]
fn test_channel_volume_precedence_end_to_end() {
    // Global volume holds where a channel sets none; a channel's own volume
    // wins for that channel alone.
    let cc = compile_composition("--volume 0.8 --channel 4c --channel --volume 0.3 4e", 120)
        .unwrap();
    assert_eq!(cc.channels.len(), 2);
    assert_eq!(volf(cc.channels[0][0].volume), 0.8);
    assert_eq!(volf(cc.channels[1][0].volume), 0.3);
    assert!(!cc.single);
}

#[test]
fn test_note_volume_beats_channel_volume() {
    // A note that names its own volume keeps it; full-volume notes inherit.
    let cc = compile_composition("--volume 0.8 4c.5 4e", 120).unwrap();
    assert_eq!(cc.channels.len(), 1);
    assert_eq!(volf(cc.channels[0][0].volume), 0.5);
    assert_eq!(volf(cc.channels[0][1].volume), 0.8);
}

#[test]
fn test_bpm_override_applies() {
    let cc = compile_composition("--bpm 60 4c", 120).unwrap();
    assert_eq!(cc.bpm, 60);
    let n = &cc.channels[0][0];
    assert_eq!(n.duration.num as f64 / n.duration.den as f64, 1.0);
}

#[test]
fn test_default_bpm_without_override() {
    let cc = compile_composition("4c", 120).unwrap();
    assert_eq!(cc.bpm, 120);
}

#[test]
fn test_single_channel_detection() {
    assert!(compile_composition("4c 4e", 120).unwrap().single);
    assert!(!compile_composition("--channel 4c", 120).unwrap().single);
    assert!(has_channel_flag("--channel 4c"));
    assert!(!has_channel_flag("4c 4e"));
}

#[test]
fn test_adsr_vibrato_stamped_on_notes() {
    let cc = compile_composition("--adsr --vibrato 4c 2-", 120).unwrap();
    for n in &cc.channels[0] {
        assert!(n.adsr);
        assert!(n.vibrato);
    }
}

#[test]
fn test_apply_channel_defaults_direct() {
    let parser = MidiParser::new(120);
    let mut notes = parser.parse_notes("4c.5 4e").unwrap();
    let (channels, _) = parse_channels("--volume 0.9 --adsr 4c").unwrap();
    apply_channel_defaults(&mut notes, &channels[0]);
    assert_eq!(volf(notes[0].volume), 0.5);
    assert_eq!(volf(notes[1].volume), 0.9);
    assert!(notes[0].adsr && notes[1].adsr);
    assert!(!notes[0].vibrato);
}

#[test]
fn test_compile_propagates_note_errors() {
    assert!(compile_composition("--channel 4x", 120).is_err());
    assert!(compile_composition("--channel 4c --channel 4c9", 120).is_err());
}
