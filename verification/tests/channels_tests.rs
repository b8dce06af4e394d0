use tama::channels::parse_channels;
use tama::errors::{FlagKind, MusicError};

fn volf(v: Option<u32>) -> Option<f64> {
    v.map(|m| m as f64 / 1000000.0)
}

#[test]
fn test_single_composition_no_flags() {
    let (channels, bpm) = parse_channels("4c 4e 4g").unwrap();
    assert_eq!(channels.len(), 1);
    assert_eq!(channels[0].composition, "4c 4e 4g");
    assert_eq!(channels[0].volume, None);
    assert!(!channels[0].adsr);
    assert!(!channels[0].vibrato);
    assert_eq!(bpm, None);
}

#[test]
fn test_single_channel() {
    let (channels, bpm) = parse_channels("--channel 4c 4e 4g").unwrap();
    assert_eq!(channels.len(), 1);
    assert_eq!(channels[0].composition, "4c 4e 4g");
    assert_eq!(bpm, None);
}

#[test]
fn test_two_channels() {
    let (channels, _) = parse_channels("--channel 4c 4e --channel 4g 4b").unwrap();
    assert_eq!(channels.len(), 2);
    assert_eq!(channels[0].composition, "4c 4e");
    assert_eq!(channels[1].composition, "4g 4b");
}

#[test]
fn test_global_volume() {
    let (channels, _) = parse_channels("--volume 0.5 --channel 4c --channel 4e").unwrap();
    assert_eq!(channels.len(), 2);
    assert_eq!(volf(channels[0].volume), Some(0.5));
    assert_eq!(volf(channels[1].volume), Some(0.5));
}

#[test]
fn test_channel_specific_volume() {
    let (channels, _) = parse_channels("--volume 0.8 --channel 4c --channel --volume 0.3 4e").unwrap();
    assert_eq!(channels.len(), 2);
    assert_eq!(volf(channels[0].volume), Some(0.8));
    assert_eq!(volf(channels[1].volume), Some(0.3));
}

#[test]
fn test_complex_flags() {
    let (channels, bpm) = parse_channels("--volume 0.9 --channel 4c --channel 4d --channel --volume 0.5 4e").unwrap();
    assert_eq!(channels.len(), 3);
    assert_eq!(volf(channels[0].volume), Some(0.9));
    assert_eq!(volf(channels[1].volume), Some(0.9));
    assert_eq!(volf(channels[2].volume), Some(0.5));
    assert_eq!(bpm, None);
}

#[test]
fn test_global_bpm() {
    let (channels, bpm) = parse_channels("--bpm 140 --channel 4c --channel 4e").unwrap();
    assert_eq!(bpm, Some(140));
    assert_eq!(channels.len(), 2);
}

#[test]
fn test_adsr_and_vibrato() {
    let (channels, _) = parse_channels("--adsr --channel 4c --channel --vibrato 4e").unwrap();
    assert_eq!(channels.len(), 2);
    assert!(channels[0].adsr);
    assert!(!channels[0].vibrato);
    assert!(channels[1].adsr);
    assert!(channels[1].vibrato);
}

#[test]
fn test_composition_without_channel_flag() {
    let (channels, _) = parse_channels("4c 4e 4g").unwrap();
    assert_eq!(channels.len(), 1);
    assert_eq!(channels[0].composition, "4c 4e 4g");
}

#[test]
fn test_composition_with_global_flags() {
    let (channels, bpm) = parse_channels("--volume 0.7 --bpm 120 --adsr 4c 4e 4g").unwrap();
    assert_eq!(channels.len(), 1);
    assert_eq!(volf(channels[0].volume), Some(0.7));
    assert!(channels[0].adsr);
    assert_eq!(bpm, Some(120));
}

#[test]
fn test_invalid_volume_range() {
    assert!(parse_channels("--volume 1.5 --channel 4c").is_err());
    assert!(parse_channels("--volume -0.1 --channel 4c").is_err());
}

#[test]
fn test_invalid_bpm_range() {
    assert!(parse_channels("--bpm 0 --channel 4c").is_err());
    assert!(parse_channels("--bpm 301 --channel 4c").is_err());
}

#[test]
fn test_missing_flag_value() {
    assert!(parse_channels("--volume").is_err());
    assert!(parse_channels("--bpm").is_err());
}

#[test]
fn test_channel_without_composition() {
    assert!(parse_channels("--channel").is_err());
    assert!(parse_channels("--channel --channel 4c").is_err());
}

#[test]
fn test_empty_input() {
    assert!(parse_channels("").is_err());
}

#[test]
fn test_error_kinds_of_splitter() {
    assert!(matches!(parse_channels(""), Err(MusicError::EmptyInput)));
    assert!(matches!(
        parse_channels("--volume"),
        Err(MusicError::MissingFlagValue(FlagKind::Volume))
    ));
    assert!(matches!(
        parse_channels("--bpm"),
        Err(MusicError::MissingFlagValue(FlagKind::Bpm))
    ));
    assert!(matches!(
        parse_channels("--volume abc 4c"),
        Err(MusicError::InvalidFlagValue(FlagKind::Volume, _))
    ));
    assert!(matches!(
        parse_channels("--bpm 12x 4c"),
        Err(MusicError::InvalidFlagValue(FlagKind::Bpm, _))
    ));
    assert!(matches!(
        parse_channels("--volume 1.5 4c"),
        Err(MusicError::OutOfRange(FlagKind::Volume, 1500000, 0, 1000000))
    ));
    assert!(matches!(
        parse_channels("--bpm 301 4c"),
        Err(MusicError::OutOfRange(FlagKind::Bpm, 301, 1, 300))
    ));
    assert!(matches!(parse_channels("--channel"), Err(MusicError::EmptyChannel)));
    assert!(matches!(parse_channels("--adsr"), Err(MusicError::NoChannelsFound)));
}

#[test]
fn test_volume_boundaries_accepted() {
    let (channels, _) = parse_channels("--volume 0.0 4c").unwrap();
    assert_eq!(volf(channels[0].volume), Some(0.0));
    let (channels, _) = parse_channels("--volume 1.0 4c").unwrap();
    assert_eq!(volf(channels[0].volume), Some(1.0));
    let (channels, _) = parse_channels("--volume 1 4c").unwrap();
    assert_eq!(volf(channels[0].volume), Some(1.0));
    let (channels, _) = parse_channels("--volume .25 4c").unwrap();
    assert_eq!(volf(channels[0].volume), Some(0.25));
}

#[test]
fn test_bpm_boundaries_accepted() {
    let (_, bpm) = parse_channels("--bpm 1 4c").unwrap();
    assert_eq!(bpm, Some(1));
    let (_, bpm) = parse_channels("--bpm 300 4c").unwrap();
    assert_eq!(bpm, Some(300));
}

#[test]
fn test_unknown_dashed_token_is_composition_text() {
    // An unrecognized `--` token is not a flag; it lands in the composition
    // and the note compiler later skips it (with the token that follows).
    let (channels, _) = parse_channels("--foo bar 4c").unwrap();
    assert_eq!(channels.len(), 1);
    assert_eq!(channels[0].composition, "--foo bar 4c");
}
