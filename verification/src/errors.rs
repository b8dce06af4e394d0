use vstd::prelude::*;

verus! {

/// The flag a splitter error refers to.
#[derive(Clone, Copy, Debug, PartialEq, Eq, Structural)]
pub enum FlagKind {
    Volume,
    Bpm,
    Adsr,
    Vibrato,
    Channel,
}

/// Where in a note token an unexpected character was met.
#[derive(Clone, Copy, Debug, PartialEq, Eq, Structural)]
pub enum CharSpot {
    Modifiers,
    AfterWaveform,
    AfterVolume,
}

/// Everything that can go wrong while compiling a composition.
///
/// Each variant carries the text or value that provoked it, so a caller can
/// report the fault precisely. No stage ever returns a partial result.
#[derive(Debug, Clone, PartialEq)]
pub enum MusicError {
    EmptyInput,
    MissingFlagValue(FlagKind),
    InvalidFlagValue(FlagKind, String),
    OutOfRange(FlagKind, i64, i64, i64),
    EmptyChannel,
    NoChannelsFound,
    MissingDuration(String),
    InvalidDurationNumber(String),
    MissingNoteLetter(String),
    InvalidNoteLetter(char),
    InvalidOctave(u32),
    InvalidWaveform(char),
    InvalidVolumeSyntax,
    UnterminatedArpeggio,
    EmptyArpeggio,
    InvalidArpeggioNote(String),
    UnexpectedCharacter(char, CharSpot),
}

/// The mathematical shadow of `MusicError`: texts become character sequences.
pub enum FaultV {
    EmptyInput,
    MissingFlagValue(FlagKind),
    InvalidFlagValue(FlagKind, Seq<char>),
    OutOfRange(FlagKind, int, int, int),
    EmptyChannel,
    NoChannelsFound,
    MissingDuration(Seq<char>),
    InvalidDurationNumber(Seq<char>),
    MissingNoteLetter(Seq<char>),
    InvalidNoteLetter(char),
    InvalidOctave(int),
    InvalidWaveform(char),
    InvalidVolumeSyntax,
    UnterminatedArpeggio,
    EmptyArpeggio,
    InvalidArpeggioNote(Seq<char>),
    UnexpectedCharacter(char, CharSpot),
}

impl View for MusicError {
    type V = FaultV;

    open spec fn view(&self) -> FaultV {
        match self {
            MusicError::EmptyInput => FaultV::EmptyInput,
            MusicError::MissingFlagValue(f) => FaultV::MissingFlagValue(*f),
            MusicError::InvalidFlagValue(f, t) => FaultV::InvalidFlagValue(*f, t@),
            MusicError::OutOfRange(f, v, lo, hi) => FaultV::OutOfRange(
                *f,
                *v as int,
                *lo as int,
                *hi as int,
            ),
            MusicError::EmptyChannel => FaultV::EmptyChannel,
            MusicError::NoChannelsFound => FaultV::NoChannelsFound,
            MusicError::MissingDuration(t) => FaultV::MissingDuration(t@),
            MusicError::InvalidDurationNumber(t) => FaultV::InvalidDurationNumber(t@),
            MusicError::MissingNoteLetter(t) => FaultV::MissingNoteLetter(t@),
            MusicError::InvalidNoteLetter(c) => FaultV::InvalidNoteLetter(*c),
            MusicError::InvalidOctave(v) => FaultV::InvalidOctave(*v as int),
            MusicError::InvalidWaveform(c) => FaultV::InvalidWaveform(*c),
            MusicError::InvalidVolumeSyntax => FaultV::InvalidVolumeSyntax,
            MusicError::UnterminatedArpeggio => FaultV::UnterminatedArpeggio,
            MusicError::EmptyArpeggio => FaultV::EmptyArpeggio,
            MusicError::InvalidArpeggioNote(t) => FaultV::InvalidArpeggioNote(t@),
            MusicError::UnexpectedCharacter(c, s) => FaultV::UnexpectedCharacter(*c, *s),
        }
    }
}

} // verus!
