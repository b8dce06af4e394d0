use vstd::prelude::*;
use crate::errors::{CharSpot, FaultV, MusicError};
use crate::text::{
    capped_u32, chars_of, digit_end, digit_val, digits_val, digits_val_capped, digits_value,
    exec_is_digit, exec_is_letter, exec_is_space, is_digit, is_letter, is_space, lemma_digit_end,
    scan_digits, spans_text, spans_wf, split_spaces, string_of_range, subvec, trim_span, trimmed,
    ws_tokens, DIGIT_CAP,
};

verus! {

/// Full scale, in the millionths that volumes are measured in.
pub const VOLUME_UNIT: u32 = 1000000;

/// The oscillator shape that gives a note its timbre.
#[derive(Clone, Copy, Debug, PartialEq, Eq, Structural)]
pub enum Waveform {
    Square,
    Triangle,
    Sawtooth,
    Pulse,
}

impl Default for Waveform {
    /// A note that names no shape sounds as a square wave.
    fn default() -> (r: Waveform)
        ensures
            r == Waveform::Square,
    {
        Waveform::Square
    }
}

/// An exact span of time: `num / den` seconds.
///
/// A note's length is `(4 / token) * (60 / bpm)` seconds, which this type
/// carries without rounding as the fraction `240 / (token * bpm)`.
#[derive(Clone, Copy, Debug, PartialEq, Eq, Structural)]
pub struct Seconds {
    pub num: u32,
    pub den: u32,
}

impl Seconds {
    pub open spec fn wf(&self) -> bool {
        self.den > 0
    }
}

/// One event of a compiled composition: a pitched tone, a rest, or an
/// arpeggio (a non-empty pitch list that overrides `pitch`).
#[derive(Debug, Clone, PartialEq)]
pub struct Note {
    /// MIDI-style pitch 0..=127; absent for a rest or an arpeggio.
    pub pitch: Option<u8>,
    pub duration: Seconds,
    pub waveform: Waveform,
    /// Volume in millionths of full scale, at most `VOLUME_UNIT`.
    pub volume: u32,
    /// Pitches of an arpeggio, each 0..=127; empty for ordinary notes.
    pub arpeggio_notes: Vec<u8>,
    pub adsr: bool,
    pub vibrato: bool,
}

impl Note {
    pub open spec fn wf(&self) -> bool {
        &&& (self.pitch matches Some(p) ==> p <= 127)
        &&& self.duration.wf()
        &&& self.volume <= VOLUME_UNIT
        &&& forall|k: int| 0 <= k < self.arpeggio_notes@.len() ==> self.arpeggio_notes@[k] <= 127
    }
}

// ---------------------------------------------------------------------------
// The note grammar, as mathematics
// ---------------------------------------------------------------------------

/// The letters that name pitches.
pub open spec fn is_note_letter(c: char) -> bool {
    c == 'a' || c == 'b' || c == 'c' || c == 'd' || c == 'e' || c == 'f' || c == 'g'
}

/// Semitone offset of a note letter within its octave.
pub open spec fn letter_offset(c: char) -> int {
    if c == 'c' {
        0
    } else if c == 'd' {
        2
    } else if c == 'e' {
        4
    } else if c == 'f' {
        5
    } else if c == 'g' {
        7
    } else if c == 'a' {
        9
    } else {
        11
    }
}

/// Note letters are case-insensitive: `A`..`G` read as `a`..`g`.
pub open spec fn lower_letter(c: char) -> char {
    if c == 'A' {
        'a'
    } else if c == 'B' {
        'b'
    } else if c == 'C' {
        'c'
    } else if c == 'D' {
        'd'
    } else if c == 'E' {
        'e'
    } else if c == 'F' {
        'f'
    } else if c == 'G' {
        'g'
    } else {
        c
    }
}

/// MIDI-style pitch number, clamped into 0..=127.
pub open spec fn midi_pitch(letter: char, octave: int, sharp: bool) -> int {
    let raw = 12 * (octave + 1) + letter_offset(letter) + (if sharp {
        1int
    } else {
        0int
    });
    if raw < 0 {
        0
    } else if raw > 127 {
        127
    } else {
        raw
    }
}

pub open spec fn is_waveform_char(c: char) -> bool {
    c == 'q' || c == 't' || c == 's' || c == 'p'
}

pub open spec fn waveform_of(c: char) -> Waveform {
    if c == 'q' {
        Waveform::Square
    } else if c == 't' {
        Waveform::Triangle
    } else if c == 's' {
        Waveform::Sawtooth
    } else {
        Waveform::Pulse
    }
}

/// What the trailing-modifier sub-grammar yields: octave digits first, then
/// an optional waveform letter, then an optional `.` volume digit.
pub struct ModsV {
    pub octave: int,
    pub waveform: Waveform,
    pub volume: int,
}

/// End of the optional waveform letter, after the octave digits.
pub open spec fn mods_wf_end(m: Seq<char>) -> int {
    let d = digit_end(m, 0);
    if d < m.len() && is_waveform_char(m[d]) {
        d + 1
    } else {
        d
    }
}

/// The modifier sub-grammar, shared by single notes and arpeggios:
/// `[octave digits][waveform][. volume-digit]`, then nothing.
pub open spec fn spec_mods(m: Seq<char>) -> Result<ModsV, FaultV> {
    let d = digit_end(m, 0);
    let w = mods_wf_end(m);
    if w == m.len() || (m[w] == '.' && w + 2 == m.len() && is_digit(m[w + 1])) {
        let octave = if d == 0 {
            4int
        } else {
            digits_val(m.subrange(0, d))
        };
        if 1 <= octave <= 8 {
            Result::Ok(
                ModsV {
                    octave,
                    waveform: if w > d {
                        waveform_of(m[d])
                    } else {
                        Waveform::Square
                    },
                    volume: if w < m.len() {
                        digit_val(m[w + 1]) * 100000
                    } else {
                        VOLUME_UNIT as int
                    },
                },
            )
        } else {
            Result::Err(FaultV::InvalidOctave(capped_u32(digits_val(m.subrange(0, d)))))
        }
    } else {
        if m[w] == '.' {
            if w + 1 >= m.len() || !is_digit(m[w + 1]) {
                Result::Err(FaultV::InvalidVolumeSyntax)
            } else if m[w + 2] == '.' {
                Result::Err(FaultV::InvalidVolumeSyntax)
            } else {
                Result::Err(FaultV::UnexpectedCharacter(m[w + 2], CharSpot::AfterVolume))
            }
        } else if w > d {
            Result::Err(FaultV::UnexpectedCharacter(m[w], CharSpot::AfterWaveform))
        } else if is_letter(m[w]) {
            Result::Err(FaultV::InvalidWaveform(m[w]))
        } else {
            Result::Err(FaultV::UnexpectedCharacter(m[w], CharSpot::Modifiers))
        }
    }
}

// ---------------------------------------------------------------------------
// Executable modifier parsing
// ---------------------------------------------------------------------------

/// Parses the trailing modifiers `v[from..]`: octave, waveform, volume.
///
/// Returns exactly what `spec_mods` says of those characters.
pub fn parse_note_modifiers(v: &Vec<char>, from: usize) -> (r: Result<
    (u8, Waveform, u32),
    MusicError,
>)
    requires
        from <= v@.len(),
    ensures
        ({
            let m = v@.subrange(from as int, v@.len() as int);
            match spec_mods(m) {
                Result::Ok(md) => r matches Ok(t) && t.0 == md.octave && t.1 == md.waveform
                    && t.2 == md.volume && 1 <= t.0 <= 8 && t.2 <= VOLUME_UNIT,
                Result::Err(f) => r matches Err(e) && e@ == f,
            }
        }),
{
    let ghost m = v@.subrange(from as int, v@.len() as int);
    let n = v.len();
    proof {
        lemma_digit_end(m, 0);
        // Relate digit scanning on the suffix to scanning on the whole vector.
        lemma_digit_end_shift(v@, from as int);
    }
    let d = scan_digits(v, from);
    proof {
        assert(d - from == digit_end(m, 0));
    }
    // Optional waveform letter.
    let mut w = d;
    let mut waveform = Waveform::Square;
    let mut has_wf = false;
    if d < n {
        let c = v[d];
        if c == 'q' || c == 't' || c == 's' || c == 'p' {
            waveform = if c == 'q' {
                Waveform::Square
            } else if c == 't' {
                Waveform::Triangle
            } else if c == 's' {
                Waveform::Sawtooth
            } else {
                Waveform::Pulse
            };
            has_wf = true;
            w = d + 1;
        }
    }
    proof {
        if d < n {
            assert(m[d - from] == v@[d as int]);
        }
        assert(w - from == mods_wf_end(m));
        assert(has_wf == (w > d));
    }
    // Shape of what remains: nothing, or `.` and one digit.
    let shape_ok = w == n || (v[w] == '.' && n - w == 2 && exec_is_digit(v[w + 1]));
    proof {
        if w < n {
            assert(m[w - from] == v@[w as int]);
            if w + 1 < n {
                assert(m[w + 1 - from] == v@[w + 1 as int]);
            }
        }
        assert(shape_ok == (w - from == m.len() || (m[w - from] == '.' && w - from + 2 == m.len()
            && is_digit(m[w - from + 1]))));
    }
    if shape_ok {
        proof {
            lemma_digit_end(v@, from as int);
        }
        let value = digits_value(v, from, d);
        proof {
            assert(v@.subrange(from as int, d as int) =~= m.subrange(0, d - from));
        }
        let octave: u8 = if d == from {
            4
        } else if value >= 1 && value <= 8 {
            value as u8
        } else {
            let capped: u32 = if value > 0xFFFFFFFF {
                0xFFFFFFFF
            } else {
                value as u32
            };
            proof {
                assert(value == digits_val_capped(m.subrange(0, d - from)));
                assert(DIGIT_CAP == 0xFFFFFFFFFFFFFFFF);
                assert(capped as int == capped_u32(digits_val(m.subrange(0, d - from))));
            }
            return Err(MusicError::InvalidOctave(capped));
        };
        let volume: u32 = if w < n {
            100000 * crate::text::exec_digit_val(v[w + 1])
        } else {
            VOLUME_UNIT
        };
        proof {
            if w < n {
                assert(m[w + 1 - from] == v@[w + 1 as int]);
            }
        }
        Ok((octave, waveform, volume))
    } else {
        // The scan broke at `w`; report the character there.
        let c = v[w];
        proof {
            assert(m[w - from] == v@[w as int]);
        }
        if c == '.' {
            if w + 1 >= n || !exec_is_digit(v[w + 1]) {
                Err(MusicError::InvalidVolumeSyntax)
            } else {
                let c2 = v[w + 2];
                proof {
                    assert(m[w + 2 - from] == v@[w + 2 as int]);
                }
                if c2 == '.' {
                    Err(MusicError::InvalidVolumeSyntax)
                } else {
                    Err(MusicError::UnexpectedCharacter(c2, CharSpot::AfterVolume))
                }
            }
        } else if has_wf {
            Err(MusicError::UnexpectedCharacter(c, CharSpot::AfterWaveform))
        } else if exec_is_letter(c) {
            Err(MusicError::InvalidWaveform(c))
        } else {
            Err(MusicError::UnexpectedCharacter(c, CharSpot::Modifiers))
        }
    }
}

/// Scanning digits in a suffix sees the same run as scanning in the whole.
proof fn lemma_digit_end_shift(s: Seq<char>, from: int)
    requires
        0 <= from <= s.len(),
    ensures
        digit_end(s, from) - from == digit_end(s.subrange(from, s.len() as int), 0),
{
    let m = s.subrange(from, s.len() as int);
    lemma_digit_end(s, from);
    lemma_digit_end(m, 0);
    let e1 = digit_end(s, from);
    let e2 = digit_end(m, 0);
    assert(forall|k: int| 0 <= k < m.len() ==> m[k] == s[from + k]);
    if e1 - from < e2 {
        assert(is_digit(m[e1 - from]));
        assert(!is_digit(s[e1]));
        assert(false);
    }
    if e2 < e1 - from {
        assert(is_digit(s[from + e2]));
        assert(!is_digit(m[e2]));
        assert(false);
    }
}


// ---------------------------------------------------------------------------
// Whole-note grammar, as mathematics
// ---------------------------------------------------------------------------

/// What one note token denotes, before the tempo fixes its length.
pub struct PNoteV {
    pub pitch: Option<int>,
    pub dur_token: int,
    pub waveform: Waveform,
    pub volume: int,
    pub arpeggio: Seq<int>,
}

/// The index of the first `)` at or after `from`, or the length when none.
pub open spec fn close_paren_at(s: Seq<char>, from: int) -> int
    decreases s.len() - from,
{
    if from < 0 || from >= s.len() {
        s.len() as int
    } else if s[from] == ')' {
        from
    } else {
        close_paren_at(s, from + 1)
    }
}

pub proof fn lemma_close_paren_at(s: Seq<char>, from: int)
    requires
        0 <= from <= s.len(),
    ensures
        from <= close_paren_at(s, from) <= s.len(),
        forall|k: int| from <= k < close_paren_at(s, from) ==> s[k] != ')',
        close_paren_at(s, from) < s.len() ==> s[close_paren_at(s, from)] == ')',
    decreases s.len() - from,
{
    if from < s.len() && s[from] != ')' {
        lemma_close_paren_at(s, from + 1);
    }
}

/// One entry of an arpeggio group: `[#] letter [octave digits]`.
pub open spec fn spec_arp_note(p: Seq<char>) -> Result<int, FaultV> {
    let sharp = p.len() > 0 && p[0] == '#';
    let li: int = if sharp {
        1
    } else {
        0
    };
    if li >= p.len() {
        Result::Err(FaultV::InvalidArpeggioNote(p))
    } else {
        let lc = lower_letter(p[li]);
        if !is_note_letter(lc) {
            Result::Err(FaultV::InvalidArpeggioNote(p))
        } else {
            let ds = p.subrange(li + 1, p.len() as int);
            if digit_end(ds, 0) != ds.len() {
                Result::Err(FaultV::InvalidArpeggioNote(p))
            } else {
                let octave = if ds.len() == 0 {
                    4int
                } else {
                    digits_val(ds)
                };
                if 1 <= octave <= 8 {
                    Result::Ok(midi_pitch(lc, octave, sharp))
                } else {
                    Result::Err(FaultV::InvalidOctave(capped_u32(digits_val(ds))))
                }
            }
        }
    }
}

/// The pitches of an arpeggio group, left to right; the first bad entry wins.
pub open spec fn spec_arp_notes_from(parts: Seq<Seq<char>>, i: int) -> Result<Seq<int>, FaultV>
    decreases parts.len() - i,
{
    if i < 0 || i >= parts.len() {
        Result::Ok(seq![])
    } else {
        match spec_arp_note(parts[i]) {
            Result::Err(f) => Result::Err(f),
            Result::Ok(p) => match spec_arp_notes_from(parts, i + 1) {
                Result::Err(f) => Result::Err(f),
                Result::Ok(rest) => Result::Ok(seq![p] + rest),
            },
        }
    }
}

/// An arpeggio token after its duration: `( entries ) [modifiers]`.
pub open spec fn spec_parse_arp(t: Seq<char>, d: int, dv: int) -> Result<PNoteV, FaultV> {
    let close = close_paren_at(t, d + 1);
    if close == t.len() {
        Result::Err(FaultV::UnterminatedArpeggio)
    } else {
        let parts = ws_tokens(t.subrange(d + 1, close));
        if parts.len() == 0 {
            Result::Err(FaultV::EmptyArpeggio)
        } else {
            match spec_arp_notes_from(parts, 0) {
                Result::Err(f) => Result::Err(f),
                Result::Ok(ns) => match spec_mods(t.subrange(close + 1, t.len() as int)) {
                    Result::Err(f) => Result::Err(f),
                    Result::Ok(m) => Result::Ok(
                        PNoteV {
                            pitch: None,
                            dur_token: dv,
                            waveform: m.waveform,
                            volume: m.volume,
                            arpeggio: ns,
                        },
                    ),
                },
            }
        }
    }
}

/// One whole note token `t` (already trimmed): duration digits, then either
/// an arpeggio group or `[#] letter`, then the trailing modifiers.
pub open spec fn spec_parse_note(t: Seq<char>) -> Result<PNoteV, FaultV> {
    if t.len() == 0 {
        Result::Err(FaultV::EmptyInput)
    } else {
        let d = digit_end(t, 0);
        if d == 0 {
            Result::Err(FaultV::MissingDuration(t))
        } else {
            let dv = digits_val(t.subrange(0, d));
            if dv == 0 || dv > 255 {
                Result::Err(FaultV::InvalidDurationNumber(t.subrange(0, d)))
            } else if d < t.len() && t[d] == '(' {
                spec_parse_arp(t, d, dv)
            } else {
                let sharp = d < t.len() && t[d] == '#';
                let li: int = if sharp {
                    d + 1
                } else {
                    d
                };
                if li >= t.len() {
                    Result::Err(FaultV::MissingNoteLetter(t))
                } else {
                    let lc = lower_letter(t[li]);
                    if lc == '-' {
                        match spec_mods(t.subrange(li + 1, t.len() as int)) {
                            Result::Err(f) => Result::Err(f),
                            Result::Ok(m) => Result::Ok(
                                PNoteV {
                                    pitch: None,
                                    dur_token: dv,
                                    waveform: m.waveform,
                                    volume: m.volume,
                                    arpeggio: seq![],
                                },
                            ),
                        }
                    } else if !is_note_letter(lc) {
                        Result::Err(FaultV::InvalidNoteLetter(lc))
                    } else {
                        match spec_mods(t.subrange(li + 1, t.len() as int)) {
                            Result::Err(f) => Result::Err(f),
                            Result::Ok(m) => Result::Ok(
                                PNoteV {
                                    pitch: Some(midi_pitch(lc, m.octave, sharp)),
                                    dur_token: dv,
                                    waveform: m.waveform,
                                    volume: m.volume,
                                    arpeggio: seq![],
                                },
                            ),
                        }
                    }
                }
            }
        }
    }
}

/// How an executable `Note` realizes a parsed token at a given tempo.
pub open spec fn note_matches(n: Note, p: PNoteV, bpm: int) -> bool {
    &&& match (n.pitch, p.pitch) {
        (Some(a), Some(b)) => a as int == b,
        (None, None) => true,
        _ => false,
    }
    &&& n.duration.num == 240
    &&& n.duration.den == p.dur_token * bpm
    &&& n.waveform == p.waveform
    &&& n.volume == p.volume
    &&& n.arpeggio_notes@.map_values(|x: u8| x as int) == p.arpeggio
    &&& n.adsr == false
    &&& n.vibrato == false
    &&& n.wf()
}

/// The one place a note result is judged: against `spec_parse_note`.
pub open spec fn note_result_matches(
    r: Result<Note, MusicError>,
    t: Seq<char>,
    bpm: int,
) -> bool {
    match spec_parse_note(t) {
        Result::Ok(p) => r matches Ok(n) && note_matches(n, p, bpm),
        Result::Err(f) => r matches Err(e) && e@ == f,
    }
}

// ---------------------------------------------------------------------------
// Executable parsing of one note
// ---------------------------------------------------------------------------

fn exec_lower_letter(c: char) -> (r: char)
    ensures
        r == lower_letter(c),
{
    match c {
        'A' => 'a',
        'B' => 'b',
        'C' => 'c',
        'D' => 'd',
        'E' => 'e',
        'F' => 'f',
        'G' => 'g',
        _ => c,
    }
}

fn exec_is_note_letter(c: char) -> (r: bool)
    ensures
        r == is_note_letter(c),
{
    c == 'a' || c == 'b' || c == 'c' || c == 'd' || c == 'e' || c == 'f' || c == 'g'
}

/// The index of the first `)` at or after `from`, or the length when none.
fn scan_close_paren(v: &Vec<char>, from: usize) -> (end: usize)
    requires
        from <= v@.len(),
    ensures
        end == close_paren_at(v@, from as int),
        from <= end <= v@.len(),
{
    proof {
        lemma_close_paren_at(v@, from as int);
    }
    let mut i: usize = from;
    while i < v.len() && v[i] != ')'
        invariant
            from <= i <= v@.len(),
            close_paren_at(v@, from as int) == close_paren_at(v@, i as int),
        decreases v@.len() - i,
    {
        i = i + 1;
    }
    i
}

/// One arpeggio entry, e.g. `#c` or `e3`.
fn parse_arp_note(part: &Vec<char>) -> (r: Result<u8, MusicError>)
    ensures
        match spec_arp_note(part@) {
            Result::Ok(p) => r matches Ok(x) && x as int == p && x <= 127,
            Result::Err(f) => r matches Err(e) && e@ == f,
        },
{
    let n = part.len();
    let sharp = n > 0 && part[0] == '#';
    let li: usize = if sharp {
        1
    } else {
        0
    };
    proof {
        assert(part@.subrange(0, n as int) =~= part@);
    }
    if li >= n {
        return Err(MusicError::InvalidArpeggioNote(string_of_range(part, 0, n)));
    }
    let lc = exec_lower_letter(part[li]);
    if !exec_is_note_letter(lc) {
        return Err(MusicError::InvalidArpeggioNote(string_of_range(part, 0, n)));
    }
    let ghost ds = part@.subrange(li + 1, n as int);
    proof {
        lemma_digit_end_shift(part@, li as int + 1);
        lemma_digit_end(part@, li as int + 1);
    }
    let e = scan_digits(part, li + 1);
    if e != n {
        proof {
            assert(digit_end(ds, 0) == e - li - 1);
            assert(digit_end(ds, 0) != ds.len());
            assert(part@.subrange(0, n as int) =~= part@);
        }
        return Err(MusicError::InvalidArpeggioNote(string_of_range(part, 0, n)));
    }
    proof {
        assert(digit_end(ds, 0) == ds.len());
        assert(part@.subrange(li + 1 as int, n as int) =~= ds);
    }
    let octave: u8 = if li + 1 == n {
        4
    } else {
        let value = digits_value(part, li + 1, n);
        proof {
            assert(value == digits_val_capped(ds));
        }
        if value >= 1 && value <= 8 {
            value as u8
        } else {
            let capped: u32 = if value > 0xFFFFFFFF {
                0xFFFFFFFF
            } else {
                value as u32
            };
            proof {
                assert(DIGIT_CAP == 0xFFFFFFFFFFFFFFFF);
                assert(capped as int == capped_u32(digits_val(ds)));
            }
            return Err(MusicError::InvalidOctave(capped));
        }
    };
    Ok(note_to_midi_number(lc, octave, sharp))
}

/// MIDI pitch of a letter at an octave, possibly sharpened.
pub fn note_to_midi_number(letter: char, octave: u8, sharp: bool) -> (r: u8)
    requires
        is_note_letter(letter),
        1 <= octave <= 8,
    ensures
        r as int == midi_pitch(letter, octave as int, sharp),
        24 <= r <= 120,
{
    let base: u8 = match letter {
        'c' => 0,
        'd' => 2,
        'e' => 4,
        'f' => 5,
        'g' => 7,
        'a' => 9,
        _ => 11,
    };
    let sharp_offset: u8 = if sharp {
        1
    } else {
        0
    };
    12 * (octave + 1) + base + sharp_offset
}

/// The parser proper: a tempo, and the grammar above.
pub struct MidiParser {
    pub bpm: u16,
}

impl MidiParser {
    /// Tempo is meaningful only between 1 and 300 beats per minute.
    pub open spec fn wf(&self) -> bool {
        1 <= self.bpm <= 300
    }

    pub fn new(bpm: u16) -> (r: MidiParser)
        requires
            1 <= bpm <= 300,
        ensures
            r.bpm == bpm,
            r.wf(),
    {
        MidiParser { bpm }
    }

    /// Seconds of a duration token: `(4 / token) * (60 / bpm)`, held exactly
    /// as the fraction `240 / (token * bpm)`.
    pub fn duration_to_seconds(&self, duration: u8) -> (s: Seconds)
        requires
            self.wf(),
            duration >= 1,
        ensures
            s.num == 240,
            s.den == duration as u32 * self.bpm as u32,
            s.wf(),
    {
        proof {
            assert(1 <= duration as int * self.bpm as int <= 76500) by (nonlinear_arith)
                requires
                    1 <= duration <= 255,
                    1 <= self.bpm <= 300,
            ;
        }
        Seconds { num: 240, den: (duration as u32) * (self.bpm as u32) }
    }

    /// Compiles one note token. The result is exactly `spec_parse_note` of
    /// the trimmed token, realized at this parser's tempo.
    pub fn parse_note(&self, input: &str) -> (r: Result<Note, MusicError>)
        requires
            self.wf(),
        ensures
            note_result_matches(r, trimmed(input@), self.bpm as int),
    {
        let raw = chars_of(input);
        let sp = trim_span(&raw);
        let t = subvec(&raw, sp.lo, sp.hi);
        self.parse_note_chars(&t)
    }

    /// As `parse_note`, on an already trimmed character vector.
    fn parse_note_chars(&self, t: &Vec<char>) -> (r: Result<Note, MusicError>)
        requires
            self.wf(),
        ensures
            note_result_matches(r, t@, self.bpm as int),
    {
        let n = t.len();
        if n == 0 {
            return Err(MusicError::EmptyInput);
        }
        proof {
            lemma_digit_end(t@, 0);
        }
        let d = scan_digits(t, 0);
        if d == 0 {
            let tok = string_of_range(t, 0, n);
            proof {
                assert(t@.subrange(0, n as int) =~= t@);
            }
            return Err(MusicError::MissingDuration(tok));
        }
        let dv = digits_value(t, 0, d);
        if dv == 0 || dv > 255 {
            proof {
                assert(digits_val(t@.subrange(0, d as int)) >= 0) by {
                    crate::text::lemma_digits_val_bounds(t@.subrange(0, d as int));
                }
            }
            return Err(MusicError::InvalidDurationNumber(string_of_range(t, 0, d)));
        }
        let dur_token = dv as u8;
        if d < n && t[d] == '(' {
            return self.parse_arpeggio(t, d, dur_token);
        }
        let sharp = d < n && t[d] == '#';
        let li: usize = if sharp {
            d + 1
        } else {
            d
        };
        if li >= n {
            let tok = string_of_range(t, 0, n);
            proof {
                assert(t@.subrange(0, n as int) =~= t@);
            }
            return Err(MusicError::MissingNoteLetter(tok));
        }
        let lc = exec_lower_letter(t[li]);
        if lc == '-' {
            match parse_note_modifiers(t, li + 1) {
                Err(e) => Err(e),
                Ok((_oct, wf, vol)) => {
                    let note = Note {
                        pitch: None,
                        duration: self.duration_to_seconds(dur_token),
                        waveform: wf,
                        volume: vol,
                        arpeggio_notes: Vec::new(),
                        adsr: false,
                        vibrato: false,
                    };
                    proof {
                        assert(note.arpeggio_notes@.map_values(|x: u8| x as int)
                            =~= Seq::<int>::empty());
                    }
                    Ok(note)
                },
            }
        } else if !exec_is_note_letter(lc) {
            Err(MusicError::InvalidNoteLetter(lc))
        } else {
            match parse_note_modifiers(t, li + 1) {
                Err(e) => Err(e),
                Ok((oct, wf, vol)) => {
                    let pitch = note_to_midi_number(lc, oct, sharp);
                    let note = Note {
                        pitch: Some(pitch),
                        duration: self.duration_to_seconds(dur_token),
                        waveform: wf,
                        volume: vol,
                        arpeggio_notes: Vec::new(),
                        adsr: false,
                        vibrato: false,
                    };
                    proof {
                        assert(note.arpeggio_notes@.map_values(|x: u8| x as int)
                            =~= Seq::<int>::empty());
                    }
                    Ok(note)
                },
            }
        }
    }

    /// An arpeggio token: entries inside the parentheses, then modifiers.
    fn parse_arpeggio(&self, t: &Vec<char>, d: usize, dur_token: u8) -> (r: Result<
        Note,
        MusicError,
    >)
        requires
            self.wf(),
            d < t@.len(),
            dur_token >= 1,
            dur_token as int == digits_val(t@.subrange(0, digit_end(t@, 0))),
            digit_end(t@, 0) == d,
            t@[d as int] == '(',
            t@.len() > 0,
        ensures
            ({
                let sp = spec_parse_arp(t@, d as int, dur_token as int);
                match sp {
                    Result::Ok(p) => r matches Ok(nt) && note_matches(nt, p, self.bpm as int),
                    Result::Err(f) => r matches Err(e) && e@ == f,
                }
            }),
    {
        let n = t.len();
        let close = scan_close_paren(t, d + 1);
        if close == n {
            return Err(MusicError::UnterminatedArpeggio);
        }
        let content = subvec(t, d + 1, close);
        let parts = split_spaces(&content);
        let ghost parts_s = ws_tokens(content@);
        proof {
            assert(spans_text(content@, parts@) == parts_s);
        }
        if parts.len() == 0 {
            proof {
                assert(parts_s.len() == 0);
            }
            return Err(MusicError::EmptyArpeggio);
        }
        let mut pitches: Vec<u8> = Vec::new();
        let mut k: usize = 0;
        proof {
            assert(pitches@.map_values(|x: u8| x as int) =~= Seq::<int>::empty());
            if spec_arp_notes_from(parts_s, 0) is Ok {
                let rest = spec_arp_notes_from(parts_s, 0)->Ok_0;
                assert(Seq::<int>::empty() + rest =~= rest);
            }
        }
        while k < parts.len()
            invariant
                k <= parts@.len(),
                close == close_paren_at(t@, d as int + 1),
                d as int + 1 <= close < t@.len(),
                content@ == t@.subrange(d as int + 1, close as int),
                parts_s == ws_tokens(content@),
                parts_s == spans_text(content@, parts@),
                crate::text::spans_wf(content@, parts@),
                parts_s.len() == parts@.len(),
                forall|j: int| 0 <= j < pitches@.len() ==> pitches@[j] <= 127,
                ({
                    let done = pitches@.map_values(|x: u8| x as int);
                    match spec_arp_notes_from(parts_s, k as int) {
                        Result::Ok(rest) => spec_arp_notes_from(parts_s, 0) == Result::<
                            Seq<int>,
                            FaultV,
                        >::Ok(done + rest),
                        Result::Err(f) => spec_arp_notes_from(parts_s, 0) == Result::<
                            Seq<int>,
                            FaultV,
                        >::Err(f),
                    }
                }),
            decreases parts@.len() - k,
        {
            let span = parts[k];
            let part = subvec(&content, span.lo, span.hi);
            proof {
                assert(part@ == parts_s[k as int]);
            }
            match parse_arp_note(&part) {
                Err(e) => {
                    proof {
                        lemma_arp_prefix(parts_s, k as int, pitches@.map_values(|x: u8| x as int));
                    }
                    return Err(e);
                },
                Ok(p) => {
                    let ghost old_done = pitches@.map_values(|x: u8| x as int);
                    pitches.push(p);
                    proof {
                        assert(pitches@.map_values(|x: u8| x as int) =~= old_done + seq![
                            p as int,
                        ]);
                        lemma_arp_step(parts_s, k as int, old_done, p as int);
                    }
                    k = k + 1;
                },
            }
        }
        proof {
            lemma_arp_finish(parts_s, pitches@.map_values(|x: u8| x as int));
        }
        match parse_note_modifiers(t, close + 1) {
            Err(e) => Err(e),
            Ok((_oct, wf, vol)) => {
                let note = Note {
                    pitch: None,
                    duration: self.duration_to_seconds(dur_token),
                    waveform: wf,
                    volume: vol,
                    arpeggio_notes: pitches,
                    adsr: false,
                    vibrato: false,
                };
                Ok(note)
            },
        }
    }
}

/// Stepping the arpeggio fold: a good entry extends the prefix.
proof fn lemma_arp_step(parts: Seq<Seq<char>>, k: int, done: Seq<int>, p: int)
    requires
        0 <= k < parts.len(),
        spec_arp_note(parts[k]) == Result::<int, FaultV>::Ok(p),
        match spec_arp_notes_from(parts, k) {
            Result::Ok(rest) => spec_arp_notes_from(parts, 0) == Result::<Seq<int>, FaultV>::Ok(
                done + rest,
            ),
            Result::Err(f) => spec_arp_notes_from(parts, 0) == Result::<Seq<int>, FaultV>::Err(f),
        },
    ensures
        match spec_arp_notes_from(parts, k + 1) {
            Result::Ok(rest) => spec_arp_notes_from(parts, 0) == Result::<Seq<int>, FaultV>::Ok(
                (done + seq![p]) + rest,
            ),
            Result::Err(f) => spec_arp_notes_from(parts, 0) == Result::<Seq<int>, FaultV>::Err(f),
        },
{
    if spec_arp_notes_from(parts, k + 1) is Ok {
        let rest = spec_arp_notes_from(parts, k + 1)->Ok_0;
        assert(spec_arp_notes_from(parts, k) == Result::<Seq<int>, FaultV>::Ok(seq![p] + rest));
        assert(done + (seq![p] + rest) =~= (done + seq![p]) + rest);
    }
}

/// A bad entry decides the whole group.
proof fn lemma_arp_prefix(parts: Seq<Seq<char>>, k: int, done: Seq<int>)
    requires
        0 <= k < parts.len(),
        spec_arp_note(parts[k]) is Err,
        match spec_arp_notes_from(parts, k) {
            Result::Ok(rest) => spec_arp_notes_from(parts, 0) == Result::<Seq<int>, FaultV>::Ok(
                done + rest,
            ),
            Result::Err(f) => spec_arp_notes_from(parts, 0) == Result::<Seq<int>, FaultV>::Err(f),
        },
    ensures
        spec_arp_notes_from(parts, 0) == Result::<Seq<int>, FaultV>::Err(
            spec_arp_note(parts[k])->Err_0,
        ),
{
}

/// After the last entry, the fold is exactly the collected pitches.
proof fn lemma_arp_finish(parts: Seq<Seq<char>>, done: Seq<int>)
    requires
        match spec_arp_notes_from(parts, parts.len() as int) {
            Result::Ok(rest) => spec_arp_notes_from(parts, 0) == Result::<Seq<int>, FaultV>::Ok(
                done + rest,
            ),
            Result::Err(f) => spec_arp_notes_from(parts, 0) == Result::<Seq<int>, FaultV>::Err(f),
        },
    ensures
        spec_arp_notes_from(parts, 0) == Result::<Seq<int>, FaultV>::Ok(done),
{
    assert(spec_arp_notes_from(parts, parts.len() as int) == Result::<Seq<int>, FaultV>::Ok(
        Seq::<int>::empty(),
    ));
    assert(done + Seq::<int>::empty() =~= done);
}


// ---------------------------------------------------------------------------
// Splitting a composition into note tokens
// ---------------------------------------------------------------------------

/// Tokenizer state: finished tokens, the token being read, and whether the
/// cursor stands inside an arpeggio's parentheses (where spaces do not split).
pub struct NoteTokSt {
    pub toks: Seq<Seq<char>>,
    pub cur: Seq<char>,
    pub in_paren: bool,
}

pub open spec fn note_tok_init() -> NoteTokSt {
    NoteTokSt { toks: seq![], cur: seq![], in_paren: false }
}

/// One character of tokenization.
pub open spec fn note_tok_step(st: NoteTokSt, c: char) -> NoteTokSt {
    if c == '(' {
        NoteTokSt { toks: st.toks, cur: st.cur.push(c), in_paren: true }
    } else if c == ')' {
        NoteTokSt { toks: st.toks, cur: st.cur.push(c), in_paren: false }
    } else if is_space(c) && !st.in_paren {
        if st.cur.len() > 0 {
            NoteTokSt { toks: st.toks.push(st.cur), cur: seq![], in_paren: false }
        } else {
            st
        }
    } else {
        NoteTokSt { toks: st.toks, cur: st.cur.push(c), in_paren: st.in_paren }
    }
}

/// The state after reading the first `i` characters of `s`.
pub open spec fn note_tok_run(s: Seq<char>, i: int) -> NoteTokSt
    decreases i,
{
    if i <= 0 {
        note_tok_init()
    } else {
        note_tok_step(note_tok_run(s, i - 1), s[i - 1])
    }
}

/// The note tokens of a composition: space-separated outside parentheses.
pub open spec fn note_tokens(s: Seq<char>) -> Seq<Seq<char>> {
    let st = note_tok_run(s, s.len() as int);
    if st.cur.len() > 0 {
        st.toks.push(st.cur)
    } else {
        st.toks
    }
}

/// A token that looks like a flag; such tokens and their values are skipped.
pub open spec fn starts_dashdash(t: Seq<char>) -> bool {
    t.len() >= 2 && t[0] == '-' && t[1] == '-'
}

/// Compiling a token list, left to right. A `--` token is skipped together
/// with the token after it; the first bad note decides the outcome.
pub open spec fn spec_parse_notes_from(toks: Seq<Seq<char>>, i: int, skip: bool) -> Result<
    Seq<PNoteV>,
    FaultV,
>
    decreases toks.len() - i,
{
    if i < 0 || i >= toks.len() {
        Result::Ok(seq![])
    } else if starts_dashdash(toks[i]) {
        spec_parse_notes_from(toks, i + 1, true)
    } else if skip {
        spec_parse_notes_from(toks, i + 1, false)
    } else {
        match spec_parse_note(trimmed(toks[i])) {
            Result::Err(f) => Result::Err(f),
            Result::Ok(p) => match spec_parse_notes_from(toks, i + 1, false) {
                Result::Err(f) => Result::Err(f),
                Result::Ok(rest) => Result::Ok(seq![p] + rest),
            },
        }
    }
}

/// What a whole composition denotes: its tokens, compiled in order.
pub open spec fn spec_parse_notes(s: Seq<char>) -> Result<Seq<PNoteV>, FaultV> {
    spec_parse_notes_from(note_tokens(s), 0, false)
}

/// The one place a note-list result is judged: against `spec_parse_notes`.
pub open spec fn notes_result_matches(
    r: Result<Vec<Note>, MusicError>,
    s: Seq<char>,
    bpm: int,
) -> bool {
    match spec_parse_notes(s) {
        Result::Ok(ps) => r matches Ok(ns) && ns@.len() == ps.len() && forall|k: int|
            0 <= k < ps.len() ==> note_matches(ns@[k], ps[k], bpm),
        Result::Err(f) => r matches Err(e) && e@ == f,
    }
}

proof fn lemma_notes_step(toks: Seq<Seq<char>>, k: int, done: Seq<PNoteV>, p: PNoteV)
    requires
        0 <= k < toks.len(),
        !starts_dashdash(toks[k]),
        spec_parse_note(trimmed(toks[k])) == Result::<PNoteV, FaultV>::Ok(p),
        match spec_parse_notes_from(toks, k, false) {
            Result::Ok(rest) => spec_parse_notes_from(toks, 0, false) == Result::<
                Seq<PNoteV>,
                FaultV,
            >::Ok(done + rest),
            Result::Err(f) => spec_parse_notes_from(toks, 0, false) == Result::<
                Seq<PNoteV>,
                FaultV,
            >::Err(f),
        },
    ensures
        match spec_parse_notes_from(toks, k + 1, false) {
            Result::Ok(rest) => spec_parse_notes_from(toks, 0, false) == Result::<
                Seq<PNoteV>,
                FaultV,
            >::Ok((done + seq![p]) + rest),
            Result::Err(f) => spec_parse_notes_from(toks, 0, false) == Result::<
                Seq<PNoteV>,
                FaultV,
            >::Err(f),
        },
{
    if spec_parse_notes_from(toks, k + 1, false) is Ok {
        let rest = spec_parse_notes_from(toks, k + 1, false)->Ok_0;
        assert(spec_parse_notes_from(toks, k, false) == Result::<Seq<PNoteV>, FaultV>::Ok(
            seq![p] + rest,
        ));
        assert(done + (seq![p] + rest) =~= (done + seq![p]) + rest);
    }
}

proof fn lemma_notes_finish(toks: Seq<Seq<char>>, done: Seq<PNoteV>)
    requires
        match spec_parse_notes_from(toks, toks.len() as int, false) {
            Result::Ok(rest) => spec_parse_notes_from(toks, 0, false) == Result::<
                Seq<PNoteV>,
                FaultV,
            >::Ok(done + rest),
            Result::Err(f) => spec_parse_notes_from(toks, 0, false) == Result::<
                Seq<PNoteV>,
                FaultV,
            >::Err(f),
        },
    ensures
        spec_parse_notes_from(toks, 0, false) == Result::<Seq<PNoteV>, FaultV>::Ok(done),
{
    assert(done + Seq::<PNoteV>::empty() =~= done);
}

impl MidiParser {
    /// Compiles a whole composition: every note token in order, skipping
    /// stray `--` flags (and the token after each) that reach this stage.
    pub fn parse_notes(&self, input: &str) -> (r: Result<Vec<Note>, MusicError>)
        requires
            self.wf(),
        ensures
            notes_result_matches(r, input@, self.bpm as int),
    {
        let v = chars_of(input);
        let n = v.len();

        // Tokenize: spaces split, except inside an arpeggio's parentheses.
        let mut spans: Vec<crate::text::Span> = Vec::new();
        let mut start: usize = 0;
        let mut in_paren: bool = false;
        let mut i: usize = 0;
        while i < n
            invariant
                start <= i <= n,
                n == v@.len(),
                spans_wf(v@, spans@),
                note_tok_run(v@, i as int).toks == spans_text(v@, spans@),
                note_tok_run(v@, i as int).cur == v@.subrange(start as int, i as int),
                note_tok_run(v@, i as int).in_paren == in_paren,
            decreases n - i,
        {
            let c = v[i];
            proof {
                assert(note_tok_run(v@, i as int + 1) == note_tok_step(
                    note_tok_run(v@, i as int),
                    v@[i as int],
                ));
            }
            if c == '(' {
                in_paren = true;
                i = i + 1;
            } else if c == ')' {
                in_paren = false;
                i = i + 1;
            } else if exec_is_space(c) && !in_paren {
                if i > start {
                    let ghost old_spans = spans@;
                    spans.push(crate::text::Span { lo: start, hi: i });
                    proof {
                        assert(spans_text(v@, spans@) =~= spans_text(v@, old_spans).push(
                            v@.subrange(start as int, i as int),
                        ));
                    }
                }
                i = i + 1;
                start = i;
                proof {
                    assert(v@.subrange(start as int, i as int) =~= Seq::<char>::empty());
                }
            } else {
                i = i + 1;
            }
            proof {
                assert(v@.subrange(start as int, i as int) =~= note_tok_run(v@, i as int).cur);
            }
        }
        if i > start {
            let ghost old_spans = spans@;
            spans.push(crate::text::Span { lo: start, hi: i });
            proof {
                assert(spans_text(v@, spans@) =~= spans_text(v@, old_spans).push(
                    v@.subrange(start as int, i as int),
                ));
                assert(spans_text(v@, spans@) == note_tokens(v@));
            }
        } else {
            proof {
                assert(spans_text(v@, spans@) == note_tokens(v@));
            }
        }
        let ghost toks_s = note_tokens(input@);
        proof {
            assert(spans_text(v@, spans@) == toks_s);
        }

        // Compile each token; skip `--` flags and their values.
        let mut notes: Vec<Note> = Vec::new();
        let ghost mut done: Seq<PNoteV> = Seq::empty();
        let mut skip_next: bool = false;
        let mut k: usize = 0;
        proof {
            if spec_parse_notes_from(toks_s, 0, false) is Ok {
                let rest = spec_parse_notes_from(toks_s, 0, false)->Ok_0;
                assert(Seq::<PNoteV>::empty() + rest =~= rest);
            }
        }
        while k < spans.len()
            invariant
                self.wf(),
                k <= spans@.len(),
                n == v@.len(),
                spans_wf(v@, spans@),
                toks_s == spans_text(v@, spans@),
                toks_s == note_tokens(input@),
                toks_s.len() == spans@.len(),
                notes@.len() == done.len(),
                forall|j: int| 0 <= j < done.len() ==> note_matches(
                    notes@[j],
                    done[j],
                    self.bpm as int,
                ),
                match spec_parse_notes_from(toks_s, k as int, skip_next) {
                    Result::Ok(rest) => spec_parse_notes_from(toks_s, 0, false) == Result::<
                        Seq<PNoteV>,
                        FaultV,
                    >::Ok(done + rest),
                    Result::Err(f) => spec_parse_notes_from(toks_s, 0, false) == Result::<
                        Seq<PNoteV>,
                        FaultV,
                    >::Err(f),
                },
            decreases spans@.len() - k,
        {
            let span = spans[k];
            let ghost tok = toks_s[k as int];
            let is_flag = span.hi - span.lo >= 2 && v[span.lo] == '-' && v[span.lo + 1] == '-';
            proof {
                assert(tok == v@.subrange(span.lo as int, span.hi as int));
                if span.hi - span.lo >= 2 {
                    assert(tok[0] == v@[span.lo as int]);
                    assert(tok[1] == v@[span.lo as int + 1]);
                }
                assert(is_flag == starts_dashdash(tok));
            }
            if is_flag {
                proof {
                    assert(spec_parse_notes_from(toks_s, k as int, skip_next)
                        == spec_parse_notes_from(toks_s, k as int + 1, true));
                }
                skip_next = true;
                k = k + 1;
            } else if skip_next {
                proof {
                    assert(spec_parse_notes_from(toks_s, k as int, true)
                        == spec_parse_notes_from(toks_s, k as int + 1, false));
                }
                skip_next = false;
                k = k + 1;
            } else {
                let t_raw = subvec(&v, span.lo, span.hi);
                let sp = trim_span(&t_raw);
                let t = subvec(&t_raw, sp.lo, sp.hi);
                proof {
                    assert(t@ == trimmed(tok));
                }
                match self.parse_note_chars(&t) {
                    Err(e) => {
                        proof {
                            assert(spec_parse_notes_from(toks_s, k as int, false) == Result::<
                                Seq<PNoteV>,
                                FaultV,
                            >::Err(e@));
                        }
                        return Err(e);
                    },
                    Ok(note) => {
                        let ghost p = spec_parse_note(trimmed(tok))->Ok_0;
                        proof {
                            lemma_notes_step(toks_s, k as int, done, p);
                        }
                        notes.push(note);
                        proof {
                            let done_old = done;
                            done = done.push(p);
                            assert(done =~= done_old + seq![p]);
                        }
                        k = k + 1;
                    },
                }
            }
        }
        proof {
            lemma_notes_finish(toks_s, done);
        }
        Ok(notes)
    }
}

/// Checks a composition's syntax alone: compiles it at the default tempo of
/// 120 beats per minute, with no audio device anywhere near.
pub fn validate_midi_composition(input: &str) -> (r: Result<Vec<Note>, MusicError>)
    ensures
        notes_result_matches(r, input@, 120),
{
    let parser = MidiParser { bpm: 120 };
    parser.parse_notes(input)
}

} // verus!
