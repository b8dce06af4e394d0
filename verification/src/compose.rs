use vstd::prelude::*;
use crate::channels::{parse_channels, ChannelConfig, ChannelV, spec_parse_channels};
use crate::errors::{FaultV, MusicError};
use crate::notes::{
    note_matches, spec_parse_notes, MidiParser, Note, PNoteV, VOLUME_UNIT,
};
use crate::text::{chars_of, range_eq_str, spans_text, spans_wf, split_spaces, ws_tokens};

verus! {

/// Copies a byte vector; the arpeggio pitch lists below need one.
fn copy_pitches(v: &Vec<u8>) -> (r: Vec<u8>)
    ensures
        r@ == v@,
{
    let mut r: Vec<u8> = Vec::new();
    let mut i: usize = 0;
    while i < v.len()
        invariant
            i <= v@.len(),
            r@ == v@.subrange(0, i as int),
        decreases v@.len() - i,
    {
        r.push(v[i]);
        i = i + 1;
        proof {
            assert(r@ =~= v@.subrange(0, i as int));
        }
    }
    proof {
        assert(r@ =~= v@);
    }
    r
}

/// How one compiled note looks once its channel's defaults are applied: the
/// channel's volume replaces a full-volume note, and the channel's envelope
/// and vibrato switches hold for every note.
pub open spec fn note_matches_applied(n: Note, p: PNoteV, c: ChannelV, bpm: int) -> bool {
    &&& match (n.pitch, p.pitch) {
        (Some(a), Some(b)) => a as int == b,
        (None, None) => true,
        _ => false,
    }
    &&& n.duration.num == 240
    &&& n.duration.den == p.dur_token * bpm
    &&& n.waveform == p.waveform
    &&& n.volume as int == (if c.volume is Some && p.volume == VOLUME_UNIT {
        c.volume->0
    } else {
        p.volume
    })
    &&& n.arpeggio_notes@.map_values(|x: u8| x as int) == p.arpeggio
    &&& n.adsr == c.adsr
    &&& n.vibrato == c.vibrato
}

/// Applies a channel's inherited defaults to its compiled notes: a set
/// channel volume replaces each note's default full volume, and the
/// channel's adsr/vibrato switches are stamped onto every note.
pub fn apply_channel_defaults(notes: &mut Vec<Note>, channel: &ChannelConfig)
    ensures
        final(notes)@.len() == old(notes)@.len(),
        forall|k: int|
            0 <= k < old(notes)@.len() ==> {
                let b = old(notes)@[k];
                let a = #[trigger] final(notes)@[k];
                &&& a.pitch == b.pitch
                &&& a.duration == b.duration
                &&& a.waveform == b.waveform
                &&& a.arpeggio_notes@ == b.arpeggio_notes@
                &&& a.volume as int == (if channel@.volume is Some && b.volume == VOLUME_UNIT {
                    channel@.volume->0
                } else {
                    b.volume as int
                })
                &&& a.adsr == channel@.adsr
                &&& a.vibrato == channel@.vibrato
            },
{
    let n = notes.len();
    let mut out: Vec<Note> = Vec::new();
    let mut i: usize = 0;
    while i < n
        invariant
            i <= n,
            n == old(notes)@.len(),
            notes@ == old(notes)@,
            out@.len() == i,
            forall|k: int|
                0 <= k < i ==> {
                    let b = old(notes)@[k];
                    let a = #[trigger] out@[k];
                    &&& a.pitch == b.pitch
                    &&& a.duration == b.duration
                    &&& a.waveform == b.waveform
                    &&& a.arpeggio_notes@ == b.arpeggio_notes@
                    &&& a.volume as int == (if channel@.volume is Some && b.volume == VOLUME_UNIT {
                        channel@.volume->0
                    } else {
                        b.volume as int
                    })
                    &&& a.adsr == channel@.adsr
                    &&& a.vibrato == channel@.vibrato
                },
        decreases n - i,
    {
        let src = &notes[i];
        let volume: u32 = match channel.volume {
            Some(cv) => {
                if src.volume == VOLUME_UNIT {
                    cv
                } else {
                    src.volume
                }
            },
            None => src.volume,
        };
        let replaced = Note {
            pitch: src.pitch,
            duration: src.duration,
            waveform: src.waveform,
            volume,
            arpeggio_notes: copy_pitches(&src.arpeggio_notes),
            adsr: channel.adsr,
            vibrato: channel.vibrato,
        };
        out.push(replaced);
        i = i + 1;
    }
    *notes = out;
}

/// Does the input name `--channel` as a token anywhere?
pub open spec fn has_channel_token(s: Seq<char>) -> bool {
    exists|k: int| 0 <= k < ws_tokens(s).len() && ws_tokens(s)[k] == "--channel"@
}

/// True exactly when a `--channel` token occurs in the input; without one,
/// the whole input is a single implicit channel and mixing is bypassed.
pub fn has_channel_flag(input: &str) -> (r: bool)
    ensures
        r == has_channel_token(input@),
{
    let v = chars_of(input);
    let spans = split_spaces(&v);
    let ghost toks = ws_tokens(input@);
    proof {
        assert(spans_text(v@, spans@) == toks);
    }
    let mut i: usize = 0;
    while i < spans.len()
        invariant
            i <= spans@.len(),
            spans_wf(v@, spans@),
            toks == spans_text(v@, spans@),
            toks == ws_tokens(input@),
            toks.len() == spans@.len(),
            forall|k: int| 0 <= k < i ==> toks[k] != "--channel"@,
        decreases spans@.len() - i,
    {
        let span = spans[i];
        if range_eq_str(&v, span.lo, span.hi, "--channel") {
            proof {
                assert(toks[i as int] == "--channel"@);
            }
            return true;
        }
        i = i + 1;
    }
    false
}

/// Compiling every channel of a split composition, left to right; the first
/// channel whose composition is bad decides the outcome.
pub open spec fn spec_compile_from(chs: Seq<ChannelV>, i: int) -> Result<Seq<Seq<PNoteV>>, FaultV>
    decreases chs.len() - i,
{
    if i < 0 || i >= chs.len() {
        Result::Ok(seq![])
    } else {
        match spec_parse_notes(chs[i].composition) {
            Result::Err(f) => Result::Err(f),
            Result::Ok(ps) => match spec_compile_from(chs, i + 1) {
                Result::Err(f) => Result::Err(f),
                Result::Ok(rest) => Result::Ok(seq![ps] + rest),
            },
        }
    }
}

/// A whole composition, compiled and ready for synthesis.
pub struct CompiledComposition {
    /// Per channel, its notes with the channel defaults applied.
    pub channels: Vec<Vec<Note>>,
    /// The tempo every duration was computed at.
    pub bpm: u16,
    /// Whether the composition is a single implicit channel, which bypasses
    /// mixing and is the only form that looping playback accepts.
    pub single: bool,
}

proof fn lemma_compile_step(chs: Seq<ChannelV>, k: int, done: Seq<Seq<PNoteV>>, p: Seq<PNoteV>)
    requires
        0 <= k < chs.len(),
        spec_parse_notes(chs[k].composition) == Result::<Seq<PNoteV>, FaultV>::Ok(p),
        match spec_compile_from(chs, k) {
            Result::Ok(rest) => spec_compile_from(chs, 0) == Result::<Seq<Seq<PNoteV>>, FaultV>::Ok(
                done + rest,
            ),
            Result::Err(f) => spec_compile_from(chs, 0) == Result::<Seq<Seq<PNoteV>>, FaultV>::Err(
                f,
            ),
        },
    ensures
        match spec_compile_from(chs, k + 1) {
            Result::Ok(rest) => spec_compile_from(chs, 0) == Result::<Seq<Seq<PNoteV>>, FaultV>::Ok(
                (done + seq![p]) + rest,
            ),
            Result::Err(f) => spec_compile_from(chs, 0) == Result::<Seq<Seq<PNoteV>>, FaultV>::Err(
                f,
            ),
        },
{
    if spec_compile_from(chs, k + 1) is Ok {
        let rest = spec_compile_from(chs, k + 1)->Ok_0;
        assert(spec_compile_from(chs, k) == Result::<Seq<Seq<PNoteV>>, FaultV>::Ok(
            seq![p] + rest,
        ));
        assert(done + (seq![p] + rest) =~= (done + seq![p]) + rest);
    }
}

/// What compiling a whole input must yield, channel by channel.
pub open spec fn compiled_matches(cc: CompiledComposition, s: Seq<char>, default_bpm: int) -> bool {
    match spec_parse_channels(s) {
        Result::Err(_) => false,
        Result::Ok(pair) => match spec_compile_from(pair.0, 0) {
            Result::Err(_) => false,
            Result::Ok(pss) => {
                &&& cc.bpm as int == (match pair.1 {
                    Option::Some(b) => b,
                    Option::None => default_bpm,
                })
                &&& cc.single == (pair.0.len() == 1 && !has_channel_token(s))
                &&& cc.channels@.len() == pair.0.len()
                &&& pss.len() == pair.0.len()
                &&& forall|k: int|
                    0 <= k < pair.0.len() ==> {
                        let notes = (#[trigger] cc.channels@[k])@;
                        &&& notes.len() == pss[k].len()
                        &&& forall|j: int|
                            0 <= j < pss[k].len() ==> note_matches_applied(
                                notes[j],
                                pss[k][j],
                                pair.0[k],
                                cc.bpm as int,
                            )
                    }
            },
        },
    }
}

/// The faults a compilation can stop on, in the order the stages run:
/// the splitter's fault, else the first bad channel's.
pub open spec fn compile_fault(s: Seq<char>) -> Option<FaultV> {
    match spec_parse_channels(s) {
        Result::Err(f) => Option::Some(f),
        Result::Ok(pair) => match spec_compile_from(pair.0, 0) {
            Result::Err(f) => Option::Some(f),
            Result::Ok(_) => Option::None,
        },
    }
}

/// Compiles a raw input end to end: split into channels, read the tempo
/// (the override winning over `default_bpm`), compile each channel's notes
/// at that tempo, and stamp each channel's defaults onto its notes.
pub fn compile_composition(input: &str, default_bpm: u16) -> (r: Result<
    CompiledComposition,
    MusicError,
>)
    requires
        1 <= default_bpm <= 300,
    ensures
        match compile_fault(input@) {
            Option::Some(f) => r matches Err(e) && e@ == f,
            Option::None => r matches Ok(cc) && compiled_matches(cc, input@, default_bpm as int),
        },
{
    let (channels, bpm_opt) = match parse_channels(input) {
        Err(e) => {
            return Err(e);
        },
        Ok(p) => p,
    };
    let bpm: u16 = match bpm_opt {
        Some(b) => b,
        None => default_bpm,
    };
    let ghost chs = spec_parse_channels(input@)->Ok_0.0;
    proof {
        assert(channels@.map_values(|c: ChannelConfig| c@) == chs);
        assert(channels@.len() == chs.len());
    }
    let parser = MidiParser { bpm };
    let mut out: Vec<Vec<Note>> = Vec::new();
    let ghost mut done: Seq<Seq<PNoteV>> = Seq::empty();
    let mut k: usize = 0;
    proof {
        if spec_compile_from(chs, 0) is Ok {
            let rest = spec_compile_from(chs, 0)->Ok_0;
            assert(Seq::<Seq<PNoteV>>::empty() + rest =~= rest);
        }
    }
    while k < channels.len()
        invariant
            k <= channels@.len(),
            parser.bpm == bpm,
            1 <= bpm <= 300,
            parser.wf(),
            spec_parse_channels(input@) is Ok,
            chs == spec_parse_channels(input@)->Ok_0.0,
            chs == channels@.map_values(|c: ChannelConfig| c@),
            chs.len() == channels@.len(),
            out@.len() == done.len(),
            done.len() == k,
            forall|kk: int|
                0 <= kk < k ==> {
                    let notes = (#[trigger] out@[kk])@;
                    &&& notes.len() == done[kk].len()
                    &&& forall|j: int|
                        0 <= j < done[kk].len() ==> note_matches_applied(
                            notes[j],
                            done[kk][j],
                            chs[kk],
                            bpm as int,
                        )
                },
            match spec_compile_from(chs, k as int) {
                Result::Ok(rest) => spec_compile_from(chs, 0) == Result::<
                    Seq<Seq<PNoteV>>,
                    FaultV,
                >::Ok(done + rest),
                Result::Err(f) => spec_compile_from(chs, 0) == Result::<
                    Seq<Seq<PNoteV>>,
                    FaultV,
                >::Err(f),
            },
        decreases channels@.len() - k,
    {
        let channel = &channels[k];
        proof {
            assert(channel@ == chs[k as int]);
        }
        let mut notes = match parser.parse_notes(channel.composition.as_str()) {
            Err(e) => {
                proof {
                    assert(spec_compile_from(chs, k as int) == Result::<
                        Seq<Seq<PNoteV>>,
                        FaultV,
                    >::Err(e@));
                }
                return Err(e);
            },
            Ok(ns) => ns,
        };
        let ghost ps = spec_parse_notes(chs[k as int].composition)->Ok_0;
        apply_channel_defaults(&mut notes, channel);
        proof {
            lemma_compile_step(chs, k as int, done, ps);
        }
        out.push(notes);
        proof {
            let done_old = done;
            done = done.push(ps);
            assert(done =~= done_old + seq![ps]);
        }
        k = k + 1;
    }
    proof {
        assert(done + Seq::<Seq<PNoteV>>::empty() =~= done);
        assert(spec_compile_from(chs, 0) == Result::<Seq<Seq<PNoteV>>, FaultV>::Ok(done));
    }
    let single = channels.len() == 1 && !has_channel_flag(input);
    Ok(CompiledComposition { channels: out, bpm, single })
}

} // verus!
