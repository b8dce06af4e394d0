use vstd::prelude::*;
use crate::notes::{
    midi_pitch, note_matches, spec_mods, ModsV, Note, PNoteV, Waveform, VOLUME_UNIT,
};
use crate::render::{spec_plan_note, spec_span_samples};
use crate::errors::FaultV;
use crate::text::{digit_val, is_digit};

verus! {

/// The duration rule: every note a parse yields measures, as an exact
/// fraction of seconds, `(4 / token) * (60 / bpm)` — that is, its numerator
/// and denominator satisfy `num * token * bpm == 240 * den`, for every tempo
/// in 1..=300 and every duration token.
pub proof fn lemma_duration_rule(n: Note, p: PNoteV, bpm: int)
    requires
        note_matches(n, p, bpm),
        1 <= bpm <= 300,
    ensures
        n.duration.num as int * (p.dur_token * bpm) == 240 * n.duration.den as int,
{
}

/// The volume rule: a trailing `.d` names volume `d / 10` exactly (stored in
/// millionths), and a note with no modifiers at all keeps the defaults:
/// octave 4, a square wave, and full volume.
pub proof fn lemma_volume_digit(d: char)
    requires
        is_digit(d),
    ensures
        spec_mods(seq!['.', d]) == Result::<ModsV, FaultV>::Ok(
            ModsV { octave: 4, waveform: Waveform::Square, volume: digit_val(d) * 100000 },
        ),
        spec_mods(Seq::<char>::empty()) == Result::<ModsV, FaultV>::Ok(
            ModsV { octave: 4, waveform: Waveform::Square, volume: VOLUME_UNIT as int },
        ),
{
    let m = seq!['.', d];
    assert(!is_digit('.'));
    assert(crate::text::digit_end(m, 0) == 0);
    assert(m.subrange(0, 0) =~= Seq::<char>::empty());
    let e = Seq::<char>::empty();
    assert(crate::text::digit_end(e, 0) == 0);
}

/// The arpeggio rule: an arpeggio note becomes exactly one segment per
/// pitch, in order, and every segment spans the same number of samples —
/// the note's own span divided by the number of pitches, to the nearest
/// sample.
pub proof fn lemma_arpeggio_even_split(n: Note)
    requires
        n.duration.wf(),
        n.arpeggio_notes@.len() > 0,
    ensures
        spec_plan_note(n).len() == n.arpeggio_notes@.len(),
        forall|k: int|
            0 <= k < n.arpeggio_notes@.len() ==> {
                let seg = #[trigger] spec_plan_note(n)[k];
                &&& seg.pitch == Some(n.arpeggio_notes@[k])
                &&& seg.samples as int == spec_span_samples(
                    n.duration.num as int,
                    n.duration.den as int * n.arpeggio_notes@.len() as int,
                )
            },
        forall|k: int, j: int|
            0 <= k < n.arpeggio_notes@.len() && 0 <= j < n.arpeggio_notes@.len()
                ==> #[trigger] spec_plan_note(n)[k].samples == #[trigger] spec_plan_note(
                n,
            )[j].samples,
{
    let num = n.duration.num as int;
    let den = n.duration.den as int;
    let cnt = n.arpeggio_notes@.len() as int;
    assert(den * cnt >= 1) by (nonlinear_arith)
        requires
            den >= 1,
            cnt >= 1,
    ;
    let b = den * cnt;
    let a = 48000 * num;
    assert((2 * a + b) / (2 * b) >= 0 && (2 * a + b) / (2 * b) <= a + 1) by (nonlinear_arith)
        requires
            b >= 1,
            a >= 0,
    ;
    assert(spec_span_samples(num, b) <= 48000 * 0xFFFFFFFF + 1);
}

/// The rest rule: a rest (no pitch, no arpeggio) plans as one segment that
/// names no pitch — pure silence — spanning the note's whole duration,
/// rounded to the nearest sample.
pub proof fn lemma_rest_plan(n: Note)
    requires
        n.duration.wf(),
        n.pitch is None,
        n.arpeggio_notes@.len() == 0,
    ensures
        spec_plan_note(n).len() == 1,
        spec_plan_note(n)[0].pitch is None,
        spec_plan_note(n)[0].samples as int == spec_span_samples(
            n.duration.num as int,
            n.duration.den as int,
        ),
{
    let num = n.duration.num as int;
    let b = n.duration.den as int;
    let a = 48000 * num;
    assert((2 * a + b) / (2 * b) >= 0 && (2 * a + b) / (2 * b) <= a + 1) by (nonlinear_arith)
        requires
            b >= 1,
            a >= 0,
    ;
}

/// The pitch rule: a note letter at an octave within 1..=8, sharpened or
/// not, always lands between MIDI 24 and 120, so the 0..=127 clamp never
/// bites inside the legal grammar.
pub proof fn lemma_pitch_in_range(letter: char, octave: int, sharp: bool)
    requires
        crate::notes::is_note_letter(letter),
        1 <= octave <= 8,
    ensures
        24 <= midi_pitch(letter, octave, sharp) <= 120,
        midi_pitch(letter, octave, sharp) == 12 * (octave + 1) + crate::notes::letter_offset(
            letter,
        ) + (if sharp {
            1int
        } else {
            0int
        }),
{
}

} // verus!
