use vstd::prelude::*;
use crate::notes::{Note, Waveform};

verus! {

/// Samples per second of every rendered buffer.
pub const SAMPLE_RATE: u32 = 48000;

/// `a / b` rounded to the nearest integer, halves rounding up.
pub open spec fn round_div(a: int, b: int) -> int {
    (2 * a + b) / (2 * b)
}

/// Samples in a span of `num / den` seconds at the fixed sample rate.
pub open spec fn spec_span_samples(num: int, den: int) -> int {
    round_div(48000 * num, den)
}

/// One uninterrupted stretch of sound (or silence) to synthesize: a pitch or
/// a rest, its length in samples, and how to shape it.
#[derive(Clone, Copy, Debug, PartialEq)]
pub struct Segment {
    /// MIDI pitch to sound; a rest when absent.
    pub pitch: Option<u8>,
    /// How many samples the segment spans.
    pub samples: u64,
    pub waveform: Waveform,
    /// Volume in millionths of full scale.
    pub volume: u32,
    pub adsr: bool,
    pub vibrato: bool,
}

/// The segments a note becomes: one per arpeggio pitch, splitting the note's
/// time evenly, or a single stretch of tone or silence.
pub open spec fn spec_plan_note(n: Note) -> Seq<Segment> {
    if n.arpeggio_notes@.len() > 0 {
        Seq::new(
            n.arpeggio_notes@.len(),
            |k: int|
                Segment {
                    pitch: Some(n.arpeggio_notes@[k]),
                    samples: spec_span_samples(
                        n.duration.num as int,
                        n.duration.den as int * n.arpeggio_notes@.len() as int,
                    ) as u64,
                    waveform: n.waveform,
                    volume: n.volume,
                    adsr: n.adsr,
                    vibrato: n.vibrato,
                },
        )
    } else {
        seq![
            Segment {
                pitch: n.pitch,
                samples: spec_span_samples(n.duration.num as int, n.duration.den as int) as u64,
                waveform: n.waveform,
                volume: n.volume,
                adsr: n.adsr,
                vibrato: n.vibrato,
            },
        ]
    }
}

/// The segments of a whole note list, in order.
pub open spec fn spec_plan_notes(notes: Seq<Note>) -> Seq<Segment>
    decreases notes.len(),
{
    if notes.len() == 0 {
        seq![]
    } else {
        spec_plan_notes(notes.drop_last()) + spec_plan_note(notes.last())
    }
}

/// Samples in a span of `num / den` seconds, rounded to the nearest sample.
pub fn span_samples(num: u32, den: u128) -> (r: u64)
    requires
        den >= 1,
        den as int <= 0xFFFFFFFF as int * 0xFFFFFFFFFFFFFFFF as int,
    ensures
        r == spec_span_samples(num as int, den as int),
{
    let a: u128 = 48000u128 * (num as u128);
    let b: u128 = den;
    let q: u128 = (2 * a + b) / (2 * b);
    proof {
        assert((2 * a + b) / (2 * b) <= a + 1) by (nonlinear_arith)
            requires
                b >= 1,
                a >= 0,
        ;
    }
    q as u64
}

/// Lays one note out as segments, exactly as `spec_plan_note` describes:
/// an arpeggio divides the note's duration evenly among its pitches.
pub fn plan_note(n: &Note) -> (r: Vec<Segment>)
    requires
        n.duration.wf(),
    ensures
        r@ == spec_plan_note(*n),
{
    let mut r: Vec<Segment> = Vec::new();
    let arp_len = n.arpeggio_notes.len();
    if arp_len > 0 {
        proof {
            assert(n.duration.den as int * arp_len as int >= 1) by (nonlinear_arith)
                requires
                    n.duration.den >= 1,
                    arp_len >= 1,
            ;
            assert(n.duration.den as int * arp_len as int <= 0xFFFFFFFF as int
                * 0xFFFFFFFFFFFFFFFF as int) by (nonlinear_arith)
                requires
                    n.duration.den < 0x100000000,
                    arp_len < 0x10000000000000000,
            ;
        }
        let seg_den: u128 = (n.duration.den as u128) * (arp_len as u128);
        let count = span_samples(n.duration.num, seg_den);
        let mut k: usize = 0;
        while k < arp_len
            invariant
                k <= arp_len,
                arp_len == n.arpeggio_notes@.len(),
                seg_den == n.duration.den as int * arp_len as int,
                count == spec_span_samples(
                    n.duration.num as int,
                    n.duration.den as int * arp_len as int,
                ),
                r@ == spec_plan_note(*n).subrange(0, k as int),
            decreases arp_len - k,
        {
            r.push(
                Segment {
                    pitch: Some(n.arpeggio_notes[k]),
                    samples: count,
                    waveform: n.waveform,
                    volume: n.volume,
                    adsr: n.adsr,
                    vibrato: n.vibrato,
                },
            );
            k = k + 1;
            proof {
                assert(r@ =~= spec_plan_note(*n).subrange(0, k as int));
            }
        }
        proof {
            assert(r@ =~= spec_plan_note(*n));
        }
    } else {
        let count = span_samples(n.duration.num, n.duration.den as u128);
        r.push(
            Segment {
                pitch: n.pitch,
                samples: count,
                waveform: n.waveform,
                volume: n.volume,
                adsr: n.adsr,
                vibrato: n.vibrato,
            },
        );
        proof {
            assert(r@ =~= spec_plan_note(*n));
        }
    }
    r
}

/// Lays a whole note list out as segments, in playing order.
pub fn plan_notes(notes: &Vec<Note>) -> (r: Vec<Segment>)
    requires
        forall|k: int| 0 <= k < notes@.len() ==> (#[trigger] notes@[k]).duration.wf(),
    ensures
        r@ == spec_plan_notes(notes@),
{
    let mut r: Vec<Segment> = Vec::new();
    let mut i: usize = 0;
    proof {
        assert(notes@.subrange(0, 0) =~= Seq::<Note>::empty());
        assert(r@ =~= spec_plan_notes(notes@.subrange(0, 0)));
    }
    while i < notes.len()
        invariant
            i <= notes@.len(),
            forall|k: int| 0 <= k < notes@.len() ==> (#[trigger] notes@[k]).duration.wf(),
            r@ == spec_plan_notes(notes@.subrange(0, i as int)),
        decreases notes@.len() - i,
    {
        let mut segs = plan_note(&notes[i]);
        let ghost old_r = r@;
        r.append(&mut segs);
        i = i + 1;
        proof {
            let pre = notes@.subrange(0, i as int);
            assert(pre.drop_last() =~= notes@.subrange(0, i as int - 1));
            assert(pre.last() == notes@[i as int - 1]);
            assert(r@ =~= spec_plan_notes(pre));
        }
    }
    proof {
        assert(notes@.subrange(0, notes@.len() as int) =~= notes@);
    }
    r
}

/// Total samples of a segment plan.
pub open spec fn spec_total_samples(segs: Seq<Segment>) -> int
    decreases segs.len(),
{
    if segs.len() == 0 {
        0
    } else {
        spec_total_samples(segs.drop_last()) + segs.last().samples
    }
}

/// Sums a plan's sample counts, saturating at `u64::MAX`.
pub fn total_samples(segs: &Vec<Segment>) -> (r: u64)
    ensures
        r as int == if spec_total_samples(segs@) > u64::MAX {
            u64::MAX as int
        } else {
            spec_total_samples(segs@)
        },
{
    let mut acc: u64 = 0;
    let mut i: usize = 0;
    proof {
        assert(segs@.subrange(0, 0) =~= Seq::<Segment>::empty());
    }
    while i < segs.len()
        invariant
            i <= segs@.len(),
            acc as int == if spec_total_samples(segs@.subrange(0, i as int)) > u64::MAX {
                u64::MAX as int
            } else {
                spec_total_samples(segs@.subrange(0, i as int))
            },
        decreases segs@.len() - i,
    {
        let s = segs[i].samples;
        if acc > u64::MAX - s {
            acc = u64::MAX;
        } else {
            acc = acc + s;
        }
        i = i + 1;
        proof {
            let pre = segs@.subrange(0, i as int);
            assert(pre.drop_last() =~= segs@.subrange(0, i as int - 1));
            assert(pre.last() == segs@[i as int - 1]);
        }
    }
    proof {
        assert(segs@.subrange(0, segs@.len() as int) =~= segs@);
    }
    acc
}

// ---------------------------------------------------------------------------
// The ADSR envelope
// ---------------------------------------------------------------------------

/// The envelope at sample `i` of `n`, as the exact fraction `num / den`:
/// attack rises over the first 5% of the note, decay falls to 0.7 by 20%,
/// sustain holds 0.7 until 80%, release falls to zero at the end.
pub fn adsr_envelope(i: u64, n: u64) -> (r: (u64, u64))
    requires
        i < n,
        n <= 0x100000000000000,
    ensures
        r.1 >= 1,
        r.0 <= r.1,
        20 * i < n ==> r.0 == 20 * i && r.1 == n,
        n <= 20 * i && 5 * i < n ==> r.0 == 11 * n - 20 * i && r.1 == 10 * n,
        n <= 5 * i && 5 * i < 4 * n ==> r.0 == 7 && r.1 == 10,
        4 * n <= 5 * i ==> r.0 == 7 * (n - i) && r.1 == 2 * n,
{
    if 20 * i < n {
        (20 * i, n)
    } else if 5 * i < n {
        ((11 * n) - (20 * i), 10 * n)
    } else if 5 * i < 4 * n {
        (7, 10)
    } else {
        (7 * (n - i), 2 * n)
    }
}

// ---------------------------------------------------------------------------
// Mixing lengths
// ---------------------------------------------------------------------------

/// The largest of a list of numbers; zero when the list is empty.
pub open spec fn seq_max(s: Seq<u64>) -> int
    decreases s.len(),
{
    if s.len() == 0 {
        0
    } else if s.last() as int > seq_max(s.drop_last()) {
        s.last() as int
    } else {
        seq_max(s.drop_last())
    }
}

/// The length of a mix: as long as its longest channel, every shorter
/// channel contributing silence past its own end.
pub fn mix_length(lengths: &Vec<u64>) -> (r: u64)
    ensures
        r == seq_max(lengths@),
        forall|k: int| 0 <= k < lengths@.len() ==> lengths@[k] <= r,
{
    let mut best: u64 = 0;
    let mut i: usize = 0;
    proof {
        assert(lengths@.subrange(0, 0) =~= Seq::<u64>::empty());
    }
    while i < lengths.len()
        invariant
            i <= lengths@.len(),
            best == seq_max(lengths@.subrange(0, i as int)),
            forall|k: int| 0 <= k < i ==> lengths@[k] <= best,
        decreases lengths@.len() - i,
    {
        if lengths[i] > best {
            best = lengths[i];
        }
        i = i + 1;
        proof {
            let pre = lengths@.subrange(0, i as int);
            assert(pre.drop_last() =~= lengths@.subrange(0, i as int - 1));
            assert(pre.last() == lengths@[i as int - 1]);
        }
    }
    proof {
        assert(lengths@.subrange(0, lengths@.len() as int) =~= lengths@);
    }
    best
}


// ---------------------------------------------------------------------------
// WAV serialization: 16-bit signed PCM, mono, 48,000 Hz
// ---------------------------------------------------------------------------

/// A 16-bit value as its two little-endian bytes.
pub open spec fn le16(x: int) -> Seq<u8> {
    seq![(x % 256) as u8, ((x / 256) % 256) as u8]
}

/// A 32-bit value as its four little-endian bytes.
pub open spec fn le32(x: int) -> Seq<u8> {
    seq![
        (x % 256) as u8,
        ((x / 256) % 256) as u8,
        ((x / 65536) % 256) as u8,
        ((x / 16777216) % 256) as u8,
    ]
}

/// A sample's 16-bit two's-complement bit pattern.
pub open spec fn sample_bits(s: i16) -> int {
    if s >= 0 {
        s as int
    } else {
        s as int + 65536
    }
}

/// All samples, each as two little-endian bytes.
pub open spec fn sample_bytes(samples: Seq<i16>) -> Seq<u8>
    decreases samples.len(),
{
    if samples.len() == 0 {
        seq![]
    } else {
        sample_bytes(samples.drop_last()) + le16(sample_bits(samples.last()))
    }
}

/// The canonical 44-byte RIFF/WAVE header over `data_len` bytes of 16-bit
/// mono PCM at 48,000 Hz.
pub open spec fn wav_header(data_len: int) -> Seq<u8> {
    seq![0x52u8, 0x49u8, 0x46u8, 0x46u8]  // "RIFF"
    + le32(36 + data_len)
    + seq![0x57u8, 0x41u8, 0x56u8, 0x45u8]  // "WAVE"
    + seq![0x66u8, 0x6du8, 0x74u8, 0x20u8]  // "fmt "
    + le32(16)  // chunk size
    + le16(1)  // PCM
    + le16(1)  // mono
    + le32(48000)  // sample rate
    + le32(96000)  // byte rate
    + le16(2)  // block align
    + le16(16)  // bits per sample
    + seq![0x64u8, 0x61u8, 0x74u8, 0x61u8]  // "data"
    + le32(data_len)
}

/// The whole WAV image of a sample list.
pub open spec fn spec_wav_bytes(samples: Seq<i16>) -> Seq<u8> {
    wav_header(2 * samples.len() as int) + sample_bytes(samples)
}

fn push_le16(out: &mut Vec<u8>, x: u16)
    ensures
        final(out)@ == old(out)@ + le16(x as int),
{
    out.push((x % 256) as u8);
    out.push(((x / 256) % 256) as u8);
    proof {
        assert(out@ =~= old(out)@ + le16(x as int));
    }
}

fn push_le32(out: &mut Vec<u8>, x: u32)
    ensures
        final(out)@ == old(out)@ + le32(x as int),
{
    out.push((x % 256) as u8);
    out.push(((x / 256) % 256) as u8);
    out.push(((x / 65536) % 256) as u8);
    out.push(((x / 16777216) % 256) as u8);
    proof {
        assert(out@ =~= old(out)@ + le32(x as int));
    }
}

/// Serializes samples as a WAV file: the 44-byte header, then each sample as
/// two little-endian bytes. The length bound is the format's own: chunk
/// sizes are 32-bit.
pub fn wav_bytes(samples: &Vec<i16>) -> (r: Vec<u8>)
    requires
        2 * samples@.len() + 36 <= 0xFFFFFFFF,
    ensures
        r@ == spec_wav_bytes(samples@),
        r@.len() == 44 + 2 * samples@.len(),
{
    let n = samples.len();
    let data_len: u32 = 2 * (n as u32);
    let mut out: Vec<u8> = Vec::new();
    out.push(0x52);
    out.push(0x49);
    out.push(0x46);
    out.push(0x46);
    push_le32(&mut out, 36 + data_len);
    out.push(0x57);
    out.push(0x41);
    out.push(0x56);
    out.push(0x45);
    out.push(0x66);
    out.push(0x6d);
    out.push(0x74);
    out.push(0x20);
    push_le32(&mut out, 16);
    push_le16(&mut out, 1);
    push_le16(&mut out, 1);
    push_le32(&mut out, 48000);
    push_le32(&mut out, 96000);
    push_le16(&mut out, 2);
    push_le16(&mut out, 16);
    out.push(0x64);
    out.push(0x61);
    out.push(0x74);
    out.push(0x61);
    push_le32(&mut out, data_len);
    proof {
        assert(out@ =~= wav_header(2 * samples@.len() as int));
        assert(sample_bytes(samples@.subrange(0, 0)) =~= Seq::<u8>::empty());
        assert(out@ =~= wav_header(2 * samples@.len() as int) + sample_bytes(
            samples@.subrange(0, 0),
        ));
    }
    let mut i: usize = 0;
    while i < n
        invariant
            i <= n,
            n == samples@.len(),
            out@ == wav_header(2 * samples@.len() as int) + sample_bytes(
                samples@.subrange(0, i as int),
            ),
        decreases n - i,
    {
        let s = samples[i];
        let bits: u16 = if s >= 0 {
            s as u16
        } else {
            ((s as i32) + 65536) as u16
        };
        proof {
            assert(bits as int == sample_bits(samples@[i as int]));
        }
        push_le16(&mut out, bits);
        i = i + 1;
        proof {
            let pre = samples@.subrange(0, i as int);
            assert(pre.drop_last() =~= samples@.subrange(0, i as int - 1));
            assert(pre.last() == samples@[i as int - 1]);
            assert(out@ =~= wav_header(2 * samples@.len() as int) + sample_bytes(pre));
        }
    }
    proof {
        assert(samples@.subrange(0, n as int) =~= samples@);
        assert(spec_wav_bytes(samples@).len() == 44 + 2 * samples@.len()) by {
            lemma_sample_bytes_len(samples@);
        }
    }
    out
}

/// Two bytes per sample.
pub proof fn lemma_sample_bytes_len(samples: Seq<i16>)
    ensures
        sample_bytes(samples).len() == 2 * samples.len(),
    decreases samples.len(),
{
    if samples.len() > 0 {
        lemma_sample_bytes_len(samples.drop_last());
    }
}

} // verus!
