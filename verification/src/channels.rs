use vstd::prelude::*;
use vstd::string::StringExecFns;
use crate::errors::{FaultV, FlagKind, MusicError};
use crate::notes::VOLUME_UNIT;
use crate::text::{
    range_eq_str,
    chars_of,
    subvec,
    all_digits, capped_u32, digit_end, digits_val, digits_value, exec_is_digit, is_digit,
    lemma_digit_end, lemma_digits_val_upper, pow10, push_char, scan_digits, spans_text, spans_wf,
    split_spaces, string_of_range, ws_tokens, Span,
};

verus! {

/// One channel as the splitter hands it to the note compiler: the raw
/// composition text and the flag defaults the channel inherits.
#[derive(Debug, Clone, PartialEq)]
pub struct ChannelConfig {
    pub composition: String,
    /// Inherited volume in millionths of full scale, when one was set.
    pub volume: Option<u32>,
    pub adsr: bool,
    pub vibrato: bool,
}

/// The mathematical shadow of `ChannelConfig`.
pub struct ChannelV {
    pub composition: Seq<char>,
    pub volume: Option<int>,
    pub adsr: bool,
    pub vibrato: bool,
}

pub open spec fn opt_u32_view(o: Option<u32>) -> Option<int> {
    match o {
        Option::Some(x) => Option::Some(x as int),
        Option::None => Option::None,
    }
}

pub open spec fn opt_u16_view(o: Option<u16>) -> Option<int> {
    match o {
        Option::Some(x) => Option::Some(x as int),
        Option::None => Option::None,
    }
}

impl View for ChannelConfig {
    type V = ChannelV;

    open spec fn view(&self) -> ChannelV {
        ChannelV {
            composition: self.composition@,
            volume: opt_u32_view(self.volume),
            adsr: self.adsr,
            vibrato: self.vibrato,
        }
    }
}

// ---------------------------------------------------------------------------
// Flag values: decimal volumes and integer tempos
// ---------------------------------------------------------------------------

/// Index after the optional sign of a decimal.
pub open spec fn dec_sign_end(t: Seq<char>) -> int {
    if t.len() > 0 && (t[0] == '-' || t[0] == '+') {
        1
    } else {
        0
    }
}

pub open spec fn dec_neg(t: Seq<char>) -> bool {
    t.len() > 0 && t[0] == '-'
}

/// End of the integer digits of a decimal.
pub open spec fn dec_int_end(t: Seq<char>) -> int {
    digit_end(t, dec_sign_end(t))
}

/// A plain decimal: `[+|-] digits [. digits]`, with at least one digit.
pub open spec fn dec_shape_ok(t: Seq<char>) -> bool {
    let b = dec_sign_end(t);
    let d1 = dec_int_end(t);
    if d1 == t.len() {
        d1 > b
    } else {
        t[d1] == '.' && digit_end(t, d1 + 1) == t.len() && (d1 > b || t.len() > d1 + 1)
    }
}

pub open spec fn dec_int_val(t: Seq<char>) -> int {
    digits_val(t.subrange(dec_sign_end(t), dec_int_end(t)))
}

/// The digits after the decimal point, if any.
pub open spec fn dec_frac(t: Seq<char>) -> Seq<char> {
    if dec_int_end(t) < t.len() {
        t.subrange(dec_int_end(t) + 1, t.len() as int)
    } else {
        seq![]
    }
}

pub open spec fn all_zero_digits(s: Seq<char>) -> bool {
    forall|k: int| 0 <= k < s.len() ==> s[k] == '0'
}

/// Millionths contributed by the fraction digits: the first six count, the
/// rest lie below the stored resolution.
pub open spec fn frac_millionths(fr: Seq<char>) -> int {
    if fr.len() >= 6 {
        digits_val(fr.take(6))
    } else {
        digits_val(fr) * pow10(6 - fr.len())
    }
}

pub open spec fn dec_is_zero(t: Seq<char>) -> bool {
    dec_int_val(t) == 0 && all_zero_digits(dec_frac(t))
}

/// Exactly the decimals lying in [0, 1].
pub open spec fn dec_in_01(t: Seq<char>) -> bool {
    &&& (!dec_neg(t) || dec_is_zero(t))
    &&& (dec_int_val(t) == 0 || (dec_int_val(t) == 1 && all_zero_digits(dec_frac(t))))
}

/// The stored volume of an in-range decimal, in millionths.
pub open spec fn dec_millionths(t: Seq<char>) -> int {
    if dec_int_val(t) >= 1 {
        VOLUME_UNIT as int
    } else {
        frac_millionths(dec_frac(t))
    }
}

/// The signed value reported when a decimal lies outside [0, 1], truncated
/// to millionths and saturated on its integer part.
pub open spec fn dec_signed_millionths(t: Seq<char>) -> int {
    let mag = capped_u32(dec_int_val(t)) * 1000000 + frac_millionths(dec_frac(t));
    if dec_neg(t) {
        -mag
    } else {
        mag
    }
}

/// A tempo value: `[+] digits`.
pub open spec fn bpm_shape_ok(t: Seq<char>) -> bool {
    let b: int = if t.len() > 0 && t[0] == '+' {
        1
    } else {
        0
    };
    digit_end(t, b) == t.len() && t.len() > b
}

pub open spec fn bpm_val(t: Seq<char>) -> int {
    let b: int = if t.len() > 0 && t[0] == '+' {
        1
    } else {
        0
    };
    digits_val(t.subrange(b, t.len() as int))
}

// ---------------------------------------------------------------------------
// The splitter's state machine
// ---------------------------------------------------------------------------

/// One scope of flags: what `--volume`, `--adsr`, `--vibrato` have set.
pub struct FlagScopeV {
    pub volume: Option<int>,
    pub adsr: bool,
    pub vibrato: bool,
}

pub open spec fn scope_init() -> FlagScopeV {
    FlagScopeV { volume: None, adsr: false, vibrato: false }
}

/// Splitter state: global scope, the scope of the open channel, whether a
/// `--channel` awaits its composition, the channels built, and the tempo.
pub struct ChSt {
    pub globals: FlagScopeV,
    pub current: FlagScopeV,
    pub found: bool,
    pub channels: Seq<ChannelV>,
    pub bpm: Option<int>,
}

pub open spec fn ch_init() -> ChSt {
    ChSt {
        globals: scope_init(),
        current: scope_init(),
        found: false,
        channels: seq![],
        bpm: None,
    }
}

/// The five tokens the splitter recognizes as flags.
pub open spec fn is_flag_literal(t: Seq<char>) -> bool {
    t == "--volume"@ || t == "--bpm"@ || t == "--adsr"@ || t == "--vibrato"@ || t == "--channel"@
}

/// End of a composition run: the first flag token at or after `i`.
pub open spec fn comp_end(toks: Seq<Seq<char>>, i: int) -> int
    decreases toks.len() - i,
{
    if i < 0 || i >= toks.len() || is_flag_literal(toks[i]) {
        i
    } else {
        comp_end(toks, i + 1)
    }
}

pub proof fn lemma_comp_end(toks: Seq<Seq<char>>, i: int)
    requires
        0 <= i <= toks.len(),
    ensures
        i <= comp_end(toks, i) <= toks.len(),
        forall|k: int| i <= k < comp_end(toks, i) ==> !is_flag_literal(toks[k]),
        comp_end(toks, i) < toks.len() ==> is_flag_literal(toks[comp_end(toks, i)]),
        i < toks.len() && !is_flag_literal(toks[i]) ==> comp_end(toks, i) > i,
    decreases toks.len() - i,
{
    if i < toks.len() && !is_flag_literal(toks[i]) {
        lemma_comp_end(toks, i + 1);
    }
}

/// Tokens `i..j` joined with single spaces.
pub open spec fn join_tokens(toks: Seq<Seq<char>>, i: int, j: int) -> Seq<char>
    decreases j - i,
{
    if i < 0 || i >= j || j > toks.len() {
        seq![]
    } else if i + 1 == j {
        toks[i]
    } else {
        toks[i] + seq![' '] + join_tokens(toks, i + 1, j)
    }
}

/// Appending one more token to a join.
pub proof fn lemma_join_snoc(toks: Seq<Seq<char>>, i: int, m: int)
    requires
        0 <= i <= m < toks.len(),
    ensures
        join_tokens(toks, i, m + 1) == if m == i {
            toks[i]
        } else {
            join_tokens(toks, i, m) + seq![' '] + toks[m]
        },
    decreases m - i,
{
    if m > i {
        lemma_join_snoc(toks, i + 1, m);
        if m == i + 1 {
        } else {
            assert(toks[i] + seq![' '] + (join_tokens(toks, i + 1, m) + seq![' '] + toks[m]) =~= (
            toks[i] + seq![' '] + join_tokens(toks, i + 1, m)) + seq![' '] + toks[m]);
        }
    }
}

/// How a channel is sealed when its composition run ends.
pub open spec fn seal_channel(st: ChSt, comp: Seq<char>) -> ChannelV {
    if st.found {
        ChannelV {
            composition: comp,
            volume: if st.current.volume is Some {
                st.current.volume
            } else {
                st.globals.volume
            },
            adsr: st.current.adsr || st.globals.adsr,
            vibrato: st.current.vibrato || st.globals.vibrato,
        }
    } else {
        ChannelV {
            composition: comp,
            volume: st.globals.volume,
            adsr: st.globals.adsr,
            vibrato: st.globals.vibrato,
        }
    }
}

/// The splitter itself, one recognized token or composition run per step.
pub open spec fn spec_channels_from(toks: Seq<Seq<char>>, i: int, st: ChSt) -> Result<
    (Seq<ChannelV>, Option<int>),
    FaultV,
>
    decreases toks.len() - i,
    when 0 <= i <= toks.len()
    via spec_channels_from_decreases
{
    if i >= toks.len() {
        if st.found {
            Result::Err(FaultV::EmptyChannel)
        } else if st.channels.len() == 0 {
            Result::Err(FaultV::NoChannelsFound)
        } else {
            Result::Ok((st.channels, st.bpm))
        }
    } else {
        let tok = toks[i];
        if tok == "--volume"@ {
            if i + 1 >= toks.len() {
                Result::Err(FaultV::MissingFlagValue(FlagKind::Volume))
            } else {
                let val = toks[i + 1];
                if !dec_shape_ok(val) {
                    Result::Err(FaultV::InvalidFlagValue(FlagKind::Volume, val))
                } else if !dec_in_01(val) {
                    Result::Err(
                        FaultV::OutOfRange(
                            FlagKind::Volume,
                            dec_signed_millionths(val),
                            0,
                            VOLUME_UNIT as int,
                        ),
                    )
                } else {
                    let vol = Option::Some(dec_millionths(val));
                    let st2 = if st.found {
                        ChSt { current: FlagScopeV { volume: vol, ..st.current }, ..st }
                    } else {
                        ChSt { globals: FlagScopeV { volume: vol, ..st.globals }, ..st }
                    };
                    spec_channels_from(toks, i + 2, st2)
                }
            }
        } else if tok == "--bpm"@ {
            if i + 1 >= toks.len() {
                Result::Err(FaultV::MissingFlagValue(FlagKind::Bpm))
            } else {
                let val = toks[i + 1];
                if !bpm_shape_ok(val) || bpm_val(val) > 65535 {
                    Result::Err(FaultV::InvalidFlagValue(FlagKind::Bpm, val))
                } else if !(1 <= bpm_val(val) <= 300) {
                    Result::Err(FaultV::OutOfRange(FlagKind::Bpm, bpm_val(val), 1, 300))
                } else {
                    spec_channels_from(toks, i + 2, ChSt { bpm: Option::Some(bpm_val(val)), ..st })
                }
            }
        } else if tok == "--adsr"@ {
            let st2 = if st.found {
                ChSt { current: FlagScopeV { adsr: true, ..st.current }, ..st }
            } else {
                ChSt { globals: FlagScopeV { adsr: true, ..st.globals }, ..st }
            };
            spec_channels_from(toks, i + 1, st2)
        } else if tok == "--vibrato"@ {
            let st2 = if st.found {
                ChSt { current: FlagScopeV { vibrato: true, ..st.current }, ..st }
            } else {
                ChSt { globals: FlagScopeV { vibrato: true, ..st.globals }, ..st }
            };
            spec_channels_from(toks, i + 1, st2)
        } else if tok == "--channel"@ {
            if st.found {
                Result::Err(FaultV::EmptyChannel)
            } else {
                spec_channels_from(
                    toks,
                    i + 1,
                    ChSt { current: scope_init(), found: true, ..st },
                )
            }
        } else {
            let j = comp_end(toks, i);
            let ch = seal_channel(st, join_tokens(toks, i, j));
            spec_channels_from(
                toks,
                j,
                ChSt { channels: st.channels.push(ch), found: false, ..st },
            )
        }
    }
}

#[via_fn]
proof fn spec_channels_from_decreases(toks: Seq<Seq<char>>, i: int, st: ChSt) {
    if 0 <= i < toks.len() {
        lemma_comp_end(toks, i);
    }
}

/// What a whole input denotes: its whitespace tokens, run through the
/// machine; an input with no tokens at all is refused first.
pub open spec fn spec_parse_channels(s: Seq<char>) -> Result<
    (Seq<ChannelV>, Option<int>),
    FaultV,
> {
    let toks = ws_tokens(s);
    if toks.len() == 0 {
        Result::Err(FaultV::EmptyInput)
    } else {
        spec_channels_from(toks, 0, ch_init())
    }
}

/// The one place a splitter result is judged: against `spec_parse_channels`.
pub open spec fn channels_result_matches(
    r: Result<(Vec<ChannelConfig>, Option<u16>), MusicError>,
    s: Seq<char>,
) -> bool {
    match spec_parse_channels(s) {
        Result::Ok(pair) => r matches Ok(p) && p.0@.map_values(|c: ChannelConfig| c@) == pair.0
            && opt_u16_view(p.1) == pair.1,
        Result::Err(f) => r matches Err(e) && e@ == f,
    }
}


// ---------------------------------------------------------------------------
// Executable flag values
// ---------------------------------------------------------------------------

fn pow10_u64(k: usize) -> (r: u64)
    requires
        k <= 6,
    ensures
        r == pow10(k as int),
{
    proof {
        reveal_with_fuel(pow10, 8);
    }
    if k == 0 {
        1
    } else if k == 1 {
        10
    } else if k == 2 {
        100
    } else if k == 3 {
        1000
    } else if k == 4 {
        10000
    } else if k == 5 {
        100000
    } else {
        1000000
    }
}

/// Millionths named by the fraction digits `t[f_lo..]`.
fn frac_value(t: &Vec<char>, f_lo: usize) -> (r: u64)
    requires
        f_lo <= t@.len(),
        forall|k: int| f_lo <= k < t@.len() ==> is_digit(t@[k]),
    ensures
        r == frac_millionths(t@.subrange(f_lo as int, t@.len() as int)),
        r < 1000000,
{
    let n = t.len();
    let ghost fr = t@.subrange(f_lo as int, n as int);
    let k: usize = if n - f_lo >= 6 {
        6
    } else {
        n - f_lo
    };
    let fv = digits_value(t, f_lo, f_lo + k);
    proof {
        reveal_with_fuel(pow10, 8);
        assert(t@.subrange(f_lo as int, f_lo as int + k as int) =~= fr.take(k as int));
        assert(all_digits(fr.take(k as int))) by {
            assert(forall|j: int| 0 <= j < k ==> fr.take(k as int)[j] == t@[f_lo + j]);
        }
        lemma_digits_val_upper(fr.take(k as int));
    }
    if n - f_lo >= 6 {
        proof {
            assert(fr.take(6) =~= fr.take(k as int));
        }
        fv
    } else {
        proof {
            reveal_with_fuel(pow10, 8);
            assert(fr.take(k as int) =~= fr);
            assert(pow10(6 - fr.len()) == pow10(6 - k as int));
        }
        let mult = pow10_u64(6 - k);
        proof {
            reveal_with_fuel(pow10, 8);
            if k == 0 {
                assert(fv == 0);
                assert(fv * mult == 0) by (nonlinear_arith)
                    requires
                        fv == 0,
                ;
            } else if k == 1 {
                assert(fv <= 9 && mult == 100000);
                assert(fv * mult <= 900000) by (nonlinear_arith)
                    requires
                        fv <= 9,
                        mult == 100000,
                ;
            } else if k == 2 {
                assert(fv <= 99 && mult == 10000);
                assert(fv * mult <= 990000) by (nonlinear_arith)
                    requires
                        fv <= 99,
                        mult == 10000,
                ;
            } else if k == 3 {
                assert(fv <= 999 && mult == 1000);
                assert(fv * mult <= 999000) by (nonlinear_arith)
                    requires
                        fv <= 999,
                        mult == 1000,
                ;
            } else if k == 4 {
                assert(fv <= 9999 && mult == 100);
                assert(fv * mult <= 999900) by (nonlinear_arith)
                    requires
                        fv <= 9999,
                        mult == 100,
                ;
            } else {
                assert(k == 5 && fv <= 99999 && mult == 10);
                assert(fv * mult <= 999990) by (nonlinear_arith)
                    requires
                        fv <= 99999,
                        mult == 10,
                ;
            }
        }
        fv * mult
    }
}

/// True exactly when every character of `t[f_lo..]` is the digit zero.
fn all_zero_from(t: &Vec<char>, f_lo: usize) -> (r: bool)
    requires
        f_lo <= t@.len(),
    ensures
        r == all_zero_digits(t@.subrange(f_lo as int, t@.len() as int)),
{
    let n = t.len();
    let ghost fr = t@.subrange(f_lo as int, n as int);
    let mut m: usize = f_lo;
    while m < n
        invariant
            f_lo <= m <= n,
            n == t@.len(),
            fr == t@.subrange(f_lo as int, n as int),
            forall|k: int| 0 <= k < m - f_lo ==> fr[k] == '0',
        decreases n - m,
    {
        if t[m] != '0' {
            proof {
                assert(fr[m - f_lo] != '0');
            }
            return false;
        }
        m = m + 1;
    }
    true
}

/// Reads a `--volume` value: a plain decimal that must lie in [0, 1].
/// The result is the volume in millionths of full scale.
fn parse_volume_value(val: &Vec<char>) -> (r: Result<u32, MusicError>)
    ensures
        ({
            let t = val@;
            if !dec_shape_ok(t) {
                r matches Err(e) && e@ == FaultV::InvalidFlagValue(FlagKind::Volume, t)
            } else if !dec_in_01(t) {
                r matches Err(e) && e@ == FaultV::OutOfRange(
                    FlagKind::Volume,
                    dec_signed_millionths(t),
                    0,
                    VOLUME_UNIT as int,
                )
            } else {
                r matches Ok(m) && m == dec_millionths(t) && m <= VOLUME_UNIT
            }
        }),
{
    let t = val;
    let n = t.len();
    let b: usize = if n > 0 && (t[0] == '-' || t[0] == '+') {
        1
    } else {
        0
    };
    let neg = n > 0 && t[0] == '-';
    proof {
        lemma_digit_end(t@, b as int);
    }
    let d1 = scan_digits(t, b);
    let mut f_lo: usize = n;
    let mut shape_ok: bool = false;
    if d1 == n {
        shape_ok = d1 > b;
    } else if t[d1] == '.' {
        proof {
            lemma_digit_end(t@, d1 as int + 1);
        }
        let d2 = scan_digits(t, d1 + 1);
        if d2 == n && (d1 > b || n > d1 + 1) {
            shape_ok = true;
            f_lo = d1 + 1;
        }
    }
    proof {
        assert(shape_ok == dec_shape_ok(t@));
    }
    if !shape_ok {
        let raw = string_of_range(t, 0, n);
        proof {
            assert(t@.subrange(0, n as int) =~= t@);
        }
        return Err(MusicError::InvalidFlagValue(FlagKind::Volume, raw));
    }
    let ghost fr = dec_frac(t@);
    proof {
        lemma_digit_end(t@, b as int);
        assert(fr =~= t@.subrange(f_lo as int, n as int));
        assert(forall|k: int| f_lo <= k < n ==> is_digit(t@[k])) by {
            if f_lo < n {
                lemma_digit_end(t@, d1 as int + 1);
            }
        }
    }
    let int_capped = digits_value(t, b, d1);
    proof {
        assert(t@.subrange(b as int, d1 as int) =~= t@.subrange(
            dec_sign_end(t@),
            dec_int_end(t@),
        ));
    }
    let zeros = all_zero_from(t, f_lo);
    let in01 = (!neg || (int_capped == 0 && zeros)) && (int_capped == 0 || (int_capped == 1
        && zeros));
    proof {
        assert(in01 == dec_in_01(t@));
    }
    if !in01 {
        let fm = frac_value(t, f_lo);
        let int_u32: u32 = if int_capped > 0xFFFFFFFF {
            0xFFFFFFFF
        } else {
            int_capped as u32
        };
        proof {
            assert(crate::text::DIGIT_CAP == 0xFFFFFFFFFFFFFFFF);
            assert(int_u32 as int == capped_u32(dec_int_val(t@)));
        }
        let mag: i64 = (int_u32 as i64) * 1000000 + (fm as i64);
        let signed: i64 = if neg {
            -mag
        } else {
            mag
        };
        return Err(
            MusicError::OutOfRange(FlagKind::Volume, signed, 0, VOLUME_UNIT as i64),
        );
    }
    if int_capped >= 1 {
        Ok(VOLUME_UNIT)
    } else {
        let fm = frac_value(t, f_lo);
        Ok(fm as u32)
    }
}

/// Reads a plain decimal into signed millionths: `Some` exactly on the
/// decimal shape `[+|-] digits [. digits]`, the integer part saturating at
/// `u32` range and the fraction truncated past six digits.
pub fn parse_decimal_millionths(val: &Vec<char>) -> (r: Option<i64>)
    ensures
        ({
            let t = val@;
            if dec_shape_ok(t) {
                r matches Some(m) && m as int == dec_signed_millionths(t)
            } else {
                r is None
            }
        }),
{
    let t = val;
    let n = t.len();
    let b: usize = if n > 0 && (t[0] == '-' || t[0] == '+') {
        1
    } else {
        0
    };
    let neg = n > 0 && t[0] == '-';
    proof {
        lemma_digit_end(t@, b as int);
    }
    let d1 = scan_digits(t, b);
    let mut f_lo: usize = n;
    let mut shape_ok: bool = false;
    if d1 == n {
        shape_ok = d1 > b;
    } else if t[d1] == '.' {
        proof {
            lemma_digit_end(t@, d1 as int + 1);
        }
        let d2 = scan_digits(t, d1 + 1);
        if d2 == n && (d1 > b || n > d1 + 1) {
            shape_ok = true;
            f_lo = d1 + 1;
        }
    }
    proof {
        assert(shape_ok == dec_shape_ok(t@));
    }
    if !shape_ok {
        return None;
    }
    proof {
        assert(dec_frac(t@) =~= t@.subrange(f_lo as int, n as int));
        assert(forall|k: int| f_lo <= k < n ==> is_digit(t@[k])) by {
            if f_lo < n {
                lemma_digit_end(t@, d1 as int + 1);
            }
        }
    }
    let int_capped = digits_value(t, b, d1);
    proof {
        assert(t@.subrange(b as int, d1 as int) =~= t@.subrange(
            dec_sign_end(t@),
            dec_int_end(t@),
        ));
    }
    let fm = frac_value(t, f_lo);
    let int_u32: u32 = if int_capped > 0xFFFFFFFF {
        0xFFFFFFFF
    } else {
        int_capped as u32
    };
    proof {
        assert(crate::text::DIGIT_CAP == 0xFFFFFFFFFFFFFFFF);
        assert(int_u32 as int == capped_u32(dec_int_val(t@)));
    }
    let mag: i64 = (int_u32 as i64) * 1000000 + (fm as i64);
    if neg {
        Some(-mag)
    } else {
        Some(mag)
    }
}

/// Reads a `--bpm` value: an unsigned integer that must lie in 1..=300.
fn parse_bpm_value(val: &Vec<char>) -> (r: Result<u16, MusicError>)
    ensures
        ({
            let t = val@;
            if !bpm_shape_ok(t) || bpm_val(t) > 65535 {
                r matches Err(e) && e@ == FaultV::InvalidFlagValue(FlagKind::Bpm, t)
            } else if !(1 <= bpm_val(t) <= 300) {
                r matches Err(e) && e@ == FaultV::OutOfRange(FlagKind::Bpm, bpm_val(t), 1, 300)
            } else {
                r matches Ok(x) && x as int == bpm_val(t) && 1 <= x <= 300
            }
        }),
{
    let t = val;
    let n = t.len();
    let b: usize = if n > 0 && t[0] == '+' {
        1
    } else {
        0
    };
    proof {
        lemma_digit_end(t@, b as int);
    }
    let d = scan_digits(t, b);
    if !(d == n && n > b) {
        let raw = string_of_range(t, 0, n);
        proof {
            assert(t@.subrange(0, n as int) =~= t@);
        }
        return Err(MusicError::InvalidFlagValue(FlagKind::Bpm, raw));
    }
    let value = digits_value(t, b, n);
    proof {
        assert(t@.subrange(b as int, n as int) =~= t@.subrange(b as int, t@.len() as int));
        assert(crate::text::DIGIT_CAP == 0xFFFFFFFFFFFFFFFF);
    }
    if value > 65535 {
        let raw = string_of_range(t, 0, n);
        proof {
            assert(t@.subrange(0, n as int) =~= t@);
        }
        return Err(MusicError::InvalidFlagValue(FlagKind::Bpm, raw));
    }
    if value < 1 || value > 300 {
        return Err(MusicError::OutOfRange(FlagKind::Bpm, value as i64, 1, 300));
    }
    Ok(value as u16)
}


// ---------------------------------------------------------------------------
// The executable splitter
// ---------------------------------------------------------------------------

/// The splitter state that the executable variables denote.
pub open spec fn mk_st(
    g_vol: Option<u32>,
    g_adsr: bool,
    g_vib: bool,
    c_vol: Option<u32>,
    c_adsr: bool,
    c_vib: bool,
    found: bool,
    channels: Seq<ChannelV>,
    bpm: Option<u16>,
) -> ChSt {
    ChSt {
        globals: FlagScopeV { volume: opt_u32_view(g_vol), adsr: g_adsr, vibrato: g_vib },
        current: FlagScopeV { volume: opt_u32_view(c_vol), adsr: c_adsr, vibrato: c_vib },
        found: found,
        channels: channels,
        bpm: opt_u16_view(bpm),
    }
}

/// Is the token under `span` one of the five flags?
fn is_flag_span(v: &Vec<char>, span: Span) -> (r: bool)
    requires
        span.lo <= span.hi <= v@.len(),
    ensures
        r == is_flag_literal(v@.subrange(span.lo as int, span.hi as int)),
{
    range_eq_str(v, span.lo, span.hi, "--volume") || range_eq_str(v, span.lo, span.hi, "--bpm")
        || range_eq_str(v, span.lo, span.hi, "--adsr") || range_eq_str(
        v,
        span.lo,
        span.hi,
        "--vibrato",
    ) || range_eq_str(v, span.lo, span.hi, "--channel")
}

/// Splits a raw input into channel definitions and an optional tempo.
///
/// Flags before the first `--channel` set the global scope; flags after a
/// `--channel` set that channel's own scope, which wins over the global one
/// (volume by presence, the booleans by disjunction). A run of non-flag
/// tokens is a composition: the open channel's, or an implicit channel's.
/// The result is exactly what `spec_parse_channels` says of the input.
pub fn parse_channels(input: &str) -> (r: Result<(Vec<ChannelConfig>, Option<u16>), MusicError>)
    ensures
        channels_result_matches(r, input@),
        r matches Ok(p) ==> (p.1 matches Some(b) ==> 1 <= b <= 300),
{
    let v = chars_of(input);
    let spans = split_spaces(&v);
    let ghost toks = ws_tokens(input@);
    proof {
        assert(spans_text(v@, spans@) == toks);
    }
    if spans.len() == 0 {
        return Err(MusicError::EmptyInput);
    }
    let mut g_vol: Option<u32> = None;
    let mut g_adsr: bool = false;
    let mut g_vib: bool = false;
    let mut c_vol: Option<u32> = None;
    let mut c_adsr: bool = false;
    let mut c_vib: bool = false;
    let mut found: bool = false;
    let mut channels: Vec<ChannelConfig> = Vec::new();
    let mut bpm: Option<u16> = None;
    let mut i: usize = 0;
    proof {
        assert(channels@.map_values(|c: ChannelConfig| c@) =~= Seq::<ChannelV>::empty());
        assert(mk_st(g_vol, g_adsr, g_vib, c_vol, c_adsr, c_vib, found,
            channels@.map_values(|c: ChannelConfig| c@), bpm) == ch_init());
    }
    while i < spans.len()
        invariant
            i <= spans@.len(),
            spans_wf(v@, spans@),
            toks == spans_text(v@, spans@),
            toks == ws_tokens(input@),
            toks.len() == spans@.len(),
            toks.len() > 0,
            bpm matches Some(b) ==> 1 <= b <= 300,
            spec_channels_from(
                toks,
                i as int,
                mk_st(g_vol, g_adsr, g_vib, c_vol, c_adsr, c_vib, found,
                    channels@.map_values(|c: ChannelConfig| c@), bpm),
            ) == spec_channels_from(toks, 0, ch_init()),
        decreases spans@.len() - i,
    {
        let ghost st = mk_st(g_vol, g_adsr, g_vib, c_vol, c_adsr, c_vib, found,
            channels@.map_values(|c: ChannelConfig| c@), bpm);
        let span = spans[i];
        let ghost tok = toks[i as int];
        proof {
            assert(tok == v@.subrange(span.lo as int, span.hi as int));
        }
        if range_eq_str(&v, span.lo, span.hi, "--volume") {
            if i + 1 >= spans.len() {
                return Err(MusicError::MissingFlagValue(FlagKind::Volume));
            }
            let vspan = spans[i + 1];
            let val = subvec(&v, vspan.lo, vspan.hi);
            proof {
                assert(val@ == toks[i as int + 1]);
            }
            match parse_volume_value(&val) {
                Err(e) => {
                    return Err(e);
                },
                Ok(mill) => {
                    if found {
                        c_vol = Some(mill);
                    } else {
                        g_vol = Some(mill);
                    }
                    i = i + 2;
                },
            }
        } else if range_eq_str(&v, span.lo, span.hi, "--bpm") {
            if i + 1 >= spans.len() {
                return Err(MusicError::MissingFlagValue(FlagKind::Bpm));
            }
            let vspan = spans[i + 1];
            let val = subvec(&v, vspan.lo, vspan.hi);
            proof {
                assert(val@ == toks[i as int + 1]);
            }
            match parse_bpm_value(&val) {
                Err(e) => {
                    return Err(e);
                },
                Ok(b) => {
                    bpm = Some(b);
                    i = i + 2;
                },
            }
        } else if range_eq_str(&v, span.lo, span.hi, "--adsr") {
            if found {
                c_adsr = true;
            } else {
                g_adsr = true;
            }
            i = i + 1;
        } else if range_eq_str(&v, span.lo, span.hi, "--vibrato") {
            if found {
                c_vib = true;
            } else {
                g_vib = true;
            }
            i = i + 1;
        } else if range_eq_str(&v, span.lo, span.hi, "--channel") {
            if found {
                return Err(MusicError::EmptyChannel);
            }
            found = true;
            c_vol = None;
            c_adsr = false;
            c_vib = false;
            i = i + 1;
        } else {
            // A composition run: all tokens up to the next flag.
            proof {
                lemma_comp_end(toks, i as int);
            }
            let mut j: usize = i;
            while j < spans.len() && !is_flag_span(&v, spans[j])
                invariant
                    i <= j <= spans@.len(),
                    spans_wf(v@, spans@),
                    toks == spans_text(v@, spans@),
                    toks.len() == spans@.len(),
                    comp_end(toks, i as int) == comp_end(toks, j as int),
                decreases spans@.len() - j,
            {
                proof {
                    assert(toks[j as int] == v@.subrange(
                        spans@[j as int].lo as int,
                        spans@[j as int].hi as int,
                    ));
                }
                j = j + 1;
            }
            proof {
                if j < spans.len() {
                    assert(toks[j as int] == v@.subrange(
                        spans@[j as int].lo as int,
                        spans@[j as int].hi as int,
                    ));
                }
                assert(comp_end(toks, j as int) == j);
            }
            // Join the run's tokens with single spaces.
            let mut comp = String::new();
            let mut m: usize = i;
            proof {
                assert(comp@ =~= join_tokens(toks, i as int, i as int));
            }
            while m < j
                invariant
                    i <= m <= j <= spans@.len(),
                    spans_wf(v@, spans@),
                    toks == spans_text(v@, spans@),
                    toks.len() == spans@.len(),
                    comp@ == join_tokens(toks, i as int, m as int),
                decreases j - m,
            {
                if m > i {
                    push_char(&mut comp, ' ');
                }
                let mspan = spans[m];
                let tok_str = string_of_range(&v, mspan.lo, mspan.hi);
                comp.append(tok_str.as_str());
                proof {
                    lemma_join_snoc(toks, i as int, m as int);
                    assert(comp@ =~= join_tokens(toks, i as int, m as int + 1));
                }
                m = m + 1;
            }
            let (vol, ad, vi) = if found {
                (
                    if c_vol.is_some() {
                        c_vol
                    } else {
                        g_vol
                    },
                    c_adsr || g_adsr,
                    c_vib || g_vib,
                )
            } else {
                (g_vol, g_adsr, g_vib)
            };
            let cfg = ChannelConfig { composition: comp, volume: vol, adsr: ad, vibrato: vi };
            let ghost old_chs = channels@.map_values(|c: ChannelConfig| c@);
            proof {
                assert(cfg@ == seal_channel(st, join_tokens(toks, i as int, j as int)));
            }
            channels.push(cfg);
            proof {
                assert(channels@.map_values(|c: ChannelConfig| c@) =~= old_chs.push(cfg@));
            }
            found = false;
            i = j;
        }
    }
    if found {
        return Err(MusicError::EmptyChannel);
    }
    if channels.len() == 0 {
        return Err(MusicError::NoChannelsFound);
    }
    Ok((channels, bpm))
}

} // verus!
