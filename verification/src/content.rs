use vstd::prelude::*;
use vstd::string::StringExecFns;
use crate::channels::{dec_shape_ok, dec_signed_millionths, parse_decimal_millionths};
use crate::endpoint::starts_with_txt;
use crate::text::{
    chars_of, join_sep, lemma_join_sep_snoc, line_spans, push_char, range_eq_str, spans_text,
    spans_wf, split_char_spans, split_on, string_of_range, strip_prefix_all, skip_prefix_all,
    spec_lines, subvec, trim_span, trimmed, Span,
};

verus! {

/// A stored content file: a composition, braille art, and a frame rate.
#[derive(Debug, Clone, PartialEq)]
pub struct ContentFile {
    pub midi_composition: String,
    pub art: String,
    /// Frames per second, in millionths.
    pub fps_millionths: i64,
}

/// What can be wrong with a content file.
#[derive(Debug, Clone, PartialEq)]
pub enum ParseError {
    IoError(String),
    MissingMidiSection,
    MissingArtSection,
    InvalidFormat(String),
}

/// The first line at or after `from` whose trimmed text is `target`, or the
/// line count when none matches.
pub open spec fn first_line(lines: Seq<Seq<char>>, from: int, target: Seq<char>) -> int
    decreases lines.len() - from,
{
    if from < 0 || from >= lines.len() {
        lines.len() as int
    } else if trimmed(lines[from]) == target {
        from
    } else {
        first_line(lines, from + 1, target)
    }
}

/// The trimmed, non-empty lines among `lines[a..b]`.
pub open spec fn kept_parts(lines: Seq<Seq<char>>, a: int, b: int) -> Seq<Seq<char>>
    decreases b - a,
{
    if a < 0 || a >= b || b > lines.len() {
        seq![]
    } else {
        let t = trimmed(lines[a]);
        (if t.len() > 0 {
            seq![t]
        } else {
            seq![]
        }) + kept_parts(lines, a + 1, b)
    }
}

/// The index of the first occurrence of `p` in `s` at or after `from`, or
/// the length of `s` when there is none.
pub open spec fn find_sub(s: Seq<char>, p: Seq<char>, from: int) -> int
    decreases s.len() - from + 1,
{
    if from < 0 || from + p.len() > s.len() {
        s.len() as int
    } else if s.subrange(from, from + p.len() as int) == p {
        from
    } else {
        find_sub(s, p, from + 1)
    }
}

/// The frame rate a sheet header names: the decimal before `fps` in the
/// header's second comma-separated field; ten frames a second when the
/// header names none readable.
pub open spec fn spec_fps(header: Seq<char>) -> int {
    let after = trimmed(strip_prefix_all(header, "Ascii Art Animation, "@));
    let parts = split_on(after, ',');
    if parts.len() >= 2 {
        let p1 = trimmed(parts[1]);
        let fi = find_sub(p1, "fps"@, 0);
        if fi < p1.len() {
            let fstr = trimmed(p1.subrange(0, fi));
            if dec_shape_ok(fstr) {
                dec_signed_millionths(fstr)
            } else {
                10000000
            }
        } else {
            10000000
        }
    } else {
        10000000
    }
}

/// The mathematical shadow of `ParseError`, naming each way a file is bad.
pub enum ContentFaultV {
    MissingMidi,
    MissingArt,
    BadOrder,
    EmptyMidi,
    EmptyArt,
    BadHeader,
}

/// What parsing a content file yields.
pub open spec fn spec_parse_content(s: Seq<char>) -> Result<
    (Seq<char>, Seq<char>, int),
    ContentFaultV,
> {
    let lines = spec_lines(s);
    let ms = first_line(lines, 0, "--- MIDI ---"@);
    if ms == lines.len() {
        Result::Err(ContentFaultV::MissingMidi)
    } else {
        let a = first_line(lines, 0, "--- ART ---"@);
        if a == lines.len() {
            Result::Err(ContentFaultV::MissingArt)
        } else if ms >= a {
            Result::Err(ContentFaultV::BadOrder)
        } else {
            let parts = kept_parts(lines, ms + 1, a);
            let midi = join_sep(parts, 0, parts.len() as int, ' ');
            if midi.len() == 0 {
                Result::Err(ContentFaultV::EmptyMidi)
            } else {
                let art = join_sep(lines, a + 1, lines.len() as int, '\n');
                if art.len() == 0 {
                    Result::Err(ContentFaultV::EmptyArt)
                } else if !starts_with_txt(lines[a + 1], "Ascii Art Animation"@) {
                    Result::Err(ContentFaultV::BadHeader)
                } else {
                    Result::Ok((midi, art, spec_fps(lines[a + 1])))
                }
            }
        }
    }
}

/// Is this line, trimmed, exactly `lit`?
fn line_is(v: &Vec<char>, span: Span, lit: &str) -> (r: bool)
    requires
        span.lo <= span.hi <= v@.len(),
    ensures
        r == (trimmed(v@.subrange(span.lo as int, span.hi as int)) == lit@),
{
    let piece = subvec(v, span.lo, span.hi);
    let sp = trim_span(&piece);
    range_eq_str(&piece, sp.lo, sp.hi, lit)
}

/// The first line whose trimmed text is `lit`, or the line count.
fn scan_first_line(v: &Vec<char>, lines: &Vec<Span>, lit: &str) -> (r: usize)
    requires
        spans_wf(v@, lines@),
    ensures
        r as int == first_line(spans_text(v@, lines@), 0, lit@),
        r <= lines@.len(),
{
    let ghost ls = spans_text(v@, lines@);
    let mut k: usize = 0;
    while k < lines.len()
        invariant
            k <= lines@.len(),
            spans_wf(v@, lines@),
            ls == spans_text(v@, lines@),
            ls.len() == lines@.len(),
            first_line(ls, 0, lit@) == first_line(ls, k as int, lit@),
        decreases lines@.len() - k,
    {
        if line_is(v, lines[k], lit) {
            proof {
                assert(trimmed(ls[k as int]) == lit@);
            }
            return k;
        }
        k = k + 1;
    }
    k
}

/// Which sections a content file must hold, and in what order: a
/// `--- MIDI ---` marker line, then composition lines, then an
/// `--- ART ---` marker line, then the sheet, whose first line must carry
/// the `Ascii Art Animation` header. The result is exactly what
/// `spec_parse_content` says: the midi lines trimmed and joined with single
/// spaces, the art lines joined unchanged, and the header's frame rate.
pub fn parse_content(content: &str) -> (r: Result<ContentFile, ParseError>)
    ensures
        match spec_parse_content(content@) {
            Result::Ok(t) => r matches Ok(c) && c.midi_composition@ == t.0 && c.art@ == t.1
                && c.fps_millionths as int == t.2,
            Result::Err(f) => match f {
                ContentFaultV::MissingMidi => r == Result::<ContentFile, ParseError>::Err(
                    ParseError::MissingMidiSection,
                ),
                ContentFaultV::MissingArt => r == Result::<ContentFile, ParseError>::Err(
                    ParseError::MissingArtSection,
                ),
                ContentFaultV::BadOrder => r matches Err(ParseError::InvalidFormat(m)) && m@
                    == "MIDI section must come before ART section"@,
                ContentFaultV::EmptyMidi => r matches Err(ParseError::InvalidFormat(m)) && m@
                    == "MIDI section cannot be empty"@,
                ContentFaultV::EmptyArt => r matches Err(ParseError::InvalidFormat(m)) && m@
                    == "ART section cannot be empty"@,
                ContentFaultV::BadHeader => r matches Err(ParseError::InvalidFormat(m)) && m@
                    == "ART section must start with 'Ascii Art Animation' header"@,
            },
        },
{
    let v = chars_of(content);
    let lines = line_spans(&v);
    let ghost ls = spec_lines(content@);
    proof {
        assert(spans_text(v@, lines@) == ls);
    }
    let ms = scan_first_line(&v, &lines, "--- MIDI ---");
    if ms == lines.len() {
        return Err(ParseError::MissingMidiSection);
    }
    let a = scan_first_line(&v, &lines, "--- ART ---");
    if a == lines.len() {
        return Err(ParseError::MissingArtSection);
    }
    if ms >= a {
        return Err(
            ParseError::InvalidFormat(
                String::from_str("MIDI section must come before ART section"),
            ),
        );
    }
    // The composition: the trimmed non-empty lines between the markers.
    let mut midi = String::new();
    let mut any = false;
    let mut m: usize = ms + 1;
    proof {
        assert(kept_parts(ls, ms as int + 1, ms as int + 1) =~= Seq::<Seq<char>>::empty());
    }
    while m < a
        invariant
            ms + 1 <= m <= a <= lines@.len(),
            spans_wf(v@, lines@),
            ls == spans_text(v@, lines@),
            ls.len() == lines@.len(),
            ({
                let parts = kept_parts(ls, ms as int + 1, m as int);
                &&& midi@ == join_sep(parts, 0, parts.len() as int, ' ')
                &&& any == (parts.len() > 0)
            }),
        decreases a - m,
    {
        let ghost parts_old = kept_parts(ls, ms as int + 1, m as int);
        let span = lines[m];
        let piece = subvec(&v, span.lo, span.hi);
        let sp = trim_span(&piece);
        proof {
            lemma_kept_parts_snoc(ls, ms as int + 1, m as int);
        }
        if sp.lo < sp.hi {
            if any {
                push_char(&mut midi, ' ');
            }
            let part = string_of_range(&piece, sp.lo, sp.hi);
            midi.append(part.as_str());
            proof {
                let parts = kept_parts(ls, ms as int + 1, m as int + 1);
                assert(parts =~= parts_old.push(trimmed(ls[m as int])));
                if parts_old.len() > 0 {
                    lemma_join_sep_snoc(parts, 0, parts.len() as int - 1, ' ');
                    assert(forall|k: int| 0 <= k < parts_old.len() ==> parts[k] == parts_old[k]);
                    lemma_join_sep_congr(parts, parts_old, 0, parts_old.len() as int, ' ');
                } else {
                    assert(parts.len() == 1);
                }
            }
            any = true;
        } else {
            proof {
                assert(kept_parts(ls, ms as int + 1, m as int + 1) =~= parts_old);
            }
        }
        m = m + 1;
    }
    if !any {
        return Err(
            ParseError::InvalidFormat(String::from_str("MIDI section cannot be empty")),
        );
    }
    proof {
        let parts = kept_parts(ls, ms as int + 1, a as int);
        assert(join_sep(parts, 0, parts.len() as int, ' ').len() > 0) by {
            lemma_kept_parts_nonempty(ls, ms as int + 1, a as int);
            lemma_join_sep_len(parts, 0, parts.len() as int, ' ');
        }
    }
    // The art: the remaining lines, joined with newlines, unchanged.
    let mut art = String::new();
    let mut k: usize = a + 1;
    proof {
        assert(art@ =~= join_sep(ls, a as int + 1, a as int + 1, '\n'));
    }
    while k < lines.len()
        invariant
            a + 1 <= k <= lines@.len(),
            spans_wf(v@, lines@),
            ls == spans_text(v@, lines@),
            ls.len() == lines@.len(),
            art@ == join_sep(ls, a as int + 1, k as int, '\n'),
        decreases lines@.len() - k,
    {
        if k > a + 1 {
            push_char(&mut art, '\n');
        }
        let span = lines[k];
        let piece = string_of_range(&v, span.lo, span.hi);
        art.append(piece.as_str());
        proof {
            lemma_join_sep_snoc(ls, a as int + 1, k as int, '\n');
            assert(art@ =~= join_sep(ls, a as int + 1, k as int + 1, '\n'));
        }
        k = k + 1;
    }
    if art.as_str().is_empty() {
        return Err(ParseError::InvalidFormat(String::from_str("ART section cannot be empty")));
    }
    let header_span = lines[a + 1];
    let header = subvec(&v, header_span.lo, header_span.hi);
    proof {
        assert(header@ == ls[a as int + 1]);
    }
    let hn = "Ascii Art Animation".unicode_len();
    if !(header.len() >= hn && range_eq_str(&header, 0, hn, "Ascii Art Animation")) {
        return Err(
            ParseError::InvalidFormat(
                String::from_str("ART section must start with 'Ascii Art Animation' header"),
            ),
        );
    }
    let fps = header_fps(&header);
    Ok(ContentFile { midi_composition: midi, art, fps_millionths: fps })
}

/// Reads the frame rate out of a sheet header, ten per second by default.
pub fn header_fps(header: &Vec<char>) -> (r: i64)
    ensures
        r as int == spec_fps(header@),
{
    proof {
        reveal_strlit("Ascii Art Animation, ");
    }
    let start = skip_prefix_all(header, 0, "Ascii Art Animation, ");
    let rest = subvec(header, start, header.len());
    proof {
        assert(header@.subrange(0, header@.len() as int) =~= header@);
    }
    let rsp = trim_span(&rest);
    let after = subvec(&rest, rsp.lo, rsp.hi);
    let parts = split_char_spans(&after, ',');
    let ghost ps = split_on(after@, ',');
    proof {
        assert(spans_text(after@, parts@) == ps);
    }
    if parts.len() < 2 {
        return 10000000;
    }
    let p1span = parts[1];
    let p1raw = subvec(&after, p1span.lo, p1span.hi);
    proof {
        assert(p1raw@ == ps[1]);
    }
    let p1sp = trim_span(&p1raw);
    let p1 = subvec(&p1raw, p1sp.lo, p1sp.hi);
    let n = p1.len();
    let fi = find_fps(&p1);
    if fi >= n {
        return 10000000;
    }
    let fraw = subvec(&p1, 0, fi);
    let fsp = trim_span(&fraw);
    let fvec = subvec(&fraw, fsp.lo, fsp.hi);
    match parse_decimal_millionths(&fvec) {
        Some(m) => m,
        None => 10000000,
    }
}

/// The position of the letters `fps` in a header field, or the length.
fn find_fps(p1: &Vec<char>) -> (fi: usize)
    ensures
        fi as int == find_sub(p1@, "fps"@, 0),
        fi <= p1@.len(),
{
    let n = p1.len();
    proof {
        reveal_strlit("fps");
    }
    if n < 3 {
        proof {
            assert(find_sub(p1@, "fps"@, 0) == n);
        }
        return n;
    }
    let mut i: usize = 0;
    while i <= n - 3
        invariant
            i <= n - 2,
            3 <= n == p1@.len(),
            "fps"@.len() == 3,
            find_sub(p1@, "fps"@, 0) == find_sub(p1@, "fps"@, i as int),
        decreases n - i,
    {
        if range_eq_str(p1, i, i + 3, "fps") {
            proof {
                assert(find_sub(p1@, "fps"@, i as int) == i);
            }
            return i;
        }
        i = i + 1;
    }
    proof {
        assert(find_sub(p1@, "fps"@, i as int) == n);
    }
    n
}

/// Joining one more piece keeps the text so far.
proof fn lemma_join_sep_congr(a: Seq<Seq<char>>, b: Seq<Seq<char>>, i: int, j: int, sep: char)
    requires
        0 <= i,
        j <= a.len(),
        j <= b.len(),
        forall|k: int| i <= k < j ==> a[k] == b[k],
    ensures
        join_sep(a, i, j, sep) == join_sep(b, i, j, sep),
    decreases j - i,
{
    if i < j {
        lemma_join_sep_congr(a, b, i + 1, j, sep);
    }
}

/// The kept parts of one more line: the line's trimmed text, if non-empty.
proof fn lemma_kept_parts_snoc(lines: Seq<Seq<char>>, a: int, m: int)
    requires
        0 <= a <= m < lines.len(),
    ensures
        kept_parts(lines, a, m + 1) == kept_parts(lines, a, m) + (if trimmed(lines[m]).len() > 0 {
            seq![trimmed(lines[m])]
        } else {
            Seq::<Seq<char>>::empty()
        }),
    decreases m - a,
{
    if a < m {
        lemma_kept_parts_snoc(lines, a + 1, m);
        let t = if trimmed(lines[a]).len() > 0 {
            seq![trimmed(lines[a])]
        } else {
            Seq::<Seq<char>>::empty()
        };
        assert(t + (kept_parts(lines, a + 1, m) + (if trimmed(lines[m]).len() > 0 {
            seq![trimmed(lines[m])]
        } else {
            Seq::<Seq<char>>::empty()
        })) =~= (t + kept_parts(lines, a + 1, m)) + (if trimmed(lines[m]).len() > 0 {
            seq![trimmed(lines[m])]
        } else {
            Seq::<Seq<char>>::empty()
        }));
    } else {
        assert(kept_parts(lines, a, a) =~= Seq::<Seq<char>>::empty());
        assert(kept_parts(lines, a, a + 1) =~= (if trimmed(lines[a]).len() > 0 {
            seq![trimmed(lines[a])]
        } else {
            Seq::<Seq<char>>::empty()
        }) + kept_parts(lines, a + 1, a + 1));
        assert(kept_parts(lines, a + 1, a + 1) =~= Seq::<Seq<char>>::empty());
        assert(Seq::<Seq<char>>::empty() + (if trimmed(lines[a]).len() > 0 {
            seq![trimmed(lines[a])]
        } else {
            Seq::<Seq<char>>::empty()
        }) =~= kept_parts(lines, a, a + 1));
    }
}

/// Every kept part is non-empty.
proof fn lemma_kept_parts_nonempty(lines: Seq<Seq<char>>, a: int, b: int)
    requires
        0 <= a,
    ensures
        forall|k: int|
            0 <= k < kept_parts(lines, a, b).len() ==> (#[trigger] kept_parts(lines, a, b)[k]).len()
                > 0,
    decreases b - a,
{
    if a < b && b <= lines.len() {
        lemma_kept_parts_nonempty(lines, a + 1, b);
        let rest = kept_parts(lines, a + 1, b);
        let t = trimmed(lines[a]);
        if t.len() > 0 {
            assert(kept_parts(lines, a, b) == seq![t] + rest);
            assert(forall|k: int|
                1 <= k < kept_parts(lines, a, b).len() ==> kept_parts(lines, a, b)[k] == rest[k
                    - 1]);
        } else {
            assert(kept_parts(lines, a, b) =~= rest);
        }
    }
}

/// A join of non-empty parts is non-empty.
proof fn lemma_join_sep_len(parts: Seq<Seq<char>>, i: int, j: int, sep: char)
    requires
        0 <= i < j <= parts.len(),
        forall|k: int| 0 <= k < parts.len() ==> (#[trigger] parts[k]).len() > 0,
    ensures
        join_sep(parts, i, j, sep).len() > 0,
    decreases j - i,
{
}

} // verus!
