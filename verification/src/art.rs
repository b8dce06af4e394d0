use vstd::prelude::*;
use vstd::string::StringExecFns;
use crate::endpoint::starts_with_txt;
use crate::text::{
    all_digits, append_range, chars_of, digit_end, digits_val, digits_value, is_digit, join_sep,
    lemma_digit_end, lemma_join_sep_snoc, line_spans, push_char, range_eq_str, scan_digits,
    seq_trim_end, skip_prefix_all, spans_text, spans_wf, spec_lines, split_char_spans, split_on,
    string_of_range, strip_prefix_all, subvec, trim_end_index, trim_span, trimmed, Span,
};

verus! {

/// Characters across one TV screen.
pub const TV_WIDTH: usize = 32;

/// Characters down one TV screen.
pub const TV_HEIGHT: usize = 10;

/// Pixels across one TV screen: two per braille character.
pub const PIXEL_WIDTH: usize = 64;

/// Pixels down one TV screen: four per braille character.
pub const PIXEL_HEIGHT: usize = 40;

// ---------------------------------------------------------------------------
// Decimal rendering
// ---------------------------------------------------------------------------

/// `s` is the canonical decimal spelling of `n`.
pub open spec fn is_dec_rep(s: Seq<char>, n: int) -> bool {
    &&& s.len() >= 1
    &&& all_digits(s)
    &&& digits_val(s) == n
    &&& (s.len() == 1 || s[0] != '0')
}

fn digit_char(d: u64) -> (r: char)
    requires
        d <= 9,
    ensures
        is_digit(r),
        crate::text::digit_val(r) == d,
{
    if d == 0 {
        '0'
    } else if d == 1 {
        '1'
    } else if d == 2 {
        '2'
    } else if d == 3 {
        '3'
    } else if d == 4 {
        '4'
    } else if d == 5 {
        '5'
    } else if d == 6 {
        '6'
    } else if d == 7 {
        '7'
    } else if d == 8 {
        '8'
    } else {
        '9'
    }
}

/// Prepending a digit multiplies the tail's weight by ten.
proof fn lemma_digits_val_cons(d: char, s: Seq<char>)
    requires
        is_digit(d),
        all_digits(s),
    ensures
        digits_val(seq![d] + s) == crate::text::digit_val(d) * crate::text::pow10(s.len() as int)
            + digits_val(s),
    decreases s.len(),
{
    if s.len() == 0 {
        assert(seq![d] + s =~= seq![d]);
        assert(digits_val(seq![d]) == crate::text::digit_val(d)) by {
            assert(seq![d].drop_last() =~= Seq::<char>::empty());
            assert(seq![d].last() == d);
            assert(digits_val(Seq::<char>::empty()) == 0);
        }
    } else {
        let w = seq![d] + s;
        assert(w.drop_last() =~= seq![d] + s.drop_last());
        assert(all_digits(s.drop_last())) by {
            assert(forall|k: int| 0 <= k < s.len() - 1 ==> s.drop_last()[k] == s[k]);
        }
        lemma_digits_val_cons(d, s.drop_last());
        assert(w.last() == s.last());
        assert(digits_val(w) == 10 * digits_val(w.drop_last()) + crate::text::digit_val(w.last()));
        assert(crate::text::pow10(s.len() as int) == 10 * crate::text::pow10(s.len() - 1));
        assert(crate::text::digit_val(d) * (10 * crate::text::pow10(s.len() - 1))
            == 10 * (crate::text::digit_val(d) * crate::text::pow10(s.len() - 1)))
            by (nonlinear_arith);
    }
}

/// The decimal spelling of a number.
pub fn fmt_u64(n: u64) -> (r: String)
    ensures
        is_dec_rep(r@, n as int),
{
    if n == 0 {
        let mut s = String::new();
        push_char(&mut s, '0');
        proof {
            assert(s@ =~= seq!['0']);
            assert(seq!['0'].drop_last() =~= Seq::<char>::empty());
            assert(seq!['0'].last() == '0');
            assert(digits_val(Seq::<char>::empty()) == 0);
            assert(digits_val(seq!['0']) == 10 * digits_val(seq!['0'].drop_last())
                + crate::text::digit_val(seq!['0'].last()));
            assert(digits_val(s@) == 0);
        }
        return s;
    }
    let mut digits: Vec<char> = Vec::new();
    let mut rest: u64 = n;
    while rest > 0
        invariant
            all_digits(digits@),
            rest as int * crate::text::pow10(digits@.len() as int) + digits_val(digits@)
                == n as int,
            digits@.len() > 0 ==> digits@[0] != '0' || rest > 0,
            rest == 0 ==> digits@.len() > 0 && digits@[0] != '0',
        decreases rest,
    {
        let d = rest % 10;
        let c = digit_char(d);
        let ghost old_digits = digits@;
        digits.insert(0, c);
        proof {
            let p = crate::text::pow10(old_digits.len() as int);
            let q = rest as int / 10;
            let dd = rest as int % 10;
            assert(digits@ =~= seq![c] + old_digits);
            lemma_digits_val_cons(c, old_digits);
            assert(crate::text::pow10(old_digits.len() as int + 1) == 10 * p);
            assert(q * (10 * p) == (q * 10) * p) by (nonlinear_arith);
            assert((q * 10) * p + dd * p == (q * 10 + dd) * p) by (nonlinear_arith);
            assert(rest as int == q * 10 + dd);
            assert(q * (10 * p) + (dd * p + digits_val(old_digits)) == rest as int * p
                + digits_val(old_digits));
        }
        rest = rest / 10;
        proof {
            if rest == 0 {
                assert(digits@[0] == c);
                assert(crate::text::digit_val(c) >= 1);
            }
        }
    }
    let mut s = String::new();
    let mut i: usize = 0;
    while i < digits.len()
        invariant
            i <= digits@.len(),
            s@ == digits@.subrange(0, i as int),
        decreases digits@.len() - i,
    {
        push_char(&mut s, digits[i]);
        i = i + 1;
        proof {
            assert(s@ =~= digits@.subrange(0, i as int));
        }
    }
    proof {
        assert(s@ =~= digits@);
    }
    s
}

// ---------------------------------------------------------------------------
// Animation sheets
// ---------------------------------------------------------------------------

/// A sheet of equally sized text frames, played in order.
#[derive(Debug, PartialEq)]
pub struct AsciiArtSheet {
    pub width: usize,
    pub height: usize,
    pub frames: Vec<String>,
}

/// One frame's text: a run of lines joined with newlines, the trailing
/// whitespace dropped.
pub open spec fn frame_text(lines: Seq<Seq<char>>, a: int, b: int) -> Seq<char> {
    seq_trim_end(join_sep(lines, a, b, '\n'))
}

/// The full frames of a sheet: consecutive chunks of `h` lines starting at
/// `a`; a final partial chunk is no frame.
pub open spec fn chunk_frames(lines: Seq<Seq<char>>, a: int, h: int) -> Seq<Seq<char>>
    decreases lines.len() - a,
    when h >= 1 && a >= 0
    via chunk_frames_decreases
{
    if a + h <= lines.len() {
        seq![frame_text(lines, a, a + h)] + chunk_frames(lines, a + h, h)
    } else {
        seq![]
    }
}

#[via_fn]
proof fn chunk_frames_decreases(lines: Seq<Seq<char>>, a: int, h: int) {
}

/// A dimension of a sheet header: digits after an optional plus sign.
pub open spec fn spec_dim(t: Seq<char>) -> Option<int> {
    let b: int = if t.len() > 0 && t[0] == '+' {
        1
    } else {
        0
    };
    if digit_end(t, b) == t.len() && t.len() > b && digits_val(t.subrange(b, t.len() as int))
        <= 0xFFFFFFFF {
        Option::Some(digits_val(t.subrange(b, t.len() as int)))
    } else {
        Option::None
    }
}

/// Why a sheet text is refused.
pub enum SheetFaultV {
    EmptyFile,
    BadHeader,
    BadDims,
    BadWidth,
    BadHeight,
}

/// What parsing a sheet text yields: width, height, frames.
pub open spec fn spec_sheet(s: Seq<char>) -> Result<(int, int, Seq<Seq<char>>), SheetFaultV> {
    let lines = spec_lines(s);
    if lines.len() == 0 {
        Result::Err(SheetFaultV::EmptyFile)
    } else if !starts_with_txt(lines[0], "Ascii Art Animation, "@) {
        Result::Err(SheetFaultV::BadHeader)
    } else {
        let after = trimmed(strip_prefix_all(lines[0], "Ascii Art Animation, "@));
        let parts = split_on(after, ',');
        let dims = trimmed(parts[0]);
        let dp = split_on(dims, 'x');
        if dp.len() != 2 {
            Result::Err(SheetFaultV::BadDims)
        } else {
            match spec_dim(dp[0]) {
                Option::None => Result::Err(SheetFaultV::BadWidth),
                Option::Some(w) => match spec_dim(dp[1]) {
                    Option::None => Result::Err(SheetFaultV::BadHeight),
                    Option::Some(h) => {
                        let total = lines.len() - 1;
                        if h >= 1 && total >= h {
                            Result::Ok((w, h, chunk_frames(lines, 1, h)))
                        } else {
                            Result::Ok((w, total as int, seq![frame_text(lines, 1, lines.len() as int)]))
                        }
                    },
                },
            }
        }
    }
}

/// Reads one header dimension.
fn parse_dim(v: &Vec<char>) -> (r: Option<u32>)
    ensures
        match spec_dim(v@) {
            Option::Some(x) => r matches Some(y) && y as int == x,
            Option::None => r is None,
        },
{
    let n = v.len();
    let b: usize = if n > 0 && v[0] == '+' {
        1
    } else {
        0
    };
    proof {
        lemma_digit_end(v@, b as int);
    }
    let d = scan_digits(v, b);
    if !(d == n && n > b) {
        return None;
    }
    let value = digits_value(v, b, n);
    proof {
        assert(v@.subrange(b as int, n as int) =~= v@.subrange(b as int, v@.len() as int));
        assert(crate::text::DIGIT_CAP == 0xFFFFFFFFFFFFFFFF);
    }
    if value > 0xFFFFFFFF {
        return None;
    }
    Some(value as u32)
}

impl AsciiArtSheet {
    /// An empty sheet of the given character dimensions.
    pub fn new(width: usize, height: usize) -> (r: AsciiArtSheet)
        ensures
            r.width == width,
            r.height == height,
            r.frames@.len() == 0,
    {
        AsciiArtSheet { width, height, frames: Vec::new() }
    }

    /// Appends one frame.
    pub fn add_frame(&mut self, frame: String)
        ensures
            final(self).width == old(self).width,
            final(self).height == old(self).height,
            final(self).frames@ == old(self).frames@.push(frame),
    {
        self.frames.push(frame);
    }

    /// How many frames the sheet holds.
    pub fn frame_count(&self) -> (r: usize)
        ensures
            r == self.frames@.len(),
    {
        self.frames.len()
    }

    /// Reads a sheet from its text form: an `Ascii Art Animation, WxH`
    /// header line, then the frames, each `H` lines. When no full frame
    /// fits, everything after the header is one frame and the height is
    /// what that frame holds. The result is exactly `spec_sheet` of the
    /// text.
    #[verifier::rlimit(50)]
    pub fn from_string(content: &str) -> (r: Result<AsciiArtSheet, String>)
        ensures
            match spec_sheet(content@) {
                Result::Ok(t) => r matches Ok(sh) && sh.width as int == t.0 && sh.height as int
                    == t.1 && sh.frames@.map_values(|f: String| f@) == t.2,
                Result::Err(f) => r matches Err(m) && m@ == (match f {
                    SheetFaultV::EmptyFile => "Empty file"@,
                    SheetFaultV::BadHeader => "Invalid header"@,
                    SheetFaultV::BadDims => "Invalid dimensions format, expected WIDTHxHEIGHT"@,
                    SheetFaultV::BadWidth => "Invalid width"@,
                    SheetFaultV::BadHeight => "Invalid height"@,
                }),
            },
    {
        let v = chars_of(content);
        let lines = line_spans(&v);
        let ghost ls = spec_lines(content@);
        proof {
            assert(spans_text(v@, lines@) == ls);
        }
        if lines.len() == 0 {
            return Err(String::from_str("Empty file"));
        }
        let hspan = lines[0];
        let header = subvec(&v, hspan.lo, hspan.hi);
        proof {
            assert(header@ == ls[0]);
            reveal_strlit("Ascii Art Animation, ");
        }
        let pn = "Ascii Art Animation, ".unicode_len();
        if !(header.len() >= pn && range_eq_str(&header, 0, pn, "Ascii Art Animation, ")) {
            return Err(String::from_str("Invalid header"));
        }
        let start = skip_prefix_all(&header, 0, "Ascii Art Animation, ");
        let rest = subvec(&header, start, header.len());
        proof {
            assert(header@.subrange(0, header@.len() as int) =~= header@);
        }
        let rsp = trim_span(&rest);
        let after = subvec(&rest, rsp.lo, rsp.hi);
        let parts = split_char_spans(&after, ',');
        let ghost ps = split_on(after@, ',');
        proof {
            assert(spans_text(after@, parts@) == ps);
        }
        let d0 = parts[0];
        let draw = subvec(&after, d0.lo, d0.hi);
        proof {
            assert(draw@ == ps[0]);
        }
        let dsp = trim_span(&draw);
        let dims = subvec(&draw, dsp.lo, dsp.hi);
        let dparts = split_char_spans(&dims, 'x');
        let ghost dp = split_on(dims@, 'x');
        proof {
            assert(spans_text(dims@, dparts@) == dp);
        }
        if dparts.len() != 2 {
            return Err(String::from_str("Invalid dimensions format, expected WIDTHxHEIGHT"));
        }
        let w0 = subvec(&dims, dparts[0].lo, dparts[0].hi);
        proof {
            assert(w0@ == dp[0]);
        }
        let width: u32 = match parse_dim(&w0) {
            Some(w) => w,
            None => {
                return Err(String::from_str("Invalid width"));
            },
        };
        let h0 = subvec(&dims, dparts[1].lo, dparts[1].hi);
        proof {
            assert(h0@ == dp[1]);
        }
        let height: u32 = match parse_dim(&h0) {
            Some(h) => h,
            None => {
                return Err(String::from_str("Invalid height"));
            },
        };
        let total = lines.len() - 1;
        let h = height as usize;
        let mut frames: Vec<String> = Vec::new();
        if h >= 1 && total >= h {
            let mut a: usize = 1;
            proof {
                assert(frames@.map_values(|f: String| f@) =~= Seq::<Seq<char>>::empty());
                if chunk_frames(ls, 1, h as int).len() >= 0 {
                    assert(Seq::<Seq<char>>::empty() + chunk_frames(ls, 1, h as int)
                        =~= chunk_frames(ls, 1, h as int));
                }
            }
            while h <= lines.len() - a
                invariant
                    1 <= a <= lines@.len(),
                    h >= 1,
                    spans_wf(v@, lines@),
                    ls == spans_text(v@, lines@),
                    ls.len() == lines@.len(),
                    frames@.map_values(|f: String| f@) + chunk_frames(ls, a as int, h as int)
                        == chunk_frames(ls, 1, h as int),
                decreases lines@.len() - a,
            {
                let frame = build_frame(&v, &lines, a, a + h);
                let ghost old_frames = frames@;
                frames.push(frame);
                proof {
                    assert(frames@.map_values(|f: String| f@) =~= old_frames.map_values(
                        |f: String| f@,
                    ).push(frame_text(ls, a as int, a as int + h as int)));
                    assert(chunk_frames(ls, a as int, h as int) == seq![
                        frame_text(ls, a as int, a as int + h as int),
                    ] + chunk_frames(ls, a as int + h as int, h as int));
                    assert(frames@.map_values(|f: String| f@) + chunk_frames(
                        ls,
                        a as int + h as int,
                        h as int,
                    ) =~= chunk_frames(ls, 1, h as int));
                }
                a = a + h;
            }
            proof {
                assert(chunk_frames(ls, a as int, h as int) =~= Seq::<Seq<char>>::empty());
                assert(frames@.map_values(|f: String| f@) + Seq::<Seq<char>>::empty()
                    =~= frames@.map_values(|f: String| f@));
            }
            Ok(AsciiArtSheet { width: width as usize, height: h, frames })
        } else {
            let frame = build_frame(&v, &lines, 1, lines.len());
            frames.push(frame);
            proof {
                assert(frames@.map_values(|f: String| f@) =~= seq![
                    frame_text(ls, 1, ls.len() as int),
                ]);
            }
            Ok(AsciiArtSheet { width: width as usize, height: total, frames })
        }
    }

    /// The sheet in its text form: the header line, then every frame on its
    /// own lines. `ws` and `hs` are the decimal spellings of the sheet's
    /// dimensions.
    pub fn to_text(&self) -> (r: String)
        ensures
            exists|ws: Seq<char>, hs: Seq<char>|
                {
                    &&& is_dec_rep(ws, self.width as int)
                    &&& is_dec_rep(hs, self.height as int)
                    &&& r@ == "Ascii Art Animation, "@ + ws + "x"@ + hs + "\n"@ + frames_body(
                        self.frames@.map_values(|f: String| f@),
                    )
                },
    {
        let mut r = String::from_str("Ascii Art Animation, ");
        let ws = fmt_u64(self.width as u64);
        let ghost wv = ws@;
        r.append(ws.as_str());
        r.append("x");
        let hs = fmt_u64(self.height as u64);
        let ghost hv = hs@;
        r.append(hs.as_str());
        r.append("\n");
        let ghost head = r@;
        let mut k: usize = 0;
        proof {
            assert(frames_body(self.frames@.map_values(|f: String| f@).subrange(0, 0))
                =~= Seq::<char>::empty());
            assert(r@ =~= head + frames_body(
                self.frames@.map_values(|f: String| f@).subrange(0, 0),
            ));
        }
        while k < self.frames.len()
            invariant
                k <= self.frames@.len(),
                r@ == head + frames_body(
                    self.frames@.map_values(|f: String| f@).subrange(0, k as int),
                ),
            decreases self.frames@.len() - k,
        {
            r.append(self.frames[k].as_str());
            r.append("\n");
            k = k + 1;
            proof {
                let fs = self.frames@.map_values(|f: String| f@);
                let pre = fs.subrange(0, k as int);
                assert(pre.drop_last() =~= fs.subrange(0, k as int - 1));
                assert(pre.last() == fs[k as int - 1]);
                assert(r@ =~= head + frames_body(pre));
            }
        }
        proof {
            let fs = self.frames@.map_values(|f: String| f@);
            assert(fs.subrange(0, fs.len() as int) =~= fs);
            assert(head =~= "Ascii Art Animation, "@ + wv + "x"@ + hv + "\n"@);
        }
        r
    }
}

/// Every frame followed by a newline.
pub open spec fn frames_body(fs: Seq<Seq<char>>) -> Seq<char>
    decreases fs.len(),
{
    if fs.len() == 0 {
        seq![]
    } else {
        frames_body(fs.drop_last()) + fs.last() + "\n"@
    }
}

/// Joins the lines `a..b` with newlines and trims the trailing whitespace:
/// one frame of a sheet.
fn build_frame(v: &Vec<char>, lines: &Vec<Span>, a: usize, b: usize) -> (r: String)
    requires
        spans_wf(v@, lines@),
        a <= b <= lines@.len(),
    ensures
        r@ == frame_text(spans_text(v@, lines@), a as int, b as int),
{
    let ghost ls = spans_text(v@, lines@);
    let mut buf: Vec<char> = Vec::new();
    let mut m: usize = a;
    proof {
        assert(buf@ =~= join_sep(ls, a as int, a as int, '\n'));
    }
    while m < b
        invariant
            a <= m <= b <= lines@.len(),
            spans_wf(v@, lines@),
            ls == spans_text(v@, lines@),
            buf@ == join_sep(ls, a as int, m as int, '\n'),
        decreases b - m,
    {
        if m > a {
            buf.push('\n');
        }
        let span = lines[m];
        append_range(&mut buf, v, span.lo, span.hi);
        proof {
            lemma_join_sep_snoc(ls, a as int, m as int, '\n');
            if m == a {
                assert(buf@ =~= join_sep(ls, a as int, m as int + 1, '\n'));
            } else {
                assert(buf@ =~= join_sep(ls, a as int, m as int, '\n') + seq!['\n'] + ls[m as int]);
            }
        }
        m = m + 1;
    }
    let e = trim_end_index(&buf);
    string_of_range(&buf, 0, e)
}


// ---------------------------------------------------------------------------
// Braille rendering and cropping
// ---------------------------------------------------------------------------

/// The image-to-text converter: pixels in, braille characters out.
pub struct ImageConverter;

/// The braille code of one 2-by-4 dot cell: the blank braille character,
/// plus each raised dot's weight.
pub open spec fn braille_code_of(dots: Seq<bool>) -> int {
    0x2800 + (if dots[0] {
        0x01int
    } else {
        0
    }) + (if dots[1] {
        0x08int
    } else {
        0
    }) + (if dots[2] {
        0x02int
    } else {
        0
    }) + (if dots[3] {
        0x10int
    } else {
        0
    }) + (if dots[4] {
        0x04int
    } else {
        0
    }) + (if dots[5] {
        0x20int
    } else {
        0
    }) + (if dots[6] {
        0x40int
    } else {
        0
    }) + (if dots[7] {
        0x80int
    } else {
        0
    })
}

/// Relies on std's char::from_u32: every value in the braille block is a
/// valid scalar, returned as the character with exactly that code.
#[verifier::external_body]
fn braille_char(code: u32) -> (r: char)
    requires
        0x2800 <= code <= 0x28FF,
    ensures
        r as u32 == code,
{
    char::from_u32(code).unwrap_or('\u{2800}')
}

/// Is the pixel at `(x, y)` a raised dot? Pixels outside the image are not.
pub open spec fn dot_at(pixels: Seq<bool>, img_w: int, img_h: int, x: int, y: int) -> bool {
    0 <= x < img_w && 0 <= y < img_h && pixels[y * img_w + x]
}

/// The dot cell of the braille character at `(cx, cy)`.
pub open spec fn cell_dots(pixels: Seq<bool>, img_w: int, img_h: int, cx: int, cy: int) -> Seq<
    bool,
> {
    Seq::new(8, |i: int| dot_at(pixels, img_w, img_h, cx * 2 + i % 2, cy * 4 + i / 2))
}

impl ImageConverter {
    /// The largest centered crop of a `w` by `h` image with the screen's
    /// aspect ratio of 8:5, as `(x, y, width, height)`. A wider image loses
    /// its sides, a taller one its top and bottom.
    pub fn calculate_center_crop(source_width: u32, source_height: u32) -> (r: (u32, u32, u32, u32))
        requires
            source_width >= 1,
            source_height >= 1,
        ensures
            ({
                let w = source_width as int;
                let h = source_height as int;
                if 5 * w > 8 * h {
                    r.2 == 8 * h / 5 && r.3 == h
                } else {
                    r.2 == w && r.3 == 5 * w / 8
                }
            }),
            r.2 <= source_width && r.3 <= source_height,
            r.0 == (source_width - r.2) / 2,
            r.1 == (source_height - r.3) / 2,
    {
        let w = source_width as u64;
        let h = source_height as u64;
        let (crop_w, crop_h): (u64, u64) = if 5 * w > 8 * h {
            ((8 * h) / 5, h)
        } else {
            (w, (5 * w) / 8)
        };
        let crop_w = crop_w as u32;
        let crop_h = crop_h as u32;
        let crop_x = (source_width - crop_w) / 2;
        let crop_y = (source_height - crop_h) / 2;
        (crop_x, crop_y, crop_w, crop_h)
    }

    /// The braille character whose raised dots are exactly the given cell,
    /// in standard dot order: left column top to bottom carries weights
    /// 1, 2, 4, 64 and the right column 8, 16, 32, 128.
    pub fn dots_to_braille(dots: [bool; 8]) -> (r: char)
        ensures
            r as int == braille_code_of(dots@),
    {
        let mut code: u32 = 0x2800;
        if dots[0] {
            code = code + 0x01;
        }
        if dots[1] {
            code = code + 0x08;
        }
        if dots[2] {
            code = code + 0x02;
        }
        if dots[3] {
            code = code + 0x10;
        }
        if dots[4] {
            code = code + 0x04;
        }
        if dots[5] {
            code = code + 0x20;
        }
        if dots[6] {
            code = code + 0x40;
        }
        if dots[7] {
            code = code + 0x80;
        }
        braille_char(code)
    }

    /// Reads the pixel grid as rows of braille characters: `char_height`
    /// rows of `char_width` characters, each character's cell being the
    /// 2-by-4 pixel block under it, pixels beyond the image staying blank.
    pub fn braille_rows(
        pixels: &Vec<bool>,
        img_w: usize,
        img_h: usize,
        char_width: usize,
        char_height: usize,
    ) -> (rows: Vec<String>)
        requires
            pixels@.len() == img_w * img_h,
            img_w <= 0xFFFFFFFF,
            img_h <= 0xFFFFFFFF,
            char_width <= 0xFFFFFFFF,
            char_height <= 0xFFFFFFFF,
        ensures
            rows@.len() == char_height,
            forall|cy: int|
                0 <= cy < char_height ==> (#[trigger] rows@[cy])@.len() == char_width,
            forall|cy: int, cx: int|
                0 <= cy < char_height && 0 <= cx < char_width ==> #[trigger] (rows@[cy])@[cx] as int
                    == braille_code_of(cell_dots(pixels@, img_w as int, img_h as int, cx, cy)),
    {
        let mut rows: Vec<String> = Vec::new();
        let mut cy: usize = 0;
        while cy < char_height
            invariant
                cy <= char_height,
                char_width <= 0xFFFFFFFF,
                char_height <= 0xFFFFFFFF,
                img_w <= 0xFFFFFFFF,
                img_h <= 0xFFFFFFFF,
                pixels@.len() == img_w * img_h,
                rows@.len() == cy,
                forall|y: int| 0 <= y < cy ==> (#[trigger] rows@[y])@.len() == char_width,
                forall|y: int, x: int|
                    0 <= y < cy && 0 <= x < char_width ==> #[trigger] (rows@[y])@[x] as int
                        == braille_code_of(
                        cell_dots(pixels@, img_w as int, img_h as int, x, y),
                    ),
            decreases char_height - cy,
        {
            let mut row = String::new();
            let mut cx: usize = 0;
            while cx < char_width
                invariant
                    cx <= char_width,
                    cy < char_height,
                    char_width <= 0xFFFFFFFF,
                    char_height <= 0xFFFFFFFF,
                    img_w <= 0xFFFFFFFF,
                    img_h <= 0xFFFFFFFF,
                    pixels@.len() == img_w * img_h,
                    row@.len() == cx,
                    forall|x: int|
                        0 <= x < cx ==> #[trigger] row@[x] as int == braille_code_of(
                            cell_dots(pixels@, img_w as int, img_h as int, x, cy as int),
                        ),
                decreases char_width - cx,
            {
                let d0 = Self::pixel_dot(pixels, img_w, img_h, cx, cy, 0, 0);
                let d1 = Self::pixel_dot(pixels, img_w, img_h, cx, cy, 1, 0);
                let d2 = Self::pixel_dot(pixels, img_w, img_h, cx, cy, 0, 1);
                let d3 = Self::pixel_dot(pixels, img_w, img_h, cx, cy, 1, 1);
                let d4 = Self::pixel_dot(pixels, img_w, img_h, cx, cy, 0, 2);
                let d5 = Self::pixel_dot(pixels, img_w, img_h, cx, cy, 1, 2);
                let d6 = Self::pixel_dot(pixels, img_w, img_h, cx, cy, 0, 3);
                let d7 = Self::pixel_dot(pixels, img_w, img_h, cx, cy, 1, 3);
                let c = Self::dots_to_braille([d0, d1, d2, d3, d4, d5, d6, d7]);
                proof {
                    let cell = cell_dots(pixels@, img_w as int, img_h as int, cx as int, cy as int);
                    assert([d0, d1, d2, d3, d4, d5, d6, d7]@ =~= cell);
                }
                push_char(&mut row, c);
                cx = cx + 1;
            }
            rows.push(row);
            cy = cy + 1;
        }
        rows
    }

    /// The rows of `braille_rows`, joined with newlines into one text.
    pub fn image_to_braille_string(
        pixels: &Vec<bool>,
        img_w: usize,
        img_h: usize,
        char_width: usize,
        char_height: usize,
    ) -> (r: String)
        requires
            pixels@.len() == img_w * img_h,
            img_w <= 0xFFFFFFFF,
            img_h <= 0xFFFFFFFF,
            char_width <= 0xFFFFFFFF,
            char_height <= 0xFFFFFFFF,
        ensures
            exists|rows: Seq<Seq<char>>|
                {
                    &&& rows.len() == char_height
                    &&& (forall|cy: int|
                        0 <= cy < char_height ==> (#[trigger] rows[cy]).len() == char_width)
                    &&& (forall|cy: int, cx: int|
                        0 <= cy < char_height && 0 <= cx < char_width ==> #[trigger] (
                        rows[cy])[cx] as int == braille_code_of(
                            cell_dots(pixels@, img_w as int, img_h as int, cx, cy),
                        ))
                    &&& r@ == join_sep(rows, 0, char_height as int, '\n')
                },
    {
        let rows = Self::braille_rows(pixels, img_w, img_h, char_width, char_height);
        let ghost rs = rows@.map_values(|f: String| f@);
        let mut r = String::new();
        let mut k: usize = 0;
        proof {
            assert(r@ =~= join_sep(rs, 0, 0, '\n'));
        }
        while k < rows.len()
            invariant
                k <= rows@.len(),
                rs == rows@.map_values(|f: String| f@),
                rs.len() == rows@.len(),
                r@ == join_sep(rs, 0, k as int, '\n'),
            decreases rows@.len() - k,
        {
            if k > 0 {
                push_char(&mut r, '\n');
            }
            r.append(rows[k].as_str());
            proof {
                lemma_join_sep_snoc(rs, 0, k as int, '\n');
                assert(r@ =~= join_sep(rs, 0, k as int + 1, '\n'));
            }
            k = k + 1;
        }
        proof {
            assert(rs.len() == char_height);
        }
        r
    }

    /// One dot of a cell: the pixel `(cx*2+dx, cy*4+dy)`, blank off-image.
    fn pixel_dot(
        pixels: &Vec<bool>,
        img_w: usize,
        img_h: usize,
        cx: usize,
        cy: usize,
        dx: usize,
        dy: usize,
    ) -> (r: bool)
        requires
            pixels@.len() == img_w * img_h,
            img_w <= 0xFFFFFFFF,
            img_h <= 0xFFFFFFFF,
            cx <= 0xFFFFFFFF,
            cy <= 0xFFFFFFFF,
            dx <= 1,
            dy <= 3,
        ensures
            r == dot_at(
                pixels@,
                img_w as int,
                img_h as int,
                cx as int * 2 + dx,
                cy as int * 4 + dy,
            ),
    {
        let x: u64 = (cx as u64) * 2 + (dx as u64);
        let y: u64 = (cy as u64) * 4 + (dy as u64);
        if x < img_w as u64 && y < img_h as u64 {
            let pl = pixels.len();
            proof {
                assert(y as int * img_w as int + x < img_w as int * img_h as int)
                    by (nonlinear_arith)
                    requires
                        0 <= x < img_w,
                        0 <= y < img_h,
                ;
            }
            let idx: u64 = y * (img_w as u64) + x;
            pixels[idx as usize]
        } else {
            false
        }
    }
}

} // verus!
