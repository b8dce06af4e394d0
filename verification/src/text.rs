use vstd::prelude::*;

verus! {

// ---------------------------------------------------------------------------
// Character classes
// ---------------------------------------------------------------------------

/// Whitespace as the notation understands it: the ASCII blank characters.
pub open spec fn is_space(c: char) -> bool {
    c == ' ' || c == '\t' || c == '\n' || c == '\r'
}

pub open spec fn is_digit(c: char) -> bool {
    '0' <= c && c <= '9'
}

pub open spec fn digit_val(c: char) -> int {
    c as int - '0' as int
}

pub open spec fn is_upper(c: char) -> bool {
    'A' <= c && c <= 'Z'
}

pub open spec fn is_lower(c: char) -> bool {
    'a' <= c && c <= 'z'
}

pub open spec fn is_letter(c: char) -> bool {
    is_upper(c) || is_lower(c)
}

pub fn exec_is_space(c: char) -> (r: bool)
    ensures
        r == is_space(c),
{
    c == ' ' || c == '\t' || c == '\n' || c == '\r'
}

pub fn exec_is_digit(c: char) -> (r: bool)
    ensures
        r == is_digit(c),
{
    '0' <= c && c <= '9'
}

pub fn exec_is_letter(c: char) -> (r: bool)
    ensures
        r == is_letter(c),
{
    ('A' <= c && c <= 'Z') || ('a' <= c && c <= 'z')
}

pub fn exec_digit_val(c: char) -> (r: u32)
    requires
        is_digit(c),
    ensures
        r == digit_val(c),
        r <= 9,
{
    (c as u32) - 48
}

// ---------------------------------------------------------------------------
// Strings and character vectors
// ---------------------------------------------------------------------------

/// Relies on std's String::push: appends one character at the end of the string.
#[verifier::external_body]
pub(crate) fn push_char(s: &mut String, c: char)
    ensures
        final(s)@ == old(s)@.push(c),
{
    s.push(c);
}

/// The characters of a string slice, as a vector.
pub fn chars_of(s: &str) -> (v: Vec<char>)
    ensures
        v@ == s@,
{
    let n = s.unicode_len();
    let mut v: Vec<char> = Vec::new();
    let mut i: usize = 0;
    while i < n
        invariant
            i <= n,
            n == s@.len(),
            v@ == s@.subrange(0, i as int),
        decreases n - i,
    {
        let c = s.get_char(i);
        v.push(c);
        i = i + 1;
        proof {
            assert(v@ =~= s@.subrange(0, i as int));
        }
    }
    proof {
        assert(v@ =~= s@);
    }
    v
}

/// A fresh vector holding the characters `v[from..to]`.
pub fn subvec(v: &Vec<char>, from: usize, to: usize) -> (r: Vec<char>)
    requires
        from <= to <= v@.len(),
    ensures
        r@ == v@.subrange(from as int, to as int),
{
    let mut r: Vec<char> = Vec::new();
    let mut i: usize = from;
    while i < to
        invariant
            from <= i <= to <= v@.len(),
            r@ == v@.subrange(from as int, i as int),
        decreases to - i,
    {
        r.push(v[i]);
        i = i + 1;
        proof {
            assert(r@ =~= v@.subrange(from as int, i as int));
        }
    }
    r
}

/// A string holding the characters `v[from..to]`.
pub fn string_of_range(v: &Vec<char>, from: usize, to: usize) -> (s: String)
    requires
        from <= to <= v@.len(),
    ensures
        s@ == v@.subrange(from as int, to as int),
{
    let mut s = String::new();
    let mut i: usize = from;
    while i < to
        invariant
            from <= i <= to <= v@.len(),
            s@ == v@.subrange(from as int, i as int),
        decreases to - i,
    {
        push_char(&mut s, v[i]);
        i = i + 1;
        proof {
            assert(s@ =~= v@.subrange(from as int, i as int));
        }
    }
    s
}

/// True exactly when `v[from..to]` spells the same characters as `lit`.
pub fn range_eq_str(v: &Vec<char>, from: usize, to: usize, lit: &str) -> (r: bool)
    requires
        from <= to <= v@.len(),
    ensures
        r == (v@.subrange(from as int, to as int) == lit@),
{
    let n = lit.unicode_len();
    if to - from != n {
        proof {
            assert(v@.subrange(from as int, to as int).len() != lit@.len());
        }
        return false;
    }
    let mut i: usize = 0;
    while i < n
        invariant
            i <= n,
            n == lit@.len(),
            from <= to <= v@.len(),
            to - from == n,
            forall|k: int| 0 <= k < i ==> v@[from + k] == lit@[k],
        decreases n - i,
    {
        if v[from + i] != lit.get_char(i) {
            proof {
                assert(v@.subrange(from as int, to as int)[i as int] != lit@[i as int]);
            }
            return false;
        }
        i = i + 1;
    }
    proof {
        assert(v@.subrange(from as int, to as int) =~= lit@);
    }
    true
}

// ---------------------------------------------------------------------------
// Digit runs and their numeric value
// ---------------------------------------------------------------------------

/// The index of the first non-digit character at or after `from` (or the end).
pub open spec fn digit_end(s: Seq<char>, from: int) -> int
    decreases s.len() - from,
{
    if from < 0 || from >= s.len() || !is_digit(s[from]) {
        from
    } else {
        digit_end(s, from + 1)
    }
}

pub proof fn lemma_digit_end(s: Seq<char>, from: int)
    requires
        0 <= from <= s.len(),
    ensures
        from <= digit_end(s, from) <= s.len(),
        forall|k: int| from <= k < digit_end(s, from) ==> is_digit(s[k]),
        digit_end(s, from) < s.len() ==> !is_digit(s[digit_end(s, from)]),
    decreases s.len() - from,
{
    if from < s.len() && is_digit(s[from]) {
        lemma_digit_end(s, from + 1);
    }
}

/// The numeric value of a digit string.
pub open spec fn digits_val(s: Seq<char>) -> int
    decreases s.len(),
{
    if s.len() == 0 {
        0
    } else {
        10 * digits_val(s.drop_last()) + digit_val(s.last())
    }
}

pub open spec fn all_digits(s: Seq<char>) -> bool {
    forall|k: int| 0 <= k < s.len() ==> is_digit(s[k])
}

pub proof fn lemma_digits_val_bounds(s: Seq<char>)
    requires
        all_digits(s),
    ensures
        digits_val(s) >= 0,
        s.len() == 1 ==> digits_val(s) == digit_val(s[0]),
    decreases s.len(),
{
    if s.len() > 0 {
        assert(all_digits(s.drop_last())) by {
            assert(forall|k: int| 0 <= k < s.len() - 1 ==> s.drop_last()[k] == s[k]);
        }
        lemma_digits_val_bounds(s.drop_last());
    }
}

/// A bound above every meaningful numeric field; longer runs saturate here.
pub const DIGIT_CAP: u64 = 0xFFFFFFFFFFFFFFFF;

/// The value saturated at `DIGIT_CAP`, so that it fits an executable integer.
pub open spec fn digits_val_capped(s: Seq<char>) -> int {
    if digits_val(s) > DIGIT_CAP {
        DIGIT_CAP as int
    } else {
        digits_val(s)
    }
}

/// Ten to the `k`-th power.
pub open spec fn pow10(k: int) -> int
    decreases k,
{
    if k <= 0 {
        1
    } else {
        10 * pow10(k - 1)
    }
}

/// A digit string's value stays below ten to its length.
pub proof fn lemma_digits_val_upper(s: Seq<char>)
    requires
        all_digits(s),
    ensures
        0 <= digits_val(s) < pow10(s.len() as int),
    decreases s.len(),
{
    if s.len() > 0 {
        assert(all_digits(s.drop_last())) by {
            assert(forall|k: int| 0 <= k < s.len() - 1 ==> s.drop_last()[k] == s[k]);
        }
        lemma_digits_val_upper(s.drop_last());
    }
}

/// A value saturated into `u32` range.
pub open spec fn capped_u32(x: int) -> int {
    if x > 0xFFFFFFFF {
        0xFFFFFFFF
    } else {
        x
    }
}

/// The first index at or after `from` whose character is not a digit.
pub fn scan_digits(v: &Vec<char>, from: usize) -> (end: usize)
    requires
        from <= v@.len(),
    ensures
        end == digit_end(v@, from as int),
        from <= end <= v@.len(),
{
    proof {
        lemma_digit_end(v@, from as int);
    }
    let mut i: usize = from;
    while i < v.len() && exec_is_digit(v[i])
        invariant
            from <= i <= v@.len(),
            digit_end(v@, from as int) == digit_end(v@, i as int),
        decreases v@.len() - i,
    {
        i = i + 1;
    }
    proof {
        assert(digit_end(v@, i as int) == i);
    }
    i
}

/// The value of the digit run `v[from..to]`, saturated at `DIGIT_CAP`.
pub fn digits_value(v: &Vec<char>, from: usize, to: usize) -> (r: u64)
    requires
        from <= to <= v@.len(),
        forall|k: int| from <= k < to ==> is_digit(v@[k]),
    ensures
        r == digits_val_capped(v@.subrange(from as int, to as int)),
        r <= DIGIT_CAP,
{
    let ghost s = v@.subrange(from as int, to as int);
    proof {
        assert(all_digits(s));
        lemma_digits_val_bounds(s);
    }
    let mut acc: u64 = 0;
    let mut i: usize = from;
    while i < to
        invariant
            from <= i <= to <= v@.len(),
            s == v@.subrange(from as int, to as int),
            all_digits(s),
            forall|k: int| from <= k < to ==> is_digit(v@[k]),
            acc == digits_val_capped(v@.subrange(from as int, i as int)),
            acc <= DIGIT_CAP,
        decreases to - i,
    {
        let ghost pre = v@.subrange(from as int, i as int);
        let d = exec_digit_val(v[i]);
        proof {
            let post = v@.subrange(from as int, i as int + 1);
            assert(post.drop_last() =~= pre);
            assert(post.last() == v@[i as int]);
            assert(digits_val(post) == 10 * digits_val(pre) + digit_val(v@[i as int]));
            assert(all_digits(pre)) by {
                assert(forall|k: int| 0 <= k < pre.len() ==> pre[k] == v@[from + k]);
            }
            lemma_digits_val_bounds(pre);
        }
        if acc > (DIGIT_CAP - d as u64) / 10 {
            acc = DIGIT_CAP;
        } else {
            acc = acc * 10 + d as u64;
        }
        i = i + 1;
    }
    proof {
        assert(v@.subrange(from as int, to as int) =~= s);
    }
    acc
}


// ---------------------------------------------------------------------------
// Whitespace tokenization
// ---------------------------------------------------------------------------

/// The first index at or after `from` whose character is not whitespace.
pub open spec fn skip_spaces(s: Seq<char>, from: int) -> int
    decreases s.len() - from,
{
    if from < 0 || from >= s.len() || !is_space(s[from]) {
        from
    } else {
        skip_spaces(s, from + 1)
    }
}

/// The first index at or after `from` whose character is whitespace (or the end).
pub open spec fn token_end(s: Seq<char>, from: int) -> int
    decreases s.len() - from,
{
    if from < 0 || from >= s.len() || is_space(s[from]) {
        from
    } else {
        token_end(s, from + 1)
    }
}

pub proof fn lemma_skip_spaces(s: Seq<char>, from: int)
    requires
        0 <= from <= s.len(),
    ensures
        from <= skip_spaces(s, from) <= s.len(),
        forall|k: int| from <= k < skip_spaces(s, from) ==> is_space(s[k]),
        skip_spaces(s, from) < s.len() ==> !is_space(s[skip_spaces(s, from)]),
    decreases s.len() - from,
{
    if from < s.len() && is_space(s[from]) {
        lemma_skip_spaces(s, from + 1);
    }
}

pub proof fn lemma_token_end(s: Seq<char>, from: int)
    requires
        0 <= from <= s.len(),
    ensures
        from <= token_end(s, from) <= s.len(),
        forall|k: int| from <= k < token_end(s, from) ==> !is_space(s[k]),
        token_end(s, from) < s.len() ==> is_space(s[token_end(s, from)]),
        from < s.len() && !is_space(s[from]) ==> token_end(s, from) > from,
    decreases s.len() - from,
{
    if from < s.len() && !is_space(s[from]) {
        lemma_token_end(s, from + 1);
    }
}

/// The whitespace-separated tokens of `s` from index `from` on.
pub open spec fn tokens_from(s: Seq<char>, from: int) -> Seq<Seq<char>>
    decreases s.len() - from,
    when 0 <= from <= s.len()
    via tokens_from_decreases
{
    let b = skip_spaces(s, from);
    if b >= s.len() {
        seq![]
    } else {
        let e = token_end(s, b);
        seq![s.subrange(b, e)] + tokens_from(s, e)
    }
}

#[via_fn]
proof fn tokens_from_decreases(s: Seq<char>, from: int) {
    lemma_skip_spaces(s, from);
    let b = skip_spaces(s, from);
    if b < s.len() {
        lemma_token_end(s, b);
    }
}

/// The whitespace-separated tokens of the whole of `s`.
pub open spec fn ws_tokens(s: Seq<char>) -> Seq<Seq<char>> {
    tokens_from(s, 0)
}

/// Every token is non-empty and free of whitespace.
pub proof fn lemma_tokens_from_wf(s: Seq<char>, from: int)
    requires
        0 <= from <= s.len(),
    ensures
        forall|k: int|
            0 <= k < tokens_from(s, from).len() ==> {
                let t = #[trigger] tokens_from(s, from)[k];
                t.len() > 0 && forall|j: int| 0 <= j < t.len() ==> !is_space(t[j])
            },
    decreases s.len() - from,
{
    lemma_skip_spaces(s, from);
    let b = skip_spaces(s, from);
    if b < s.len() {
        lemma_token_end(s, b);
        let e = token_end(s, b);
        lemma_tokens_from_wf(s, e);
        let t0 = s.subrange(b, e);
        assert(t0.len() > 0);
        assert(forall|j: int| 0 <= j < t0.len() ==> t0[j] == s[b + j] && !is_space(t0[j]));
        assert(forall|k: int|
            1 <= k < tokens_from(s, from).len() ==> tokens_from(s, from)[k] == tokens_from(
                s,
                e,
            )[k - 1]);
    }
}

/// A half-open index range into a character vector.
#[derive(Clone, Copy, Debug, PartialEq, Eq, Structural)]
pub struct Span {
    pub lo: usize,
    pub hi: usize,
}

/// The text that a list of spans selects out of `s`.
pub open spec fn spans_text(s: Seq<char>, spans: Seq<Span>) -> Seq<Seq<char>> {
    Seq::new(spans.len(), |k: int| s.subrange(spans[k].lo as int, spans[k].hi as int))
}

pub open spec fn spans_wf(s: Seq<char>, spans: Seq<Span>) -> bool {
    forall|k: int| 0 <= k < spans.len() ==> #[trigger] spans[k].lo <= spans[k].hi <= s.len()
}

/// Splits `v` into its whitespace-separated tokens, reported as index spans.
pub fn split_spaces(v: &Vec<char>) -> (r: Vec<Span>)
    ensures
        spans_wf(v@, r@),
        spans_text(v@, r@) == ws_tokens(v@),
{
    let mut r: Vec<Span> = Vec::new();
    let mut i: usize = 0;
    proof {
        assert(spans_text(v@, r@) + tokens_from(v@, 0) =~= ws_tokens(v@));
    }
    while i < v.len()
        invariant
            i <= v@.len(),
            spans_wf(v@, r@),
            spans_text(v@, r@) + tokens_from(v@, i as int) == ws_tokens(v@),
        decreases v@.len() - i,
    {
        if exec_is_space(v[i]) {
            proof {
                assert(skip_spaces(v@, i as int) == skip_spaces(v@, i as int + 1));
            }
            i = i + 1;
        } else {
            proof {
                lemma_token_end(v@, i as int);
            }
            let mut j: usize = i;
            while j < v.len() && !exec_is_space(v[j])
                invariant
                    i <= j <= v@.len(),
                    token_end(v@, i as int) == token_end(v@, j as int),
                decreases v@.len() - j,
            {
                j = j + 1;
            }
            proof {
                assert(token_end(v@, j as int) == j);
                assert(skip_spaces(v@, i as int) == i);
                assert(tokens_from(v@, i as int) == seq![v@.subrange(i as int, j as int)]
                    + tokens_from(v@, j as int));
            }
            let ghost old_spans = r@;
            r.push(Span { lo: i, hi: j });
            proof {
                assert(spans_text(v@, r@) =~= spans_text(v@, old_spans)
                    + seq![v@.subrange(i as int, j as int)]);
                assert(spans_text(v@, r@) + tokens_from(v@, j as int) =~= ws_tokens(v@));
            }
            i = j;
        }
    }
    proof {
        assert(tokens_from(v@, i as int) =~= Seq::<Seq<char>>::empty());
        assert(spans_text(v@, r@) + tokens_from(v@, i as int) =~= spans_text(v@, r@));
    }
    r
}

// ---------------------------------------------------------------------------
// Trimming
// ---------------------------------------------------------------------------

/// One past the last non-whitespace character of `s` (0 when all whitespace).
pub open spec fn trim_end_at(s: Seq<char>) -> int
    decreases s.len(),
{
    if s.len() == 0 {
        0
    } else if is_space(s.last()) {
        trim_end_at(s.drop_last())
    } else {
        s.len() as int
    }
}

/// The view of `s` with outer whitespace removed.
pub open spec fn trimmed(s: Seq<char>) -> Seq<char> {
    let e = trim_end_at(s);
    let b = skip_spaces(s.subrange(0, e), 0);
    s.subrange(0, e).subrange(b, e)
}

pub proof fn lemma_trim_end_at(s: Seq<char>)
    ensures
        0 <= trim_end_at(s) <= s.len(),
        forall|k: int| trim_end_at(s) <= k < s.len() ==> is_space(s[k]),
        trim_end_at(s) > 0 ==> !is_space(s[trim_end_at(s) - 1]),
    decreases s.len(),
{
    if s.len() > 0 && is_space(s.last()) {
        lemma_trim_end_at(s.drop_last());
        assert(forall|k: int| 0 <= k < s.len() - 1 ==> s.drop_last()[k] == s[k]);
    }
}

/// The span of `v` that remains after trimming outer whitespace.
pub fn trim_span(v: &Vec<char>) -> (r: Span)
    ensures
        r.lo <= r.hi <= v@.len(),
        v@.subrange(r.lo as int, r.hi as int) == trimmed(v@),
{
    proof {
        lemma_trim_end_at(v@);
        assert(v@.subrange(0, v@.len() as int) =~= v@);
    }
    let mut e: usize = v.len();
    while e > 0 && exec_is_space(v[e - 1])
        invariant
            e <= v@.len(),
            trim_end_at(v@) == trim_end_at(v@.subrange(0, e as int)),
            trim_end_at(v@) <= e,
        decreases e,
    {
        proof {
            let cur = v@.subrange(0, e as int);
            assert(cur.last() == v@[e - 1]);
            assert(cur.drop_last() =~= v@.subrange(0, e as int - 1));
            lemma_trim_end_at(v@.subrange(0, e as int - 1));
        }
        e = e - 1;
    }
    proof {
        let cur = v@.subrange(0, e as int);
        if e > 0 {
            assert(cur.last() == v@[e - 1]);
            assert(!is_space(cur.last()));
        }
        assert(trim_end_at(v@) == e);
        lemma_skip_spaces(v@.subrange(0, e as int), 0);
    }
    let mut b: usize = 0;
    while b < e && exec_is_space(v[b])
        invariant
            b <= e <= v@.len(),
            e == trim_end_at(v@),
            skip_spaces(v@.subrange(0, e as int), 0) == skip_spaces(v@.subrange(0, e as int), b as int),
        decreases e - b,
    {
        proof {
            assert(v@.subrange(0, e as int)[b as int] == v@[b as int]);
        }
        b = b + 1;
    }
    proof {
        let cur = v@.subrange(0, e as int);
        if b < e {
            assert(cur[b as int] == v@[b as int]);
        }
        assert(skip_spaces(cur, b as int) == b);
        assert(cur.subrange(b as int, e as int) =~= v@.subrange(b as int, e as int));
    }
    Span { lo: b, hi: e }
}


// ---------------------------------------------------------------------------
// Finding and splitting on single characters
// ---------------------------------------------------------------------------

/// The index of the first `c` at or after `from`, or the length when none.
pub open spec fn find_char(s: Seq<char>, from: int, c: char) -> int
    decreases s.len() - from,
{
    if from < 0 || from >= s.len() {
        s.len() as int
    } else if s[from] == c {
        from
    } else {
        find_char(s, from + 1, c)
    }
}

pub proof fn lemma_find_char(s: Seq<char>, from: int, c: char)
    requires
        0 <= from <= s.len(),
    ensures
        from <= find_char(s, from, c) <= s.len(),
        forall|k: int| from <= k < find_char(s, from, c) ==> s[k] != c,
        find_char(s, from, c) < s.len() ==> s[find_char(s, from, c)] == c,
    decreases s.len() - from,
{
    if from < s.len() && s[from] != c {
        lemma_find_char(s, from + 1, c);
    }
}

/// The index of the first `c` in `v` at or after `from`, or the length.
pub fn scan_find_char(v: &Vec<char>, from: usize, c: char) -> (end: usize)
    requires
        from <= v@.len(),
    ensures
        end == find_char(v@, from as int, c),
        from <= end <= v@.len(),
{
    proof {
        lemma_find_char(v@, from as int, c);
    }
    let mut i: usize = from;
    while i < v.len() && v[i] != c
        invariant
            from <= i <= v@.len(),
            find_char(v@, from as int, c) == find_char(v@, i as int, c),
        decreases v@.len() - i,
    {
        i = i + 1;
    }
    i
}

/// `s` split at every `c`, keeping empty pieces. Splitting an empty sequence
/// gives one empty piece, as `str::split` does.
pub open spec fn split_on_from(s: Seq<char>, c: char, from: int) -> Seq<Seq<char>>
    decreases s.len() - from,
    when 0 <= from <= s.len()
    via split_on_from_decreases
{
    let e = find_char(s, from, c);
    if e >= s.len() {
        seq![s.subrange(from, s.len() as int)]
    } else {
        seq![s.subrange(from, e)] + split_on_from(s, c, e + 1)
    }
}

#[via_fn]
proof fn split_on_from_decreases(s: Seq<char>, c: char, from: int) {
    lemma_find_char(s, from, c);
}

pub open spec fn split_on(s: Seq<char>, c: char) -> Seq<Seq<char>> {
    split_on_from(s, c, 0)
}

/// Splits `v` at every `c`, reported as index spans (empty pieces kept).
pub fn split_char_spans(v: &Vec<char>, c: char) -> (r: Vec<Span>)
    ensures
        spans_wf(v@, r@),
        spans_text(v@, r@) == split_on(v@, c),
        r@.len() >= 1,
{
    let mut r: Vec<Span> = Vec::new();
    let mut i: usize = 0;
    proof {
        assert(spans_text(v@, r@) + split_on_from(v@, c, 0) =~= split_on(v@, c));
    }
    loop
        invariant
            i <= v@.len(),
            spans_wf(v@, r@),
            spans_text(v@, r@) + split_on_from(v@, c, i as int) == split_on(v@, c),
        decreases v@.len() - i + 1,
    {
        let e = scan_find_char(v, i, c);
        let ghost old_spans = r@;
        r.push(Span { lo: i, hi: e });
        proof {
            assert(spans_text(v@, r@) =~= spans_text(v@, old_spans).push(
                v@.subrange(i as int, e as int),
            ));
        }
        if e == v.len() {
            proof {
                assert(split_on_from(v@, c, i as int) =~= seq![
                    v@.subrange(i as int, v@.len() as int),
                ]);
                assert(spans_text(v@, r@) =~= split_on(v@, c));
            }
            return r;
        }
        proof {
            assert(split_on_from(v@, c, i as int) == seq![v@.subrange(i as int, e as int)]
                + split_on_from(v@, c, e + 1));
            assert(spans_text(v@, r@) + split_on_from(v@, c, e + 1) =~= split_on(v@, c));
        }
        i = e + 1;
    }
}

/// One trailing carriage return removed, as `str::lines` does.
pub open spec fn strip_cr(s: Seq<char>) -> Seq<char> {
    if s.len() > 0 && s.last() == '\r' {
        s.drop_last()
    } else {
        s
    }
}

/// The lines of a text: pieces between newlines, a final newline closing the
/// last line rather than opening an empty one, carriage returns stripped.
pub open spec fn spec_lines(s: Seq<char>) -> Seq<Seq<char>> {
    if s.len() == 0 {
        seq![]
    } else {
        let ps = split_on(s, '\n');
        let kept = if s.last() == '\n' {
            ps.drop_last()
        } else {
            ps
        };
        kept.map_values(|p: Seq<char>| strip_cr(p))
    }
}

/// The lines of `v`, as index spans (excluding each line's `\r`, if any).
pub fn line_spans(v: &Vec<char>) -> (r: Vec<Span>)
    ensures
        spans_wf(v@, r@),
        spans_text(v@, r@) == spec_lines(v@),
{
    let mut r: Vec<Span> = Vec::new();
    if v.len() == 0 {
        proof {
            assert(spans_text(v@, r@) =~= spec_lines(v@));
        }
        return r;
    }
    let raw = split_char_spans(v, '\n');
    let keep: usize = if v[v.len() - 1] == '\n' {
        raw.len() - 1
    } else {
        raw.len()
    };
    proof {
        assert(v@.last() == v@[v@.len() - 1]);
    }
    let mut i: usize = 0;
    while i < keep
        invariant
            i <= keep,
            keep <= raw@.len(),
            spans_wf(v@, raw@),
            spans_text(v@, raw@) == split_on(v@, '\n'),
            v@.len() > 0,
            keep == (if v@.last() == '\n' {
                split_on(v@, '\n').len() - 1
            } else {
                split_on(v@, '\n').len() as int
            }),
            spans_wf(v@, r@),
            r@.len() == i,
            forall|k: int|
                0 <= k < i ==> v@.subrange(
                    #[trigger] r@[k].lo as int,
                    r@[k].hi as int,
                ) == strip_cr(split_on(v@, '\n')[k]),
        decreases keep - i,
    {
        let sp = raw[i];
        let ghost piece = split_on(v@, '\n')[i as int];
        proof {
            assert(piece == v@.subrange(sp.lo as int, sp.hi as int));
        }
        let hi: usize = if sp.hi > sp.lo && v[sp.hi - 1] == '\r' {
            sp.hi - 1
        } else {
            sp.hi
        };
        proof {
            if sp.hi > sp.lo {
                assert(piece.last() == v@[sp.hi - 1]);
            }
            assert(v@.subrange(sp.lo as int, hi as int) =~= strip_cr(piece));
        }
        r.push(Span { lo: sp.lo, hi });
        i = i + 1;
    }
    proof {
        assert(spans_text(v@, r@) =~= spec_lines(v@)) by {
            let ps = split_on(v@, '\n');
            let kept = if v@.last() == '\n' {
                ps.drop_last()
            } else {
                ps
            };
            assert(spec_lines(v@) == kept.map_values(|p: Seq<char>| strip_cr(p)));
            assert(spans_text(v@, r@).len() == kept.len());
            assert(forall|k: int| 0 <= k < kept.len() ==> kept[k] == ps[k]);
        }
    }
    r
}


// ---------------------------------------------------------------------------
// Joining, trimming ends, stripping prefixes
// ---------------------------------------------------------------------------

/// Pieces `i..j` of `toks` joined with `sep`.
pub open spec fn join_sep(toks: Seq<Seq<char>>, i: int, j: int, sep: char) -> Seq<char>
    decreases j - i,
{
    if i < 0 || i >= j || j > toks.len() {
        seq![]
    } else if i + 1 == j {
        toks[i]
    } else {
        toks[i] + seq![sep] + join_sep(toks, i + 1, j, sep)
    }
}

/// Appending one more piece to a join.
pub proof fn lemma_join_sep_snoc(toks: Seq<Seq<char>>, i: int, m: int, sep: char)
    requires
        0 <= i <= m < toks.len(),
    ensures
        join_sep(toks, i, m + 1, sep) == if m == i {
            toks[i]
        } else {
            join_sep(toks, i, m, sep) + seq![sep] + toks[m]
        },
    decreases m - i,
{
    if m > i {
        lemma_join_sep_snoc(toks, i + 1, m, sep);
        if m == i + 1 {
        } else {
            assert(toks[i] + seq![sep] + (join_sep(toks, i + 1, m, sep) + seq![sep] + toks[m]) =~= (
            toks[i] + seq![sep] + join_sep(toks, i + 1, m, sep)) + seq![sep] + toks[m]);
        }
    }
}

/// `s` with its trailing whitespace removed.
pub open spec fn seq_trim_end(s: Seq<char>) -> Seq<char> {
    s.subrange(0, trim_end_at(s))
}

/// Where the trailing whitespace of `v` begins.
pub fn trim_end_index(v: &Vec<char>) -> (r: usize)
    ensures
        r == trim_end_at(v@),
        r <= v@.len(),
{
    proof {
        lemma_trim_end_at(v@);
        assert(v@.subrange(0, v@.len() as int) =~= v@);
    }
    let mut e: usize = v.len();
    while e > 0 && exec_is_space(v[e - 1])
        invariant
            e <= v@.len(),
            trim_end_at(v@) == trim_end_at(v@.subrange(0, e as int)),
            trim_end_at(v@) <= e,
        decreases e,
    {
        proof {
            let cur = v@.subrange(0, e as int);
            assert(cur.last() == v@[e - 1]);
            assert(cur.drop_last() =~= v@.subrange(0, e as int - 1));
            lemma_trim_end_at(v@.subrange(0, e as int - 1));
        }
        e = e - 1;
    }
    proof {
        let cur = v@.subrange(0, e as int);
        if e > 0 {
            assert(cur.last() == v@[e - 1]);
            assert(!is_space(cur.last()));
        }
        assert(trim_end_at(v@) == e);
    }
    e
}

/// Appends the characters `src[lo..hi]` to `dst`.
pub fn append_range(dst: &mut Vec<char>, src: &Vec<char>, lo: usize, hi: usize)
    requires
        lo <= hi <= src@.len(),
    ensures
        final(dst)@ == old(dst)@ + src@.subrange(lo as int, hi as int),
{
    let mut i: usize = lo;
    while i < hi
        invariant
            lo <= i <= hi <= src@.len(),
            dst@ == old(dst)@ + src@.subrange(lo as int, i as int),
        decreases hi - i,
    {
        dst.push(src[i]);
        i = i + 1;
        proof {
            assert(dst@ =~= old(dst)@ + src@.subrange(lo as int, i as int));
        }
    }
    proof {
        if lo == hi {
            assert(dst@ =~= old(dst)@ + src@.subrange(lo as int, hi as int));
        }
    }
}

/// `s` with every leading occurrence of `p` removed.
pub open spec fn strip_prefix_all(s: Seq<char>, p: Seq<char>) -> Seq<char>
    decreases s.len(),
    when p.len() > 0
    via strip_prefix_all_decreases
{
    if s.len() >= p.len() && s.subrange(0, p.len() as int) == p {
        strip_prefix_all(s.subrange(p.len() as int, s.len() as int), p)
    } else {
        s
    }
}

#[via_fn]
proof fn strip_prefix_all_decreases(s: Seq<char>, p: Seq<char>) {
}

/// Removes every leading occurrence of `lit` from `v[from..]`, returning the
/// first index that survives.
pub fn skip_prefix_all(v: &Vec<char>, from: usize, lit: &str) -> (r: usize)
    requires
        from <= v@.len(),
        lit@.len() > 0,
    ensures
        from <= r <= v@.len(),
        v@.subrange(r as int, v@.len() as int) == strip_prefix_all(
            v@.subrange(from as int, v@.len() as int),
            lit@,
        ),
{
    let n = v.len();
    let ln = lit.unicode_len();
    let mut i: usize = from;
    while n - i >= ln && range_eq_str(v, i, i + ln, lit)
        invariant
            from <= i <= n,
            n == v@.len(),
            ln == lit@.len(),
            ln > 0,
            strip_prefix_all(v@.subrange(from as int, n as int), lit@) == strip_prefix_all(
                v@.subrange(i as int, n as int),
                lit@,
            ),
        decreases n - i,
    {
        proof {
            let cur = v@.subrange(i as int, n as int);
            assert(cur.subrange(0, ln as int) =~= v@.subrange(i as int, i as int + ln as int));
            assert(cur.subrange(ln as int, cur.len() as int) =~= v@.subrange(
                i as int + ln as int,
                n as int,
            ));
        }
        i = i + ln;
    }
    proof {
        let cur = v@.subrange(i as int, n as int);
        if cur.len() >= ln {
            assert(cur.subrange(0, ln as int) =~= v@.subrange(i as int, i as int + ln as int));
        }
        assert(strip_prefix_all(cur, lit@) == cur);
    }
    i
}

} // verus!
