//! The structure of angular text (DD, DDM, DMS in any of their usual spellings): the token
//! stream, the split into latitude and longitude, and the checks on each angle that do not
//! depend on the numbers' values. Numbers are handed out as spans of the text; reading them
//! as fractional values, and the checks on those values, are the caller's.
use vstd::prelude::*;

use crate::angular::{LatitudeDir, LongitudeDir};
use crate::error::GeoError;
use crate::text::{alphabetic, char_is_alphabetic, chars_of, is_ascii_digit, is_digit, is_white, is_whitespace, to_ascii_uppercase, upper};

verus! {

/// Message of a number that does not read as a finite value.
pub const MSG_MALFORMED_NUMBER: &'static str = "malformed number";
/// Message of a letter other than a hemisphere letter.
pub const MSG_ONLY_HEMISPHERES: &'static str = "only the hemisphere letters N, S, E, W are allowed";
/// Message of a character that belongs to no token.
pub const MSG_UNEXPECTED: &'static str = "unexpected character";

/// The decimal digits of 2^1024 − 2^970, the least integer that a decimal `f64` reading
/// rounds to infinity: a number whose integer part reaches it is not finite.
pub const F64_OVERFLOW: &'static str = "179769313486231580793728971405303415079934132710037826936173778980444968292764750946649017977587207096330286416692887910946555547851940402630657488671505820681908902000708383676273854845817711531764475730270069855571366959622842914819860834936475292719074168444365510704342711559699508093042880177904174497792";

/// Unit mark after a number.
#[derive(Debug, Clone, Copy, PartialEq, Eq, Structural)]
pub enum AngleUnit {
    /// `°` (also `º`, `˚`).
    Deg,
    /// `'` (also `′`, `’`, `‘`).
    Min,
    /// `"` (also `″`, `”`, `“`, `''`).
    Sec,
}

/// A number of angular text: its digits are the characters `start..end` of the text.
#[derive(Debug, Clone, Copy, PartialEq, Eq, Structural)]
pub struct AngleNum {
    /// Index of the first character of the number text.
    pub start: usize,
    /// Index after the last character of the number text.
    pub end: usize,
    /// The number was written with a sign.
    pub signed: bool,
    /// The sign was a minus.
    pub negative: bool,
    /// The unit mark after it, if any.
    pub unit: Option<AngleUnit>,
}

/// A token of angular text.
#[derive(Debug, Clone, Copy, PartialEq, Eq, Structural)]
pub enum AngleTok {
    /// A number.
    Num(AngleNum),
    /// A hemisphere letter, uppercased: `N`, `S`, `E` or `W`.
    Hemi(char),
    /// `,`, `;` or `/` between the two angles.
    Split,
}

/// A character of a number's text.
pub open spec fn is_num_char(c: char) -> bool {
    is_digit(c) || c == '.'
}

/// A sign: plus, hyphen-minus or the minus sign U+2212.
pub open spec fn is_sign(c: char) -> bool {
    c == '+' || c == '-' || c == '\u{2212}'
}

/// A degree mark.
pub open spec fn is_deg_mark(c: char) -> bool {
    c == '\u{00B0}' || c == '\u{00BA}' || c == '\u{02DA}'
}

/// A minute mark (two of them in a row are a second mark).
pub open spec fn is_min_mark(c: char) -> bool {
    c == '\'' || c == '\u{2032}' || c == '\u{2019}' || c == '\u{2018}'
}

/// A second mark.
pub open spec fn is_sec_mark(c: char) -> bool {
    c == '"' || c == '\u{2033}' || c == '\u{201D}' || c == '\u{201C}'
}

/// A hemisphere letter, uppercase: N, S, E or W.
pub open spec fn is_hemi_letter(c: char) -> bool {
    c == 'N' || c == 'S' || c == 'E' || c == 'W'
}

/// Whether `h` is a hemisphere letter (see `is_hemi_letter`).
fn is_hemisphere_char(h: char) -> (b: bool)
    ensures
        b == is_hemi_letter(h),
{
    h == 'N' || h == 'S' || h == 'E' || h == 'W'
}

/// A separator between latitude and longitude.
pub open spec fn is_split(c: char) -> bool {
    c == ',' || c == ';' || c == '/'
}

/// End of the run of number characters from `i`.
pub open spec fn run_end(s: Seq<char>, i: int) -> int
    decreases s.len() - i,
{
    if 0 <= i < s.len() && is_num_char(s[i]) {
        run_end(s, i + 1)
    } else {
        i
    }
}

/// End of the run of whitespace from `i`.
pub open spec fn white_end(s: Seq<char>, i: int) -> int
    decreases s.len() - i,
{
    if 0 <= i < s.len() && is_white(s[i]) {
        white_end(s, i + 1)
    } else {
        i
    }
}

/// The unit mark after a number ending at `end` (whitespace between them allowed), and where
/// the next token starts; `:` between components is skipped without a unit.
pub open spec fn unit_after(s: Seq<char>, end: int) -> (Option<AngleUnit>, int) {
    let j = white_end(s, end);
    if j < s.len() {
        let m = s[j];
        if is_deg_mark(m) {
            (Some(AngleUnit::Deg), j + 1)
        } else if is_min_mark(m) {
            if j + 1 < s.len() && s[j + 1] == '\'' {
                (Some(AngleUnit::Sec), j + 2)
            } else {
                (Some(AngleUnit::Min), j + 1)
            }
        } else if is_sec_mark(m) {
            (Some(AngleUnit::Sec), j + 1)
        } else if m == ':' {
            (None, j + 1)
        } else {
            (None, end)
        }
    } else {
        (None, end)
    }
}

/// Number of `.` in a text.
pub open spec fn dot_count(t: Seq<char>) -> nat
    decreases t.len(),
{
    if t.len() == 0 {
        0
    } else {
        dot_count(t.drop_last()) + if t.last() == '.' { 1nat } else { 0nat }
    }
}

/// The text before its first `.`.
pub open spec fn int_part(t: Seq<char>) -> Seq<char>
    decreases t.len(),
{
    if t.len() == 0 || t[0] == '.' {
        Seq::empty()
    } else {
        seq![t[0]] + int_part(t.drop_first())
    }
}

/// The text without its leading zeros.
pub open spec fn strip_zeros(t: Seq<char>) -> Seq<char>
    decreases t.len(),
{
    if t.len() > 0 && t[0] == '0' {
        strip_zeros(t.drop_first())
    } else {
        t
    }
}

/// `a` is before `b` in dictionary order (both of the same length).
pub open spec fn lex_less(a: Seq<char>, b: Seq<char>) -> bool {
    exists|k: int| 0 <= k < a.len() && a.take(k) == b.take(k) && a[k] < b[k]
}

/// A run of digits without leading zeros whose value reaches 2^1024 − 2^970: longer than its
/// digits, or as long and not before them in dictionary order.
pub open spec fn exceeds_f64(z: Seq<char>) -> bool {
    z.len() > F64_OVERFLOW@.len() || (z.len() == F64_OVERFLOW@.len() && !lex_less(z, F64_OVERFLOW@))
}

/// A number text (digits and dots) that does not read as a finite `f64`: no digit, more than
/// one dot, or an integer part too large.
pub open spec fn malformed(t: Seq<char>) -> bool {
    ||| !(exists|k: int| 0 <= k < t.len() && is_digit(#[trigger] t[k]))
    ||| dot_count(t) >= 2
    ||| exceeds_f64(strip_zeros(int_part(t)))
}

/// A run of number characters ends within the text and holds only number characters.
pub proof fn lemma_run_end(s: Seq<char>, i: int)
    requires
        0 <= i,
    ensures
        i <= run_end(s, i),
        run_end(s, i) <= if i <= s.len() { s.len() as int } else { i },
        forall|k: int| i <= k < run_end(s, i) ==> is_num_char(#[trigger] s[k]),
    decreases s.len() - i,
{
    if 0 <= i < s.len() && is_num_char(s[i]) {
        lemma_run_end(s, i + 1);
    }
}

/// A run of whitespace ends within the text.
pub proof fn lemma_white_end(s: Seq<char>, i: int)
    requires
        0 <= i,
    ensures
        i <= white_end(s, i),
        white_end(s, i) <= if i <= s.len() { s.len() as int } else { i },
    decreases s.len() - i,
{
    if 0 <= i < s.len() && is_white(s[i]) {
        lemma_white_end(s, i + 1);
    }
}

/// The tokens of angular text from position `i` on. Whitespace separates tokens; `,` `;` `/`
/// split latitude from longitude; a number is an optional sign and a run of digits and dots
/// that reads as a finite `f64`, followed by an optional unit mark (whitespace allowed before
/// it) or `:`; a hemisphere letter N, S, E or W, in either case, is taken in uppercase, and any
/// other alphabetic character is refused. Anything else is refused.
pub open spec fn lex(s: Seq<char>, i: int) -> Result<Seq<AngleTok>, GeoError>
    decreases s.len() - i,
{
    if i < 0 || i >= s.len() {
        Ok(Seq::empty())
    } else {
        let c = s[i];
        if is_white(c) {
            lex(s, i + 1)
        } else if is_split(c) {
            match lex(s, i + 1) {
                Ok(rest) => Ok(seq![AngleTok::Split] + rest),
                Err(e) => Err(e),
            }
        } else if is_sign(c) || is_num_char(c) {
            let signed = is_sign(c);
            let start = if signed { i + 1 } else { i };
            let end = run_end(s, start);
            if malformed(s.subrange(start, end)) {
                Err(GeoError::InvalidFormat(MSG_MALFORMED_NUMBER))
            } else {
                let (unit, next) = unit_after(s, end);
                let num = AngleNum {
                    start: start as usize,
                    end: end as usize,
                    signed,
                    negative: c == '-' || c == '\u{2212}',
                    unit,
                };
                proof {
                    lemma_run_end(s, start);
                    lemma_run_end(s, i + 1);
                    lemma_white_end(s, end);
                }
                match lex(s, next) {
                    Ok(rest) => Ok(seq![AngleTok::Num(num)] + rest),
                    Err(e) => Err(e),
                }
            }
        } else if is_hemi_letter(upper(c)) {
            match lex(s, i + 1) {
                Ok(rest) => Ok(seq![AngleTok::Hemi(upper(c))] + rest),
                Err(e) => Err(e),
            }
        } else if alphabetic(c) {
            Err(GeoError::InvalidFormat(MSG_ONLY_HEMISPHERES))
        } else {
            Err(GeoError::InvalidFormat(MSG_UNEXPECTED))
        }
    }
}


/// `p` followed by the tokens of `r`, or the error of `r`.
pub open spec fn prepend(p: Seq<AngleTok>, r: Result<Seq<AngleTok>, GeoError>) -> Result<
    Seq<AngleTok>,
    GeoError,
> {
    match r {
        Ok(rest) => Ok(p + rest),
        Err(e) => Err(e),
    }
}

fn run_end_exec(v: &Vec<char>, i: usize) -> (e: usize)
    requires
        i <= v.len(),
    ensures
        e == run_end(v@, i as int),
        i <= e <= v.len(),
{
    let mut j = i;
    while j < v.len() && (is_ascii_digit(v[j]) || v[j] == '.')
        invariant
            i <= j <= v.len(),
            run_end(v@, i as int) == run_end(v@, j as int),
        decreases v.len() - j,
    {
        j = j + 1;
    }
    j
}

fn white_end_exec(v: &Vec<char>, i: usize) -> (e: usize)
    requires
        i <= v.len(),
    ensures
        e == white_end(v@, i as int),
        i <= e <= v.len(),
{
    let mut j = i;
    while j < v.len() && is_whitespace(v[j])
        invariant
            i <= j <= v.len(),
            white_end(v@, i as int) == white_end(v@, j as int),
        decreases v.len() - j,
    {
        j = j + 1;
    }
    j
}

fn unit_after_exec(v: &Vec<char>, end: usize) -> (r: (Option<AngleUnit>, usize))
    requires
        end <= v.len(),
    ensures
        (r.0, r.1 as int) == unit_after(v@, end as int),
        end <= r.1 <= v.len(),
{
    let j = white_end_exec(v, end);
    if j < v.len() {
        let m = v[j];
        if m == '\u{00B0}' || m == '\u{00BA}' || m == '\u{02DA}' {
            (Some(AngleUnit::Deg), j + 1)
        } else if m == '\'' || m == '\u{2032}' || m == '\u{2019}' || m == '\u{2018}' {
            if j + 1 < v.len() && v[j + 1] == '\'' {
                (Some(AngleUnit::Sec), j + 2)
            } else {
                (Some(AngleUnit::Min), j + 1)
            }
        } else if m == '"' || m == '\u{2033}' || m == '\u{201D}' || m == '\u{201C}' {
            (Some(AngleUnit::Sec), j + 1)
        } else if m == ':' {
            (None, j + 1)
        } else {
            (None, end)
        }
    } else {
        (None, end)
    }
}

proof fn lemma_int_part(t: Seq<char>, p: int)
    requires
        0 <= p <= t.len(),
        forall|k: int| 0 <= k < p ==> #[trigger] t[k] != '.',
        p == t.len() || t[p] == '.',
    ensures
        int_part(t) == t.take(p),
    decreases p,
{
    if p > 0 {
        lemma_int_part(t.drop_first(), p - 1);
        assert(t.take(p) == seq![t[0]] + t.drop_first().take(p - 1));
    } else {
        assert(t.take(0) == Seq::<char>::empty());
    }
}

proof fn lemma_strip_zeros(t: Seq<char>, q: int)
    requires
        0 <= q <= t.len(),
        forall|k: int| 0 <= k < q ==> #[trigger] t[k] == '0',
        q == t.len() || t[q] != '0',
    ensures
        strip_zeros(t) == t.skip(q),
    decreases q,
{
    if q > 0 {
        lemma_strip_zeros(t.drop_first(), q - 1);
        assert(t.drop_first().skip(q - 1) == t.skip(q));
    } else {
        assert(t.skip(0) == t);
    }
}

/// Whether `z` (the digits `v[lo..hi]`) is not before `lim` in dictionary order; same length.
fn not_lex_less(v: &Vec<char>, lo: usize, hi: usize, lim: &Vec<char>) -> (b: bool)
    requires
        lo <= hi <= v.len(),
        hi - lo == lim.len(),
    ensures
        b == !lex_less(v@.subrange(lo as int, hi as int), lim@),
{
    let ghost z = v@.subrange(lo as int, hi as int);
    let n = lim.len();
    let mut k: usize = 0;
    while k < n
        invariant
            k <= n,
            lo <= hi <= v.len(),
            n == lim.len() == z.len(),
            z == v@.subrange(lo as int, hi as int),
            hi - lo == n,
            z.take(k as int) == lim@.take(k as int),
        decreases n - k,
    {
        let a = v[lo + k];
        let b = lim[k];
        assert(z[k as int] == a);
        if a != b {
            if a < b {
                assert(lex_less(z, lim@));
                return false;
            } else {
                assert forall|j: int| 0 <= j < z.len() && z.take(j) == lim@.take(j) implies !(
                z[j] < lim@[j]) by {
                    if j < k {
                        assert(z.take(j + 1)[j] == z[j]);
                        assert(z.take(k as int).take(j + 1) == z.take(j + 1));
                        assert(lim@.take(k as int).take(j + 1) == lim@.take(j + 1));
                        assert(z.take(j + 1)[j] == lim@.take(j + 1)[j]);
                    } else if j > k {
                        assert(z.take(j)[k as int] == lim@.take(j)[k as int]);
                    }
                }
                return true;
            }
        }
        assert(z.take(k + 1) == z.take(k as int).push(a));
        assert(lim@.take(k + 1) == lim@.take(k as int).push(b));
        k = k + 1;
    }
    assert forall|j: int| 0 <= j < z.len() && z.take(j) == lim@.take(j) implies !(z[j]
        < lim@[j]) by {
        assert(z.take(n as int) == z);
        assert(lim@.take(n as int) == lim@);
    }
    true
}

/// Whether the number text `v[start..end]` (digits and dots) fails to read as a finite value.
fn number_malformed(v: &Vec<char>, start: usize, end: usize) -> (b: bool)
    requires
        start <= end <= v.len(),
        forall|k: int| start <= k < end ==> is_num_char(#[trigger] v@[k]),
    ensures
        b == malformed(v@.subrange(start as int, end as int)),
{
    let ghost t = v@.subrange(start as int, end as int);
    let mut has_digit = false;
    let mut dots: usize = 0;
    let mut first_dot = end;
    let mut i = start;
    assert(t.take(0) == Seq::<char>::empty());
    while i < end
        invariant
            start <= i <= end <= v.len(),
            t == v@.subrange(start as int, end as int),
            forall|k: int| start <= k < end ==> is_num_char(#[trigger] v@[k]),
            has_digit == (exists|k: int| 0 <= k < i - start && is_digit(#[trigger] t[k])),
            dots == dot_count(t.take(i - start)),
            dots <= i - start,
            start <= first_dot <= end,
            first_dot < end ==> first_dot < i && t[first_dot - start] == '.',
            forall|k: int| 0 <= k < (if first_dot < end { first_dot } else { i }) - start ==> #[trigger] t[k] != '.',
        decreases end - i,
    {
        let c = v[i];
        assert(t[i - start] == c);
        proof {
            assert(t.take(i - start + 1).drop_last() == t.take(i - start));
            assert(t.take(i - start + 1).last() == c);
        }
        assert(is_num_char(v@[i as int]));
        if c == '.' {
            assert(!is_digit(t[i - start]));
            dots = dots + 1;
            if first_dot == end {
                first_dot = i;
            }
        } else {
            assert(is_digit(t[i - start]));
            has_digit = true;
        }
        i = i + 1;
    }
    assert(t.take(end - start) == t);
    if !has_digit || dots >= 2 {
        return true;
    }
    proof {
        lemma_int_part(t, first_dot - start);
    }
    let mut q = start;
    while q < first_dot && v[q] == '0'
        invariant
            start <= q <= first_dot <= end <= v.len(),
            t == v@.subrange(start as int, end as int),
            forall|k: int| 0 <= k < q - start ==> #[trigger] t[k] == '0',
        decreases first_dot - q,
    {
        assert(t[q - start] == v@[q as int]);
        q = q + 1;
    }
    proof {
        let ip = t.take(first_dot - start);
        if q < first_dot {
            assert(ip[q - start] == v@[q as int]);
        }
        lemma_strip_zeros(ip, q - start);
        assert(ip.skip(q - start) == v@.subrange(q as int, first_dot as int));
    }
    let lim = chars_of(F64_OVERFLOW);
    let zl = first_dot - q;
    if zl > lim.len() {
        true
    } else if zl < lim.len() {
        false
    } else {
        not_lex_less(v, q, first_dot, &lim)
    }
}

/// The tokens of angular text: numbers (with an optional sign and unit mark), hemisphere
/// letters (any case) and separators; whitespace is skipped. The first number that does not
/// read as a finite value, or the first character that belongs to no token, is refused.
pub fn tokenize_angles(s: &str) -> (r: Result<Vec<AngleTok>, GeoError>)
    ensures
        match (r, lex(s@, 0)) {
            (Ok(t), Ok(u)) => t@ == u,
            (Err(a), Err(b)) => a == b,
            _ => false,
        },
{
    let v = chars_of(s);
    let mut toks: Vec<AngleTok> = Vec::new();
    let mut i: usize = 0;
    while i < v.len()
        invariant
            i <= v.len(),
            v@ == s@,
            lex(s@, 0) == prepend(toks@, lex(s@, i as int)),
        decreases v.len() - i,
    {
        let c = v[i];
        if is_whitespace(c) {
            i = i + 1;
        } else if c == ',' || c == ';' || c == '/' {
            let ghost old_toks = toks@;
            toks.push(AngleTok::Split);
            proof {
                assert(old_toks.push(AngleTok::Split) == old_toks + seq![AngleTok::Split]);
                match lex(s@, i + 1) {
                    Ok(rest) => {
                        assert(old_toks + (seq![AngleTok::Split] + rest) == toks@ + rest);
                    },
                    Err(e) => {},
                }
            }
            i = i + 1;
        } else if c == '+' || c == '-' || c == '\u{2212}' || is_ascii_digit(c) || c == '.' {
            let signed = c == '+' || c == '-' || c == '\u{2212}';
            let start = if signed { i + 1 } else { i };
            let end = run_end_exec(&v, start);
            proof {
                lemma_run_end(v@, start as int);
            }
            if number_malformed(&v, start, end) {
                return Err(GeoError::InvalidFormat(MSG_MALFORMED_NUMBER));
            }
            let (unit, next) = unit_after_exec(&v, end);
            let num = AngleNum { start, end, signed, negative: c == '-' || c == '\u{2212}', unit };
            let ghost old_toks = toks@;
            toks.push(AngleTok::Num(num));
            proof {
                lemma_run_end(v@, i + 1);
                match lex(s@, next as int) {
                    Ok(rest) => {
                        assert(old_toks + (seq![AngleTok::Num(num)] + rest) == toks@ + rest);
                    },
                    Err(e) => {},
                }
            }
            i = next;
        } else if is_hemisphere_char(to_ascii_uppercase(c)) {
            let h = to_ascii_uppercase(c);
            let ghost old_toks = toks@;
            toks.push(AngleTok::Hemi(h));
            proof {
                match lex(s@, i + 1) {
                    Ok(rest) => {
                        assert(old_toks + (seq![AngleTok::Hemi(h)] + rest) == toks@ + rest);
                    },
                    Err(e) => {},
                }
            }
            i = i + 1;
        } else if char_is_alphabetic(c) {
            return Err(GeoError::InvalidFormat(MSG_ONLY_HEMISPHERES));
        } else {
            return Err(GeoError::InvalidFormat(MSG_UNEXPECTED));
        }
    }
    assert(toks@ + Seq::<AngleTok>::empty() == toks@);
    Ok(toks)
}


/// Message of angular text whose numbers cannot be split into two angles.
pub const MSG_AMBIGUOUS: &'static str = "expected latitude and longitude (1 to 3 numbers each); separate them with a comma";
/// Message of one angle with two hemisphere letters.
pub const MSG_TWO_HEMISPHERES: &'static str = "two hemisphere letters for one angle";
/// Message of more than one separator.
pub const MSG_ONE_COMMA: &'static str = "expected one comma between latitude and longitude; the decimal separator is '.'";
/// Message of angular text without numbers.
pub const MSG_NO_NUMBERS: &'static str = "no numbers given";
/// Message of more than two hemisphere letters.
pub const MSG_MORE_HEMISPHERES: &'static str = "more than two hemisphere letters";

/// The numbers and the hemisphere letter of one angle.
pub struct AngleGroup {
    /// Degrees, then minutes, then seconds, as many as were given.
    pub nums: Vec<AngleNum>,
    /// The hemisphere letter, if one was given.
    pub hemi: Option<char>,
}

impl View for AngleGroup {
    type V = (Seq<AngleNum>, Option<char>);

    open spec fn view(&self) -> (Seq<AngleNum>, Option<char>) {
        (self.nums@, self.hemi)
    }
}

/// The numbers among the tokens, in order.
pub open spec fn nums_of(toks: Seq<AngleTok>) -> Seq<AngleNum>
    decreases toks.len(),
{
    if toks.len() == 0 {
        Seq::empty()
    } else {
        let p = nums_of(toks.drop_last());
        match toks.last() {
            AngleTok::Num(n) => p.push(n),
            _ => p,
        }
    }
}

/// The hemisphere letters among the tokens, in order.
pub open spec fn hemis_of(toks: Seq<AngleTok>) -> Seq<char>
    decreases toks.len(),
{
    if toks.len() == 0 {
        Seq::empty()
    } else {
        let p = hemis_of(toks.drop_last());
        match toks.last() {
            AngleTok::Hemi(h) => p.push(h),
            _ => p,
        }
    }
}

/// Positions of the hemisphere letters among the tokens.
pub open spec fn hemi_positions(toks: Seq<AngleTok>) -> Seq<int>
    decreases toks.len(),
{
    if toks.len() == 0 {
        Seq::empty()
    } else {
        let p = hemi_positions(toks.drop_last());
        if toks.last() is Hemi {
            p.push(toks.len() - 1)
        } else {
            p
        }
    }
}

/// Positions of the separators among the tokens.
pub open spec fn split_positions(toks: Seq<AngleTok>) -> Seq<int>
    decreases toks.len(),
{
    if toks.len() == 0 {
        Seq::empty()
    } else {
        let p = split_positions(toks.drop_last());
        if toks.last() is Split {
            p.push(toks.len() - 1)
        } else {
            p
        }
    }
}

/// The letter of a hemisphere token.
pub open spec fn hemi_at(toks: Seq<AngleTok>, i: int) -> char {
    match toks[i] {
        AngleTok::Hemi(h) => h,
        _ => ' ',
    }
}

/// One side of an explicitly separated pair: its numbers, and at most one hemisphere letter.
pub open spec fn group_of(toks: Seq<AngleTok>) -> Result<(Seq<AngleNum>, Option<char>), GeoError> {
    let hs = hemis_of(toks);
    if hs.len() >= 2 {
        Err(GeoError::InvalidFormat(MSG_TWO_HEMISPHERES))
    } else {
        Ok((nums_of(toks), if hs.len() == 1 { Some(hs[0]) } else { None }))
    }
}

/// Two, four or six numbers split in the middle.
pub open spec fn halves_of(nums: Seq<AngleNum>) -> Result<(Seq<AngleNum>, Seq<AngleNum>), GeoError> {
    if nums.len() == 2 || nums.len() == 4 || nums.len() == 6 {
        Ok((nums.take((nums.len() / 2) as int), nums.skip((nums.len() / 2) as int)))
    } else {
        Err(GeoError::InvalidFormat(MSG_AMBIGUOUS))
    }
}

/// The pair of angles, each with its letter.
pub type AnglePair = ((Seq<AngleNum>, Option<char>), (Seq<AngleNum>, Option<char>));

/// Halves of `nums` with the letters `h1` and `h2`.
pub open spec fn halved(nums: Seq<AngleNum>, h1: Option<char>, h2: Option<char>) -> Result<
    AnglePair,
    GeoError,
> {
    match halves_of(nums) {
        Ok((a, b)) => Ok(((a, h1), (b, h2))),
        Err(e) => Err(e),
    }
}

/// The split of the tokens into two angles. With a separator the split is explicit; otherwise
/// the hemisphere letters delimit the angles, and with none the numbers are halved (2, 4 or 6).
pub open spec fn groups_of(toks: Seq<AngleTok>) -> Result<AnglePair, GeoError> {
    let sp = split_positions(toks);
    if sp.len() > 0 {
        if sp.len() != 1 {
            Err(GeoError::InvalidFormat(MSG_ONE_COMMA))
        } else {
            match group_of(toks.take(sp[0])) {
                Err(e) => Err(e),
                Ok(a) => match group_of(toks.skip(sp[0] + 1)) {
                    Err(e) => Err(e),
                    Ok(b) => Ok((a, b)),
                },
            }
        }
    } else if nums_of(toks).len() == 0 {
        Err(GeoError::InvalidFormat(MSG_NO_NUMBERS))
    } else {
        let hp = hemi_positions(toks);
        if hp.len() == 0 {
            halved(nums_of(toks), None, None)
        } else if hp.len() == 1 {
            let i = hp[0];
            let h = Some(hemi_at(toks, i));
            let before = nums_of(toks.take(i));
            let after = nums_of(toks.skip(i + 1));
            if before.len() > 0 && after.len() > 0 {
                Ok(((before, h), (after, None)))
            } else if before.len() == 0 && after.len() > 0 {
                halved(after, h, None)
            } else if before.len() > 0 && after.len() == 0 {
                halved(before, None, h)
            } else {
                Err(GeoError::InvalidFormat(MSG_NO_NUMBERS))
            }
        } else if hp.len() == 2 {
            let i = hp[0];
            let j = hp[1];
            let h1 = Some(hemi_at(toks, i));
            let h2 = Some(hemi_at(toks, j));
            let before = nums_of(toks.take(i));
            let between = nums_of(toks.subrange(i + 1, j));
            let after = nums_of(toks.skip(j + 1));
            if before.len() > 0 && between.len() > 0 && after.len() == 0 {
                Ok(((before, h1), (between, h2)))
            } else if before.len() == 0 && between.len() > 0 && after.len() > 0 {
                Ok(((between, h1), (after, h2)))
            } else if before.len() > 0 && between.len() == 0 && after.len() > 0 {
                Ok(((before, h1), (after, h2)))
            } else if before.len() == 0 && between.len() > 0 && after.len() == 0 {
                halved(between, h1, h2)
            } else {
                Err(GeoError::InvalidFormat(MSG_AMBIGUOUS))
            }
        } else {
            Err(GeoError::InvalidFormat(MSG_MORE_HEMISPHERES))
        }
    }
}


/// The numbers among `toks[lo..hi]`.
fn nums_between(toks: &Vec<AngleTok>, lo: usize, hi: usize) -> (r: Vec<AngleNum>)
    requires
        lo <= hi <= toks.len(),
    ensures
        r@ == nums_of(toks@.subrange(lo as int, hi as int)),
{
    let mut r: Vec<AngleNum> = Vec::new();
    let mut i = lo;
    assert(toks@.subrange(lo as int, lo as int) == Seq::<AngleTok>::empty());
    while i < hi
        invariant
            lo <= i <= hi <= toks.len(),
            r@ == nums_of(toks@.subrange(lo as int, i as int)),
        decreases hi - i,
    {
        assert(toks@.subrange(lo as int, i + 1).drop_last() == toks@.subrange(lo as int, i as int));
        if let AngleTok::Num(n) = toks[i] {
            r.push(n);
        }
        i = i + 1;
    }
    r
}

/// The hemisphere letters among `toks[lo..hi]`.
fn hemis_between(toks: &Vec<AngleTok>, lo: usize, hi: usize) -> (r: Vec<char>)
    requires
        lo <= hi <= toks.len(),
    ensures
        r@ == hemis_of(toks@.subrange(lo as int, hi as int)),
{
    let mut r: Vec<char> = Vec::new();
    let mut i = lo;
    assert(toks@.subrange(lo as int, lo as int) == Seq::<AngleTok>::empty());
    while i < hi
        invariant
            lo <= i <= hi <= toks.len(),
            r@ == hemis_of(toks@.subrange(lo as int, i as int)),
        decreases hi - i,
    {
        assert(toks@.subrange(lo as int, i + 1).drop_last() == toks@.subrange(lo as int, i as int));
        if let AngleTok::Hemi(h) = toks[i] {
            r.push(h);
        }
        i = i + 1;
    }
    r
}

/// Positions of the separators and of the hemisphere letters.
fn token_positions(toks: &Vec<AngleTok>) -> (r: (Vec<usize>, Vec<usize>))
    ensures
        r.0@.len() == split_positions(toks@).len(),
        forall|k: int| 0 <= k < r.0@.len() ==> r.0@[k] == split_positions(toks@)[k],
        r.1@.len() == hemi_positions(toks@).len(),
        forall|k: int| 0 <= k < r.1@.len() ==> r.1@[k] == hemi_positions(toks@)[k],
{
    let mut sp: Vec<usize> = Vec::new();
    let mut hp: Vec<usize> = Vec::new();
    let mut i: usize = 0;
    assert(toks@.take(0) == Seq::<AngleTok>::empty());
    while i < toks.len()
        invariant
            i <= toks.len(),
            sp@.len() == split_positions(toks@.take(i as int)).len(),
            forall|k: int| 0 <= k < sp@.len() ==> sp@[k] == split_positions(toks@.take(i as int))[k],
            hp@.len() == hemi_positions(toks@.take(i as int)).len(),
            forall|k: int| 0 <= k < hp@.len() ==> hp@[k] == hemi_positions(toks@.take(i as int))[k],
        decreases toks.len() - i,
    {
        assert(toks@.take(i + 1).drop_last() == toks@.take(i as int));
        match toks[i] {
            AngleTok::Split => sp.push(i),
            AngleTok::Hemi(_) => hp.push(i),
            _ => {},
        }
        i = i + 1;
    }
    assert(toks@.take(toks.len() as int) == toks@);
    (sp, hp)
}

/// One side of an explicitly separated pair: `toks[lo..hi]`, which holds no separator.
fn group_between(toks: &Vec<AngleTok>, lo: usize, hi: usize) -> (r: Result<AngleGroup, GeoError>)
    requires
        lo <= hi <= toks.len(),
    ensures
        match (r, group_of(toks@.subrange(lo as int, hi as int))) {
            (Ok(g), Ok(x)) => g@ == x,
            (Err(a), Err(b)) => a == b,
            _ => false,
        },
{
    let hs = hemis_between(toks, lo, hi);
    if hs.len() >= 2 {
        return Err(GeoError::InvalidFormat(MSG_TWO_HEMISPHERES));
    }
    let nums = nums_between(toks, lo, hi);
    let hemi = if hs.len() == 1 { Some(hs[0]) } else { None };
    Ok(AngleGroup { nums, hemi })
}

/// Two, four or six numbers split in the middle, with the letters `h1` and `h2`.
fn halves(nums: Vec<AngleNum>, h1: Option<char>, h2: Option<char>) -> (r: Result<
    (AngleGroup, AngleGroup),
    GeoError,
>)
    ensures
        match (r, halved(nums@, h1, h2)) {
            (Ok((a, b)), Ok((x, y))) => a@ == x && b@ == y,
            (Err(e1), Err(e2)) => e1 == e2,
            _ => false,
        },
{
    let n = nums.len();
    if n == 2 || n == 4 || n == 6 {
        let mut a: Vec<AngleNum> = Vec::new();
        let mut b: Vec<AngleNum> = Vec::new();
        let mut i: usize = 0;
        while i < n
            invariant
                n == nums.len(),
                n == 2 || n == 4 || n == 6,
                i <= n,
                a@ == nums@.take(if i < n / 2 { i as int } else { (n / 2) as int }),
                b@ == nums@.subrange((n / 2) as int, if i < n / 2 { (n / 2) as int } else { i as int }),
            decreases n - i,
        {
            if i < n / 2 {
                a.push(nums[i]);
                assert(nums@.take(i + 1) == nums@.take(i as int).push(nums@[i as int]));
            } else {
                b.push(nums[i]);
            }
            i = i + 1;
        }
        assert(b@ == nums@.skip((n / 2) as int));
        Ok((AngleGroup { nums: a, hemi: h1 }, AngleGroup { nums: b, hemi: h2 }))
    } else {
        Err(GeoError::InvalidFormat(MSG_AMBIGUOUS))
    }
}

/// The letter of the hemisphere token at `i`.
fn hemi_letter(toks: &Vec<AngleTok>, i: usize) -> (h: char)
    requires
        i < toks.len(),
    ensures
        h == hemi_at(toks@, i as int),
{
    match toks[i] {
        AngleTok::Hemi(h) => h,
        _ => ' ',
    }
}

/// Splits the tokens into the latitude-or-longitude pair of angles. With a separator the
/// split is explicit; otherwise the hemisphere letters delimit the angles, and with none the
/// numbers are halved (2, 4 or 6). Which angle is the latitude is decided afterwards.
pub fn group_angles(toks: &Vec<AngleTok>) -> (r: Result<(AngleGroup, AngleGroup), GeoError>)
    ensures
        match (r, groups_of(toks@)) {
            (Ok((a, b)), Ok((x, y))) => a@ == x && b@ == y,
            (Err(e1), Err(e2)) => e1 == e2,
            _ => false,
        },
{
    let n = toks.len();
    assert(toks@.subrange(0, n as int) == toks@);
    let (sp, hp) = token_positions(toks);
    proof {
        lemma_positions_bounded(toks@);
    }
    if sp.len() > 0 {
        if sp.len() != 1 {
            return Err(GeoError::InvalidFormat(MSG_ONE_COMMA));
        }
        let k = sp[0];
        assert(toks@.subrange(0, k as int) == toks@.take(k as int));
        assert(toks@.subrange(k + 1, n as int) == toks@.skip(k + 1));
        let a = match group_between(toks, 0, k) {
            Ok(g) => g,
            Err(e) => return Err(e),
        };
        let b = match group_between(toks, k + 1, n) {
            Ok(g) => g,
            Err(e) => return Err(e),
        };
        return Ok((a, b));
    }
    let all = nums_between(toks, 0, n);
    if all.len() == 0 {
        return Err(GeoError::InvalidFormat(MSG_NO_NUMBERS));
    }
    if hp.len() == 0 {
        halves(all, None, None)
    } else if hp.len() == 1 {
        let i = hp[0];
        let h = Some(hemi_letter(toks, i));
        assert(toks@.subrange(0, i as int) == toks@.take(i as int));
        assert(toks@.subrange(i + 1, n as int) == toks@.skip(i + 1));
        let before = nums_between(toks, 0, i);
        let after = nums_between(toks, i + 1, n);
        if before.len() > 0 && after.len() > 0 {
            Ok((AngleGroup { nums: before, hemi: h }, AngleGroup { nums: after, hemi: None }))
        } else if before.len() == 0 && after.len() > 0 {
            halves(after, h, None)
        } else if before.len() > 0 && after.len() == 0 {
            halves(before, None, h)
        } else {
            Err(GeoError::InvalidFormat(MSG_NO_NUMBERS))
        }
    } else if hp.len() == 2 {
        let i = hp[0];
        let j = hp[1];
        let h1 = Some(hemi_letter(toks, i));
        let h2 = Some(hemi_letter(toks, j));
        assert(toks@.subrange(0, i as int) == toks@.take(i as int));
        assert(toks@.subrange(j + 1, n as int) == toks@.skip(j + 1));
        let before = nums_between(toks, 0, i);
        let between = nums_between(toks, i + 1, j);
        let after = nums_between(toks, j + 1, n);
        if before.len() > 0 && between.len() > 0 && after.len() == 0 {
            Ok((AngleGroup { nums: before, hemi: h1 }, AngleGroup { nums: between, hemi: h2 }))
        } else if before.len() == 0 && between.len() > 0 && after.len() > 0 {
            Ok((AngleGroup { nums: between, hemi: h1 }, AngleGroup { nums: after, hemi: h2 }))
        } else if before.len() > 0 && between.len() == 0 && after.len() > 0 {
            Ok((AngleGroup { nums: before, hemi: h1 }, AngleGroup { nums: after, hemi: h2 }))
        } else if before.len() == 0 && between.len() > 0 && after.len() == 0 {
            halves(between, h1, h2)
        } else {
            Err(GeoError::InvalidFormat(MSG_AMBIGUOUS))
        }
    } else {
        Err(GeoError::InvalidFormat(MSG_MORE_HEMISPHERES))
    }
}

/// Positions are increasing and inside the token sequence.
proof fn lemma_positions_bounded(toks: Seq<AngleTok>)
    ensures
        forall|k: int| 0 <= k < split_positions(toks).len() ==> 0 <= #[trigger] split_positions(toks)[k] < toks.len(),
        forall|k: int| 0 <= k < hemi_positions(toks).len() ==> 0 <= #[trigger] hemi_positions(toks)[k] < toks.len(),
        forall|a: int, b: int| 0 <= a < b < hemi_positions(toks).len() ==> hemi_positions(toks)[a] < hemi_positions(toks)[b],
    decreases toks.len(),
{
    if toks.len() > 0 {
        let d = toks.drop_last();
        lemma_positions_bounded(d);
        assert forall|k: int| 0 <= k < split_positions(toks).len() implies 0
            <= #[trigger] split_positions(toks)[k] < toks.len() by {
            if k < split_positions(d).len() {
                assert(split_positions(toks)[k] == split_positions(d)[k]);
            }
        }
        assert forall|k: int| 0 <= k < hemi_positions(toks).len() implies 0
            <= #[trigger] hemi_positions(toks)[k] < toks.len() by {
            if k < hemi_positions(d).len() {
                assert(hemi_positions(toks)[k] == hemi_positions(d)[k]);
            }
        }
        assert forall|a: int, b: int| 0 <= a < b < hemi_positions(toks).len() implies hemi_positions(
            toks,
        )[a] < hemi_positions(toks)[b] by {
            if b < hemi_positions(d).len() {
                assert(hemi_positions(toks)[a] == hemi_positions(d)[a]);
                assert(hemi_positions(toks)[b] == hemi_positions(d)[b]);
            } else {
                assert(hemi_positions(toks)[a] == hemi_positions(d)[a]);
            }
        }
    }
}


/// The number tokens of the given numbers.
pub open spec fn num_toks(a: Seq<AngleNum>) -> Seq<AngleTok> {
    a.map_values(|n: AngleNum| AngleTok::Num(n))
}

proof fn lemma_toks_add(x: Seq<AngleTok>, y: Seq<AngleTok>)
    ensures
        nums_of(x + y) == nums_of(x) + nums_of(y),
        hemis_of(x + y) == hemis_of(x) + hemis_of(y),
        hemi_positions(x + y) == hemi_positions(x) + hemi_positions(y).map_values(
            |k: int| k + x.len(),
        ),
        split_positions(x + y) == split_positions(x) + split_positions(y).map_values(
            |k: int| k + x.len(),
        ),
    decreases y.len(),
{
    let sh = |k: int| k + x.len();
    if y.len() == 0 {
        assert(x + y == x);
        assert(nums_of(x) + nums_of(y) == nums_of(x));
        assert(hemis_of(x) + hemis_of(y) == hemis_of(x));
        assert(hemi_positions(x) + hemi_positions(y).map_values(sh) == hemi_positions(x));
        assert(split_positions(x) + split_positions(y).map_values(sh) == split_positions(x));
    } else {
        let z = y.drop_last();
        let t = y.last();
        lemma_toks_add(x, z);
        assert((x + y).drop_last() == x + z);
        assert((x + y).last() == t);
        let n = (x + y).len() - 1;
        assert(n == (y.len() - 1) + x.len());
        match t {
            AngleTok::Num(v) => {
                assert((nums_of(x) + nums_of(z)).push(v) == nums_of(x) + nums_of(z).push(v));
            },
            AngleTok::Hemi(h) => {
                assert((hemis_of(x) + hemis_of(z)).push(h) == hemis_of(x) + hemis_of(z).push(h));
                assert(hemi_positions(y) == hemi_positions(z).push(y.len() - 1));
                assert(hemi_positions(y).map_values(sh) == hemi_positions(z).map_values(sh).push(
                    n,
                ));
                assert((hemi_positions(x) + hemi_positions(z).map_values(sh)).push(n)
                    == hemi_positions(x) + hemi_positions(z).map_values(sh).push(n));
            },
            AngleTok::Split => {
                assert(split_positions(y) == split_positions(z).push(y.len() - 1));
                assert(split_positions(y).map_values(sh) == split_positions(z).map_values(
                    sh,
                ).push(n));
                assert((split_positions(x) + split_positions(z).map_values(sh)).push(n)
                    == split_positions(x) + split_positions(z).map_values(sh).push(n));
            },
        }
    }
}

proof fn lemma_num_toks(a: Seq<AngleNum>)
    ensures
        nums_of(num_toks(a)) == a,
        hemis_of(num_toks(a)) == Seq::<char>::empty(),
        hemi_positions(num_toks(a)) == Seq::<int>::empty(),
        split_positions(num_toks(a)) == Seq::<int>::empty(),
        num_toks(a).len() == a.len(),
    decreases a.len(),
{
    if a.len() > 0 {
        let b = a.drop_last();
        lemma_num_toks(b);
        assert(num_toks(a).drop_last() == num_toks(b));
        assert(num_toks(a).last() == AngleTok::Num(a.last()));
        assert(b.push(a.last()) == a);
    } else {
        assert(num_toks(a) == Seq::<AngleTok>::empty());
    }
}

proof fn lemma_one_tok(t: AngleTok)
    ensures
        nums_of(seq![t]) == match t {
            AngleTok::Num(v) => seq![v],
            _ => Seq::<AngleNum>::empty(),
        },
        hemis_of(seq![t]) == match t {
            AngleTok::Hemi(h) => seq![h],
            _ => Seq::<char>::empty(),
        },
        hemi_positions(seq![t]) == (if t is Hemi { seq![0int] } else { Seq::<int>::empty() }),
        split_positions(seq![t]) == (if t is Split { seq![0int] } else { Seq::<int>::empty() }),
{
    assert(seq![t].drop_last() == Seq::<AngleTok>::empty());
    assert(seq![t].last() == t);
    assert(nums_of(Seq::<AngleTok>::empty()) == Seq::<AngleNum>::empty());
    assert(hemis_of(Seq::<AngleTok>::empty()) == Seq::<char>::empty());
    assert(hemi_positions(Seq::<AngleTok>::empty()) == Seq::<int>::empty());
    assert(split_positions(Seq::<AngleTok>::empty()) == Seq::<int>::empty());
    assert(Seq::<int>::empty().push(0) == seq![0int]);
    match t {
        AngleTok::Num(v) => {
            assert(Seq::<AngleNum>::empty().push(v) == seq![v]);
        },
        AngleTok::Hemi(h) => {
            assert(Seq::<char>::empty().push(h) == seq![h]);
        },
        AngleTok::Split => {},
    }
}

/// A hemisphere letter may stand before or after the numbers of its angle, and a separator
/// may stand between the angles or not: `N 44 48 E 20 27`, `44 48 N 20 27 E`,
/// `44 48 N, 20 27 E` and `N 44 48, E 20 27` are all the same two angles, each with its own
/// numbers and letter.
pub proof fn letters_before_or_after(a: Seq<AngleNum>, b: Seq<AngleNum>, h1: char, h2: char)
    requires
        a.len() > 0,
        b.len() > 0,
    ensures
        groups_of(seq![AngleTok::Hemi(h1)] + num_toks(a) + seq![AngleTok::Hemi(h2)] + num_toks(b))
            == Ok::<AnglePair, GeoError>(((a, Some(h1)), (b, Some(h2)))),
        groups_of(num_toks(a) + seq![AngleTok::Hemi(h1)] + num_toks(b) + seq![AngleTok::Hemi(h2)])
            == Ok::<AnglePair, GeoError>(((a, Some(h1)), (b, Some(h2)))),
        groups_of(
            num_toks(a) + seq![AngleTok::Hemi(h1), AngleTok::Split] + num_toks(b) + seq![
                AngleTok::Hemi(h2),
            ],
        ) == Ok::<AnglePair, GeoError>(((a, Some(h1)), (b, Some(h2)))),
        groups_of(
            seq![AngleTok::Hemi(h1)] + num_toks(a) + seq![AngleTok::Split, AngleTok::Hemi(h2)]
                + num_toks(b),
        ) == Ok::<AnglePair, GeoError>(((a, Some(h1)), (b, Some(h2)))),
{
    let ta = num_toks(a);
    let tb = num_toks(b);
    let x1 = seq![AngleTok::Hemi(h1)];
    let x2 = seq![AngleTok::Hemi(h2)];
    let sp = seq![AngleTok::Split];
    lemma_num_toks(a);
    lemma_num_toks(b);
    lemma_one_tok(AngleTok::Hemi(h1));
    lemma_one_tok(AngleTok::Hemi(h2));
    lemma_one_tok(AngleTok::Split);
    let na = a.len() as int;
    let nb = b.len() as int;
    // letters in front: H1 a H2 b
    let t1 = x1 + ta + x2 + tb;
    lemma_toks_add(x1, ta);
    lemma_toks_add(x1 + ta, x2);
    lemma_toks_add(x1 + ta + x2, tb);
    assert(split_positions(t1) == Seq::<int>::empty());
    assert(nums_of(t1) == a + b);
    assert(hemi_positions(t1) == seq![0int, na + 1]);
    assert(hemi_at(t1, 0) == h1);
    assert(hemi_at(t1, na + 1) == h2);
    assert(t1.take(0) == Seq::<AngleTok>::empty());
    assert(t1.subrange(1, na + 1) == ta);
    assert(t1.skip(na + 2) == tb);
    // letters behind: a H1 b H2
    let t2 = ta + x1 + tb + x2;
    lemma_toks_add(ta, x1);
    lemma_toks_add(ta + x1, tb);
    lemma_toks_add(ta + x1 + tb, x2);
    assert(split_positions(t2) == Seq::<int>::empty());
    assert(nums_of(t2) == a + b);
    assert(hemi_positions(t2) == seq![na, na + nb + 1]);
    assert(hemi_at(t2, na) == h1);
    assert(hemi_at(t2, na + nb + 1) == h2);
    assert(t2.take(na) == ta);
    assert(t2.subrange(na + 1, na + nb + 1) == tb);
    assert(t2.skip(na + nb + 2) == Seq::<AngleTok>::empty());
    // behind, with a separator: a H1 , b H2
    let x1s = seq![AngleTok::Hemi(h1), AngleTok::Split];
    let t3 = ta + x1s + tb + x2;
    assert(x1s == x1 + sp);
    lemma_toks_add(x1, sp);
    lemma_toks_add(ta, x1s);
    lemma_toks_add(ta + x1s, tb);
    lemma_toks_add(ta + x1s + tb, x2);
    assert(split_positions(t3) == seq![na + 1]);
    assert(t3.take(na + 1) == ta + x1);
    assert(t3.skip(na + 2) == tb + x2);
    lemma_toks_add(ta, x1);
    lemma_toks_add(tb, x2);
    assert(hemis_of(ta + x1) == seq![h1]);
    assert(hemis_of(tb + x2) == seq![h2]);
    assert(nums_of(ta + x1) == a);
    assert(nums_of(tb + x2) == b);
    // in front, with a separator: H1 a , H2 b
    let sx2 = seq![AngleTok::Split, AngleTok::Hemi(h2)];
    let t4 = x1 + ta + sx2 + tb;
    assert(sx2 == sp + x2);
    lemma_toks_add(sp, x2);
    lemma_toks_add(x1 + ta, sx2);
    lemma_toks_add(x1 + ta + sx2, tb);
    assert(split_positions(t4) == seq![na + 1]);
    assert(t4.take(na + 1) == x1 + ta);
    assert(t4.skip(na + 2) == x2 + tb);
    lemma_toks_add(x2, tb);
    assert(hemis_of(x1 + ta) == seq![h1]);
    assert(hemis_of(x2 + tb) == seq![h2]);
    assert(nums_of(x1 + ta) == a);
    assert(nums_of(x2 + tb) == b);
}

/// A single hemisphere letter belongs to the angle whose numbers it stands next to: written
/// before all the numbers (`S 33 18`) it marks the first angle, after all of them
/// (`33 18 E`) the second, and between the two angles' numbers (`33 S 18`) the first.
pub proof fn single_letter_belongs_to_its_angle(a: Seq<AngleNum>, b: Seq<AngleNum>, h: char)
    requires
        a.len() > 0,
        b.len() > 0,
    ensures
        a.len() == b.len() && a.len() <= 3 ==> groups_of(
            seq![AngleTok::Hemi(h)] + num_toks(a + b),
        ) == Ok::<AnglePair, GeoError>(((a, Some(h)), (b, None))),
        a.len() == b.len() && a.len() <= 3 ==> groups_of(
            num_toks(a + b) + seq![AngleTok::Hemi(h)],
        ) == Ok::<AnglePair, GeoError>(((a, None), (b, Some(h)))),
        groups_of(num_toks(a) + seq![AngleTok::Hemi(h)] + num_toks(b)) == Ok::<
            AnglePair,
            GeoError,
        >(((a, Some(h)), (b, None))),
{
    let ta = num_toks(a);
    let tb = num_toks(b);
    let x = seq![AngleTok::Hemi(h)];
    let na = a.len() as int;
    let nb = b.len() as int;
    assert(num_toks(a + b) == ta + tb);
    lemma_num_toks(a);
    lemma_num_toks(b);
    lemma_num_toks(a + b);
    lemma_one_tok(AngleTok::Hemi(h));
    assert((a + b).take(na) == a);
    assert((a + b).skip(na) == b);
    if na == nb && na <= 3 {
        assert((a + b).len() / 2 == na);
        // in front
        let t1 = x + (ta + tb);
        lemma_toks_add(x, ta + tb);
        assert(split_positions(t1) == Seq::<int>::empty());
        assert(nums_of(t1) == a + b);
        assert(hemi_positions(t1) == seq![0int]);
        assert(hemi_at(t1, 0) == h);
        assert(t1.take(0) == Seq::<AngleTok>::empty());
        assert(t1.skip(1) == ta + tb);
        // behind
        let t2 = (ta + tb) + x;
        lemma_toks_add(ta + tb, x);
        assert(split_positions(t2) == Seq::<int>::empty());
        assert(nums_of(t2) == a + b);
        assert(hemi_positions(t2) == seq![na + nb]);
        assert(hemi_at(t2, na + nb) == h);
        assert(t2.take(na + nb) == ta + tb);
        assert(t2.skip(na + nb + 1) == Seq::<AngleTok>::empty());
    }
    // between
    let t3 = ta + x + tb;
    lemma_toks_add(ta, x);
    lemma_toks_add(ta + x, tb);
    assert(split_positions(t3) == Seq::<int>::empty());
    assert(nums_of(t3) == a + b);
    assert(hemi_positions(t3) == seq![na]);
    assert(hemi_at(t3, na) == h);
    assert(t3.take(na) == ta);
    assert(t3.skip(na + 1) == tb);
}

/// Message of an angle with no number or more than three.
pub const MSG_COMPONENT_COUNT: &'static str = "each angle needs 1 to 3 numbers (degrees, minutes, seconds)";
/// Message of a unit mark on the wrong component.
pub const MSG_UNIT_ORDER: &'static str = "unit marks are out of order (degrees, minutes, seconds)";
/// Message of a sign on minutes or seconds.
pub const MSG_SIGN_ON_DEGREES: &'static str = "only the degrees may carry a sign";
/// Message of an angle with both a sign and a hemisphere letter.
pub const MSG_SIGN_OR_HEMISPHERE: &'static str = "give either a sign or a hemisphere letter, not both";
/// Message of two letters of the same axis.
pub const MSG_HEMISPHERE_PAIR: &'static str = "hemisphere letters must be one of N/S and one of E/W";

/// The unit of the `k`-th component: degrees, minutes, seconds.
pub open spec fn unit_of_component(k: int) -> AngleUnit {
    if k == 0 {
        AngleUnit::Deg
    } else if k == 1 {
        AngleUnit::Min
    } else {
        AngleUnit::Sec
    }
}

/// The first component from `k` on with a unit mark of another component, or with a sign
/// (allowed on the degrees only), gives its error.
pub open spec fn component_error(nums: Seq<AngleNum>, k: int) -> Option<GeoError>
    decreases nums.len() - k,
{
    if k < 0 || k >= nums.len() {
        None
    } else if nums[k].unit is Some && nums[k].unit != Some(unit_of_component(k)) {
        Some(GeoError::InvalidFormat(MSG_UNIT_ORDER))
    } else if k > 0 && nums[k].signed {
        Some(GeoError::InvalidFormat(MSG_SIGN_ON_DEGREES))
    } else {
        component_error(nums, k + 1)
    }
}

/// What is wrong with the shape of one angle, if anything: 1 to 3 numbers, unit marks in
/// degree-minute-second order, a sign only on the degrees, not both a sign and a letter.
pub open spec fn shape_error(g: (Seq<AngleNum>, Option<char>)) -> Option<GeoError> {
    if g.0.len() == 0 || g.0.len() > 3 {
        Some(GeoError::InvalidFormat(MSG_COMPONENT_COUNT))
    } else if component_error(g.0, 0) is Some {
        component_error(g.0, 0)
    } else if g.0[0].signed && g.1 is Some {
        Some(GeoError::InvalidFormat(MSG_SIGN_OR_HEMISPHERE))
    } else {
        None
    }
}

/// Checks the shape of one angle (see `shape_error`); the values of its numbers are not
/// looked at.
pub fn check_angle_shape(g: &AngleGroup) -> (r: Result<(), GeoError>)
    ensures
        r == match shape_error(g@) {
            Some(e) => Err::<(), GeoError>(e),
            None => Ok(()),
        },
{
    let n = g.nums.len();
    if n == 0 || n > 3 {
        return Err(GeoError::InvalidFormat(MSG_COMPONENT_COUNT));
    }
    let mut k: usize = 0;
    while k < n
        invariant
            n == g.nums.len(),
            1 <= n <= 3,
            k <= n,
            component_error(g.nums@, 0) == component_error(g.nums@, k as int),
        decreases n - k,
    {
        let x = g.nums[k];
        let expected = if k == 0 {
            AngleUnit::Deg
        } else if k == 1 {
            AngleUnit::Min
        } else {
            AngleUnit::Sec
        };
        let wrong_unit = match x.unit {
            Some(u) => u != expected,
            None => false,
        };
        if wrong_unit {
            return Err(GeoError::InvalidFormat(MSG_UNIT_ORDER));
        }
        if k > 0 && x.signed {
            return Err(GeoError::InvalidFormat(MSG_SIGN_ON_DEGREES));
        }
        k = k + 1;
    }
    if g.nums[0].signed && g.hemi.is_some() {
        return Err(GeoError::InvalidFormat(MSG_SIGN_OR_HEMISPHERE));
    }
    Ok(())
}

/// An angle is negative when its degrees carry a minus sign or its letter is S or W.
pub open spec fn angle_negative(g: (Seq<AngleNum>, Option<char>)) -> bool {
    g.0[0].negative || g.1 == Some('S') || g.1 == Some('W')
}

/// Whether the angle is negative (south or west).
pub fn is_negative(g: &AngleGroup) -> (b: bool)
    requires
        g.nums.len() > 0,
    ensures
        b == angle_negative(g@),
{
    g.nums[0].negative || g.hemi == Some('S') || g.hemi == Some('W')
}

/// A latitude letter.
pub open spec fn is_lat_letter(h: Option<char>) -> bool {
    h == Some('N') || h == Some('S')
}

/// A longitude letter.
pub open spec fn is_lon_letter(h: Option<char>) -> bool {
    h == Some('E') || h == Some('W')
}

/// Whether the two angles come as longitude then latitude, decided by their letters: an N/S
/// letter marks the latitude and an E/W letter the longitude; without letters the latitude
/// comes first.
pub open spec fn pairing(a: Option<char>, b: Option<char>) -> Result<bool, GeoError> {
    if a is Some && b is Some {
        if is_lat_letter(a) && is_lon_letter(b) {
            Ok(false)
        } else if is_lon_letter(a) && is_lat_letter(b) {
            Ok(true)
        } else {
            Err(GeoError::InvalidFormat(MSG_HEMISPHERE_PAIR))
        }
    } else if a is Some {
        Ok(!is_lat_letter(a))
    } else if b is Some {
        Ok(!is_lon_letter(b))
    } else {
        Ok(false)
    }
}

/// Decides which angle is the latitude from the two letters (see `pairing`): `true` when
/// the first angle is the longitude.
pub fn pair_angles(a: Option<char>, b: Option<char>) -> (r: Result<bool, GeoError>)
    ensures
        r == pairing(a, b),
{
    let lat_a = a == Some('N') || a == Some('S');
    let lon_a = a == Some('E') || a == Some('W');
    let lat_b = b == Some('N') || b == Some('S');
    let lon_b = b == Some('E') || b == Some('W');
    if a.is_some() && b.is_some() {
        if lat_a && lon_b {
            Ok(false)
        } else if lon_a && lat_b {
            Ok(true)
        } else {
            Err(GeoError::InvalidFormat(MSG_HEMISPHERE_PAIR))
        }
    } else if a.is_some() {
        Ok(!lat_a)
    } else if b.is_some() {
        Ok(!lon_b)
    } else {
        Ok(false)
    }
}

/// Latitude and longitude may be written in either order once a hemisphere letter tells them
/// apart: for letters among N, S, E and W, at least one of them given, swapping the two
/// angles swaps the answer, and a refusal stays the same refusal.
pub proof fn pairing_ignores_order(a: Option<char>, b: Option<char>)
    requires
        a is Some || b is Some,
        a is None || is_lat_letter(a) || is_lon_letter(a),
        b is None || is_lat_letter(b) || is_lon_letter(b),
    ensures
        match (pairing(a, b), pairing(b, a)) {
            (Ok(x), Ok(y)) => y == !x,
            (Err(e1), Err(e2)) => e1 == e2,
            _ => false,
        },
{
}

/// The hemisphere of a latitude of the given sign.
pub fn latitude_dir(negative: bool) -> (d: LatitudeDir)
    ensures
        d == (if negative { LatitudeDir::South } else { LatitudeDir::North }),
{
    if negative {
        LatitudeDir::South
    } else {
        LatitudeDir::North
    }
}

/// The hemisphere of a longitude of the given sign.
pub fn longitude_dir(negative: bool) -> (d: LongitudeDir)
    ensures
        d == (if negative { LongitudeDir::West } else { LongitudeDir::East }),
{
    if negative {
        LongitudeDir::West
    } else {
        LongitudeDir::East
    }
}

/// The two angles of angular text, tokenized and split (see `tokenize_angles` and
/// `group_angles`); their number spans index the characters of `s`.
pub fn split_angles(s: &str) -> (r: Result<(AngleGroup, AngleGroup), GeoError>)
    ensures
        match (r, lex(s@, 0)) {
            (Ok((a, b)), Ok(toks)) => groups_of(toks) == Ok::<AnglePair, GeoError>((a@, b@)),
            (Err(e), Ok(toks)) => groups_of(toks) == Err::<AnglePair, GeoError>(e),
            (Err(e1), Err(e2)) => e1 == e2,
            _ => false,
        },
{
    let toks = match tokenize_angles(s) {
        Ok(t) => t,
        Err(e) => return Err(e),
    };
    group_angles(&toks)
}

} // verus!

