//! MGRS grid references as text: the grid zone designator, the 100 km square letters and the
//! digit pairs. Reading checks the syntax and gives the digits as integers; writing gives the
//! text `Display` prints. The metre offsets the digits stand for are the caller's arithmetic.
use vstd::prelude::*;

use crate::error::GeoError;
use crate::grid::{
    grid_letter_is_its_index, ups_band_is_its_letter, utm_band_is_its_index, grid_letter_from_char, grid_letter_of, ups_band_from_char, ups_band_of, utm_band_from_char,
    utm_band_of, GridLetter, MGRSZone, UPSBand, UTMBand, MSG_BAND_TEXT,
};
use crate::text::{
    chars_of, digit_value, is_ascii_digit, is_digit, is_white, is_whitespace, to_ascii_uppercase,
    string_from_chars, upper, upper_all, upper_trimmed, trimmed_upper,
};

verus! {

/// Message of a grid zone designator that is neither `<zone><band>` nor a UPS letter.
pub const MSG_ZONE_SYNTAX: &'static str = "expected `<zone><band>` such as `34T`, or a UPS zone letter";
/// Message of a single letter that is no UPS zone.
pub const MSG_UPS_ZONE: &'static str = "UPS zone must be one of A, B, Y, Z";
/// Message of a malformed grid reference.
pub const MSG_MGRS_SYNTAX: &'static str = "expected `<zone><band><square><digits>`, e.g. `34TDQ5808260869` or `Z AH 00000 00000`";
/// Message of square letters outside the alphabet.
pub const MSG_SQUARE_LETTERS: &'static str = "square letters must be A..Z without I and O";
/// Message of digits that do not come in pairs.
pub const MSG_DIGIT_PAIRS: &'static str = "MGRS digits must come in 0 to 9 pairs (easting then northing)";

/// An MGRS reference as its text gives it: zone, square letters, and the easting and northing
/// digits read as integers, `precision` digits each (0 to 9).
#[derive(Debug, Clone, Copy, PartialEq, Eq)]
pub struct GridReference {
    /// Grid zone designator.
    pub zone: MGRSZone,
    /// 100 km square letters, (column, row).
    pub square: (GridLetter, GridLetter),
    /// Easting digits as a number.
    pub easting: u32,
    /// Northing digits as a number.
    pub northing: u32,
    /// Number of digits of each of easting and northing.
    pub precision: u8,
}

/// `10^n`.
pub open spec fn pow10(n: nat) -> int
    decreases n,
{
    if n == 0 {
        1
    } else {
        10 * pow10((n - 1) as nat)
    }
}

/// Value of a string of decimal digits, most significant first; 0 when empty.
pub open spec fn dec_value(s: Seq<char>) -> int
    decreases s.len(),
{
    if s.len() == 0 {
        0
    } else {
        10 * dec_value(s.drop_last()) + digit_value(s.last())
    }
}

/// Number of leading decimal digits.
pub open spec fn digit_run(s: Seq<char>) -> nat
    decreases s.len(),
{
    if s.len() > 0 && is_digit(s[0]) {
        1 + digit_run(s.drop_first())
    } else {
        0
    }
}

/// Every character is a decimal digit.
pub open spec fn all_digits(s: Seq<char>) -> bool {
    forall|i: int| 0 <= i < s.len() ==> is_digit(#[trigger] s[i])
}

/// The text without whitespace, uppercased.
pub open spec fn squeeze(s: Seq<char>) -> Seq<char> {
    s.filter(|c: char| !is_white(c)).map_values(|c: char| upper(c))
}

/// A grid zone designator, already trimmed and uppercased: one UPS letter, or one or two
/// digits of zone number 1..=60 followed by a band letter.
pub open spec fn zone_from_text(t: Seq<char>) -> Result<MGRSZone, GeoError> {
    let d = digit_run(t);
    if d == 0 {
        if t.len() == 1 {
            match ups_band_of(t[0]) {
                Some(b) => Ok(MGRSZone::UPS(b)),
                None => Err(GeoError::InvalidFormat(MSG_UPS_ZONE)),
            }
        } else {
            Err(GeoError::InvalidFormat(MSG_ZONE_SYNTAX))
        }
    } else if d > 2 || t.len() != d + 1 {
        Err(GeoError::InvalidFormat(MSG_ZONE_SYNTAX))
    } else {
        let z = dec_value(t.take(d as int));
        if !(1 <= z <= 60) {
            Err(GeoError::InvalidUtmZone(z as u8))
        } else {
            match utm_band_of(t[d as int]) {
                Some(b) => Ok(MGRSZone::UTM(z as u8, b)),
                None => Err(GeoError::InvalidFormat(MSG_BAND_TEXT)),
            }
        }
    }
}

/// The digits after the square letters: 0 to 9 pairs, the first half the easting digits and
/// the second half the northing digits; gives both values and the number of digits of each.
pub open spec fn digit_pairs(rest: Seq<char>) -> Result<(u32, u32, u8), GeoError> {
    if !all_digits(rest) {
        Err(GeoError::InvalidFormat(MSG_MGRS_SYNTAX))
    } else if rest.len() % 2 != 0 || rest.len() > 18 {
        Err(GeoError::InvalidFormat(MSG_DIGIT_PAIRS))
    } else {
        let p = rest.len() / 2;
        Ok(
            (
                dec_value(rest.take(p as int)) as u32,
                dec_value(rest.skip(p as int)) as u32,
                p as u8,
            ),
        )
    }
}

/// An MGRS reference: whitespace anywhere is ignored and letters may be lowercase; the zone,
/// the two square letters, then 0 to 9 digit pairs (easting digits, then northing digits).
pub open spec fn reference_from_text(s: Seq<char>) -> Result<GridReference, GeoError> {
    let t = squeeze(s);
    let d = digit_run(t);
    if d > 2 || t.len() < d + 3 {
        Err(GeoError::InvalidFormat(MSG_MGRS_SYNTAX))
    } else {
        let ze: int = if d == 0 { 1 } else { d + 1 as int };
        match zone_from_text(t.take(ze)) {
            Err(e) => Err(e),
            Ok(zone) => match (grid_letter_of(t[ze]), grid_letter_of(t[ze + 1])) {
                (Some(col), Some(row)) => match digit_pairs(t.skip(ze + 2)) {
                    Ok((easting, northing, precision)) => Ok(
                        GridReference { zone, square: (col, row), easting, northing, precision },
                    ),
                    Err(e) => Err(e),
                },
                _ => Err(GeoError::InvalidFormat(MSG_SQUARE_LETTERS)),
            },
        }
    }
}

/// Decimal digits of `v`, most significant first, without leading zeros (`0` is one digit).
pub open spec fn decimal(v: nat) -> Seq<char>
    decreases v,
{
    if v < 10 {
        seq![(v + 48) as char]
    } else {
        decimal(v / 10).push(((v % 10) + 48) as char)
    }
}

/// `v` in decimal, left-padded with zeros to at least `w` characters.
pub open spec fn padded(v: nat, w: nat) -> Seq<char> {
    let d = decimal(v);
    Seq::new(if d.len() < w { (w - d.len()) as nat } else { 0 }, |i: int| '0') + d
}

/// Text of a grid zone designator: two-digit zone number and band letter, or the UPS letter.
pub open spec fn zone_text(z: MGRSZone) -> Seq<char> {
    match z {
        MGRSZone::UTM(n, b) => padded(n as nat, 2).push(b.letter()),
        MGRSZone::UPS(b) => seq![b.letter()],
    }
}

/// Text of a reference: zone, a space, the square letters, and (with a precision above 0) a
/// space, the zero-padded easting, a space and the zero-padded northing.
pub open spec fn reference_text(r: GridReference) -> Seq<char> {
    zone_text(r.zone) + seq![' ', r.square.0.letter(), r.square.1.letter()] + if r.precision > 0 {
        seq![' '] + padded(r.easting as nat, r.precision as nat) + seq![' '] + padded(
            r.northing as nat,
            r.precision as nat,
        )
    } else {
        Seq::empty()
    }
}

proof fn lemma_squeeze_push(s: Seq<char>, c: char)
    ensures
        squeeze(s.push(c)) == if is_white(c) {
            squeeze(s)
        } else {
            squeeze(s).push(upper(c))
        },
{
    let p = |c: char| !is_white(c);
    let f = |c: char| upper(c);
    s.lemma_filter_push(c, p);
    if !is_white(c) {
        s.filter(p).lemma_push_map_commute(f, c);
    }
}

/// The text without whitespace, uppercased.
fn squeeze_chars(v: &Vec<char>) -> (t: Vec<char>)
    ensures
        t@ == squeeze(v@),
{
    let mut t: Vec<char> = Vec::new();
    let mut i: usize = 0;
    assert(v@.take(0) == Seq::<char>::empty());
    assert(squeeze(Seq::<char>::empty()) == Seq::<char>::empty()) by {
        reveal_with_fuel(Seq::filter, 1);
    }
    while i < v.len()
        invariant
            i <= v.len(),
            t@ == squeeze(v@.take(i as int)),
        decreases v.len() - i,
    {
        let c = v[i];
        proof {
            lemma_squeeze_push(v@.take(i as int), c);
            assert(v@.take(i + 1) == v@.take(i as int).push(c));
        }
        if !is_whitespace(c) {
            t.push(to_ascii_uppercase(c));
        }
        i = i + 1;
    }
    assert(v@.take(v.len() as int) == v@);
    t
}

proof fn lemma_digit_run_step(s: Seq<char>, lo: int, hi: int)
    requires
        0 <= lo < hi <= s.len(),
        is_digit(s[lo]),
    ensures
        digit_run(s.subrange(lo, hi)) == 1 + digit_run(s.subrange(lo + 1, hi)),
{
    assert(s.subrange(lo, hi).drop_first() == s.subrange(lo + 1, hi));
}

/// Number of leading decimal digits of `t[lo..hi]`.
fn leading_digits(t: &Vec<char>, lo: usize, hi: usize) -> (n: usize)
    requires
        lo <= hi <= t.len(),
    ensures
        n == digit_run(t@.subrange(lo as int, hi as int)),
        n <= hi - lo,
{
    let mut i = lo;
    while i < hi && is_ascii_digit(t[i])
        invariant
            lo <= i <= hi <= t.len(),
            digit_run(t@.subrange(lo as int, hi as int)) == (i - lo) + digit_run(
                t@.subrange(i as int, hi as int),
            ),
        decreases hi - i,
    {
        proof {
            lemma_digit_run_step(t@, i as int, hi as int);
        }
        i = i + 1;
    }
    i - lo
}

proof fn lemma_pow10_positive(n: nat)
    ensures
        pow10(n) >= 1,
    decreases n,
{
    if n > 0 {
        lemma_pow10_positive((n - 1) as nat);
    }
}

/// Value of the digits `t[lo..hi]` (at most nine of them).
fn digits_value(t: &Vec<char>, lo: usize, hi: usize) -> (v: u32)
    requires
        lo <= hi <= t.len(),
        hi - lo <= 9,
        all_digits(t@.subrange(lo as int, hi as int)),
    ensures
        v == dec_value(t@.subrange(lo as int, hi as int)),
        v < pow10((hi - lo) as nat),
{
    let mut v: u64 = 0;
    let mut i = lo;
    assert(t@.subrange(lo as int, lo as int) == Seq::<char>::empty());
    while i < hi
        invariant
            lo <= i <= hi <= t.len(),
            hi - lo <= 9,
            all_digits(t@.subrange(lo as int, hi as int)),
            v == dec_value(t@.subrange(lo as int, i as int)),
            0 <= v < pow10((i - lo) as nat),
            pow10((i - lo) as nat) <= 1000000000,
        decreases hi - i,
    {
        let c = t[i];
        assert(t@.subrange(lo as int, hi as int)[i - lo] == c);
        assert(is_digit(c));
        let d = (c as u32 - '0' as u32) as u64;
        proof {
            let s = t@.subrange(lo as int, i + 1);
            assert(s.drop_last() == t@.subrange(lo as int, i as int));
            assert(s.last() == c);
            assert(pow10((i + 1 - lo) as nat) == 10 * pow10((i - lo) as nat));
            if i + 1 - lo <= 9 {
                assert(pow10((i + 1 - lo) as nat) <= 1000000000) by {
                    lemma_pow10_le_9((i + 1 - lo) as nat);
                }
            }
        }
        v = 10 * v + d;
        i = i + 1;
    }
    v as u32
}

proof fn lemma_pow10_le_9(n: nat)
    requires
        n <= 9,
    ensures
        pow10(n) <= 1000000000,
    decreases n,
{
    reveal_with_fuel(pow10, 10);
}

/// Reads a grid zone designator from `t[..len]`, already trimmed and uppercased.
fn zone_from_chars(t: &Vec<char>, len: usize) -> (r: Result<MGRSZone, GeoError>)
    requires
        len <= t.len(),
    ensures
        r == zone_from_text(t@.take(len as int)),
{
    let ghost z = t@.take(len as int);
    assert(t@.subrange(0, len as int) == z);
    let d = leading_digits(t, 0, len);
    if d == 0 {
        if len == 1 {
            match ups_band_from_char(t[0]) {
                Some(b) => Ok(MGRSZone::UPS(b)),
                None => Err(GeoError::InvalidFormat(MSG_UPS_ZONE)),
            }
        } else {
            Err(GeoError::InvalidFormat(MSG_ZONE_SYNTAX))
        }
    } else if d > 2 || len != d + 1 {
        Err(GeoError::InvalidFormat(MSG_ZONE_SYNTAX))
    } else {
        proof {
            assert forall|i: int| 0 <= i < d implies is_digit(#[trigger] t@.subrange(0, d as int)[i]) by {
                lemma_digit_run_prefix(z, i);
            }
            assert(t@.subrange(0, d as int) == z.take(d as int));
        }
        let n = digits_value(t, 0, d);
        if !(1 <= n && n <= 60) {
            Err(GeoError::InvalidUtmZone(n as u8))
        } else {
            match utm_band_from_char(t[d]) {
                Some(b) => Ok(MGRSZone::UTM(n as u8, b)),
                None => Err(GeoError::InvalidFormat(MSG_BAND_TEXT)),
            }
        }
    }
}

proof fn lemma_digit_run_len(s: Seq<char>)
    ensures
        digit_run(s) <= s.len(),
    decreases s.len(),
{
    if s.len() > 0 && is_digit(s[0]) {
        lemma_digit_run_len(s.drop_first());
    }
}

/// Every character before the end of the leading digit run is a digit.
proof fn lemma_digit_run_prefix(s: Seq<char>, i: int)
    requires
        0 <= i < digit_run(s),
    ensures
        is_digit(s[i]),
    decreases s.len(),
{
    lemma_digit_run_len(s);
    assert(s.len() > 0 && is_digit(s[0]));
    if i > 0 {
        assert(digit_run(s.drop_first()) == digit_run(s) - 1);
        lemma_digit_run_prefix(s.drop_first(), i - 1);
        assert(s.drop_first()[i - 1] == s[i]);
    }
}

/// Reads the digit pairs of `t[start..]`.
fn pairs_from_chars(t: &Vec<char>, start: usize) -> (r: Result<(u32, u32, u8), GeoError>)
    requires
        start <= t.len(),
    ensures
        r == digit_pairs(t@.skip(start as int)),
{
    let ghost rest = t@.skip(start as int);
    let mut i = start;
    while i < t.len()
        invariant
            start <= i <= t.len(),
            rest == t@.skip(start as int),
            forall|k: int| 0 <= k < i - start ==> is_digit(#[trigger] rest[k]),
        decreases t.len() - i,
    {
        if !is_ascii_digit(t[i]) {
            assert(rest[i - start] == t@[i as int]);
            assert(!is_digit(rest[i - start]));
            return Err(GeoError::InvalidFormat(MSG_MGRS_SYNTAX));
        }
        i = i + 1;
    }
    let n = t.len() - start;
    if n % 2 != 0 || n > 18 {
        return Err(GeoError::InvalidFormat(MSG_DIGIT_PAIRS));
    }
    let p = n / 2;
    proof {
        assert(t@.subrange(start as int, (start + p) as int) == rest.take(p as int));
        assert(t@.subrange((start + p) as int, t.len() as int) == rest.skip(p as int));
        assert forall|k: int| 0 <= k < p implies is_digit(#[trigger] t@.subrange(start as int, (start + p) as int)[k]) by {
            assert(rest.take(p as int)[k] == rest[k]);
        }
        assert forall|k: int| 0 <= k < n - p implies is_digit(#[trigger] t@.subrange((start + p) as int, t.len() as int)[k]) by {
            assert(rest.skip(p as int)[k] == rest[k + p]);
        }
    }
    let easting = digits_value(t, start, start + p);
    let northing = digits_value(t, start + p, t.len());
    Ok((easting, northing, p as u8))
}

impl core::str::FromStr for MGRSZone {
    type Err = GeoError;

    /// A grid zone designator such as `34T` or `z`, any case, with optional surrounding
    /// whitespace.
    fn from_str(s: &str) -> (r: Result<MGRSZone, GeoError>)
        ensures
            r == zone_from_text(trimmed_upper(s@)),
    {
        let t = upper_trimmed(s);
        assert(t@.take(t.len() as int) == t@);
        zone_from_chars(&t, t.len())
    }
}

impl core::str::FromStr for GridReference {
    type Err = GeoError;

    /// A grid reference such as `34TDQ5808260869`, `34T DQ 58082 60869` or `z ah`:
    /// whitespace is ignored anywhere and letters are case-insensitive.
    fn from_str(s: &str) -> (r: Result<GridReference, GeoError>)
        ensures
            r == reference_from_text(s@),
    {
        let v = chars_of(s);
        let t = squeeze_chars(&v);
        let d = leading_digits(&t, 0, t.len());
        assert(t@.subrange(0, t.len() as int) == t@);
        if d > 2 || t.len() < d + 3 {
            return Err(GeoError::InvalidFormat(MSG_MGRS_SYNTAX));
        }
        let ze: usize = if d == 0 { 1 } else { d + 1 };
        let zone = match zone_from_chars(&t, ze) {
            Ok(z) => z,
            Err(e) => return Err(e),
        };
        let col = grid_letter_from_char(t[ze]);
        let row = grid_letter_from_char(t[ze + 1]);
        if col.is_none() || row.is_none() {
            return Err(GeoError::InvalidFormat(MSG_SQUARE_LETTERS));
        }
        let square = (col.unwrap(), row.unwrap());
        match pairs_from_chars(&t, ze + 2) {
            Ok((easting, northing, precision)) => Ok(
                GridReference { zone, square, easting, northing, precision },
            ),
            Err(e) => Err(e),
        }
    }
}


/// The digit character of `d` (0..10).
fn digit_char(d: u32) -> (c: char)
    requires
        d < 10,
    ensures
        c == (d + 48) as char,
{
    ((d as u8) + 48) as char
}

/// Decimal digits of `v`, most significant first.
fn decimal_chars(v: u32) -> (r: Vec<char>)
    ensures
        r@ == decimal(v as nat),
    decreases v,
{
    if v < 10 {
        let mut r: Vec<char> = Vec::new();
        r.push(digit_char(v));
        assert(r@ == seq![(v + 48) as char]);
        r
    } else {
        let mut r = decimal_chars(v / 10);
        r.push(digit_char(v % 10));
        r
    }
}

/// Appends `v` in decimal, left-padded with zeros to at least `w` characters.
fn push_padded(out: &mut Vec<char>, v: u32, w: usize)
    ensures
        final(out)@ == old(out)@ + padded(v as nat, w as nat),
{
    let d = decimal_chars(v);
    let ghost zeros = Seq::new(if d.len() < w { (w - d.len()) as nat } else { 0 }, |i: int| '0');
    let mut k: usize = 0;
    let pad: usize = if d.len() < w { w - d.len() } else { 0 };
    let ghost start = out@;
    while k < pad
        invariant
            k <= pad,
            pad == zeros.len(),
            forall|i: int| 0 <= i < zeros.len() ==> zeros[i] == '0',
            out@ == start + zeros.take(k as int),
        decreases pad - k,
    {
        out.push('0');
        k = k + 1;
        assert(zeros.take(k as int) == zeros.take(k - 1).push('0'));
    }
    assert(zeros.take(pad as int) == zeros);
    let mut i: usize = 0;
    while i < d.len()
        invariant
            i <= d.len(),
            out@ == start + zeros + d@.take(i as int),
        decreases d.len() - i,
    {
        out.push(d[i]);
        i = i + 1;
        assert(d@.take(i as int) == d@.take(i - 1).push(d@[i - 1]));
    }
    assert(d@.take(d.len() as int) == d@);
}

impl GridReference {
    /// The reference as text: `34T DQ 58082 60869`, `Z AH 00000 00000`, or `34T DQ` when the
    /// precision is 0. The zone number is two digits; easting and northing are zero-padded to
    /// the precision.
    pub fn to_text(&self) -> (s: String)
        ensures
            s@ == reference_text(*self),
    {
        let mut out: Vec<char> = Vec::new();
        match self.zone {
            MGRSZone::UTM(n, b) => {
                push_padded(&mut out, n as u32, 2);
                out.push(b.as_char());
            },
            MGRSZone::UPS(b) => {
                out.push(b.as_char());
            },
        }
        assert(out@ == zone_text(self.zone));
        out.push(' ');
        out.push(self.square.0.as_char());
        out.push(self.square.1.as_char());
        assert(out@ == zone_text(self.zone) + seq![' ', self.square.0.letter(), self.square.1.letter()]);
        let ghost head = out@;
        if self.precision > 0 {
            out.push(' ');
            push_padded(&mut out, self.easting, self.precision as usize);
            out.push(' ');
            push_padded(&mut out, self.northing, self.precision as usize);
            assert(out@ == head + (seq![' '] + padded(self.easting as nat, self.precision as nat)
                + seq![' '] + padded(self.northing as nat, self.precision as nat)));
        } else {
            assert(out@ == head + Seq::<char>::empty());
        }
        string_from_chars(&out)
    }
}


proof fn lemma_decimal(v: nat)
    ensures
        dec_value(decimal(v)) == v,
        all_digits(decimal(v)),
        decimal(v).len() >= 1,
    decreases v,
{
    let c = ((v % 10) + 48) as char;
    assert(c as u32 == (v % 10) + 48);
    assert(digit_value(c) == v % 10);
    if v >= 10 {
        lemma_decimal(v / 10);
        let d = decimal(v);
        assert(d.last() == c);
        assert(d.drop_last() == decimal(v / 10));
        assert forall|i: int| 0 <= i < d.len() implies is_digit(#[trigger] d[i]) by {
            if i < d.len() - 1 {
                assert(d[i] == decimal(v / 10)[i]);
            }
        }
        assert(dec_value(d) == 10 * dec_value(d.drop_last()) + digit_value(d.last()));
        assert(dec_value(d.drop_last()) == v / 10);
        assert(v == 10 * (v / 10) + v % 10);
    } else {
        let d = decimal(v);
        assert(d.drop_last() == Seq::<char>::empty());
        assert(dec_value(Seq::<char>::empty()) == 0);
        assert(d.last() == c);
        assert(dec_value(d) == 10 * dec_value(d.drop_last()) + digit_value(d.last()));
    }
}

proof fn lemma_decimal_len(v: nat, p: nat)
    requires
        p >= 1,
        v < pow10(p),
    ensures
        decimal(v).len() <= p,
    decreases v,
{
    if v >= 10 {
        assert(p >= 2) by {
            if p == 1 {
                assert(pow10(1) == 10) by {
                    reveal_with_fuel(pow10, 2);
                }
            }
        }
        assert(pow10(p) == 10 * pow10((p - 1) as nat));
        lemma_decimal_len(v / 10, (p - 1) as nat);
    }
}

proof fn lemma_dec_value_add(a: Seq<char>, b: Seq<char>)
    ensures
        dec_value(a + b) == dec_value(a) * pow10(b.len()) + dec_value(b),
    decreases b.len(),
{
    if b.len() == 0 {
        assert(a + b == a);
    } else {
        assert((a + b).drop_last() == a + b.drop_last());
        assert((a + b).last() == b.last());
        lemma_dec_value_add(a, b.drop_last());
        assert(pow10(b.len()) == 10 * pow10((b.len() - 1) as nat));
        assert(dec_value(a) * pow10(b.len()) == 10 * (dec_value(a) * pow10((b.len() - 1) as nat)))
            by (nonlinear_arith)
            requires
                pow10(b.len()) == 10 * pow10((b.len() - 1) as nat),
        ;
    }
}

proof fn lemma_zeros(k: nat)
    ensures
        dec_value(Seq::new(k, |i: int| '0')) == 0,
        all_digits(Seq::new(k, |i: int| '0')),
    decreases k,
{
    if k > 0 {
        lemma_zeros((k - 1) as nat);
        assert(Seq::new(k, |i: int| '0').drop_last() == Seq::new((k - 1) as nat, |i: int| '0'));
    }
}

proof fn lemma_padded(v: nat, w: nat)
    requires
        w >= 1,
        v < pow10(w),
    ensures
        padded(v, w).len() == w,
        all_digits(padded(v, w)),
        dec_value(padded(v, w)) == v,
{
    lemma_decimal(v);
    lemma_decimal_len(v, w);
    let z = Seq::new((w - decimal(v).len()) as nat, |i: int| '0');
    lemma_zeros((w - decimal(v).len()) as nat);
    lemma_dec_value_add(z, decimal(v));
    let p = padded(v, w);
    assert forall|i: int| 0 <= i < p.len() implies is_digit(#[trigger] p[i]) by {
        if i >= z.len() {
            assert(p[i] == decimal(v)[i - z.len()]);
        }
    }
}

proof fn lemma_squeeze_add(a: Seq<char>, b: Seq<char>)
    ensures
        squeeze(a + b) == squeeze(a) + squeeze(b),
{
    let p = |c: char| !is_white(c);
    let f = |c: char| upper(c);
    Seq::filter_distributes_over_add(a, b, p);
    let x = a.filter(p);
    let y = b.filter(p);
    assert((x + y).map_values(f) == x.map_values(f) + y.map_values(f));
}

/// A character that survives squeezing unchanged.
pub open spec fn plain(c: char) -> bool {
    !is_white(c) && upper(c) == c
}

proof fn lemma_squeeze_plain(x: Seq<char>)
    requires
        forall|i: int| 0 <= i < x.len() ==> plain(#[trigger] x[i]),
    ensures
        squeeze(x) == x,
    decreases x.len(),
{
    if x.len() == 0 {
        assert(squeeze(x) == x) by {
            reveal_with_fuel(Seq::filter, 1);
        }
    } else {
        let y = x.drop_last();
        lemma_squeeze_plain(y);
        lemma_squeeze_push(y, x.last());
        assert(y.push(x.last()) == x);
    }
}

proof fn lemma_digits_plain(x: Seq<char>)
    requires
        all_digits(x),
    ensures
        forall|i: int| 0 <= i < x.len() ==> plain(#[trigger] x[i]),
{
    assert forall|i: int| 0 <= i < x.len() implies plain(#[trigger] x[i]) by {
        assert(is_digit(x[i]));
    }
}

proof fn lemma_grid_letter_plain(g: GridLetter)
    ensures
        plain(g.letter()),
        !is_digit(g.letter()),
        grid_letter_of(g.letter()) == Some(g),
{
    let y = choose|b: GridLetter| b.letter() == g.letter();
    grid_letter_is_its_index(g, y);
}

pub(crate) proof fn lemma_utm_band_plain(b: UTMBand)
    ensures
        plain(b.letter()),
        !is_digit(b.letter()),
        utm_band_of(b.letter()) == Some(b),
{
    let y = choose|x: UTMBand| x.letter() == b.letter();
    utm_band_is_its_index(b, y);
}

pub(crate) proof fn lemma_ups_band_plain(b: UPSBand)
    ensures
        plain(b.letter()),
        !is_digit(b.letter()),
        ups_band_of(b.letter()) == Some(b),
{
    let y = choose|x: UPSBand| x.letter() == b.letter();
    ups_band_is_its_letter(b, y);
}

proof fn lemma_digit_run_add(a: Seq<char>, b: Seq<char>)
    requires
        all_digits(a),
    ensures
        digit_run(a + b) == a.len() + digit_run(b),
    decreases a.len(),
{
    if a.len() > 0 {
        assert((a + b).drop_first() == a.drop_first() + b);
        assert(is_digit(a[0]));
        lemma_digit_run_add(a.drop_first(), b);
    } else {
        assert(a + b == b);
    }
}

/// The text of a grid zone designator reads back as that zone.
pub(crate) proof fn lemma_zone_text(z: MGRSZone)
    requires
        z matches MGRSZone::UTM(n, _) ==> 1 <= n <= 60,
    ensures
        forall|i: int| 0 <= i < zone_text(z).len() ==> plain(#[trigger] zone_text(z)[i]),
        zone_from_text(zone_text(z)) == Ok::<MGRSZone, GeoError>(z),
        digit_run(zone_text(z)) == (if z is UTM { 2int } else { 0int }),
        zone_text(z).len() == (if z is UTM { 3int } else { 1int }),
{
    match z {
        MGRSZone::UTM(n, b) => {
            assert(pow10(2) == 100) by {
                reveal_with_fuel(pow10, 3);
            }
            lemma_padded(n as nat, 2);
            lemma_utm_band_plain(b);
            let t = zone_text(z);
            let pd = padded(n as nat, 2);
            lemma_digits_plain(pd);
            assert forall|i: int| 0 <= i < t.len() implies plain(#[trigger] t[i]) by {
                if i < 2 {
                    assert(t[i] == pd[i]);
                }
            }
            lemma_digit_run_add(pd, seq![b.letter()]);
            assert(pd + seq![b.letter()] == t);
            assert(digit_run(seq![b.letter()]) == 0);
            assert(t.take(2) == pd);
        },
        MGRSZone::UPS(b) => {
            lemma_ups_band_plain(b);
        },
    }
}

spec fn digits_of(r: GridReference) -> Seq<char> {
    if r.precision > 0 {
        padded(r.easting as nat, r.precision as nat) + padded(r.northing as nat, r.precision as nat)
    } else {
        Seq::empty()
    }
}

spec fn tail_of(r: GridReference) -> Seq<char> {
    if r.precision > 0 {
        seq![' '] + padded(r.easting as nat, r.precision as nat) + seq![' '] + padded(
            r.northing as nat,
            r.precision as nat,
        )
    } else {
        Seq::empty()
    }
}

proof fn lemma_squeeze_space()
    ensures
        squeeze(seq![' ']) == Seq::<char>::empty(),
{
    lemma_squeeze_push(Seq::<char>::empty(), ' ');
    assert(Seq::<char>::empty().push(' ') == seq![' ']);
    assert(squeeze(Seq::<char>::empty()) == Seq::<char>::empty()) by {
        reveal_with_fuel(Seq::filter, 1);
    }
}

proof fn lemma_tail(r: GridReference)
    requires
        r.precision <= 9,
        r.easting < pow10(r.precision as nat),
        r.northing < pow10(r.precision as nat),
    ensures
        all_digits(digits_of(r)),
        digits_of(r).len() == 2 * r.precision,
        squeeze(tail_of(r)) == digits_of(r),
        dec_value(digits_of(r).take(r.precision as int)) == r.easting,
        dec_value(digits_of(r).skip(r.precision as int)) == r.northing,
{
    let p = r.precision as nat;
    let digits = digits_of(r);
    let sp = seq![' '];
    lemma_squeeze_space();
    if p > 0 {
        let pe = padded(r.easting as nat, p);
        let pn = padded(r.northing as nat, p);
        lemma_padded(r.easting as nat, p);
        lemma_padded(r.northing as nat, p);
        lemma_digits_plain(pe);
        lemma_digits_plain(pn);
        lemma_squeeze_plain(pe);
        lemma_squeeze_plain(pn);
        lemma_squeeze_add(sp + pe + sp, pn);
        lemma_squeeze_add(sp + pe, sp);
        lemma_squeeze_add(sp, pe);
        assert(digits.take(p as int) == pe);
        assert(digits.skip(p as int) == pn);
        assert forall|i: int| 0 <= i < digits.len() implies is_digit(#[trigger] digits[i]) by {
            if i < p {
                assert(digits[i] == pe[i]);
            } else {
                assert(digits[i] == pn[i - p]);
            }
        }
    } else {
        assert(squeeze(tail_of(r)) == digits) by {
            reveal_with_fuel(Seq::filter, 1);
        }
        assert(pow10(0) == 1);
        assert(digits.take(0) == Seq::<char>::empty());
        assert(digits.skip(0) == Seq::<char>::empty());
    }
}

proof fn lemma_squeezed_text(r: GridReference)
    requires
        r.zone matches MGRSZone::UTM(n, _) ==> 1 <= n <= 60,
        r.precision <= 9,
        r.easting < pow10(r.precision as nat),
        r.northing < pow10(r.precision as nat),
    ensures
        squeeze(reference_text(r)) == zone_text(r.zone) + seq![
            r.square.0.letter(),
            r.square.1.letter(),
        ] + digits_of(r),
{
    let zt = zone_text(r.zone);
    lemma_zone_text(r.zone);
    lemma_grid_letter_plain(r.square.0);
    lemma_grid_letter_plain(r.square.1);
    let letters = seq![r.square.0.letter(), r.square.1.letter()];
    let sp = seq![' '];
    lemma_squeeze_space();
    lemma_squeeze_plain(zt);
    lemma_squeeze_plain(letters);
    lemma_tail(r);
    let tail = tail_of(r);
    assert(reference_text(r) == zt + sp + letters + tail);
    lemma_squeeze_add(zt + sp + letters, tail);
    lemma_squeeze_add(zt + sp, letters);
    lemma_squeeze_add(zt, sp);
}

proof fn lemma_text_digit_run(z: MGRSZone, rest: Seq<char>)
    requires
        z matches MGRSZone::UTM(n, _) ==> 1 <= n <= 60,
        rest.len() > 0,
        !is_digit(rest[0]),
    ensures
        digit_run(zone_text(z) + rest) == digit_run(zone_text(z)),
{
    let zt = zone_text(z);
    lemma_zone_text(z);
    if z is UTM {
        let pd = zt.take(2);
        assert forall|i: int| 0 <= i < 2 implies is_digit(#[trigger] pd[i]) by {
            lemma_digit_run_prefix(zt, i);
        }
        assert(zt + rest == pd + (zt.skip(2) + rest));
        lemma_digit_run_add(pd, zt.skip(2) + rest);
        assert((zt.skip(2) + rest)[0] == zt[2]);
        lemma_digit_run_add(pd, zt.skip(2));
        assert(pd + zt.skip(2) == zt);
        assert(digit_run(zt.skip(2)) == 0);
        assert(digit_run(zt.skip(2) + rest) == 0);
    } else {
        assert((zt + rest)[0] == zt[0]);
    }
}

proof fn lemma_upper_char(c: char)
    ensures
        is_white(upper(c)) == is_white(c),
        upper(upper(c)) == upper(c),
{
    if 'a' <= c <= 'z' {
        let u = upper(c);
        assert('A' <= u <= 'Z');
    }
}

proof fn lemma_squeeze_upper(s: Seq<char>)
    ensures
        squeeze(upper_all(s)) == squeeze(s),
    decreases s.len(),
{
    if s.len() == 0 {
        assert(upper_all(s) == s);
    } else {
        let t = s.drop_last();
        let c = s.last();
        lemma_squeeze_upper(t);
        lemma_upper_char(c);
        assert(upper_all(s) == upper_all(t).push(upper(c)));
        assert(t.push(c) == s);
        lemma_squeeze_push(t, c);
        lemma_squeeze_push(upper_all(t), upper(c));
    }
}

/// Reading a reference ignores whitespace anywhere and the case of letters: a whitespace
/// character inserted at any position, or the whole text uppercased, reads as the same
/// reference or the same refusal.
pub proof fn reference_reading_ignores_space_and_case(s: Seq<char>, i: int, w: char)
    requires
        0 <= i <= s.len(),
        is_white(w),
    ensures
        reference_from_text(s.take(i) + seq![w] + s.skip(i)) == reference_from_text(s),
        reference_from_text(upper_all(s)) == reference_from_text(s),
{
    let a = s.take(i);
    let b = s.skip(i);
    lemma_squeeze_push(Seq::<char>::empty(), w);
    assert(Seq::<char>::empty().push(w) == seq![w]);
    assert(squeeze(Seq::<char>::empty()) == Seq::<char>::empty()) by {
        reveal_with_fuel(Seq::filter, 1);
    }
    lemma_squeeze_add(a + seq![w], b);
    lemma_squeeze_add(a, seq![w]);
    lemma_squeeze_add(a, b);
    assert(a + b == s);
    assert(squeeze(a + seq![w]) == squeeze(a));
    assert(squeeze(a + seq![w] + b) == squeeze(s));
    lemma_squeeze_upper(s);
}

/// Every reference text that `to_text` writes reads back, through `GridReference::from_str`,
/// as the same zone, square letters, digits and precision. This holds for every valid zone
/// (UTM zone number 1..=60, or a UPS zone), every precision 0..=9 and every easting and
/// northing that fit in `precision` digits.
pub proof fn reference_text_reads_back(r: GridReference)
    requires
        r.zone matches MGRSZone::UTM(n, _) ==> 1 <= n <= 60,
        r.precision <= 9,
        r.easting < pow10(r.precision as nat),
        r.northing < pow10(r.precision as nat),
    ensures
        reference_from_text(reference_text(r)) == Ok::<GridReference, GeoError>(r),
{
    let p = r.precision as nat;
    let zt = zone_text(r.zone);
    let letters = seq![r.square.0.letter(), r.square.1.letter()];
    let digits = digits_of(r);
    lemma_zone_text(r.zone);
    lemma_grid_letter_plain(r.square.0);
    lemma_grid_letter_plain(r.square.1);
    lemma_tail(r);
    lemma_squeezed_text(r);
    let t = squeeze(reference_text(r));
    assert(t == zt + (letters + digits));
    lemma_text_digit_run(r.zone, letters + digits);
    let ze = zt.len() as int;
    assert(t.take(ze) == zt);
    assert(t[ze] == r.square.0.letter());
    assert(t[ze + 1] == r.square.1.letter());
    assert(t.skip(ze + 2) == digits);
    assert((2 * p) / 2 == p);
}

} // verus!
