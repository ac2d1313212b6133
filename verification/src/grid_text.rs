//! The text form of UTM and UPS coordinates, `<zone><band> <easting> <northing>`: splitting it
//! into zone number, band letter and the two number words, and the band rules of the letter
//! (uppercase = band, lowercase n/s = hemisphere). Reading the numbers is the caller's.
use vstd::prelude::*;

use crate::error::GeoError;
use crate::grid::{
    ups_band, ups_band_from_char, ups_band_of, utm_band_from_char, utm_band_of, MGRSZone, UPSBand,
    UTMBand,
};
use crate::mgrs::{
    dec_value, digit_run, lemma_ups_band_plain, lemma_utm_band_plain, lemma_zone_text, zone_text,
};
use crate::text::{chars_of, is_ascii_digit, is_digit, is_white, is_whitespace};

verus! {

/// Message of malformed UTM text.
pub const MSG_UTM_SYNTAX: &'static str = "expected `<zone><band> <easting> <northing>`, e.g. `34T 458083 4960870` (lowercase n/s = hemisphere instead of band)";
/// Message of malformed UPS text.
pub const MSG_UPS_SYNTAX: &'static str = "expected `<band> <easting> <northing>`, e.g. `Z 2000000 1333272` (lowercase n/s = hemisphere instead of band)";
/// Message of a UTM letter that is neither a band nor a hemisphere.
pub const MSG_UTM_LETTER: &'static str = "band letter must be uppercase C..X without I and O, or lowercase n/s for the hemisphere";
/// Message of a UPS letter that is neither a zone nor a hemisphere.
pub const MSG_UPS_LETTER: &'static str = "band letter must be one of A, B, Y, Z, or lowercase n/s for the hemisphere";

/// The whitespace-separated words of a text, in order, as `str::split_whitespace` gives them:
/// a character that is not whitespace extends the current word when the character before it
/// is not whitespace either, and starts a new word otherwise.
pub open spec fn words(s: Seq<char>) -> Seq<Seq<char>>
    decreases s.len(),
{
    if s.len() == 0 {
        Seq::empty()
    } else {
        let prev = words(s.drop_last());
        let c = s.last();
        if is_white(c) {
            prev
        } else if s.len() >= 2 && !is_white(s[s.len() - 2]) && prev.len() > 0 {
            prev.update(prev.len() - 1, prev.last().push(c))
        } else {
            prev.push(seq![c])
        }
    }
}

/// The pieces of grid text: zone number (0 when absent), the letter after it, and the
/// easting and northing words.
pub struct GridTokens {
    /// Zone number, 0 when the text starts with the letter.
    pub zone: u8,
    /// The band, zone or hemisphere letter, as written.
    pub letter: char,
    /// The easting word.
    pub easting: Vec<char>,
    /// The northing word.
    pub northing: Vec<char>,
}

/// The grid text split: the first word opens with at most two zone digits; the letter follows
/// them in the same word or opens the next word; what is glued to the letter, if anything, is
/// the easting word; exactly two number words must be left.
pub open spec fn grid_tokens_of(s: Seq<char>, syntax: &'static str) -> Result<
    (u8, char, Seq<char>, Seq<char>),
    GeoError,
> {
    let ws = words(s);
    if ws.len() == 0 {
        Err(GeoError::InvalidFormat(syntax))
    } else {
        let head = ws[0];
        let d = digit_run(head) as int;
        if d > 2 {
            Err(GeoError::InvalidFormat(syntax))
        } else if d == head.len() && ws.len() < 2 {
            Err(GeoError::InvalidFormat(syntax))
        } else {
            let zone = dec_value(head.take(d));
            let lt = if d == head.len() { ws[1] } else { head.skip(d) };
            let others = if d == head.len() { ws.skip(2) } else { ws.skip(1) };
            let glued = lt.skip(1);
            let numbers = (if glued.len() > 0 { seq![glued] } else { Seq::empty() }) + others;
            if numbers.len() != 2 {
                Err(GeoError::InvalidFormat(syntax))
            } else {
                Ok((zone as u8, lt[0], numbers[0], numbers[1]))
            }
        }
    }
}

proof fn lemma_words_nonempty(s: Seq<char>)
    ensures
        forall|k: int| 0 <= k < words(s).len() ==> #[trigger] words(s)[k].len() > 0,
    decreases s.len(),
{
    if s.len() > 0 {
        lemma_words_nonempty(s.drop_last());
        let prev = words(s.drop_last());
        let c = s.last();
        let w = words(s);
        assert forall|k: int| 0 <= k < w.len() implies #[trigger] w[k].len() > 0 by {
            if !is_white(c) {
                if s.len() >= 2 && !is_white(s[s.len() - 2]) && prev.len() > 0 {
                    if k == prev.len() - 1 {
                        assert(w[k] == prev.last().push(c));
                    } else {
                        assert(w[k] == prev[k]);
                    }
                } else {
                    if k < prev.len() {
                        assert(w[k] == prev[k]);
                    } else {
                        assert(w[k] == seq![c]);
                    }
                }
            }
        }
    }
}

/// The words of `v`.
fn split_words(v: &Vec<char>) -> (ws: Vec<Vec<char>>)
    ensures
        ws@.len() == words(v@).len(),
        forall|k: int| 0 <= k < ws@.len() ==> (#[trigger] ws@[k])@ == words(v@)[k],
{
    let mut ws: Vec<Vec<char>> = Vec::new();
    let mut i: usize = 0;
    let mut in_word = false;
    assert(v@.take(0) == Seq::<char>::empty());
    while i < v.len()
        invariant
            i <= v.len(),
            ws@.len() == words(v@.take(i as int)).len(),
            forall|k: int| 0 <= k < ws@.len() ==> (#[trigger] ws@[k])@ == words(v@.take(i as int))[k],
            in_word == (i > 0 && !is_white(v@[i - 1])),
            in_word ==> ws@.len() > 0,
        decreases v.len() - i,
    {
        let c = v[i];
        let ghost pre = v@.take(i as int);
        proof {
            let s = v@.take(i + 1);
            assert(s.drop_last() == pre);
            assert(s.last() == c);
            if i >= 1 {
                assert(s[s.len() - 2] == v@[i - 1]);
            }
        }
        if is_whitespace(c) {
            in_word = false;
        } else if in_word {
            let last = ws.len() - 1;
            let mut w = ws.pop().unwrap();
            w.push(c);
            ws.push(w);
            proof {
                let prev = words(pre);
                assert(ws@.len() == prev.len());
                assert forall|k: int| 0 <= k < ws@.len() implies (#[trigger] ws@[k])@ == prev.update(
                    prev.len() - 1,
                    prev.last().push(c),
                )[k] by {}
            }
        } else {
            let mut w: Vec<char> = Vec::new();
            w.push(c);
            ws.push(w);
            in_word = true;
            proof {
                assert(w@ == seq![c]);
            }
        }
        i = i + 1;
    }
    assert(v@.take(v.len() as int) == v@);
    ws
}

/// Copy of a vector's characters from `from` on.
fn tail_chars(w: &Vec<char>, from: usize) -> (r: Vec<char>)
    requires
        from <= w.len(),
    ensures
        r@ == w@.skip(from as int),
{
    let mut r: Vec<char> = Vec::new();
    let mut i = from;
    while i < w.len()
        invariant
            from <= i <= w.len(),
            r@ == w@.subrange(from as int, i as int),
        decreases w.len() - i,
    {
        r.push(w[i]);
        i = i + 1;
    }
    r
}

/// Splits grid text into zone number, letter, and the easting and northing words; `syntax`
/// is the message of every refusal.
pub fn grid_tokens(s: &str, syntax: &'static str) -> (r: Result<GridTokens, GeoError>)
    ensures
        match (r, grid_tokens_of(s@, syntax)) {
            (Ok(t), Ok((zone, letter, e, n))) => t.zone == zone && t.letter == letter
                && t.easting@ == e && t.northing@ == n,
            (Err(e1), Err(e2)) => e1 == e2,
            _ => false,
        },
{
    let v = chars_of(s);
    let ws = split_words(&v);
    proof {
        lemma_words_nonempty(v@);
    }
    if ws.len() == 0 {
        return Err(GeoError::InvalidFormat(syntax));
    }
    let head = &ws[0];
    assert(head@ == words(s@)[0]);
    let mut d: usize = 0;
    assert(head@.skip(0) == head@);
    while d < head.len() && d < 3 && is_ascii_digit(head[d])
        invariant
            d <= head.len(),
            d <= 3,
            forall|k: int| 0 <= k < d ==> is_digit(#[trigger] head@[k]),
            digit_run(head@) == d + digit_run(head@.skip(d as int)),
        decreases head.len() - d,
    {
        proof {
            assert(head@.skip(d as int).drop_first() == head@.skip(d + 1));
        }
        d = d + 1;
    }
    proof {
        if d < head.len() && d < 3 {
            assert(head@.skip(d as int)[0] == head@[d as int]);
        }
        if d == head.len() {
            assert(head@.skip(d as int).len() == 0);
        }
    }
    if d > 2 {
        return Err(GeoError::InvalidFormat(syntax));
    }
    assert(digit_run(head@) == d);
    if d == head.len() && ws.len() < 2 {
        return Err(GeoError::InvalidFormat(syntax));
    }
    let mut zone: u8 = 0;
    let mut k: usize = 0;
    while k < d
        invariant
            k <= d <= 2,
            d <= head.len(),
            forall|j: int| 0 <= j < d ==> is_digit(#[trigger] head@[j]),
            zone == dec_value(head@.take(k as int)),
            zone < 100,
            k <= 1 ==> zone < 10,
        decreases d - k,
    {
        let c = head[k];
        assert(is_digit(head@[k as int]));
        proof {
            assert(head@.take(k + 1).drop_last() == head@.take(k as int));
            assert(head@.take(k + 1).last() == c);
        }
        zone = 10 * zone + (c as u32 - '0' as u32) as u8;
        k = k + 1;
    }
    let (lt, first_number) = if d == head.len() {
        (tail_chars(&ws[1], 0), 2usize)
    } else {
        (tail_chars(head, d), 1usize)
    };
    assert(lt@.len() > 0) by {
        if d == head.len() {
            assert(ws@[1]@ == words(s@)[1]);
            assert(ws@[1]@.skip(0) == ws@[1]@);
        }
    }
    let letter = lt[0];
    let glued = tail_chars(&lt, 1);
    let mut numbers: Vec<Vec<char>> = Vec::new();
    if glued.len() > 0 {
        numbers.push(glued);
    }
    let ghost base = numbers@;
    let mut j = first_number;
    while j < ws.len()
        invariant
            first_number <= j <= ws.len(),
            numbers@.len() == base.len() + (j - first_number),
            forall|q: int| 0 <= q < base.len() ==> numbers@[q] == base[q],
            forall|q: int| base.len() <= q < numbers@.len() ==> (#[trigger] numbers@[q])@ == ws@[q
                - base.len() + first_number]@,
        decreases ws.len() - j,
    {
        numbers.push(tail_chars(&ws[j], 0));
        proof {
            assert(ws@[j as int]@.skip(0) == ws@[j as int]@);
        }
        j = j + 1;
    }
    proof {
        let wsp = words(s@);
        let others = wsp.skip(first_number as int);
        let spec_numbers = (if glued@.len() > 0 { seq![glued@] } else { Seq::empty() }) + others;
        assert(numbers@.len() == spec_numbers.len());
        assert forall|q: int| 0 <= q < numbers@.len() implies (#[trigger] numbers@[q])@
            == spec_numbers[q] by {
            if q < base.len() {
                assert(numbers@[q] == base[q]);
            }
        }
    }
    if numbers.len() != 2 {
        return Err(GeoError::InvalidFormat(syntax));
    }
    let northing = numbers.pop().unwrap();
    let easting = numbers.pop().unwrap();
    Ok(GridTokens { zone, letter, easting, northing })
}

/// Grid text as `Display` writes it: the zone designator (`34T`, or the UPS letter), then the
/// easting word and the northing word, each after one space.
pub open spec fn grid_text(z: MGRSZone, e: Seq<char>, n: Seq<char>) -> Seq<char> {
    zone_text(z) + seq![' '] + e + seq![' '] + n
}

/// A word: not empty, no whitespace in it.
pub open spec fn is_word(w: Seq<char>) -> bool {
    w.len() > 0 && forall|i: int| 0 <= i < w.len() ==> !is_white(#[trigger] w[i])
}

proof fn lemma_words_word(w: Seq<char>)
    requires
        is_word(w),
    ensures
        words(w) == seq![w],
    decreases w.len(),
{
    let c = w[w.len() - 1];
    assert(!is_white(c));
    assert(w.last() == c);
    if w.len() == 1 {
        assert(w.drop_last() == Seq::<char>::empty());
        assert(words(w.drop_last()) == Seq::<Seq<char>>::empty());
        assert(w == seq![c]);
        assert(Seq::<Seq<char>>::empty().push(seq![c]) == seq![w]);
    } else {
        let u = w.drop_last();
        assert(is_word(u)) by {
            assert forall|i: int| 0 <= i < u.len() implies !is_white(#[trigger] u[i]) by {
                assert(u[i] == w[i]);
            }
        }
        lemma_words_word(u);
        assert(!is_white(w[w.len() - 2]));
        assert(u.push(c) == w);
        assert(seq![u].update(0, u.push(c)) == seq![w]);
    }
}

proof fn lemma_words_then_word(s: Seq<char>, w: Seq<char>)
    requires
        is_word(w),
    ensures
        words(s + seq![' '] + w) == words(s).push(w),
    decreases w.len(),
{
    let t = s + seq![' '] + w;
    let c = w[w.len() - 1];
    assert(!is_white(c));
    assert(t.last() == c);
    assert(is_white(' '));
    if w.len() == 1 {
        let sp = s.push(' ');
        assert(t.drop_last() == sp);
        assert(sp.drop_last() == s);
        assert(sp.last() == ' ');
        assert(words(sp) == words(s));
        assert(t[t.len() - 2] == ' ');
        assert(w == seq![c]);
    } else {
        let u = w.drop_last();
        assert(is_word(u)) by {
            assert forall|i: int| 0 <= i < u.len() implies !is_white(#[trigger] u[i]) by {
                assert(u[i] == w[i]);
            }
        }
        lemma_words_then_word(s, u);
        assert(t.drop_last() == s + seq![' '] + u);
        assert(t[t.len() - 2] == w[w.len() - 2]);
        assert(!is_white(w[w.len() - 2]));
        let prev = words(s).push(u);
        assert(prev.last() == u);
        assert(u.push(c) == w);
        assert(prev.update(prev.len() - 1, u.push(c)) == words(s).push(w));
    }
}

/// Grid text in the form `Display` writes reads back: for every valid zone (UTM zone number
/// 1..=60 with a band, or a UPS zone) and every easting and northing word, `grid_tokens`
/// gives the zone number (0 for UPS), the band letter, which names that band again, and the
/// two words unchanged.
pub proof fn grid_text_reads_back(z: MGRSZone, e: Seq<char>, n: Seq<char>, syntax: &'static str)
    requires
        z matches MGRSZone::UTM(k, _) ==> 1 <= k <= 60,
        is_word(e),
        is_word(n),
    ensures
        match z {
            MGRSZone::UTM(k, b) => grid_tokens_of(grid_text(z, e, n), syntax) == Ok::<
                (u8, char, Seq<char>, Seq<char>),
                GeoError,
            >((k, b.letter(), e, n)) && utm_band_of(b.letter()) == Some(b) && b.letter() != 'n'
                && b.letter() != 's',
            MGRSZone::UPS(b) => grid_tokens_of(grid_text(z, e, n), syntax) == Ok::<
                (u8, char, Seq<char>, Seq<char>),
                GeoError,
            >((0u8, b.letter(), e, n)) && ups_band_of(b.letter()) == Some(b) && b.letter() != 'n'
                && b.letter() != 's',
        },
{
    let zt = zone_text(z);
    lemma_zone_text(z);
    assert(is_word(zt)) by {
        assert forall|i: int| 0 <= i < zt.len() implies !is_white(#[trigger] zt[i]) by {
            assert(crate::mgrs::plain(zt[i]));
        }
    }
    lemma_words_word(zt);
    lemma_words_then_word(zt, e);
    lemma_words_then_word(zt + seq![' '] + e, n);
    let ws = words(grid_text(z, e, n));
    assert(ws == seq![zt, e, n]);
    let d = digit_run(zt) as int;
    let lt = zt.skip(d);
    assert(lt.skip(1) == Seq::<char>::empty());
    assert(ws.skip(1) == seq![e, n]);
    assert(Seq::<Seq<char>>::empty() + ws.skip(1) == seq![e, n]);
    match z {
        MGRSZone::UTM(k, b) => {
            lemma_utm_band_plain(b);
            assert(lt[0] == b.letter());
        },
        MGRSZone::UPS(b) => {
            lemma_ups_band_plain(b);
            assert(zt.take(0) == Seq::<char>::empty());
        },
    }
}

/// What the letter of UTM text asks for: a latitude band, or (lowercase n/s) only the
/// hemisphere, the band then being found from the position.
#[derive(Debug, Clone, Copy, PartialEq, Eq)]
pub enum UtmLetter {
    /// An explicit latitude band.
    Band(UTMBand),
    /// A hemisphere; `true` for south.
    Hemisphere(bool),
}

/// The zone and letter rules of UTM text: a zone number is required; lowercase `n`/`s`
/// names the hemisphere (the zone must then be 1..=60); an uppercase letter is the band.
pub fn utm_letter(zone: u8, letter: char) -> (r: Result<UtmLetter, GeoError>)
    ensures
        r == (if zone == 0 {
            Err::<UtmLetter, GeoError>(GeoError::InvalidFormat(MSG_UTM_SYNTAX))
        } else if letter == 'n' || letter == 's' {
            if !(1 <= zone <= 60) {
                Err(GeoError::InvalidUtmZone(zone))
            } else {
                Ok(UtmLetter::Hemisphere(letter == 's'))
            }
        } else {
            match utm_band_of(letter) {
                Some(b) => Ok(UtmLetter::Band(b)),
                None => Err(GeoError::InvalidFormat(MSG_UTM_LETTER)),
            }
        }),
{
    if zone == 0 {
        return Err(GeoError::InvalidFormat(MSG_UTM_SYNTAX));
    }
    if letter == 'n' || letter == 's' {
        if !(1 <= zone && zone <= 60) {
            return Err(GeoError::InvalidUtmZone(zone));
        }
        return Ok(UtmLetter::Hemisphere(letter == 's'));
    }
    match utm_band_from_char(letter) {
        Some(b) => Ok(UtmLetter::Band(b)),
        None => Err(GeoError::InvalidFormat(MSG_UTM_LETTER)),
    }
}

/// The zone and letter rules of UPS text: no zone number; lowercase `n`/`s` names the
/// hemisphere and the easting picks the half; an uppercase letter is the zone. An easting
/// exactly on the 2 000 km seam belongs to the east half whatever letter was written.
/// `east` tells whether the easting is at or east of the seam, `on_seam` whether it is on it.
pub fn ups_letter(zone: u8, letter: char, east: bool, on_seam: bool) -> (r: Result<
    UPSBand,
    GeoError,
>)
    requires
        on_seam ==> east,
    ensures
        r == (if zone != 0 {
            Err::<UPSBand, GeoError>(GeoError::InvalidFormat(MSG_UPS_SYNTAX))
        } else if letter == 'n' || letter == 's' {
            Ok(if letter == 'n' {
                if east { UPSBand::Z } else { UPSBand::Y }
            } else {
                if east { UPSBand::B } else { UPSBand::A }
            })
        } else {
            match ups_band_of(letter) {
                Some(b) => Ok(if on_seam && b == UPSBand::A {
                    UPSBand::B
                } else if on_seam && b == UPSBand::Y {
                    UPSBand::Z
                } else {
                    b
                }),
                None => Err(GeoError::InvalidFormat(MSG_UPS_LETTER)),
            }
        }),
{
    if zone != 0 {
        return Err(GeoError::InvalidFormat(MSG_UPS_SYNTAX));
    }
    let band = if letter == 'n' || letter == 's' {
        ups_band(letter == 'n', east)
    } else {
        match ups_band_from_char(letter) {
            Some(b) => b,
            None => return Err(GeoError::InvalidFormat(MSG_UPS_LETTER)),
        }
    };
    if on_seam && band == UPSBand::A {
        Ok(UPSBand::B)
    } else if on_seam && band == UPSBand::Y {
        Ok(UPSBand::Z)
    } else {
        Ok(band)
    }
}

} // verus!
