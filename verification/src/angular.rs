//! Hemisphere directions of the angular notations.
use vstd::prelude::*;

use crate::error::GeoError;
use crate::text::{trimmed_upper, upper_trimmed};

verus! {

/// Hemisphere of a latitude.
#[derive(Debug, Clone, Copy, PartialEq, Eq, Structural, Hash)]
pub enum LatitudeDir {
    /// Northern hemisphere, sign +.
    North,
    /// Southern hemisphere, sign −.
    South,
}

/// Hemisphere of a longitude.
#[derive(Debug, Clone, Copy, PartialEq, Eq, Structural, Hash)]
pub enum LongitudeDir {
    /// East of Greenwich, sign +.
    East,
    /// West of Greenwich, sign −.
    West,
}

/// Message of text that is no latitude direction.
pub const MSG_LAT_DIR: &'static str = "latitude direction must be N or S";
/// Message of text that is no longitude direction.
pub const MSG_LON_DIR: &'static str = "longitude direction must be E or W";

impl LatitudeDir {
    /// +1 for north, −1 for south.
    pub fn sign(&self) -> (s: i8)
        ensures
            s == (if *self == LatitudeDir::North { 1i8 } else { -1i8 }),
    {
        match self {
            LatitudeDir::North => 1,
            LatitudeDir::South => -1,
        }
    }

    /// The direction letter, `N` or `S`.
    pub fn as_char(&self) -> (c: char)
        ensures
            c == (if *self == LatitudeDir::North { 'N' } else { 'S' }),
    {
        match self {
            LatitudeDir::North => 'N',
            LatitudeDir::South => 'S',
        }
    }
}

impl LongitudeDir {
    /// +1 for east, −1 for west.
    pub fn sign(&self) -> (s: i8)
        ensures
            s == (if *self == LongitudeDir::East { 1i8 } else { -1i8 }),
    {
        match self {
            LongitudeDir::East => 1,
            LongitudeDir::West => -1,
        }
    }

    /// The direction letter, `E` or `W`.
    pub fn as_char(&self) -> (c: char)
        ensures
            c == (if *self == LongitudeDir::East { 'E' } else { 'W' }),
    {
        match self {
            LongitudeDir::East => 'E',
            LongitudeDir::West => 'W',
        }
    }
}

/// Whether the trimmed, uppercased text is the letter or the word.
pub open spec fn names(s: Seq<char>, letter: char, word: Seq<char>) -> bool {
    trimmed_upper(s) == seq![letter] || trimmed_upper(s) == word
}

/// Whether `w` spells `word`.
fn spells(w: &Vec<char>, word: &[char]) -> (b: bool)
    ensures
        b == (w@ == word@),
{
    if w.len() != word.len() {
        return false;
    }
    let mut i: usize = 0;
    while i < w.len()
        invariant
            w.len() == word.len(),
            i <= w.len(),
            forall|k: int| 0 <= k < i ==> w@[k] == word@[k],
        decreases w.len() - i,
    {
        if w[i] != word[i] {
            return false;
        }
        i = i + 1;
    }
    assert(w@ == word@);
    true
}

impl core::str::FromStr for LatitudeDir {
    type Err = GeoError;

    /// `N`, `S`, `NORTH` or `SOUTH`, any case, surrounded by optional whitespace.
    fn from_str(s: &str) -> (r: Result<LatitudeDir, GeoError>)
        ensures
            r == (if names(s@, 'N', seq!['N', 'O', 'R', 'T', 'H']) {
                Ok::<LatitudeDir, GeoError>(LatitudeDir::North)
            } else if names(s@, 'S', seq!['S', 'O', 'U', 'T', 'H']) {
                Ok::<LatitudeDir, GeoError>(LatitudeDir::South)
            } else {
                Err::<LatitudeDir, GeoError>(GeoError::InvalidFormat(MSG_LAT_DIR))
            }),
    {
        let w = upper_trimmed(s);
        let n = ['N'];
        let north = ['N', 'O', 'R', 'T', 'H'];
        let so = ['S'];
        let south = ['S', 'O', 'U', 'T', 'H'];
        assert(n@ == seq!['N'] && north@ == seq!['N', 'O', 'R', 'T', 'H']);
        assert(so@ == seq!['S'] && south@ == seq!['S', 'O', 'U', 'T', 'H']);
        if spells(&w, &n) || spells(&w, &north) {
            Ok(LatitudeDir::North)
        } else if spells(&w, &so) || spells(&w, &south) {
            Ok(LatitudeDir::South)
        } else {
            Err(GeoError::InvalidFormat(MSG_LAT_DIR))
        }
    }
}

impl core::str::FromStr for LongitudeDir {
    type Err = GeoError;

    /// `E`, `W`, `EAST` or `WEST`, any case, surrounded by optional whitespace.
    fn from_str(s: &str) -> (r: Result<LongitudeDir, GeoError>)
        ensures
            r == (if names(s@, 'E', seq!['E', 'A', 'S', 'T']) {
                Ok::<LongitudeDir, GeoError>(LongitudeDir::East)
            } else if names(s@, 'W', seq!['W', 'E', 'S', 'T']) {
                Ok::<LongitudeDir, GeoError>(LongitudeDir::West)
            } else {
                Err::<LongitudeDir, GeoError>(GeoError::InvalidFormat(MSG_LON_DIR))
            }),
    {
        let w = upper_trimmed(s);
        let e = ['E'];
        let east = ['E', 'A', 'S', 'T'];
        let we = ['W'];
        let west = ['W', 'E', 'S', 'T'];
        assert(e@ == seq!['E'] && east@ == seq!['E', 'A', 'S', 'T']);
        assert(we@ == seq!['W'] && west@ == seq!['W', 'E', 'S', 'T']);
        if spells(&w, &e) || spells(&w, &east) {
            Ok(LongitudeDir::East)
        } else if spells(&w, &we) || spells(&w, &west) {
            Ok(LongitudeDir::West)
        } else {
            Err(GeoError::InvalidFormat(MSG_LON_DIR))
        }
    }
}

} // verus!
