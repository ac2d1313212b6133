//! Zone and band letters, the MGRS 100 km square tables, and the integer part of the grid
//! bookkeeping: square corners from letters, letters from square indices, zone and band tables.
//! All lengths are whole metres; the grid of 100 km squares needs no fractions.
use vstd::prelude::*;

use crate::error::GeoError;
use crate::text::{single_letter, single_letter_of};

verus! {

/// Side of an MGRS square, metres.
pub const MGRS_SQUARE: u32 = 100000;

/// UTM row letters repeat every 2 000 km of northing.
pub const MGRS_ROW_PERIOD: u32 = 2000000;

/// UTM latitude band letter, C (80°S) to X (72°N–84°N); I and O are not used.
#[derive(Debug, Clone, Copy, PartialEq, Eq, Structural, Hash, PartialOrd, Ord)]
pub enum UTMBand {
    C,
    D,
    E,
    F,
    G,
    H,
    J,
    K,
    L,
    M,
    N,
    P,
    Q,
    R,
    S,
    T,
    U,
    V,
    W,
    X,
}

/// UPS zone letter: A/B south (west/east of 0°), Y/Z north.
#[derive(Debug, Clone, Copy, PartialEq, Eq, Structural, Hash, PartialOrd, Ord)]
pub enum UPSBand {
    A,
    B,
    Y,
    Z,
}

/// Grid zone of an MGRS reference: a UTM zone with its band, or a UPS zone.
#[derive(Debug, Clone, Copy, PartialEq, Eq, Structural, Hash)]
pub enum MGRSZone {
    /// UTM zone number and latitude band.
    UTM(u8, UTMBand),
    /// UPS zone.
    UPS(UPSBand),
}

/// 100 km square letter (column or row); I and O are not used.
#[derive(Debug, Clone, Copy, PartialEq, Eq, Structural, Hash, PartialOrd, Ord)]
pub enum GridLetter {
    A,
    B,
    C,
    D,
    E,
    F,
    G,
    H,
    J,
    K,
    L,
    M,
    N,
    P,
    Q,
    R,
    S,
    T,
    U,
    V,
    W,
    X,
    Y,
    Z,
}

/// The 24 square letters in order: the Latin alphabet without I and O.
pub open spec fn grid_alphabet() -> Seq<char> {
    seq!['A', 'B', 'C', 'D', 'E', 'F', 'G', 'H', 'J', 'K', 'L', 'M',
         'N', 'P', 'Q', 'R', 'S', 'T', 'U', 'V', 'W', 'X', 'Y', 'Z']
}

/// The 20 latitude band letters from south to north.
pub open spec fn band_alphabet() -> Seq<char> {
    seq!['C', 'D', 'E', 'F', 'G', 'H', 'J', 'K', 'L', 'M',
         'N', 'P', 'Q', 'R', 'S', 'T', 'U', 'V', 'W', 'X']
}

/// The four UPS zone letters.
pub open spec fn ups_alphabet() -> Seq<char> {
    seq!['A', 'B', 'Y', 'Z']
}

impl GridLetter {
    /// Position in the 24-letter alphabet.
    pub open spec fn index_of(self) -> int {
        match self {
            GridLetter::A => 0,
            GridLetter::B => 1,
            GridLetter::C => 2,
            GridLetter::D => 3,
            GridLetter::E => 4,
            GridLetter::F => 5,
            GridLetter::G => 6,
            GridLetter::H => 7,
            GridLetter::J => 8,
            GridLetter::K => 9,
            GridLetter::L => 10,
            GridLetter::M => 11,
            GridLetter::N => 12,
            GridLetter::P => 13,
            GridLetter::Q => 14,
            GridLetter::R => 15,
            GridLetter::S => 16,
            GridLetter::T => 17,
            GridLetter::U => 18,
            GridLetter::V => 19,
            GridLetter::W => 20,
            GridLetter::X => 21,
            GridLetter::Y => 22,
            GridLetter::Z => 23,
        }
    }

    /// The letter as a character.
    pub open spec fn letter(self) -> char {
        grid_alphabet()[self.index_of()]
    }

    /// Letter at `idx` in the 24-letter alphabet without I and O; `idx` is taken modulo 24.
    pub fn from_index(idx: usize) -> (g: GridLetter)
        ensures
            g.index_of() == idx % 24,
    {
        match idx % 24 {
            0 => GridLetter::A,
            1 => GridLetter::B,
            2 => GridLetter::C,
            3 => GridLetter::D,
            4 => GridLetter::E,
            5 => GridLetter::F,
            6 => GridLetter::G,
            7 => GridLetter::H,
            8 => GridLetter::J,
            9 => GridLetter::K,
            10 => GridLetter::L,
            11 => GridLetter::M,
            12 => GridLetter::N,
            13 => GridLetter::P,
            14 => GridLetter::Q,
            15 => GridLetter::R,
            16 => GridLetter::S,
            17 => GridLetter::T,
            18 => GridLetter::U,
            19 => GridLetter::V,
            20 => GridLetter::W,
            21 => GridLetter::X,
            22 => GridLetter::Y,
            _ => GridLetter::Z,
        }
    }

    /// Position in the 24-letter alphabet without I and O.
    pub fn as_index(&self) -> (i: usize)
        ensures
            i == self.index_of(),
            i < 24,
    {
        match self {
            GridLetter::A => 0,
            GridLetter::B => 1,
            GridLetter::C => 2,
            GridLetter::D => 3,
            GridLetter::E => 4,
            GridLetter::F => 5,
            GridLetter::G => 6,
            GridLetter::H => 7,
            GridLetter::J => 8,
            GridLetter::K => 9,
            GridLetter::L => 10,
            GridLetter::M => 11,
            GridLetter::N => 12,
            GridLetter::P => 13,
            GridLetter::Q => 14,
            GridLetter::R => 15,
            GridLetter::S => 16,
            GridLetter::T => 17,
            GridLetter::U => 18,
            GridLetter::V => 19,
            GridLetter::W => 20,
            GridLetter::X => 21,
            GridLetter::Y => 22,
            GridLetter::Z => 23,
        }
    }

    /// The letter.
    pub fn as_char(&self) -> (c: char)
        ensures
            c == self.letter(),
    {
        match self {
            GridLetter::A => 'A',
            GridLetter::B => 'B',
            GridLetter::C => 'C',
            GridLetter::D => 'D',
            GridLetter::E => 'E',
            GridLetter::F => 'F',
            GridLetter::G => 'G',
            GridLetter::H => 'H',
            GridLetter::J => 'J',
            GridLetter::K => 'K',
            GridLetter::L => 'L',
            GridLetter::M => 'M',
            GridLetter::N => 'N',
            GridLetter::P => 'P',
            GridLetter::Q => 'Q',
            GridLetter::R => 'R',
            GridLetter::S => 'S',
            GridLetter::T => 'T',
            GridLetter::U => 'U',
            GridLetter::V => 'V',
            GridLetter::W => 'W',
            GridLetter::X => 'X',
            GridLetter::Y => 'Y',
            GridLetter::Z => 'Z',
        }
    }
}

impl UTMBand {
    /// Position from south to north, C = 0 .. X = 19.
    pub open spec fn index_of(self) -> int {
        match self {
            UTMBand::C => 0,
            UTMBand::D => 1,
            UTMBand::E => 2,
            UTMBand::F => 3,
            UTMBand::G => 4,
            UTMBand::H => 5,
            UTMBand::J => 6,
            UTMBand::K => 7,
            UTMBand::L => 8,
            UTMBand::M => 9,
            UTMBand::N => 10,
            UTMBand::P => 11,
            UTMBand::Q => 12,
            UTMBand::R => 13,
            UTMBand::S => 14,
            UTMBand::T => 15,
            UTMBand::U => 16,
            UTMBand::V => 17,
            UTMBand::W => 18,
            UTMBand::X => 19,
        }
    }

    /// The band letter as a character.
    pub open spec fn letter(self) -> char {
        band_alphabet()[self.index_of()]
    }

    /// Lower bound of the band's northing in metres, the value row letters are resolved against.
    pub open spec fn min_northing(self) -> int {
        match self {
            UTMBand::C => 1100000,
            UTMBand::D => 2000000,
            UTMBand::E => 2800000,
            UTMBand::F => 3700000,
            UTMBand::G => 4600000,
            UTMBand::H => 5500000,
            UTMBand::J => 6400000,
            UTMBand::K => 7300000,
            UTMBand::L => 8200000,
            UTMBand::M => 9100000,
            UTMBand::N => 0,
            UTMBand::P => 800000,
            UTMBand::Q => 1700000,
            UTMBand::R => 2600000,
            UTMBand::S => 3500000,
            UTMBand::T => 4400000,
            UTMBand::U => 5300000,
            UTMBand::V => 6200000,
            UTMBand::W => 7000000,
            UTMBand::X => 7900000,
        }
    }

    /// The band letter.
    pub fn as_char(&self) -> (c: char)
        ensures
            c == self.letter(),
    {
        match self {
            UTMBand::C => 'C',
            UTMBand::D => 'D',
            UTMBand::E => 'E',
            UTMBand::F => 'F',
            UTMBand::G => 'G',
            UTMBand::H => 'H',
            UTMBand::J => 'J',
            UTMBand::K => 'K',
            UTMBand::L => 'L',
            UTMBand::M => 'M',
            UTMBand::N => 'N',
            UTMBand::P => 'P',
            UTMBand::Q => 'Q',
            UTMBand::R => 'R',
            UTMBand::S => 'S',
            UTMBand::T => 'T',
            UTMBand::U => 'U',
            UTMBand::V => 'V',
            UTMBand::W => 'W',
            UTMBand::X => 'X',
        }
    }

    /// Lower bound of the band's northing in metres, the value MGRS row letters are resolved
    /// against (rows repeat every 2 000 km).
    pub fn get_min_northing(&self) -> (n: u32)
        ensures
            n == self.min_northing(),
    {
        match self {
            UTMBand::C => 1100000,
            UTMBand::D => 2000000,
            UTMBand::E => 2800000,
            UTMBand::F => 3700000,
            UTMBand::G => 4600000,
            UTMBand::H => 5500000,
            UTMBand::J => 6400000,
            UTMBand::K => 7300000,
            UTMBand::L => 8200000,
            UTMBand::M => 9100000,
            UTMBand::N => 0,
            UTMBand::P => 800000,
            UTMBand::Q => 1700000,
            UTMBand::R => 2600000,
            UTMBand::S => 3500000,
            UTMBand::T => 4400000,
            UTMBand::U => 5300000,
            UTMBand::V => 6200000,
            UTMBand::W => 7000000,
            UTMBand::X => 7900000,
        }
    }

    /// `true` for the bands south of the equator, C to M.
    pub fn is_south(&self) -> (s: bool)
        ensures
            s == (self.index_of() < 10),
    {
        match self {
            UTMBand::C | UTMBand::D | UTMBand::E | UTMBand::F | UTMBand::G | UTMBand::H
            | UTMBand::J | UTMBand::K | UTMBand::L | UTMBand::M => true,
            _ => false,
        }
    }

    /// `[lower, upper]` latitude of the band in whole degrees; bands are 8° tall, X is 12°.
    pub fn lat_range(&self) -> (r: (i16, i16))
        ensures
            r.0 == -80 + 8 * self.index_of(),
            r.1 == (if *self == UTMBand::X { 84 } else { r.0 + 8 }),
    {
        let i = utm_band_index(*self);
        let lo: i16 = -80 + 8 * (i as i16);
        (lo, if i == 19 { 84 } else { lo + 8 })
    }

    /// The band of row `idx` counted from the south (C = 0); rows beyond X are X.
    pub fn from_row(idx: usize) -> (b: UTMBand)
        ensures
            b.index_of() == (if idx < 19 { idx as int } else { 19 }),
    {
        match idx {
            0 => UTMBand::C,
            1 => UTMBand::D,
            2 => UTMBand::E,
            3 => UTMBand::F,
            4 => UTMBand::G,
            5 => UTMBand::H,
            6 => UTMBand::J,
            7 => UTMBand::K,
            8 => UTMBand::L,
            9 => UTMBand::M,
            10 => UTMBand::N,
            11 => UTMBand::P,
            12 => UTMBand::Q,
            13 => UTMBand::R,
            14 => UTMBand::S,
            15 => UTMBand::T,
            16 => UTMBand::U,
            17 => UTMBand::V,
            18 => UTMBand::W,
            _ => UTMBand::X,
        }
    }
}

fn utm_band_index(b: UTMBand) -> (i: usize)
    ensures
        i == b.index_of(),
{
    match b {
        UTMBand::C => 0,
        UTMBand::D => 1,
        UTMBand::E => 2,
        UTMBand::F => 3,
        UTMBand::G => 4,
        UTMBand::H => 5,
        UTMBand::J => 6,
        UTMBand::K => 7,
        UTMBand::L => 8,
        UTMBand::M => 9,
        UTMBand::N => 10,
        UTMBand::P => 11,
        UTMBand::Q => 12,
        UTMBand::R => 13,
        UTMBand::S => 14,
        UTMBand::T => 15,
        UTMBand::U => 16,
        UTMBand::V => 17,
        UTMBand::W => 18,
        UTMBand::X => 19,
    }
}

impl UPSBand {
    /// Position in `A, B, Y, Z`.
    pub open spec fn index_of(self) -> int {
        match self {
            UPSBand::A => 0,
            UPSBand::B => 1,
            UPSBand::Y => 2,
            UPSBand::Z => 3,
        }
    }

    /// The zone letter as a character.
    pub open spec fn letter(self) -> char {
        ups_alphabet()[self.index_of()]
    }

    /// Y and Z cover the north pole.
    pub open spec fn is_north(self) -> bool {
        self == UPSBand::Y || self == UPSBand::Z
    }

    /// Z and B lie east of the 0°/180° meridian plane.
    pub open spec fn is_east(self) -> bool {
        self == UPSBand::Z || self == UPSBand::B
    }

    /// The zone letter.
    pub fn as_char(&self) -> (c: char)
        ensures
            c == self.letter(),
    {
        match self {
            UPSBand::A => 'A',
            UPSBand::B => 'B',
            UPSBand::Y => 'Y',
            UPSBand::Z => 'Z',
        }
    }
}


/// The UTMBand whose letter is `c`, if any.
pub open spec fn utm_band_of(c: char) -> Option<UTMBand> {
    if exists|b: UTMBand| b.letter() == c {
        Some(choose|b: UTMBand| b.letter() == c)
    } else {
        None
    }
}

/// Parses an uppercase band letter C..X (without I and O).
pub fn utm_band_from_char(c: char) -> (r: Option<UTMBand>)
    ensures
        r == utm_band_of(c),
{
    proof {
        assert forall|b: UTMBand| #[trigger] b.letter() == c implies band_alphabet().contains(c) by {
            utm_band_is_its_index(b, b);
        }
    }
    let r = match c {
        'C' => Some(UTMBand::C),
        'D' => Some(UTMBand::D),
        'E' => Some(UTMBand::E),
        'F' => Some(UTMBand::F),
        'G' => Some(UTMBand::G),
        'H' => Some(UTMBand::H),
        'J' => Some(UTMBand::J),
        'K' => Some(UTMBand::K),
        'L' => Some(UTMBand::L),
        'M' => Some(UTMBand::M),
        'N' => Some(UTMBand::N),
        'P' => Some(UTMBand::P),
        'Q' => Some(UTMBand::Q),
        'R' => Some(UTMBand::R),
        'S' => Some(UTMBand::S),
        'T' => Some(UTMBand::T),
        'U' => Some(UTMBand::U),
        'V' => Some(UTMBand::V),
        'W' => Some(UTMBand::W),
        'X' => Some(UTMBand::X),
        _ => {
            assert forall|i: int| 0 <= i < band_alphabet().len() implies band_alphabet()[i] != c by {}
            None
        },
    };
    proof {
        if let Some(x) = r {
            let y = choose|b: UTMBand| b.letter() == c;
            utm_band_is_its_index(x, y);
        }
    }
    r
}

/// The UPSBand whose letter is `c`, if any.
pub open spec fn ups_band_of(c: char) -> Option<UPSBand> {
    if exists|b: UPSBand| b.letter() == c {
        Some(choose|b: UPSBand| b.letter() == c)
    } else {
        None
    }
}

/// Parses an uppercase UPS zone letter A, B, Y or Z.
pub fn ups_band_from_char(c: char) -> (r: Option<UPSBand>)
    ensures
        r == ups_band_of(c),
{
    proof {
        assert forall|b: UPSBand| #[trigger] b.letter() == c implies ups_alphabet().contains(c) by {
            ups_band_is_its_letter(b, b);
        }
    }
    let r = match c {
        'A' => Some(UPSBand::A),
        'B' => Some(UPSBand::B),
        'Y' => Some(UPSBand::Y),
        'Z' => Some(UPSBand::Z),
        _ => {
            assert forall|i: int| 0 <= i < ups_alphabet().len() implies ups_alphabet()[i] != c by {}
            None
        },
    };
    proof {
        if let Some(x) = r {
            let y = choose|b: UPSBand| b.letter() == c;
            ups_band_is_its_letter(x, y);
        }
    }
    r
}

/// The GridLetter whose letter is `c`, if any.
pub open spec fn grid_letter_of(c: char) -> Option<GridLetter> {
    if exists|b: GridLetter| b.letter() == c {
        Some(choose|b: GridLetter| b.letter() == c)
    } else {
        None
    }
}

/// Parses an uppercase square letter A..Z (without I and O).
pub fn grid_letter_from_char(c: char) -> (r: Option<GridLetter>)
    ensures
        r == grid_letter_of(c),
{
    proof {
        assert forall|b: GridLetter| #[trigger] b.letter() == c implies grid_alphabet().contains(c) by {
            grid_letter_is_its_index(b, b);
        }
    }
    let r = match c {
        'A' => Some(GridLetter::A),
        'B' => Some(GridLetter::B),
        'C' => Some(GridLetter::C),
        'D' => Some(GridLetter::D),
        'E' => Some(GridLetter::E),
        'F' => Some(GridLetter::F),
        'G' => Some(GridLetter::G),
        'H' => Some(GridLetter::H),
        'J' => Some(GridLetter::J),
        'K' => Some(GridLetter::K),
        'L' => Some(GridLetter::L),
        'M' => Some(GridLetter::M),
        'N' => Some(GridLetter::N),
        'P' => Some(GridLetter::P),
        'Q' => Some(GridLetter::Q),
        'R' => Some(GridLetter::R),
        'S' => Some(GridLetter::S),
        'T' => Some(GridLetter::T),
        'U' => Some(GridLetter::U),
        'V' => Some(GridLetter::V),
        'W' => Some(GridLetter::W),
        'X' => Some(GridLetter::X),
        'Y' => Some(GridLetter::Y),
        'Z' => Some(GridLetter::Z),
        _ => {
            assert forall|i: int| 0 <= i < grid_alphabet().len() implies grid_alphabet()[i] != c by {}
            None
        },
    };
    proof {
        if let Some(x) = r {
            let y = choose|b: GridLetter| b.letter() == c;
            grid_letter_is_its_index(x, y);
        }
    }
    r
}


/// Message of the band-X zone rule.
pub const MSG_X_ZONES: &'static str = "UTM zones 32, 34 and 36 do not exist in latitude band X";
/// Message of a UTM column letter outside the zone set's eight columns.
pub const MSG_UTM_COLUMN: &'static str = "MGRS column letter is not valid for this UTM zone set";
/// Message of a UTM row letter beyond V.
pub const MSG_UTM_ROW: &'static str = "MGRS row letter must be in A..V for UTM zones";
/// Message of a letter that is not a polar column.
pub const MSG_POLAR_COLUMN: &'static str = "MGRS polar column letter must exclude D, E, I, M, N, O, V, W";
/// Message of a polar column that belongs to another UPS zone.
pub const MSG_POLAR_COLUMN_BAND: &'static str = "MGRS polar column letter is not valid for this UPS band";
/// Message of a polar row letter beyond the hemisphere's grid.
pub const MSG_POLAR_ROW: &'static str = "MGRS polar row letter is out of range for this hemisphere";

/// Column letter of the first 100 km column of each of the six UTM zone sets.
pub open spec fn e_origin(set: int) -> int {
    seq![0int, 8, 16, 0, 8, 16][set]
}

/// Row letter of northing 0 in each of the six UTM zone sets.
pub open spec fn n_origin(set: int) -> int {
    seq![0int, 5, 0, 5, 0, 5][set]
}

/// The zone set (0..6) of a UTM zone number.
pub open spec fn zone_set(zone: int) -> int {
    (zone - 1) % 6
}

/// The polar column letters, west to east; D, E, M, N, V and W are skipped.
pub open spec fn ups_columns() -> Seq<GridLetter> {
    seq![GridLetter::A, GridLetter::B, GridLetter::C, GridLetter::F, GridLetter::G,
         GridLetter::H, GridLetter::J, GridLetter::K, GridLetter::L, GridLetter::P,
         GridLetter::Q, GridLetter::R, GridLetter::S, GridLetter::T, GridLetter::U,
         GridLetter::X, GridLetter::Y, GridLetter::Z]
}

/// UTM zones 32, 34 and 36 are merged away in band X.
pub fn utm_zone_exists(zone: u8, band: UTMBand) -> (b: bool)
    ensures
        b == !(band == UTMBand::X && (zone == 32 || zone == 34 || zone == 36)),
{
    !(band == UTMBand::X && (zone == 32 || zone == 34 || zone == 36))
}

/// The MGRS zone set (0..6) of a UTM zone: letters repeat every six zones.
pub fn mgrs_set(zone: u8) -> (s: usize)
    requires
        zone >= 1,
    ensures
        s == zone_set(zone as int),
        s < 6,
{
    ((zone - 1) % 6) as usize
}

/// Position of a letter among the polar columns.
pub open spec fn ups_column_pos_of(g: GridLetter) -> Option<int> {
    match g {
        GridLetter::A => Some(0),
        GridLetter::B => Some(1),
        GridLetter::C => Some(2),
        GridLetter::F => Some(3),
        GridLetter::G => Some(4),
        GridLetter::H => Some(5),
        GridLetter::J => Some(6),
        GridLetter::K => Some(7),
        GridLetter::L => Some(8),
        GridLetter::P => Some(9),
        GridLetter::Q => Some(10),
        GridLetter::R => Some(11),
        GridLetter::S => Some(12),
        GridLetter::T => Some(13),
        GridLetter::U => Some(14),
        GridLetter::X => Some(15),
        GridLetter::Y => Some(16),
        GridLetter::Z => Some(17),
        _ => None,
    }
}

/// Position of a letter among the polar columns, `None` for the skipped letters.
pub fn ups_col_pos(g: GridLetter) -> (r: Option<usize>)
    ensures
        match r {
            Some(i) => i < 18 && ups_columns()[i as int] == g && ups_column_pos_of(g) == Some(
                i as int,
            ),
            None => !ups_columns().contains(g) && ups_column_pos_of(g) is None,
        },
{
    match g {
        GridLetter::A => Some(0),
        GridLetter::B => Some(1),
        GridLetter::C => Some(2),
        GridLetter::F => Some(3),
        GridLetter::G => Some(4),
        GridLetter::H => Some(5),
        GridLetter::J => Some(6),
        GridLetter::K => Some(7),
        GridLetter::L => Some(8),
        GridLetter::P => Some(9),
        GridLetter::Q => Some(10),
        GridLetter::R => Some(11),
        GridLetter::S => Some(12),
        GridLetter::T => Some(13),
        GridLetter::U => Some(14),
        GridLetter::X => Some(15),
        GridLetter::Y => Some(16),
        GridLetter::Z => Some(17),
        _ => {
            assert forall|i: int| 0 <= i < ups_columns().len() implies ups_columns()[i] != g by {}
            None
        },
    }
}

/// UTM column offset (0..24) of a column letter in its zone set; 0..8 are real columns.
pub open spec fn utm_column_offset(zone: int, col: GridLetter) -> int {
    (col.index_of() - e_origin(zone_set(zone))) % 24
}

/// UTM row offset (0..20) of a row letter: the 100 km row counted from northing 0, modulo 20.
pub open spec fn utm_row_offset(zone: int, row: GridLetter) -> int {
    (row.index_of() - n_origin(zone_set(zone))) % 20
}

/// The northing congruent to `base` modulo 2 000 km that the band resolves it to:
/// `base` itself when it reaches the band minimum, else lifted by whole periods up to it.
pub open spec fn resolve_northing(base: int, min: int) -> int {
    if base < min {
        base + ((min - base + MGRS_ROW_PERIOD - 1) / (MGRS_ROW_PERIOD as int)) * MGRS_ROW_PERIOD
    } else {
        base
    }
}

/// South-west corner in metres of the UTM 100 km square `square` of `zone` and `band`.
pub open spec fn utm_corner_of(zone: int, band: UTMBand, square: (GridLetter, GridLetter)) -> Result<
    (u32, u32),
    GeoError,
> {
    let c = utm_column_offset(zone, square.0);
    if c >= 8 {
        Err(GeoError::OutOfProjectionBounds(MSG_UTM_COLUMN))
    } else if square.1.index_of() >= 20 {
        Err(GeoError::OutOfProjectionBounds(MSG_UTM_ROW))
    } else {
        Ok(
            (
                ((c + 1) * MGRS_SQUARE) as u32,
                resolve_northing(utm_row_offset(zone, square.1) * MGRS_SQUARE, band.min_northing())
                    as u32,
            ),
        )
    }
}

/// South-west corner (easting, northing) in metres of a UTM 100 km square, the northing
/// resolved against the band's minimum (row letters repeat every 2 000 km).
pub fn utm_square_corner(zone: u8, band: UTMBand, square: (GridLetter, GridLetter)) -> (r: Result<
    (u32, u32),
    GeoError,
>)
    requires
        zone >= 1,
    ensures
        r == utm_corner_of(zone as int, band, square),
{
    let set = mgrs_set(zone);
    let e_orig: usize = if set % 3 == 0 { 0 } else if set % 3 == 1 { 8 } else { 16 };
    let n_orig: usize = if set % 2 == 0 { 0 } else { 5 };
    assert(e_orig == e_origin(set as int) && n_orig == n_origin(set as int));
    let col = square.0.as_index();
    let col_off = (col + 24 - e_orig) % 24;
    assert(col_off == utm_column_offset(zone as int, square.0));
    if col_off >= 8 {
        return Err(GeoError::OutOfProjectionBounds(MSG_UTM_COLUMN));
    }
    let row = square.1.as_index();
    if row >= 20 {
        return Err(GeoError::OutOfProjectionBounds(MSG_UTM_ROW));
    }
    let n100k = (row + 20 - n_orig) % 20;
    assert(n100k == utm_row_offset(zone as int, square.1));
    let easting: u32 = ((col_off + 1) as u32) * MGRS_SQUARE;
    let mut northing: u32 = (n100k as u32) * MGRS_SQUARE;
    let min_northing = band.get_min_northing();
    if northing < min_northing {
        northing = northing + ((min_northing - northing + MGRS_ROW_PERIOD - 1) / MGRS_ROW_PERIOD)
            * MGRS_ROW_PERIOD;
    }
    Ok((easting, northing))
}

/// Column range (in 100 km units) of each UPS zone.
pub open spec fn ups_column_range(band: UPSBand) -> (int, int) {
    match band {
        UPSBand::Y => (13, 19),
        UPSBand::Z => (20, 26),
        UPSBand::A => (8, 19),
        UPSBand::B => (20, 31),
    }
}

/// 100 km column index of the first polar column letter of a zone half.
pub open spec fn ups_column_base(band: UPSBand) -> int {
    if band.is_east() { 20 } else { 2 }
}

/// 100 km row index of the row letter A in a hemisphere.
pub open spec fn ups_row_base(band: UPSBand) -> int {
    if band.is_north() { 13 } else { 8 }
}

/// Last row letter index of a hemisphere's polar grid.
pub open spec fn ups_row_max(band: UPSBand) -> int {
    if band.is_north() { 13 } else { 23 }
}

/// South-west corner in metres of the polar 100 km square `square` of the UPS zone `band`.
pub open spec fn ups_corner_of(band: UPSBand, square: (GridLetter, GridLetter)) -> Result<
    (u32, u32),
    GeoError,
> {
    match ups_column_pos_of(square.0) {
        None => Err(GeoError::OutOfProjectionBounds(MSG_POLAR_COLUMN)),
        Some(i) => {
            let e100k = i + ups_column_base(band);
            if !(ups_column_range(band).0 <= e100k <= ups_column_range(band).1) {
                Err(GeoError::OutOfProjectionBounds(MSG_POLAR_COLUMN_BAND))
            } else if square.1.index_of() > ups_row_max(band) {
                Err(GeoError::OutOfProjectionBounds(MSG_POLAR_ROW))
            } else {
                Ok(
                    (
                        (e100k * MGRS_SQUARE) as u32,
                        ((square.1.index_of() + ups_row_base(band)) * MGRS_SQUARE) as u32,
                    ),
                )
            }
        },
    }
}

/// South-west corner in metres of a polar 100 km square; the column/row ranges are the grid
/// extent per zone.
pub fn ups_square_corner(band: UPSBand, square: (GridLetter, GridLetter)) -> (r: Result<
    (u32, u32),
    GeoError,
>)
    ensures
        r == ups_corner_of(band, square),
{
    let north = band == UPSBand::Y || band == UPSBand::Z;
    let east = band == UPSBand::Z || band == UPSBand::B;
    let pos = match ups_col_pos(square.0) {
        Some(p) => p,
        None => return Err(GeoError::OutOfProjectionBounds(MSG_POLAR_COLUMN)),
    };
    let e100k: u32 = pos as u32 + if east { 20 } else { 2 };
    let (e_lo, e_hi): (u32, u32) = match band {
        UPSBand::Y => (13, 19),
        UPSBand::Z => (20, 26),
        UPSBand::A => (8, 19),
        UPSBand::B => (20, 31),
    };
    if !(e_lo <= e100k && e100k <= e_hi) {
        return Err(GeoError::OutOfProjectionBounds(MSG_POLAR_COLUMN_BAND));
    }
    let row_max: usize = if north { 13 } else { 23 };
    let row = square.1.as_index();
    if row > row_max {
        return Err(GeoError::OutOfProjectionBounds(MSG_POLAR_ROW));
    }
    let n100k: u32 = row as u32 + if north { 13 } else { 8 };
    Ok((e100k * MGRS_SQUARE, n100k * MGRS_SQUARE))
}

/// South-west corner of the 100 km square of an MGRS reference, after the zone checks of the
/// reference: zone number 1..=60 and no band-X zone that does not exist.
pub open spec fn grid_corner_of(zone: MGRSZone, square: (GridLetter, GridLetter)) -> Result<
    (u32, u32),
    GeoError,
> {
    match zone {
        MGRSZone::UTM(z, band) => if !(1 <= z <= 60) {
            Err(GeoError::InvalidUtmZone(z))
        } else if band == UTMBand::X && (z == 32 || z == 34 || z == 36) {
            Err(GeoError::OutOfProjectionBounds(MSG_X_ZONES))
        } else {
            utm_corner_of(z as int, band, square)
        },
        MGRSZone::UPS(band) => ups_corner_of(band, square),
    }
}

/// The zone and square-letter checks of an MGRS reference, giving the square's south-west
/// corner in metres.
pub fn grid_square_corner(zone: MGRSZone, square: (GridLetter, GridLetter)) -> (r: Result<
    (u32, u32),
    GeoError,
>)
    ensures
        r == grid_corner_of(zone, square),
        r matches Err(GeoError::InvalidUtmZone(k)) ==> zone == MGRSZone::UTM(k, zone->UTM_1)
            && (k == 0 || k > 60),
{
    match zone {
        MGRSZone::UTM(z, band) => {
            if !(1 <= z && z <= 60) {
                return Err(GeoError::InvalidUtmZone(z));
            }
            if !utm_zone_exists(z, band) {
                return Err(GeoError::OutOfProjectionBounds(MSG_X_ZONES));
            }
            utm_square_corner(z, band, square)
        },
        MGRSZone::UPS(band) => ups_square_corner(band, square),
    }
}


/// Square letters (column, row) of the UTM 100 km square whose south-west corner lies
/// `e100k` and `n100k` squares east and north of the zone origin.
#[verifier::spinoff_prover]
pub fn utm_square_letters(zone: u8, e100k: u32, n100k: u32) -> (sq: (GridLetter, GridLetter))
    requires
        zone >= 1,
    ensures
        sq.0.index_of() == (e_origin(zone_set(zone as int)) + e100k - 1) % 24,
        sq.1.index_of() == (n_origin(zone_set(zone as int)) + n100k % 20) % 20,
        sq.0.index_of() == (8 * ((zone - 1) % 3) + e100k + 23) % 24,
        sq.1.index_of() == (5 * ((zone - 1) % 2) + n100k) % 20,
{
    let set = mgrs_set(zone);
    let e_orig: u64 = if set % 3 == 0 { 0 } else if set % 3 == 1 { 8 } else { 16 };
    let n_orig: u64 = if set % 2 == 0 { 0 } else { 5 };
    assert(e_orig == e_origin(set as int) && n_orig == n_origin(set as int));
    let e_idx = (e_orig + e100k as u64 + 23) % 24;
    let n_idx = (n_orig + (n100k % 20) as u64) % 20;
    proof {
        let x = e_orig + e100k - 1;
        assert((x + 24) % 24 == x % 24) by (nonlinear_arith)
            requires
                x >= -1,
        ;
    }
    (GridLetter::from_index(e_idx as usize), GridLetter::from_index(n_idx as usize))
}

/// Square letters (column, row) of the polar 100 km square whose south-west corner lies
/// `e100k` and `n100k` squares east and north of the UPS grid origin.
pub fn ups_square_letters(band: UPSBand, e100k: u32, n100k: u32) -> (sq: (GridLetter, GridLetter))
    requires
        ups_column_base(band) <= e100k < ups_column_base(band) + 18,
        ups_row_base(band) <= n100k,
    ensures
        sq.0 == ups_columns()[e100k - ups_column_base(band)],
        sq.1.index_of() == (n100k - ups_row_base(band)) % 24,
{
    let north = band == UPSBand::Y || band == UPSBand::Z;
    let east = band == UPSBand::Z || band == UPSBand::B;
    let col_base: u32 = if east { 20 } else { 2 };
    let row_base: u32 = if north { 13 } else { 8 };
    let cols: [GridLetter; 18] = [
        GridLetter::A,
        GridLetter::B,
        GridLetter::C,
        GridLetter::F,
        GridLetter::G,
        GridLetter::H,
        GridLetter::J,
        GridLetter::K,
        GridLetter::L,
        GridLetter::P,
        GridLetter::Q,
        GridLetter::R,
        GridLetter::S,
        GridLetter::T,
        GridLetter::U,
        GridLetter::X,
        GridLetter::Y,
        GridLetter::Z,
    ];
    assert(cols@ == ups_columns());
    let col = cols[(e100k - col_base) as usize];
    (col, GridLetter::from_index((n100k - row_base) as usize))
}

/// UPS zone of a point: the hemisphere, and whether its easting is at or east of the
/// 2 000 km false easting.
pub fn ups_band(north: bool, east: bool) -> (b: UPSBand)
    ensures
        b.is_north() == north,
        b.is_east() == east,
{
    match (north, east) {
        (true, true) => UPSBand::Z,
        (true, false) => UPSBand::Y,
        (false, true) => UPSBand::B,
        (false, false) => UPSBand::A,
    }
}

/// Extent `[lo, hi)` in metres of the polar MGRS 100 km grid on both axes: the only region
/// where the polar square letters exist, hence the domain of UPS.
pub fn ups_grid_extent(north: bool) -> (r: (u32, u32))
    ensures
        r == (if north { (1300000u32, 2700000u32) } else { (800000u32, 3200000u32) }),
{
    if north {
        (1300000, 2700000)
    } else {
        (800000, 3200000)
    }
}

/// Easting extent `[lo, hi)` in metres of a UPS zone: the grid extent cut at the false easting.
pub fn ups_easting_extent(band: UPSBand) -> (r: (u32, u32))
    ensures
        r.0 == ups_column_range(band).0 * MGRS_SQUARE,
        r.1 == (ups_column_range(band).1 + 1) * MGRS_SQUARE,
        band.is_east() ==> r.0 == 2000000,
        !band.is_east() ==> r.1 == 2000000,
        band.is_north() ==> (if band.is_east() { r.1 == 2700000 } else { r.0 == 1300000 }),
        !band.is_north() ==> (if band.is_east() { r.1 == 3200000 } else { r.0 == 800000 }),
{
    match band {
        UPSBand::Y => (1300000, 2000000),
        UPSBand::Z => (2000000, 2700000),
        UPSBand::A => (800000, 2000000),
        UPSBand::B => (2000000, 3200000),
    }
}

/// Longitude of the central meridian of a UTM zone, whole degrees.
pub fn utm_central_meridian(zone: u8) -> (m: i16)
    ensures
        m == zone * 6 - 183,
{
    zone as i16 * 6 - 183
}

/// The UTM zone of a position given in whole degrees. `col` is the 6° column counted from
/// 180°W (0 for the first; columns past the last are the last), `lat_deg` and `lon_deg` are
/// the latitude and longitude rounded down to whole degrees, and `lat_whole` tells whether
/// the latitude is itself a whole number. Zone 32 is widened over south-west Norway
/// (56°N–64°N, 3°E–12°E); between 72°N and 84°N inclusive, zones 31, 33, 35 and 37 replace
/// the even ones from 0°E to 42°E (Svalbard).
pub open spec fn zone_of_position(col: int, lat_deg: int, lat_whole: bool, lon_deg: int) -> int {
    let regular = if col >= 60 { 60 } else { col + 1 };
    if 56 <= lat_deg < 64 && 3 <= lon_deg < 12 {
        32
    } else if 72 <= lat_deg < 84 || (lat_deg == 84 && lat_whole) {
        if 0 <= lon_deg < 9 {
            31
        } else if 9 <= lon_deg < 21 {
            33
        } else if 21 <= lon_deg < 33 {
            35
        } else if 33 <= lon_deg < 42 {
            37
        } else {
            regular
        }
    } else {
        regular
    }
}

/// The zone a position gets always exists in its band: in band X (72°N–84°N), which has no
/// zones 32, 34 and 36, the zone rule gives 31, 33, 35 or 37 over 0°E–42°E and the plain 6°
/// zone elsewhere, never one of the three.
pub proof fn position_zone_exists(
    col: int,
    lat_deg: int,
    lat_whole: bool,
    lon_deg: int,
    band: UTMBand,
)
    requires
        -180 <= lon_deg < 180,
        6 * col <= lon_deg + 180 < 6 * col + 6,
        band == UTMBand::X ==> 72 <= lat_deg <= 84 && (lat_deg == 84 ==> lat_whole),
    ensures
        ({
            let z = zone_of_position(col, lat_deg, lat_whole, lon_deg);
            !(band == UTMBand::X && (z == 32 || z == 34 || z == 36))
        }),
{
}

/// The UTM zone of a position (see `zone_of_position`), 1..=60.
pub fn utm_zone_from_degrees(col: u8, lat_deg: i16, lat_whole: bool, lon_deg: i16) -> (z: u8)
    ensures
        z == zone_of_position(col as int, lat_deg as int, lat_whole, lon_deg as int),
        1 <= z <= 60,
        !(56 <= lat_deg < 64 && 3 <= lon_deg < 12) && !((72 <= lat_deg < 84 || (lat_deg == 84
            && lat_whole)) && 0 <= lon_deg < 42) ==> z == (if col >= 60 { 60 } else { col + 1 }),
{
    let regular: u8 = if col >= 60 { 60 } else { col + 1 };
    if 56 <= lat_deg && lat_deg < 64 && 3 <= lon_deg && lon_deg < 12 {
        32
    } else if (72 <= lat_deg && lat_deg < 84) || (lat_deg == 84 && lat_whole) {
        if 0 <= lon_deg && lon_deg < 9 {
            31
        } else if 9 <= lon_deg && lon_deg < 21 {
            33
        } else if 21 <= lon_deg && lon_deg < 33 {
            35
        } else if 33 <= lon_deg && lon_deg < 42 {
            37
        } else {
            regular
        }
    } else {
        regular
    }
}


/// The zone of a position is the 6° strip holding its longitude, except over south-west Norway
/// (56°N–64°N, 3°E–12°E), where it is 32, and north of 72°N from 0°E to 42°E (Svalbard),
/// where it is the odd zone 31, 33, 35 or 37 of the 12° strip centred on its regular zone
/// pair: 31 up to 9°E, then 33, 35 and 37 every 12°.
pub proof fn zone_is_the_strip_of_the_longitude(col: int, lat_deg: int, lat_whole: bool, lon_deg: int)
    requires
        -180 <= lon_deg < 180,
        6 * col <= lon_deg + 180 < 6 * col + 6,
    ensures
        ({
            let z = zone_of_position(col, lat_deg, lat_whole, lon_deg);
            let norway = 56 <= lat_deg < 64 && 3 <= lon_deg < 12;
            let svalbard = (72 <= lat_deg < 84 || (lat_deg == 84 && lat_whole)) && 0 <= lon_deg
                < 42;
            &&& 1 <= z <= 60
            &&& norway ==> z == 32
            &&& svalbard ==> z == 31 + 2 * ((lon_deg + 3) / 12)
            &&& !norway && !svalbard ==> 6 * (z - 1) - 180 <= lon_deg < 6 * z - 180
        }),
{
}

/// Every zone number 1..=60 is a zone: a reference in such a zone, in a band where the zone
/// exists (all but 32, 34 and 36 in band X), is read through its square letters alone, and
/// only zone numbers 0 and above 60 are refused as zones.
pub proof fn every_zone_number_is_read(z: u8, band: UTMBand, square: (GridLetter, GridLetter))
    ensures
        1 <= z <= 60 && !(band == UTMBand::X && (z == 32 || z == 34 || z == 36)) ==> grid_corner_of(
            MGRSZone::UTM(z, band),
            square,
        ) == utm_corner_of(z as int, band, square),
        grid_corner_of(MGRSZone::UTM(z, band), square) == Err::<(u32, u32), GeoError>(
            GeoError::InvalidUtmZone(z),
        ) <==> (z == 0 || z > 60),
        band == UTMBand::X && (z == 32 || z == 34 || z == 36) ==> grid_corner_of(
            MGRSZone::UTM(z, band),
            square,
        ) == Err::<(u32, u32), GeoError>(GeoError::OutOfProjectionBounds(MSG_X_ZONES)),
{
}

/// A polar square that a zone accepts lies inside the hemisphere's grid (1 300 km–2 700 km
/// north, 800 km–3 200 km south, on both axes) and on the zone's side of the 2 000 km false
/// easting: west of it for Y and A, at or east of it for Z and B.
pub proof fn polar_squares_stay_in_their_zone(band: UPSBand, square: (GridLetter, GridLetter))
    ensures
        ups_corner_of(band, square) matches Ok((e, n)) ==> {
            let (lo, hi) = if band == UPSBand::Y || band == UPSBand::Z {
                (1300000int, 2700000int)
            } else {
                (800000int, 3200000int)
            };
            &&& lo <= e && e + 100000 <= hi
            &&& lo <= n && n + 100000 <= hi
            &&& (band == UPSBand::Y || band == UPSBand::A) ==> e + 100000 <= 2000000
            &&& (band == UPSBand::Z || band == UPSBand::B) ==> e >= 2000000
        },
{
    grid_letter_is_its_index(square.1, square.1);
}

/// The polar grid has no gap between the two halves of a zone: every 100 km column of the
/// hemisphere's grid (13..=26 north, 8..=31 south, in 100 km) belongs to the west zone (Y or
/// A) below the 2 000 km false easting and to the east zone (Z or B) from it on, with the
/// polar column letters counted from 200 km west and from the false easting east; every row
/// of the grid (from 1 300 km north, 800 km south) takes the row letters from A.
pub proof fn polar_grid_has_no_gap(north: bool, e100k: int, row: GridLetter)
    requires
        north ==> 13 <= e100k <= 26 && row.index_of() <= 13,
        !north ==> 8 <= e100k <= 31,
    ensures
        ({
            let east = e100k >= 20;
            let band = if north {
                if east { UPSBand::Z } else { UPSBand::Y }
            } else {
                if east { UPSBand::B } else { UPSBand::A }
            };
            let col = ups_columns()[e100k - if east { 20int } else { 2int }];
            let n0 = (row.index_of() + if north { 13int } else { 8int }) * 100000;
            ups_corner_of(band, (col, row)) == Ok::<(u32, u32), GeoError>(
                ((e100k * 100000) as u32, n0 as u32),
            )
        }),
{
    let east = e100k >= 20;
    let j = e100k - if east { 20int } else { 2int };
    assert(0 <= j < 18);
    assert(ups_column_pos_of(ups_columns()[j]) == Some(j));
    grid_letter_is_its_index(row, row);
}

/// The UTM column letters of a zone start, in its first 100 km column (100 km–200 km), at A in
/// zones 1, 4, 7, …, at J in zones 2, 5, 8, … and at S in zones 3, 6, 9, …, and go on one
/// letter per column; the row letters start at northing 0 with A in odd zones and F in even
/// zones, one letter per 100 km, repeating every 20.
pub proof fn utm_letters_by_zone(zone: int, e100k: int, n100k: int)
    requires
        zone >= 1,
        e100k >= 1,
        n100k >= 0,
    ensures
        (e_origin(zone_set(zone)) + e100k - 1) % 24 == (8 * ((zone - 1) % 3) + e100k - 1) % 24,
        (n_origin(zone_set(zone)) + n100k % 20) % 20 == (5 * ((zone - 1) % 2) + n100k) % 20,
        e_origin(zone_set(zone)) == 8 * ((zone - 1) % 3),
        n_origin(zone_set(zone)) == 5 * ((zone - 1) % 2),
{
    let s = zone_set(zone);
    assert(0 <= s < 6);
    assert((zone - 1) % 3 == s % 3 && (zone - 1) % 2 == s % 2) by (nonlinear_arith)
        requires
            s == (zone - 1) % 6,
            zone >= 1,
    ;
    assert((n_origin(s) + n100k % 20) % 20 == (n_origin(s) + n100k) % 20) by (nonlinear_arith)
        requires
            0 <= n_origin(s) < 20,
            n100k >= 0,
    ;
}

/// A square letter is determined by its position in the alphabet and by its character, and
/// every position 0..24 is taken: `from_index(g.as_index()) == g`, and `as_char` followed by
/// `grid_letter_from_char` gives the letter back.
pub proof fn grid_letter_is_its_index(a: GridLetter, b: GridLetter)
    ensures
        0 <= a.index_of() < 24,
        a.index_of() == b.index_of() ==> a == b,
        a.letter() == b.letter() ==> a == b,
        grid_alphabet().contains(a.letter()),
{
    assert(grid_alphabet()[a.index_of()] == a.letter());
}

/// A band letter is determined by its position and by its character; `as_char` followed by
/// `utm_band_from_char` gives the band back.
pub proof fn utm_band_is_its_index(a: UTMBand, b: UTMBand)
    ensures
        0 <= a.index_of() < 20,
        a.index_of() == b.index_of() ==> a == b,
        a.letter() == b.letter() ==> a == b,
        band_alphabet().contains(a.letter()),
{
    assert(band_alphabet()[a.index_of()] == a.letter());
}

/// A UPS zone is determined by its letter; `as_char` followed by `ups_band_from_char`
/// gives the zone back.
pub proof fn ups_band_is_its_letter(a: UPSBand, b: UPSBand)
    ensures
        a.letter() == b.letter() ==> a == b,
        ups_alphabet().contains(a.letter()),
{
    assert(ups_alphabet()[a.index_of()] == a.letter());
}

/// The letters of the UTM 100 km square holding a point lead back to that square: for every
/// easting of the UTM range and every northing inside the band's 2 000 km row window, the
/// letters that `utm_square_letters` gives for the point's square indices resolve, through
/// `utm_square_corner`, to the south-west corner of the point's own square.
pub proof fn utm_letters_locate_square(
    zone: u8,
    band: UTMBand,
    easting: int,
    northing: int,
    square: (GridLetter, GridLetter),
)
    requires
        1 <= zone <= 60,
        100000 <= easting < 900000,
        band.min_northing() <= northing < band.min_northing() + MGRS_ROW_PERIOD,
        square.0.index_of() == (e_origin(zone_set(zone as int)) + easting / (MGRS_SQUARE as int) - 1)
            % 24,
        square.1.index_of() == (n_origin(zone_set(zone as int)) + (northing / (
        MGRS_SQUARE as int)) % 20) % 20,
    ensures
        utm_corner_of(zone as int, band, square) == Ok::<(u32, u32), GeoError>(
            (
                (easting / (MGRS_SQUARE as int) * MGRS_SQUARE) as u32,
                (northing / (MGRS_SQUARE as int) * MGRS_SQUARE) as u32,
            ),
        ),
{
    let set = zone_set(zone as int);
    let e = e_origin(set);
    let n = n_origin(set);
    assert(0 <= set < 6);
    assert(0 <= e < 24 && 0 <= n < 20);
    let ei = easting / 100000;
    assert(1 <= ei <= 8);
    assert(utm_column_offset(zone as int, square.0) == ei - 1);
    let q = northing / 100000;
    let b = q % 20;
    assert(utm_row_offset(zone as int, square.1) == b);
    let min = band.min_northing();
    assert(min % 100000 == 0 && 0 <= min <= 9100000);
    let base = b * 100000;
    let n0 = q * 100000;
    assert(q == 20 * (q / 20) + b);
    let m = q / 20;
    assert(n0 == base + m * 2000000);
    assert(min <= n0 < min + 2000000) by {
        assert(min / 100000 <= q);
    }
    if base >= min {
        assert(m == 0);
    } else {
        let k = (min - base + 2000000 - 1) / 2000000;
        assert(k * 2000000 >= min - base);
        assert(k * 2000000 < min - base + 2000000);
        assert(m == k);
    }
}

/// The letters of a polar 100 km square lead back to that square: for every position inside
/// a UPS zone's easting extent and its hemisphere's grid extent, the letters that
/// `ups_square_letters` gives for the point's square indices resolve, through
/// `ups_square_corner`, to the south-west corner of the point's own square.
pub proof fn ups_letters_locate_square(
    band: UPSBand,
    easting: int,
    northing: int,
    square: (GridLetter, GridLetter),
)
    requires
        ups_column_range(band).0 * MGRS_SQUARE <= easting < (ups_column_range(band).1 + 1)
            * MGRS_SQUARE,
        ups_row_base(band) * MGRS_SQUARE <= northing < (ups_row_base(band) + ups_row_max(band)
            + 1) * MGRS_SQUARE,
        square.0 == ups_columns()[easting / (MGRS_SQUARE as int) - ups_column_base(band)],
        square.1.index_of() == (northing / (MGRS_SQUARE as int) - ups_row_base(band)) % 24,
    ensures
        ups_corner_of(band, square) == Ok::<(u32, u32), GeoError>(
            (
                (easting / (MGRS_SQUARE as int) * MGRS_SQUARE) as u32,
                (northing / (MGRS_SQUARE as int) * MGRS_SQUARE) as u32,
            ),
        ),
{
    let j = easting / 100000 - ups_column_base(band);
    assert(0 <= j < 18);
    assert(ups_column_pos_of(ups_columns()[j]) == Some(j));
    let r = northing / 100000 - ups_row_base(band);
    assert(0 <= r <= ups_row_max(band));
    assert(square.1.index_of() == r);
}


/// Message of text that is not a band letter.
pub const MSG_BAND_TEXT: &'static str = "band letter must be one of C..X without I and O";
/// Message of text that is not a UPS zone letter.
pub const MSG_UPS_TEXT: &'static str = "UPS band must be one of A, B, Y, Z";
/// Message of text that is not a square letter.
pub const MSG_LETTER_TEXT: &'static str = "grid letter must be A..Z without I and O";

/// A letter read from text: the trimmed text must be exactly one character, which, taken in
/// uppercase, `of` must recognise; any other text is refused with `msg`.
pub open spec fn letter_text<T>(s: Seq<char>, of: spec_fn(char) -> Option<T>, msg: &'static str) -> Result<T, GeoError> {
    match single_letter_of(s) {
        Some(c) => match of(c) {
            Some(x) => Ok(x),
            None => Err(GeoError::InvalidFormat(msg)),
        },
        None => Err(GeoError::InvalidFormat(msg)),
    }
}

impl core::str::FromStr for UTMBand {
    type Err = GeoError;

    /// One band letter, any case, surrounded by optional whitespace.
    fn from_str(s: &str) -> (r: Result<UTMBand, GeoError>)
        ensures
            r == letter_text(s@, |c: char| utm_band_of(c), MSG_BAND_TEXT),
    {
        match single_letter(s) {
            Some(c) => match utm_band_from_char(c) {
                Some(b) => Ok(b),
                None => Err(GeoError::InvalidFormat(MSG_BAND_TEXT)),
            },
            None => Err(GeoError::InvalidFormat(MSG_BAND_TEXT)),
        }
    }
}

impl core::str::FromStr for UPSBand {
    type Err = GeoError;

    /// One UPS zone letter, any case, surrounded by optional whitespace.
    fn from_str(s: &str) -> (r: Result<UPSBand, GeoError>)
        ensures
            r == letter_text(s@, |c: char| ups_band_of(c), MSG_UPS_TEXT),
    {
        match single_letter(s) {
            Some(c) => match ups_band_from_char(c) {
                Some(b) => Ok(b),
                None => Err(GeoError::InvalidFormat(MSG_UPS_TEXT)),
            },
            None => Err(GeoError::InvalidFormat(MSG_UPS_TEXT)),
        }
    }
}

impl core::str::FromStr for GridLetter {
    type Err = GeoError;

    /// One square letter, any case, surrounded by optional whitespace.
    fn from_str(s: &str) -> (r: Result<GridLetter, GeoError>)
        ensures
            r == letter_text(s@, |c: char| grid_letter_of(c), MSG_LETTER_TEXT),
    {
        match single_letter(s) {
            Some(c) => match grid_letter_from_char(c) {
                Some(g) => Ok(g),
                None => Err(GeoError::InvalidFormat(MSG_LETTER_TEXT)),
            },
            None => Err(GeoError::InvalidFormat(MSG_LETTER_TEXT)),
        }
    }
}

} // verus!
