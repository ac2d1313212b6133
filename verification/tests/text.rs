//! Characters and trimming, and the hemisphere directions.

use geocoord::angular::{MSG_LAT_DIR, MSG_LON_DIR};
use geocoord::text::{
    chars_of, is_ascii_digit, is_whitespace, single_letter, to_ascii_uppercase, trim_bounds,
    upper_trimmed,
};
use geocoord::{GeoError, LatitudeDir, LongitudeDir};

#[test]
fn whitespace_is_the_unicode_set() {
    for u in 0..=0x10FFFFu32 {
        if let Some(c) = char::from_u32(u) {
            assert_eq!(is_whitespace(c), c.is_whitespace(), "U+{u:04X}");
            assert_eq!(is_ascii_digit(c), c.is_ascii_digit(), "U+{u:04X}");
            assert_eq!(to_ascii_uppercase(c), c.to_ascii_uppercase(), "U+{u:04X}");
        }
    }
}

#[test]
fn trimming_agrees_with_str_trim() {
    for s in [
        "",
        " ",
        "a",
        "  34T  ",
        "\u{3000}z\u{2029}",
        "\t\n x y \r",
        "\u{85}\u{a0}é\u{1680}",
        "no-space",
    ] {
        let v = chars_of(s);
        assert_eq!(v, s.chars().collect::<Vec<char>>());
        let (lo, hi) = trim_bounds(&v);
        let t: String = v[lo..hi].iter().collect();
        assert_eq!(t, s.trim(), "{s:?}");
        let u: String = upper_trimmed(s).into_iter().collect();
        assert_eq!(u, s.trim().to_ascii_uppercase(), "{s:?}");
    }
    assert_eq!(single_letter(" t "), Some('T'));
    assert_eq!(single_letter("\u{3000}é\u{3000}"), Some('é'));
    assert_eq!(single_letter("tt"), None);
    assert_eq!(single_letter("  "), None);
}

#[test]
fn directions() {
    assert_eq!("south".parse::<LatitudeDir>(), Ok(LatitudeDir::South));
    assert_eq!(" N ".parse::<LatitudeDir>(), Ok(LatitudeDir::North));
    assert_eq!("North".parse::<LatitudeDir>(), Ok(LatitudeDir::North));
    assert_eq!("s".parse::<LatitudeDir>(), Ok(LatitudeDir::South));
    assert_eq!("E".parse::<LatitudeDir>(), Err(GeoError::InvalidFormat(MSG_LAT_DIR)));
    assert_eq!("nort".parse::<LatitudeDir>(), Err(GeoError::InvalidFormat(MSG_LAT_DIR)));
    assert_eq!("W".parse::<LongitudeDir>(), Ok(LongitudeDir::West));
    assert_eq!("east".parse::<LongitudeDir>(), Ok(LongitudeDir::East));
    assert_eq!("\tWeSt\n".parse::<LongitudeDir>(), Ok(LongitudeDir::West));
    assert_eq!("N".parse::<LongitudeDir>(), Err(GeoError::InvalidFormat(MSG_LON_DIR)));
    assert_eq!("".parse::<LongitudeDir>(), Err(GeoError::InvalidFormat(MSG_LON_DIR)));
    assert_eq!(LatitudeDir::North.sign(), 1);
    assert_eq!(LatitudeDir::South.sign(), -1);
    assert_eq!(LongitudeDir::East.sign(), 1);
    assert_eq!(LongitudeDir::West.sign(), -1);
    assert_eq!(LatitudeDir::South.as_char(), 'S');
    assert_eq!(LongitudeDir::East.as_char(), 'E');
}
