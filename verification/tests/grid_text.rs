//! UTM and UPS text: tokens and the letter rules.

use geocoord::grid_text::{
    grid_tokens, ups_letter, utm_letter, UtmLetter, MSG_UPS_LETTER, MSG_UPS_SYNTAX,
    MSG_UTM_LETTER, MSG_UTM_SYNTAX,
};
use geocoord::{GeoError, UPSBand, UTMBand};

fn tokens(s: &str) -> Result<(u8, char, String, String), GeoError> {
    grid_tokens(s, MSG_UTM_SYNTAX).map(|t| {
        (
            t.zone,
            t.letter,
            t.easting.iter().collect(),
            t.northing.iter().collect(),
        )
    })
}

fn ok(zone: u8, letter: char, e: &str, n: &str) -> Result<(u8, char, String, String), GeoError> {
    Ok((zone, letter, e.to_string(), n.to_string()))
}

#[test]
fn grid_text_tokens() {
    assert_eq!(tokens("34T 458083 4960870"), ok(34, 'T', "458083", "4960870"));
    assert_eq!(tokens("34 T 458083 4960870"), ok(34, 'T', "458083", "4960870"));
    assert_eq!(tokens("34T458083 4960870"), ok(34, 'T', "458083", "4960870"));
    assert_eq!(tokens("  34n\t458083   4960870 "), ok(34, 'n', "458083", "4960870"));
    assert_eq!(tokens("Z 2000000 1333272"), ok(0, 'Z', "2000000", "1333272"));
    assert_eq!(tokens("4Q 500000.25 2000000"), ok(4, 'Q', "500000.25", "2000000"));
    // what follows the letter is taken as the easting word, whatever it holds
    assert_eq!(tokens("34TX 1"), ok(34, 'T', "X", "1"));
    let bad = Err(GeoError::InvalidFormat(MSG_UTM_SYNTAX));
    for s in [
        "",
        "   ",
        "34",
        "34T 458083",
        "340T 458083 4960870",
        "34T 458083 4960870 7",
        "34 T458083",
    ] {
        assert_eq!(tokens(s), bad, "{s:?}");
    }
    assert_eq!(
        grid_tokens("", MSG_UPS_SYNTAX).map(|t| t.zone),
        Err(GeoError::InvalidFormat(MSG_UPS_SYNTAX))
    );
}

#[test]
fn utm_letter_rules() {
    assert_eq!(utm_letter(34, 'T'), Ok(UtmLetter::Band(UTMBand::T)));
    assert_eq!(utm_letter(34, 'N'), Ok(UtmLetter::Band(UTMBand::N)));
    assert_eq!(utm_letter(34, 'n'), Ok(UtmLetter::Hemisphere(false)));
    assert_eq!(utm_letter(34, 's'), Ok(UtmLetter::Hemisphere(true)));
    assert_eq!(utm_letter(0, 'T'), Err(GeoError::InvalidFormat(MSG_UTM_SYNTAX)));
    assert_eq!(utm_letter(61, 'n'), Err(GeoError::InvalidUtmZone(61)));
    // an uppercase band leaves the zone range to the coordinate's own check
    assert_eq!(utm_letter(61, 'T'), Ok(UtmLetter::Band(UTMBand::T)));
    assert_eq!(utm_letter(34, 't'), Err(GeoError::InvalidFormat(MSG_UTM_LETTER)));
    assert_eq!(utm_letter(34, 'I'), Err(GeoError::InvalidFormat(MSG_UTM_LETTER)));
}

#[test]
fn ups_letter_rules() {
    assert_eq!(ups_letter(0, 'Z', true, true), Ok(UPSBand::Z));
    assert_eq!(ups_letter(0, 'Z', true, false), Ok(UPSBand::Z));
    // on the seam a west letter belongs to the east half
    assert_eq!(ups_letter(0, 'A', true, true), Ok(UPSBand::B));
    assert_eq!(ups_letter(0, 'Y', true, true), Ok(UPSBand::Z));
    assert_eq!(ups_letter(0, 'A', false, false), Ok(UPSBand::A));
    assert_eq!(ups_letter(0, 'n', false, false), Ok(UPSBand::Y));
    assert_eq!(ups_letter(0, 'n', true, true), Ok(UPSBand::Z));
    assert_eq!(ups_letter(0, 's', true, false), Ok(UPSBand::B));
    assert_eq!(ups_letter(0, 's', false, false), Ok(UPSBand::A));
    assert_eq!(ups_letter(34, 'Z', true, false), Err(GeoError::InvalidFormat(MSG_UPS_SYNTAX)));
    assert_eq!(ups_letter(0, 'Q', true, false), Err(GeoError::InvalidFormat(MSG_UPS_LETTER)));
    assert_eq!(ups_letter(0, 'z', true, false), Err(GeoError::InvalidFormat(MSG_UPS_LETTER)));
}

#[test]
fn written_grid_text_reads_back() {
    for zone in 1..=60u8 {
        for band in [UTMBand::C, UTMBand::N, UTMBand::T, UTMBand::X] {
            for (e, n) in [("458083", "4960870"), ("500000.125", "0000000.000")] {
                let s = format!("{:02}{} {} {}", zone, band.as_char(), e, n);
                assert_eq!(tokens(&s), ok(zone, band.as_char(), e, n), "{s}");
                assert_eq!(utm_letter(zone, band.as_char()), Ok(UtmLetter::Band(band)));
            }
        }
    }
    for band in [UPSBand::A, UPSBand::B, UPSBand::Y, UPSBand::Z] {
        let s = format!("{} {} {}", band.as_char(), "2000000", "1333272");
        assert_eq!(tokens(&s), ok(0, band.as_char(), "2000000", "1333272"));
        assert_eq!(ups_letter(0, band.as_char(), false, false), Ok(band));
    }
}
