//! MGRS references as text.

use geocoord::mgrs::{
    GridReference, MSG_DIGIT_PAIRS, MSG_MGRS_SYNTAX, MSG_SQUARE_LETTERS, MSG_UPS_ZONE,
    MSG_ZONE_SYNTAX,
};
use geocoord::{GeoError, GridLetter, MGRSZone, UPSBand, UTMBand};

fn reference(s: &str) -> GridReference {
    s.parse().unwrap_or_else(|e| panic!("{s:?}: {e:?}"))
}

#[test]
fn reference_forms() {
    let m = reference("34TDQ5808260869");
    assert_eq!(
        m,
        GridReference {
            zone: MGRSZone::UTM(34, UTMBand::T),
            square: (GridLetter::D, GridLetter::Q),
            easting: 58082,
            northing: 60869,
            precision: 5,
        }
    );
    for s in [
        "34T DQ 58082 60869",
        "34tdq5808260869",
        " 34T DQ 5808260869 ",
        "3 4 t\tD q 58082\n60869",
    ] {
        assert_eq!(reference(s), m, "{s}");
    }
    let coarse = reference("34T DQ 5808 6086");
    assert_eq!((coarse.easting, coarse.northing, coarse.precision), (5808, 6086, 4));
    let bare = reference("34T DQ");
    assert_eq!((bare.easting, bare.northing, bare.precision), (0, 0, 0));
    let fine = reference("34TDQ580828217608699370");
    assert_eq!(
        (fine.easting, fine.northing, fine.precision),
        (580_828_217, 608_699_370, 9)
    );
    assert_eq!(reference("Z AH 00000 00000").zone, MGRSZone::UPS(UPSBand::Z));
    let ban = reference("BAN");
    assert_eq!(ban.zone, MGRSZone::UPS(UPSBand::B));
    assert_eq!(ban.square, (GridLetter::A, GridLetter::N));
    assert_eq!(reference("4Q FJ 1 2").zone, MGRSZone::UTM(4, UTMBand::Q));
}

#[test]
fn reference_rejections() {
    let err = |s: &str| s.parse::<GridReference>().unwrap_err();
    assert_eq!(err("34T"), GeoError::InvalidFormat(MSG_MGRS_SYNTAX));
    assert_eq!(err(""), GeoError::InvalidFormat(MSG_MGRS_SYNTAX));
    assert_eq!(err("340TDQ5808260869"), GeoError::InvalidFormat(MSG_MGRS_SYNTAX));
    assert_eq!(err("34TDQ 58082 60869 x"), GeoError::InvalidFormat(MSG_MGRS_SYNTAX));
    assert_eq!(err("34TDQ580826086"), GeoError::InvalidFormat(MSG_DIGIT_PAIRS));
    assert_eq!(err("34TDQ58082608699"), GeoError::InvalidFormat(MSG_DIGIT_PAIRS));
    assert_eq!(
        err("34TDQ12345678901234567890"),
        GeoError::InvalidFormat(MSG_DIGIT_PAIRS)
    );
    assert_eq!(err("34TIQ5808260869"), GeoError::InvalidFormat(MSG_SQUARE_LETTERS));
    assert_eq!(err("61TDQ"), GeoError::InvalidUtmZone(61));
    assert_eq!(err("00TDQ"), GeoError::InvalidUtmZone(0));
    assert_eq!(
        err("34IDQ"),
        GeoError::InvalidFormat("band letter must be one of C..X without I and O")
    );
    assert_eq!(err("QAH"), GeoError::InvalidFormat(MSG_UPS_ZONE));
}

#[test]
fn zone_designators() {
    assert_eq!(
        "34T".parse::<MGRSZone>().unwrap(),
        MGRSZone::UTM(34, UTMBand::T)
    );
    assert_eq!(" 4q ".parse::<MGRSZone>().unwrap(), MGRSZone::UTM(4, UTMBand::Q));
    assert_eq!("z".parse::<MGRSZone>().unwrap(), MGRSZone::UPS(UPSBand::Z));
    assert_eq!("61T".parse::<MGRSZone>(), Err(GeoError::InvalidUtmZone(61)));
    assert_eq!("q".parse::<MGRSZone>(), Err(GeoError::InvalidFormat(MSG_UPS_ZONE)));
    assert_eq!("".parse::<MGRSZone>(), Err(GeoError::InvalidFormat(MSG_ZONE_SYNTAX)));
    assert_eq!("340T".parse::<MGRSZone>(), Err(GeoError::InvalidFormat(MSG_ZONE_SYNTAX)));
    assert_eq!("34TT".parse::<MGRSZone>(), Err(GeoError::InvalidFormat(MSG_ZONE_SYNTAX)));
}

#[test]
fn reference_text() {
    let r = GridReference {
        zone: MGRSZone::UTM(34, UTMBand::T),
        square: (GridLetter::D, GridLetter::Q),
        easting: 57398,
        northing: 62245,
        precision: 5,
    };
    assert_eq!(r.to_text(), "34T DQ 57398 62245");
    assert_eq!(GridReference { precision: 0, ..r }.to_text(), "34T DQ");
    assert_eq!(
        GridReference { easting: 57, northing: 62, precision: 2, ..r }.to_text(),
        "34T DQ 57 62"
    );
    assert_eq!(
        GridReference { easting: 573986600, northing: 622458950, precision: 9, ..r }.to_text(),
        "34T DQ 573986600 622458950"
    );
    assert_eq!(
        GridReference { zone: MGRSZone::UTM(1, UTMBand::P), easting: 7, northing: 42, ..r }
            .to_text(),
        "01P DQ 00007 00042"
    );
    let polar = GridReference {
        zone: MGRSZone::UPS(UPSBand::Y),
        square: (GridLetter::S, GridLetter::H),
        easting: 52981,
        northing: 96454,
        precision: 5,
    };
    assert_eq!(polar.to_text(), "Y SH 52981 96454");
}

#[test]
fn written_references_read_back() {
    let zones = [
        MGRSZone::UTM(1, UTMBand::C),
        MGRSZone::UTM(34, UTMBand::T),
        MGRSZone::UTM(60, UTMBand::X),
        MGRSZone::UPS(UPSBand::A),
        MGRSZone::UPS(UPSBand::Z),
    ];
    for zone in zones {
        for i in 0..24usize {
            let square = (GridLetter::from_index(i), GridLetter::from_index(23 - i));
            for precision in 0..=9u8 {
                let limit = 10u64.pow(u32::from(precision));
                let easting = ((i as u64 * 7_919) % limit) as u32;
                let northing = ((limit - 1) * (i as u64 % 2)) as u32;
                let r = GridReference { zone, square, easting, northing, precision };
                assert_eq!(r.to_text().parse::<GridReference>().unwrap(), r);
            }
        }
    }
}

#[test]
fn reading_ignores_space_and_case() {
    for text in ["34TDQ5808260869", "zah", "BAN", "61TDQ", "34TIQ1", "4qfj12"] {
        let expected = text.parse::<GridReference>();
        assert_eq!(text.to_uppercase().parse::<GridReference>(), expected, "{text}");
        let chars: Vec<char> = text.chars().collect();
        for i in 0..=chars.len() {
            for w in [' ', '\t', '\u{3000}'] {
                let mut v = chars.clone();
                v.insert(i, w);
                let s: String = v.into_iter().collect();
                assert_eq!(s.parse::<GridReference>(), expected, "{s:?}");
            }
        }
    }
}
