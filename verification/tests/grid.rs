//! Square letters, bands and zones.

use geocoord::grid::{
    grid_square_corner, mgrs_set, ups_band, ups_col_pos, ups_grid_extent, ups_square_corner,
    ups_square_letters, utm_central_meridian, utm_square_corner, utm_square_letters,
    utm_zone_exists,
};
use geocoord::{GeoError, GridLetter, MGRSZone, UPSBand, UTMBand};

#[test]
fn square_letters_follow_the_aa_scheme() {
    // zone 34 (set 4): columns start at A, rows at F
    assert_eq!(mgrs_set(34), 3);
    assert_eq!(
        utm_square_corner(34, UTMBand::T, (GridLetter::D, GridLetter::Q)).unwrap(),
        (400_000, 4_900_000)
    );
    // zone 1 (set 1), band C: row A resolves above the band minimum, not to 0
    assert_eq!(
        utm_square_corner(1, UTMBand::C, (GridLetter::A, GridLetter::A)).unwrap(),
        (100_000, 2_000_000)
    );
    assert!(utm_square_corner(34, UTMBand::T, (GridLetter::Z, GridLetter::Q)).is_err());
    assert!(utm_square_corner(34, UTMBand::T, (GridLetter::D, GridLetter::W)).is_err());
}

#[test]
fn polar_square_letters() {
    assert_eq!(
        ups_square_corner(UPSBand::Y, (GridLetter::R, GridLetter::A)).unwrap(),
        (1_300_000, 1_300_000)
    );
    assert_eq!(
        ups_square_corner(UPSBand::Z, (GridLetter::J, GridLetter::P)).unwrap(),
        (2_600_000, 2_600_000)
    );
    assert_eq!(
        ups_square_corner(UPSBand::A, (GridLetter::J, GridLetter::A)).unwrap(),
        (800_000, 800_000)
    );
    assert_eq!(
        ups_square_corner(UPSBand::B, (GridLetter::R, GridLetter::Z)).unwrap(),
        (3_100_000, 3_100_000)
    );
    assert!(ups_square_corner(UPSBand::Y, (GridLetter::Q, GridLetter::A)).is_err());
    assert!(ups_square_corner(UPSBand::Z, (GridLetter::K, GridLetter::P)).is_err());
}

#[test]
fn letters_and_indices() {
    for i in 0..48usize {
        let g = GridLetter::from_index(i);
        assert_eq!(g.as_index(), i % 24);
        assert_eq!(GridLetter::from_index(g.as_index()), g);
        assert_eq!(g.as_char().to_string().parse::<GridLetter>().unwrap(), g);
    }
    assert_eq!(GridLetter::from_index(8).as_char(), 'J');
    assert_eq!(UTMBand::T.as_char(), 'T');
    assert_eq!(UPSBand::Y.as_char(), 'Y');
    assert_eq!("t".parse::<UTMBand>().unwrap(), UTMBand::T);
    assert_eq!(" x ".parse::<UTMBand>().unwrap(), UTMBand::X);
    assert!("I".parse::<UTMBand>().is_err());
    assert!("TT".parse::<UTMBand>().is_err());
    assert_eq!("z".parse::<UPSBand>().unwrap(), UPSBand::Z);
    assert_eq!(
        "C".parse::<UPSBand>(),
        Err(GeoError::InvalidFormat("UPS band must be one of A, B, Y, Z"))
    );
    assert_eq!("d".parse::<GridLetter>().unwrap(), GridLetter::D);
    assert!("i".parse::<GridLetter>().is_err());
    assert!("o".parse::<GridLetter>().is_err());
}

#[test]
fn band_tables() {
    assert_eq!(UTMBand::C.get_min_northing(), 1_100_000);
    assert_eq!(UTMBand::N.get_min_northing(), 0);
    assert_eq!(UTMBand::X.get_min_northing(), 7_900_000);
    assert!(UTMBand::M.is_south());
    assert!(!UTMBand::N.is_south());
    assert_eq!(UTMBand::C.lat_range(), (-80, -72));
    assert_eq!(UTMBand::X.lat_range(), (72, 84));
    assert_eq!(UTMBand::from_row(0), UTMBand::C);
    assert_eq!(UTMBand::from_row(10), UTMBand::N);
    assert_eq!(UTMBand::from_row(25), UTMBand::X);
    assert_eq!(utm_central_meridian(1), -177);
    assert_eq!(utm_central_meridian(34), 21);
    assert!(!utm_zone_exists(32, UTMBand::X));
    assert!(utm_zone_exists(33, UTMBand::X));
    assert!(utm_zone_exists(32, UTMBand::W));
    assert_eq!(ups_col_pos(GridLetter::A), Some(0));
    assert_eq!(ups_col_pos(GridLetter::Z), Some(17));
    assert_eq!(ups_col_pos(GridLetter::D), None);
    assert_eq!(ups_band(true, true), UPSBand::Z);
    assert_eq!(ups_band(false, false), UPSBand::A);
    assert_eq!(ups_grid_extent(true), (1_300_000, 2_700_000));
    assert_eq!(ups_grid_extent(false), (800_000, 3_200_000));
}

#[test]
fn letters_of_a_square_lead_back_to_it() {
    // 34T 458083 4960870 lies in square DQ
    let sq = utm_square_letters(34, 4, 49);
    assert_eq!(sq, (GridLetter::D, GridLetter::Q));
    assert_eq!(utm_square_corner(34, UTMBand::T, sq).unwrap(), (400_000, 4_900_000));
    for zone in 1..=60u8 {
        for e in 1..=8u32 {
            for n in 0..100u32 {
                let sq = utm_square_letters(zone, e, n);
                let band = UTMBand::from_row(((n as usize) * 100_000 / 1_000_000).min(19));
                let (e0, n0) = utm_square_corner(zone, band, sq).unwrap();
                assert_eq!(e0, e * 100_000);
                assert_eq!(n0 % 2_000_000, (n % 20) * 100_000);
            }
        }
    }
    // polar: every square of each zone's extent
    for band in [UPSBand::A, UPSBand::B, UPSBand::Y, UPSBand::Z] {
        let north = matches!(band, UPSBand::Y | UPSBand::Z);
        let (lo, hi) = ups_grid_extent(north);
        let (elo, ehi) = geocoord::grid::ups_easting_extent(band);
        for e in (elo / 100_000)..(ehi / 100_000) {
            for n in (lo / 100_000)..(hi / 100_000) {
                let sq = ups_square_letters(band, e, n);
                assert_eq!(
                    ups_square_corner(band, sq).unwrap(),
                    (e * 100_000, n * 100_000)
                );
            }
        }
    }
}

#[test]
fn zone_checks_of_a_reference() {
    assert_eq!(
        grid_square_corner(MGRSZone::UTM(0, UTMBand::T), (GridLetter::D, GridLetter::Q)),
        Err(GeoError::InvalidUtmZone(0))
    );
    assert_eq!(
        grid_square_corner(MGRSZone::UTM(61, UTMBand::T), (GridLetter::D, GridLetter::Q)),
        Err(GeoError::InvalidUtmZone(61))
    );
    assert!(matches!(
        grid_square_corner(MGRSZone::UTM(32, UTMBand::X), (GridLetter::M, GridLetter::S)),
        Err(GeoError::OutOfProjectionBounds(_))
    ));
    assert_eq!(
        grid_square_corner(MGRSZone::UTM(34, UTMBand::T), (GridLetter::D, GridLetter::Q)),
        Ok((400_000, 4_900_000))
    );
    assert_eq!(
        grid_square_corner(MGRSZone::UPS(UPSBand::Z), (GridLetter::A, GridLetter::H)),
        Ok((2_000_000, 2_000_000))
    );
}
