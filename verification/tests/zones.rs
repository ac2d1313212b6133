//! Zone and band of a position: the zone rule on whole degrees and the band rows.

use geocoord::grid::{utm_zone_exists, utm_zone_from_degrees};
use geocoord::UTMBand;

// The zone of a position in degrees, reduced to the whole-degree inputs of the zone rule.
fn utm_zone(lat: f64, lon: f64) -> u8 {
    let col = ((lon + 180.0) / 6.0).floor() as u8;
    utm_zone_from_degrees(col, lat.floor() as i16, lat == lat.floor(), lon.floor() as i16)
}

// The band of a latitude through its row, None outside 80°S..84°N.
fn get_utm_band(latitude: f64) -> Option<UTMBand> {
    if !(-80.0..=84.0).contains(&latitude) {
        return None;
    }
    Some(UTMBand::from_row(((latitude + 80.0) / 8.0).trunc() as usize))
}

#[test]
fn zone_exceptions() {
    assert_eq!(utm_zone(56.0, 3.0), 32);
    assert_eq!(utm_zone(56.0, 2.999), 31);
    assert_eq!(utm_zone(64.0, 11.999), 32);
    assert_eq!(utm_zone(72.0, 0.0), 31);
    assert_eq!(utm_zone(84.0, 8.999), 31);
    assert_eq!(utm_zone(84.0, 9.0), 33);
    assert_eq!(utm_zone(80.0, 21.0), 35);
    assert_eq!(utm_zone(80.0, 33.0), 37);
    assert_eq!(utm_zone(80.0, 42.0), 38);
    assert_eq!(utm_zone(0.0, -180.0), 1);
    assert_eq!(utm_zone(0.0, 179.999), 60);
}

#[test]
fn band_of_latitude() {
    assert_eq!(get_utm_band(-80.0), Some(UTMBand::C));
    assert_eq!(get_utm_band(-0.0), Some(UTMBand::N));
    assert_eq!(get_utm_band(72.0), Some(UTMBand::X));
    assert_eq!(get_utm_band(84.0), Some(UTMBand::X));
    assert_eq!(get_utm_band(84.000001), None);
    assert_eq!(get_utm_band(-80.000001), None);
}

#[test]
fn zone_rule_on_whole_degrees() {
    // Norway: 56°N..64°N (exclusive), 3°E..12°E (exclusive)
    assert_eq!(utm_zone_from_degrees(30, 56, true, 3), 32);
    assert_eq!(utm_zone_from_degrees(31, 63, false, 11), 32);
    assert_eq!(utm_zone_from_degrees(31, 64, true, 11), 32);
    assert_eq!(utm_zone_from_degrees(30, 55, false, 3), 31);
    // Svalbard: 72°N..84°N inclusive of exactly 84°N
    assert_eq!(utm_zone_from_degrees(31, 83, false, 10), 33);
    assert_eq!(utm_zone_from_degrees(31, 84, true, 10), 33);
    assert_eq!(utm_zone_from_degrees(31, 84, false, 10), 32);
    assert_eq!(utm_zone_from_degrees(35, 75, false, 41), 37);
    assert_eq!(utm_zone_from_degrees(37, 75, false, 42), 38);
    // column past the last is the last zone
    assert_eq!(utm_zone_from_degrees(60, 0, true, 179), 60);
    assert_eq!(utm_zone_from_degrees(0, -10, true, -180), 1);
}


#[test]
fn zones_of_band_x_exist() {
    for lat_deg in 72..=84i16 {
        for lon_deg in -180..180i16 {
            let col = ((lon_deg + 180) / 6) as u8;
            for whole in [true, false] {
                if lat_deg == 84 && !whole {
                    continue;
                }
                let z = utm_zone_from_degrees(col, lat_deg, whole, lon_deg);
                assert!(utm_zone_exists(z, UTMBand::X), "{lat_deg} {lon_deg} -> {z}");
            }
        }
    }
}
