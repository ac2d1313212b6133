//! Angular text: tokens, the split into two angles, the shape of an angle and which angle is
//! the latitude.

use geocoord::angles::{
    check_angle_shape, is_negative, latitude_dir, longitude_dir, pair_angles, split_angles,
    tokenize_angles, AngleGroup, AngleNum, AngleTok, AngleUnit, F64_OVERFLOW, MSG_AMBIGUOUS,
    MSG_COMPONENT_COUNT, MSG_HEMISPHERE_PAIR, MSG_MALFORMED_NUMBER, MSG_MORE_HEMISPHERES,
    MSG_NO_NUMBERS, MSG_ONE_COMMA, MSG_ONLY_HEMISPHERES, MSG_SIGN_ON_DEGREES,
    MSG_SIGN_OR_HEMISPHERE, MSG_TWO_HEMISPHERES, MSG_UNEXPECTED, MSG_UNIT_ORDER,
};
use geocoord::{GeoError, LatitudeDir, LongitudeDir};

fn num(start: usize, end: usize, unit: Option<AngleUnit>) -> AngleTok {
    AngleTok::Num(AngleNum { start, end, signed: false, negative: false, unit })
}

fn fmt_err(msg: &'static str) -> GeoError {
    GeoError::InvalidFormat(msg)
}

// The text of each number of a group, and its letter.
fn group_text(s: &str, g: &AngleGroup) -> (Vec<String>, Option<char>) {
    let chars: Vec<char> = s.chars().collect();
    (
        g.nums.iter().map(|n| chars[n.start..n.end].iter().collect()).collect(),
        g.hemi,
    )
}

// Latitude then longitude: each angle's numbers, its letter, and whether it is negative.
fn read(s: &str) -> Result<((Vec<String>, bool), (Vec<String>, bool)), GeoError> {
    let (a, b) = split_angles(s)?;
    check_angle_shape(&a)?;
    check_angle_shape(&b)?;
    let swap = pair_angles(a.hemi, b.hemi)?;
    let (lat, lon) = if swap { (b, a) } else { (a, b) };
    Ok((
        (group_text(s, &lat).0, is_negative(&lat)),
        (group_text(s, &lon).0, is_negative(&lon)),
    ))
}

fn words(v: &[&str]) -> Vec<String> {
    v.iter().map(|w| w.to_string()).collect()
}

#[test]
fn tokens_of_angular_text() {
    assert_eq!(tokenize_angles("44.5 20.25"), Ok(vec![num(0, 4, None), num(5, 10, None)]));
    assert_eq!(
        tokenize_angles("44°48'44.44\"N"),
        Ok(vec![
            num(0, 2, Some(AngleUnit::Deg)),
            num(3, 5, Some(AngleUnit::Min)),
            num(6, 11, Some(AngleUnit::Sec)),
            AngleTok::Hemi('N'),
        ])
    );
    assert_eq!(
        tokenize_angles("44 ° 48′ 44.44'' s"),
        Ok(vec![
            num(0, 2, Some(AngleUnit::Deg)),
            num(5, 7, Some(AngleUnit::Min)),
            num(9, 14, Some(AngleUnit::Sec)),
            AngleTok::Hemi('S'),
        ])
    );
    assert_eq!(
        tokenize_angles("44:48:44"),
        Ok(vec![num(0, 2, None), num(3, 5, None), num(6, 8, None)])
    );
    assert_eq!(
        tokenize_angles("-44.5; +.5/"),
        Ok(vec![
            AngleTok::Num(AngleNum { start: 1, end: 5, signed: true, negative: true, unit: None }),
            AngleTok::Split,
            AngleTok::Num(AngleNum { start: 8, end: 10, signed: true, negative: false, unit: None }),
            AngleTok::Split,
        ])
    );
    assert_eq!(
        tokenize_angles("\u{2212}1"),
        Ok(vec![AngleTok::Num(AngleNum {
            start: 1,
            end: 2,
            signed: true,
            negative: true,
            unit: None
        })])
    );
    assert_eq!(tokenize_angles("e w"), Ok(vec![AngleTok::Hemi('E'), AngleTok::Hemi('W')]));
    assert_eq!(tokenize_angles(""), Ok(vec![]));
}

#[test]
fn malformed_numbers_and_characters() {
    for s in ["1.2.3", ".", "-", "+.", "44 -", "1..2"] {
        assert_eq!(tokenize_angles(s), Err(fmt_err(MSG_MALFORMED_NUMBER)), "{s:?}");
    }
    assert_eq!(tokenize_angles("44.8123 lat"), Err(fmt_err(MSG_ONLY_HEMISPHERES)));
    // any alphabetic character other than the four letters, in any script
    assert_eq!(tokenize_angles("44 é"), Err(fmt_err(MSG_ONLY_HEMISPHERES)));
    assert_eq!(tokenize_angles("44 Ж"), Err(fmt_err(MSG_ONLY_HEMISPHERES)));
    assert_eq!(tokenize_angles("44 #"), Err(fmt_err(MSG_UNEXPECTED)));
    assert_eq!(tokenize_angles("44 _"), Err(fmt_err(MSG_UNEXPECTED)));
    assert_eq!(tokenize_angles("4,5 6"), Ok(vec![num(0, 1, None), AngleTok::Split, num(2, 3, None), num(4, 5, None)]));
}

#[test]
fn overflow_boundary_matches_f64_reading() {
    // 2^1024 - 2^970 is the least integer read as infinity.
    let limit = F64_OVERFLOW.to_string();
    assert!(limit.parse::<f64>().unwrap().is_infinite());
    assert_eq!(tokenize_angles(&limit), Err(fmt_err(MSG_MALFORMED_NUMBER)));
    // the limit minus one: it ends in ...792
    let mut digits: Vec<char> = limit.chars().collect();
    let last = digits.len() - 1;
    assert_eq!(digits[last], '2');
    digits[last] = '1';
    let below: String = digits.into_iter().collect();
    assert!(below.parse::<f64>().unwrap().is_finite());
    assert!(tokenize_angles(&below).is_ok());
    let below_frac = format!("{}.999999", below);
    assert!(below_frac.parse::<f64>().unwrap().is_finite());
    assert!(tokenize_angles(&below_frac).is_ok());
    let padded = format!("000{}", below);
    assert!(padded.parse::<f64>().unwrap().is_finite());
    assert!(tokenize_angles(&padded).is_ok());
    let over = format!("{}0", limit);
    assert!(over.parse::<f64>().unwrap().is_infinite());
    assert_eq!(tokenize_angles(&over), Err(fmt_err(MSG_MALFORMED_NUMBER)));
    let over_frac = format!("{}.5", limit);
    assert!(over_frac.parse::<f64>().unwrap().is_infinite());
    assert_eq!(tokenize_angles(&over_frac), Err(fmt_err(MSG_MALFORMED_NUMBER)));
}

#[test]
fn angular_notations_split() {
    let lat = words(&["44.812345678"]);
    let lon = words(&["20.461234567"]);
    for s in [
        "44.812345678, 20.461234567",
        "44.812345678 20.461234567",
        "44.812345678N 20.461234567E",
        "N44.812345678 E20.461234567",
        "20.461234567E 44.812345678N",
        "44.812345678° N, 20.461234567° E",
        "44.812345678 N 20.461234567",
        "44.812345678 20.461234567 E",
    ] {
        assert_eq!(read(s), Ok(((lat.clone(), false), (lon.clone(), false))), "{s}");
    }
    let lat3 = words(&["44", "48", "44.4444408"]);
    let lon3 = words(&["20", "27", "40.4444412"]);
    for s in [
        "44°48'44.4444408\"N 020°27'40.4444412\"E",
        "44 48 44.4444408 N 20 27 40.4444412 E",
        "44 48 44.4444408 20 27 40.4444412",
        "44:48:44.4444408N 20:27:40.4444412E",
        "44°48′44.4444408″N 020°27′40.4444412″E",
        "44°48'44.4444408''N 020°27'40.4444412''E",
        "E 20 27 40.4444412 N 44 48 44.4444408",
    ] {
        let ((a, _), (b, _)) = read(s).unwrap();
        assert_eq!(a, lat3, "{s}");
        assert_eq!(b.last().unwrap().trim_start_matches('0'), lon3[2], "{s}");
    }
    assert_eq!(
        read("-44.5 -20.25"),
        Ok(((words(&["44.5"]), true), (words(&["20.25"]), true)))
    );
    assert_eq!(
        read("\u{2212}44.5, \u{2212}20.25"),
        Ok(((words(&["44.5"]), true), (words(&["20.25"]), true)))
    );
    assert_eq!(
        read("44.5S 20.25W"),
        Ok(((words(&["44.5"]), true), (words(&["20.25"]), true)))
    );
    assert_eq!(
        read("20.25 W 44.5 S"),
        Ok(((words(&["44.5"]), true), (words(&["20.25"]), true)))
    );
}

#[test]
fn angular_rejections_by_structure() {
    assert_eq!(read(""), Err(fmt_err(MSG_NO_NUMBERS)));
    assert_eq!(read("N"), Err(fmt_err(MSG_NO_NUMBERS)));
    assert_eq!(read("N E"), Err(fmt_err(MSG_NO_NUMBERS)));
    assert_eq!(read("44.8123"), Err(fmt_err(MSG_AMBIGUOUS)));
    assert_eq!(read("44.8 20.4 30.1"), Err(fmt_err(MSG_AMBIGUOUS)));
    assert_eq!(read("44,8123 20,4612"), Err(fmt_err(MSG_ONE_COMMA)));
    assert_eq!(read("-44.8123 S 20.4612 E"), Err(fmt_err(MSG_SIGN_OR_HEMISPHERE)));
    assert_eq!(read("44.8123 N 20.4612 N"), Err(fmt_err(MSG_HEMISPHERE_PAIR)));
    assert_eq!(read("44 -48.7 N 20 27.6 E"), Err(fmt_err(MSG_SIGN_ON_DEGREES)));
    assert_eq!(read("44.8123 lat 20.4612 lon"), Err(fmt_err(MSG_ONLY_HEMISPHERES)));
    assert_eq!(read("44' 20"), Err(fmt_err(MSG_UNIT_ORDER)));
    assert_eq!(read("44 48° N 20 E"), Err(fmt_err(MSG_UNIT_ORDER)));
    assert_eq!(read("1 2 3 4, 5"), Err(fmt_err(MSG_COMPONENT_COUNT)));
    assert_eq!(read(", 5"), Err(fmt_err(MSG_COMPONENT_COUNT)));
    assert_eq!(read("N S 44, 20"), Err(fmt_err(MSG_TWO_HEMISPHERES)));
    assert_eq!(read("N 44 S 20 E"), Err(fmt_err(MSG_MORE_HEMISPHERES)));
    assert_eq!(read("44 N 20 E 10"), Err(fmt_err(MSG_AMBIGUOUS)));
    assert_eq!(read("44, 20, 10"), Err(fmt_err(MSG_ONE_COMMA)));
}

#[test]
fn latitude_is_found_in_either_order() {
    assert_eq!(pair_angles(Some('N'), Some('E')), Ok(false));
    assert_eq!(pair_angles(Some('E'), Some('N')), Ok(true));
    assert_eq!(pair_angles(Some('S'), None), Ok(false));
    assert_eq!(pair_angles(None, Some('S')), Ok(true));
    assert_eq!(pair_angles(Some('W'), None), Ok(true));
    assert_eq!(pair_angles(None, Some('W')), Ok(false));
    assert_eq!(pair_angles(None, None), Ok(false));
    assert_eq!(pair_angles(Some('N'), Some('S')), Err(fmt_err(MSG_HEMISPHERE_PAIR)));
    let letters = [None, Some('N'), Some('S'), Some('E'), Some('W')];
    for a in letters {
        for b in letters {
            if a.is_none() && b.is_none() {
                continue;
            }
            match (pair_angles(a, b), pair_angles(b, a)) {
                (Ok(x), Ok(y)) => assert_eq!(y, !x),
                (Err(e1), Err(e2)) => assert_eq!(e1, e2),
                other => panic!("{a:?} {b:?}: {other:?}"),
            }
        }
    }
}

#[test]
fn hemispheres_of_signs() {
    assert_eq!(latitude_dir(true), LatitudeDir::South);
    assert_eq!(latitude_dir(false), LatitudeDir::North);
    assert_eq!(longitude_dir(true), LongitudeDir::West);
    assert_eq!(longitude_dir(false), LongitudeDir::East);
}

#[test]
fn letters_before_or_after_the_numbers() {
    let expected = Ok(((words(&["44", "48"]), false), (words(&["20", "27"]), true)));
    for s in ["N 44 48 W 20 27", "44 48 N 20 27 W", "44 48 N, 20 27 W", "N 44 48, W 20 27"] {
        assert_eq!(read(s), expected, "{s}");
        let (a, b) = split_angles(s).unwrap();
        assert_eq!(group_text(s, &a), (words(&["44", "48"]), Some('N')), "{s}");
        assert_eq!(group_text(s, &b), (words(&["20", "27"]), Some('W')), "{s}");
    }
}
