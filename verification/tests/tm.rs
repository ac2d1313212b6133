//! Transverse Mercator constants.

use geocoord::wgs84::rectifying_radius_nm;

#[test]
fn rectifying_radius_matches_reference() {
    let tm_a = rectifying_radius_nm() as f64 / 1e9;
    assert!((tm_a - 6_367_449.145_823_415).abs() < 1e-6);
}

#[test]
fn rectifying_radius_is_exact_to_the_nanometre() {
    assert_eq!(rectifying_radius_nm(), 6_367_449_145_823_415);
}
