use geo::algorithm::vincenty_distance::VincentyDistance;
use geo::Point;

#[test]
fn decode_known_polyline() {
    let r = routeagg::decode_polyline_text("_p~iF~ps|U_ulLnnqC_mqNvxq`@", 5).unwrap();
    assert_eq!(
        r,
        vec![
            (3850000i64, -12020000i64),
            (4070000, -12095000),
            (4325200, -12645300)
        ]
    );
}

#[test]
fn encode_known_polyline() {
    let coords = vec![
        (3850000i64, -12020000i64),
        (4070000, -12095000),
        (4325200, -12645300),
    ];
    let s = routeagg::encode_polyline_scaled(&coords, 5).unwrap();
    assert_eq!(s, "_p~iF~ps|U_ulLnnqC_mqNvxq`@");
}

#[test]
fn encode_rejects_out_of_range() {
    // 430 degrees of latitude cannot be encoded.
    let coords = vec![(430_252_000i64, 0i64)];
    assert!(routeagg::encode_polyline_scaled(&coords, 6).is_none());
}

#[test]
fn reencode_drops_one_digit_of_precision() {
    let coords = vec![(10_000_000i64, 106_000_000i64), (10_123_456, 106_654_321)];
    let g6 = routeagg::encode_polyline_scaled(&coords, 6).unwrap();
    let g5 = routeagg::reencode(&g6, 6, 5);
    let at5 = routeagg::decode_polyline_text(&g5, 5).unwrap();
    assert_eq!(at5, vec![(1_000_000i64, 10_600_000i64), (1_012_346, 10_665_432)]);
}

#[test]
fn reencode_round_trip_stays_within_rounding() {
    let coords = vec![
        (10_000_000i64, 106_000_000i64),
        (10_123_456, 106_654_321),
        (-89_999_999, 179_999_999),
    ];
    let g6 = routeagg::encode_polyline_scaled(&coords, 6).unwrap();
    let g5 = routeagg::reencode(&g6, 6, 5);
    let g6b = routeagg::reencode(&g5, 5, 6);
    let back = routeagg::decode_polyline_text(&g6b, 6).unwrap();
    assert_eq!(back.len(), coords.len());
    for (a, b) in coords.iter().zip(back.iter()) {
        assert!((a.0 - b.0).abs() <= 5);
        assert!((a.1 - b.1).abs() <= 5);
    }
}

#[test]
fn reencode_agrees_with_outside_polyline_crate() {
    let coords = vec![(10_000_000i64, 106_000_000i64), (10_123_456, 106_654_321)];
    let g6 = routeagg::encode_polyline_scaled(&coords, 6).unwrap();
    let theirs_decoded = polyline::decode_polyline(&g6, 6).unwrap();
    let theirs = polyline::encode_coordinates(theirs_decoded, 5).unwrap();
    let mine = routeagg::reencode(&g6, 6, 5);
    assert_eq!(mine, theirs);
}

#[test]
fn reencode_malformed_returns_empty() {
    assert_eq!(
        routeagg::reencode("invalid_polyline_that_should_be_handled_gracefully", 5, 6),
        ""
    );
    assert_eq!(routeagg::decode_geometry("!!!"), "");
    assert_eq!(routeagg::decode_geometry("_p~iF"), "");
}

#[test]
fn decode_geometry_transcodes_six_to_five() {
    let coords = vec![(10_700_000i64, 106_600_000i64), (10_712_345, 106_654_321)];
    let g6 = routeagg::encode_polyline_scaled(&coords, 6).unwrap();
    let g5 = routeagg::decode_geometry(&g6);
    let at5 = routeagg::decode_polyline_text(&g5, 5).unwrap();
    assert_eq!(at5, vec![(1_070_000i64, 10_660_000i64), (1_071_235, 10_665_432)]);
}

#[test]
fn zero_or_one_waypoint_distance_is_zero() {
    let ws = routeagg::get_location("10.0,106.0");
    assert_eq!(ws.len(), 1);
    assert_eq!(routeagg::total_distance_mm(&vec![]), 0);
}

#[test]
fn total_distance_matches_ellipsoidal_reference() {
    // Boundary [(10.0,106.0), (10.1,106.1)]: reference from the geodesy
    // crate itself, and a sanity window around the known ~15.7 km span.
    let p1 = Point::new(106.0, 10.0);
    let p2 = Point::new(106.1, 10.1);
    let meters = p1.vincenty_distance(&p2).unwrap();
    let mm = (meters * 1000.0) as u64;
    let total = routeagg::total_distance_mm(&vec![Some(mm)]);
    assert_eq!(total, mm);
    assert!(total > 14_000_000 && total < 17_000_000);
}

#[test]
fn total_distance_skips_failed_pairs_and_sums() {
    let total = routeagg::total_distance_mm(&vec![Some(1_000), None, Some(2_500)]);
    assert_eq!(total, 3_500);
}

#[test]
fn total_distance_saturates() {
    let total = routeagg::total_distance_mm(&vec![Some(u64::MAX), Some(5)]);
    assert_eq!(total, u64::MAX);
}
