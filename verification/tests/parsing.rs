use routeagg::GoogleRoute;
use routeagg::ProviderResponse;
use routeagg::Route;
use routeagg::Steps;

fn route(geometry: &str, via: Vec<i32>, durations: Vec<i32>) -> Route {
    Route {
        Geometry: String::from(geometry),
        Steps: Steps {
            Distances: vec![],
            Durations: vec![],
            Indices: vec![],
            Names: vec![],
            Turns: vec![],
        },
        Via_Distances: via,
        Via_Durations: durations,
        Via_Indices: vec![],
    }
}

#[test]
fn parse_boundary_tokens() {
    let ws = routeagg::get_location("10.5,106.25;-0.75,8");
    assert_eq!(ws.len(), 2);
    assert_eq!((ws[0].lat_e6, ws[0].lng_e6), (10_500_000, 106_250_000));
    assert_eq!((ws[1].lat_e6, ws[1].lng_e6), (-750_000, 8_000_000));
}

#[test]
fn malformed_token_defaults_to_zero() {
    let ws = routeagg::get_location("abc,1e5");
    assert_eq!(ws.len(), 1);
    assert_eq!((ws[0].lat_e6, ws[0].lng_e6), (0, 0));
}

#[test]
fn token_without_comma_has_zero_longitude() {
    let ws = routeagg::get_location("10.25");
    assert_eq!(ws.len(), 1);
    assert_eq!((ws[0].lat_e6, ws[0].lng_e6), (10_250_000, 0));
}

#[test]
fn fraction_truncates_past_six_digits() {
    let ws = routeagg::get_location("1.23456789,0");
    assert_eq!(ws[0].lat_e6, 1_234_567);
}

#[test]
fn google_url_three_points() {
    let url = routeagg::build_google_url(
        "https://maps.example/api",
        "SECRET-REDACTED",
        "10.0,106.0;10.05,106.02;10.1,106.1",
    );
    assert_eq!(
        url,
        "https://maps.example/api?origin=10,106&destination=10.1,106.1&waypoints=10.05,106.02&key=SECRET-REDACTED"
    );
}

#[test]
fn google_url_single_point_has_no_destination() {
    let url = routeagg::build_google_url("u", "k", "10.5,106.5");
    assert_eq!(url, "u?origin=10.5,106.5&waypoints=&key=k");
}

#[test]
fn vbd_picks_first_minimal_via_distance() {
    let coords = vec![(10_700_000i64, 106_600_000i64)];
    let g6 = routeagg::encode_polyline_scaled(&coords, 6).unwrap();
    let routes = vec![
        route(&g6, vec![0, 300], vec![0, 40]),
        route(&g6, vec![0, 200], vec![0, 25]),
        route(&g6, vec![0, 200], vec![0, 99]),
    ];
    let c = routeagg::vbd_candidate(&routes).unwrap();
    assert_eq!(c.distance_m, 200);
    assert_eq!(c.duration_s, 25);
    assert_eq!(c.geometry, routeagg::decode_geometry(&g6));
    assert_ne!(c.geometry, g6);
}

#[test]
fn vbd_missing_via_entries_default() {
    let routes = vec![route("", vec![], vec![])];
    let c = routeagg::vbd_candidate(&routes).unwrap();
    assert_eq!(c.distance_m, 0);
    assert_eq!(c.duration_s, 0);
    assert_eq!(c.geometry, "");
}

#[test]
fn vbd_logical_failure_carries_provider_error() {
    let err = routeagg::VBDError {
        ExceptionType: String::from("InvalidPoint"),
        Message: String::from("outside coverage"),
    };
    let resp = routeagg::vbd_response(false, &Some(err), &vec![]);
    match resp {
        ProviderResponse::Failure(kind, message) => {
            assert_eq!(kind, routeagg::FailureKind::Logical);
            assert_eq!(
                message,
                "request fail, type: InvalidPoint, message: outside coverage"
            );
        }
        _ => panic!("expected a logical failure"),
    }
    let bare = routeagg::vbd_response(false, &None, &vec![]);
    match bare {
        ProviderResponse::Failure(_, message) => assert_eq!(message, "request fail"),
        _ => panic!("expected a failure"),
    }
}

#[test]
fn vbd_empty_route_list_is_success_empty() {
    let resp = routeagg::vbd_response(true, &None, &vec![]);
    assert!(matches!(resp, ProviderResponse::SuccessEmpty));
}

#[test]
fn google_picks_first_minimal_leg_metric() {
    let routes = vec![
        GoogleRoute {
            leg_metric: None,
            distance_value: Some(9),
            duration_value: Some(9),
            overview_points: Some(String::from("zzz")),
        },
        GoogleRoute {
            leg_metric: Some(70),
            distance_value: Some(4200),
            duration_value: Some(610),
            overview_points: Some(String::from("abc")),
        },
        GoogleRoute {
            leg_metric: Some(70),
            distance_value: Some(9999),
            duration_value: Some(999),
            overview_points: Some(String::from("def")),
        },
    ];
    let c = routeagg::google_candidate(&routes).unwrap();
    assert_eq!(c.distance_m, 4200);
    assert_eq!(c.duration_s, 610);
    assert_eq!(c.geometry, "abc");
}

#[test]
fn google_missing_fields_default() {
    let routes = vec![GoogleRoute {
        leg_metric: None,
        distance_value: None,
        duration_value: None,
        overview_points: None,
    }];
    let c = routeagg::google_candidate(&routes).unwrap();
    assert_eq!(c.distance_m, 0);
    assert_eq!(c.duration_s, 0);
    assert_eq!(c.geometry, "");
}
