use routeagg::AggregationOutcome;
use routeagg::FailureKind;
use routeagg::HttpEvent;
use routeagg::ProviderResponse;
use routeagg::RetryDecision;
use routeagg::RouteCandidate;
use routeagg::SmartAction;
use routeagg::SourceId;

fn candidate(distance_m: u64) -> RouteCandidate {
    RouteCandidate {
        geometry: String::new(),
        distance_m,
        duration_s: 60,
    }
}

#[test]
fn smart_escalates_on_implausibly_short_route() {
    // Straight line 1000 m (1_000_000 mm); reported road distance 500 m.
    let open = ProviderResponse::Success(vec![candidate(500)]);
    assert_eq!(routeagg::smart_decision(&open, 1_000_000), SmartAction::Escalate);
}

#[test]
fn smart_keeps_plausible_route() {
    // Straight line 1000 m; reported road distance 5000 m: no escalation.
    let open = ProviderResponse::Success(vec![candidate(5000)]);
    assert_eq!(routeagg::smart_decision(&open, 1_000_000), SmartAction::ReturnOpen);
    let outcome = routeagg::outcome_from_response(open, SourceId::Osrm);
    match outcome {
        AggregationOutcome::Success { candidate, source } => {
            assert_eq!(candidate.distance_m, 5000);
            assert_eq!(source, SourceId::Osrm);
        }
        _ => panic!("expected success"),
    }
}

#[test]
fn smart_escalation_calls_commercial_once_and_returns_its_result() {
    let open = ProviderResponse::Success(vec![candidate(500)]);
    let mut commercial_calls = 0;
    let outcome = match routeagg::smart_decision(&open, 1_000_000) {
        SmartAction::Escalate => {
            commercial_calls += 1;
            let commercial = ProviderResponse::Success(vec![candidate(1800)]);
            routeagg::outcome_from_response(commercial, SourceId::Vietbando)
        }
        SmartAction::ReturnOpen => routeagg::outcome_from_response(open, SourceId::Osrm),
    };
    assert_eq!(commercial_calls, 1);
    match outcome {
        AggregationOutcome::Success { candidate, source } => {
            assert_eq!(candidate.distance_m, 1800);
            assert_eq!(source, SourceId::Vietbando);
        }
        _ => panic!("expected the escalated result"),
    }
}

#[test]
fn smart_does_not_escalate_on_failure() {
    let open = ProviderResponse::Failure(FailureKind::Transport, String::from("request fail"));
    assert_eq!(routeagg::smart_decision(&open, 1_000_000), SmartAction::ReturnOpen);
}

#[test]
fn fallback_skips_failed_source_and_takes_next() {
    let ids: Vec<SourceId> = "osrm,google"
        .split(',')
        .map(|s| routeagg::parse_source(s).unwrap())
        .collect();
    assert_eq!(ids, vec![SourceId::Osrm, SourceId::Google]);
    let transcript = vec![
        ProviderResponse::Failure(FailureKind::Transport, String::from("request fail")),
        ProviderResponse::Success(vec![candidate(2500)]),
    ];
    let first = routeagg::select_first_usable(&transcript);
    assert_eq!(first, Some(1));
    let winner = transcript.into_iter().nth(1).unwrap();
    let outcome = routeagg::outcome_from_response(winner, ids[1]);
    assert_eq!(outcome.status(), 200);
    match outcome {
        AggregationOutcome::Success { source, .. } => assert_eq!(source, SourceId::Google),
        _ => panic!("expected success from the second source"),
    }
}

#[test]
fn fallback_exhausted_uses_default_then_osrm() {
    assert_eq!(
        routeagg::fallback_fallthrough(Some(SourceId::Vietbando)),
        SourceId::Vietbando
    );
    assert_eq!(routeagg::fallback_fallthrough(None), SourceId::Osrm);
}

#[test]
fn empty_success_is_no_usable_route() {
    let outcome = routeagg::outcome_from_response(ProviderResponse::SuccessEmpty, SourceId::Osrm);
    assert_eq!(outcome.status(), 400);
    match outcome {
        AggregationOutcome::Failure { kind, message } => {
            assert_eq!(kind, FailureKind::NoUsableRoute);
            assert_eq!(message, "no usable route");
        }
        _ => panic!("expected failure"),
    }
}

#[test]
fn unknown_profile_is_configuration_error_without_any_call() {
    let r = routeagg::plan_direct("walking");
    match r {
        Err(outcome) => {
            assert_eq!(outcome.status(), 400);
            match outcome {
                AggregationOutcome::Failure { kind, message } => {
                    assert_eq!(kind, FailureKind::Configuration);
                    assert_eq!(message, "missing or wrong profile param");
                }
                _ => panic!("expected failure"),
            }
        }
        Ok(_) => panic!("unknown profile must not resolve"),
    }
}

#[test]
fn known_profiles_resolve() {
    assert_eq!(routeagg::plan_direct("osrm").unwrap(), SourceId::Osrm);
    assert_eq!(routeagg::plan_direct("smart").unwrap(), SourceId::Smart);
    assert_eq!(routeagg::plan_direct("vietbando").unwrap(), SourceId::Vietbando);
    assert_eq!(routeagg::plan_direct("google").unwrap(), SourceId::Google);
}

#[test]
fn osrm_retry_policy() {
    assert_eq!(
        routeagg::osrm_retry_decision(&HttpEvent::Timeout, true),
        RetryDecision::RetryDefault
    );
    assert_eq!(
        routeagg::osrm_retry_decision(&HttpEvent::Timeout, false),
        RetryDecision::Fail(FailureKind::Transport)
    );
    assert_eq!(
        routeagg::osrm_retry_decision(&HttpEvent::TransportOther, true),
        RetryDecision::Fail(FailureKind::Transport)
    );
    assert_eq!(
        routeagg::osrm_retry_decision(&HttpEvent::Status(200), true),
        RetryDecision::Accept
    );
    assert_eq!(
        routeagg::osrm_retry_decision(&HttpEvent::Status(302), true),
        RetryDecision::Accept
    );
    assert_eq!(
        routeagg::osrm_retry_decision(&HttpEvent::Status(502), true),
        RetryDecision::RetryDefault
    );
    assert_eq!(
        routeagg::osrm_retry_decision(&HttpEvent::Status(404), false),
        RetryDecision::Fail(FailureKind::UpstreamStatus)
    );
}

#[test]
fn waypoint_accessors() {
    let mut w = routeagg::Waypoint::new(10_500_000, 106_250_000);
    assert_eq!((w.lat_e6, w.lng_e6), (10_500_000, 106_250_000));
    w.set_lat(-750_000);
    w.set_lng(8_000_000);
    assert_eq!((w.lat_e6, w.lng_e6), (-750_000, 8_000_000));
}

#[test]
fn commercial_a_body_has_fixed_options() {
    let b = routeagg::BodyVietBanDo::new(vec![routeagg::Waypoint::new(1, 2)]);
    assert_eq!(b.Alternative, 2);
    assert_eq!(b.Distance, 1);
    assert_eq!(b.Duration, 1);
    assert_eq!(b.Geometry, 1);
    assert_eq!(b.Instructions, 1);
    assert_eq!(b.Points.len(), 1);
    assert_eq!(b.RouteCriteria, 0);
    assert_eq!(b.Uturn, 1);
    assert_eq!(b.VehicleType, 3);
}

#[test]
fn response_constructors() {
    let f = routeagg::format_response("bad boundary", FailureKind::Configuration);
    assert_eq!(f.status(), 400);
    let s = routeagg::format_response_third_party(String::from("abc"), 1200, 300, SourceId::Google);
    assert_eq!(s.status(), 200);
    match s {
        AggregationOutcome::Success { candidate, source } => {
            assert_eq!(candidate.geometry, "abc");
            assert_eq!(candidate.distance_m, 1200);
            assert_eq!(candidate.duration_s, 300);
            assert_eq!(source, SourceId::Google);
        }
        _ => panic!("expected success"),
    }
}
