//! Selection policies over normalized provider responses: direct dispatch,
//! ordered fallback with a configured default, and the smart policy that
//! escalates from the open provider to CommercialA when a returned road
//! distance is implausibly short against the straight-line distance.

use vstd::prelude::*;
use vstd::string::StrSliceExecFns;
use vstd::string::StringExecFns;

use crate::model::AggregationOutcome;
use crate::model::FailureKind;
use crate::model::GoogleRoute;
use crate::model::ProviderResponse;
use crate::model::Route;
use crate::model::RouteCandidate;
use crate::model::SourceId;
use crate::model::VBDError;

verus! {

/// Character-wise string comparison, so that contracts can speak about
/// string views directly.
pub fn str_eq(a: &str, b: &str) -> (r: bool)
    ensures
        r == (a@ == b@),
{
    let na = a.unicode_len();
    let nb = b.unicode_len();
    if na != nb {
        return false;
    }
    let mut i: usize = 0;
    while i < na
        invariant
            i <= na,
            na == a@.len(),
            na == b@.len(),
            forall|k: int| 0 <= k < i ==> a@[k] == b@[k],
        decreases na - i,
    {
        if a.get_char(i) != b.get_char(i) {
            return false;
        }
        i = i + 1;
    }
    proof {
        assert(a@ =~= b@);
    }
    true
}

/// The provider name used at the system boundary for each source.
pub fn source_name(id: SourceId) -> (r: &'static str)
    ensures
        id == SourceId::Osrm ==> r@ == "osrm"@,
        id == SourceId::Vietbando ==> r@ == "vietbando"@,
        id == SourceId::Google ==> r@ == "google"@,
        id == SourceId::Smart ==> r@ == "smart"@,
{
    match id {
        SourceId::Osrm => "osrm",
        SourceId::Vietbando => "vietbando",
        SourceId::Google => "google",
        SourceId::Smart => "smart",
    }
}

/// Which source a request profile names.
pub open spec fn spec_parse_source(s: Seq<char>) -> Option<SourceId> {
    if s == "osrm"@ {
        Some(SourceId::Osrm)
    } else if s == "vietbando"@ {
        Some(SourceId::Vietbando)
    } else if s == "google"@ {
        Some(SourceId::Google)
    } else if s == "smart"@ {
        Some(SourceId::Smart)
    } else {
        None
    }
}

/// Maps a profile or source token to its provider; `None` for any
/// unrecognized name.
pub fn parse_source(s: &str) -> (r: Option<SourceId>)
    ensures
        r == spec_parse_source(s@),
{
    if str_eq(s, "osrm") {
        Some(SourceId::Osrm)
    } else if str_eq(s, "vietbando") {
        Some(SourceId::Vietbando)
    } else if str_eq(s, "google") {
        Some(SourceId::Google)
    } else if str_eq(s, "smart") {
        Some(SourceId::Smart)
    } else {
        None
    }
}

/// Direct-mode planning: an unrecognized profile is a configuration error
/// answered with status 400 before any network call is attempted; a known
/// profile names the single policy to run.
pub fn plan_direct(profile: &str) -> (r: Result<SourceId, AggregationOutcome>)
    ensures
        spec_parse_source(profile@) is Some ==> r == Result::<SourceId, AggregationOutcome>::Ok(
            spec_parse_source(profile@)->Some_0,
        ),
        spec_parse_source(profile@) is None ==> (r matches Result::Err(o) && o matches
            AggregationOutcome::Failure { kind, message } && kind == FailureKind::Configuration
            && message@ == "missing or wrong profile param"@),
{
    match parse_source(profile) {
        Some(id) => Ok(id),
        None => Err(
            AggregationOutcome::Failure {
                kind: FailureKind::Configuration,
                message: String::from_str("missing or wrong profile param"),
            },
        ),
    }
}

/// The smart policy escalates exactly when the open provider succeeded and
/// some returned candidate's road distance (meters) is strictly below the
/// straight-line distance (here both in millimeters).
pub open spec fn spec_smart_escalates(resp: ProviderResponse, straight_mm: u64) -> bool {
    match resp {
        ProviderResponse::Success(cs) => exists|i: int|
            0 <= i < cs@.len() && ((#[trigger] cs@[i]).distance_m as int) * 1000
                < straight_mm as int,
        _ => false,
    }
}

/// What the smart policy does after the open provider's call: return that
/// response as it stands, or escalate once to CommercialA.
#[derive(Clone, Copy, PartialEq, Eq, Structural, Debug)]
pub enum SmartAction {
    ReturnOpen,
    Escalate,
}

/// Decides the smart policy from the open provider's response and the
/// straight-line distance of the request in millimeters.  A failed or empty
/// open call is returned as it stands (no escalation); a success with some
/// implausibly short candidate escalates exactly once.
pub fn smart_decision(resp: &ProviderResponse, straight_mm: u64) -> (r: SmartAction)
    ensures
        r == SmartAction::Escalate <==> spec_smart_escalates(*resp, straight_mm),
{
    match resp {
        ProviderResponse::Success(cs) => {
            let n = cs.len();
            let mut i: usize = 0;
            while i < n
                invariant
                    i <= n,
                    n == cs@.len(),
                    *resp == ProviderResponse::Success(*cs),
                    forall|k: int|
                        0 <= k < i ==> ((#[trigger] cs@[k]).distance_m as int) * 1000
                            >= straight_mm as int,
                decreases n - i,
            {
                let d = cs[i].distance_m;
                if (d as u128) * 1000 < (straight_mm as u128) {
                    proof {
                        let scs = (*resp)->Success_0;
                        assert(scs == *cs);
                        assert(0 <= (i as int) < scs@.len() && ((scs@[i as int]).distance_m as int)
                            * 1000 < straight_mm as int);
                        assert(spec_smart_escalates(*resp, straight_mm));
                    }
                    return SmartAction::Escalate;
                }
                i = i + 1;
            }
            SmartAction::ReturnOpen
        },
        _ => SmartAction::ReturnOpen,
    }
}

/// The first index of a usable response in an ordered-fallback transcript:
/// the earliest success carrying at least one candidate.
pub fn select_first_usable(rs: &Vec<ProviderResponse>) -> (r: Option<usize>)
    ensures
        match r {
            Some(i) => {
                &&& i < rs@.len()
                &&& rs@[i as int].spec_usable()
                &&& forall|k: int| 0 <= k < i ==> !(#[trigger] rs@[k]).spec_usable()
            },
            None => forall|k: int| 0 <= k < rs@.len() ==> !(#[trigger] rs@[k]).spec_usable(),
        },
{
    let n = rs.len();
    let mut i: usize = 0;
    while i < n
        invariant
            i <= n,
            n == rs@.len(),
            forall|k: int| 0 <= k < i ==> !(#[trigger] rs@[k]).spec_usable(),
        decreases n - i,
    {
        if rs[i].is_usable() {
            return Some(i);
        }
        i = i + 1;
    }
    None
}

/// Where an exhausted fallback chain turns next: the configured default
/// source, or the open provider when none is configured.
pub fn fallback_fallthrough(default_source: Option<SourceId>) -> (r: SourceId)
    ensures
        default_source matches Some(d) ==> r == d,
        default_source is None ==> r == SourceId::Osrm,
{
    match default_source {
        Some(d) => d,
        None => SourceId::Osrm,
    }
}

/// What reached the open provider on its primary endpoint.
#[derive(Clone, Copy, PartialEq, Eq, Structural, Debug)]
pub enum HttpEvent {
    /// The call timed out.
    Timeout,
    /// The call failed below HTTP (connection refused, DNS, TLS).
    TransportOther,
    /// The provider answered with this HTTP status.
    Status(u16),
}

/// The open-routing adapter's next step after its primary call.
#[derive(Clone, Copy, PartialEq, Eq, Structural, Debug)]
pub enum RetryDecision {
    /// Retry once against the configured default endpoint.
    RetryDefault,
    /// Give up with this failure class.
    Fail(FailureKind),
    /// Parse the answer.
    Accept,
}

/// Retry policy of the open-routing adapter: a timeout or a status outside
/// the 2xx/3xx range retries once against the default endpoint when one is
/// configured and fails otherwise; any other transport error fails without a
/// retry; a 2xx/3xx answer is accepted for parsing.
pub fn osrm_retry_decision(e: &HttpEvent, has_default: bool) -> (r: RetryDecision)
    ensures
        e == HttpEvent::Timeout && has_default ==> r == RetryDecision::RetryDefault,
        e == HttpEvent::Timeout && !has_default ==> r == RetryDecision::Fail(
            FailureKind::Transport,
        ),
        e == HttpEvent::TransportOther ==> r == RetryDecision::Fail(FailureKind::Transport),
        forall|s: u16|
            e == HttpEvent::Status(s) && 200 <= s < 400 ==> r == RetryDecision::Accept,
        forall|s: u16|
            e == HttpEvent::Status(s) && !(200 <= s < 400) && has_default ==> r
                == RetryDecision::RetryDefault,
        forall|s: u16|
            e == HttpEvent::Status(s) && !(200 <= s < 400) && !has_default ==> r
                == RetryDecision::Fail(FailureKind::UpstreamStatus),
{
    match e {
        HttpEvent::Timeout => {
            if has_default {
                RetryDecision::RetryDefault
            } else {
                RetryDecision::Fail(FailureKind::Transport)
            }
        },
        HttpEvent::TransportOther => RetryDecision::Fail(FailureKind::Transport),
        HttpEvent::Status(s) => {
            if 200 <= *s && *s < 400 {
                RetryDecision::Accept
            } else if has_default {
                RetryDecision::RetryDefault
            } else {
                RetryDecision::Fail(FailureKind::UpstreamStatus)
            }
        },
    }
}

/// A failure outcome with the given class and message; it serializes with
/// status 400 like every failure at the system boundary.
pub fn format_response(message: &str, kind: FailureKind) -> (r: AggregationOutcome)
    ensures
        r matches AggregationOutcome::Failure { kind: k, message: m } && k == kind && m@
            == message@,
{
    AggregationOutcome::Failure { kind, message: String::from_str(message) }
}

/// A success outcome carrying one normalized candidate and its source.
pub fn format_response_third_party(
    geometry: String,
    distance: u64,
    duration: u64,
    source: SourceId,
) -> (r: AggregationOutcome)
    ensures
        r matches AggregationOutcome::Success { candidate, source: s } && s == source
            && candidate.geometry == geometry && candidate.distance_m == distance
            && candidate.duration_s == duration,
{
    AggregationOutcome::Success {
        candidate: RouteCandidate { geometry, distance_m: distance, duration_s: duration },
        source,
    }
}

/// Turns one adapter response into the final outcome for its source: the
/// first candidate of a non-empty success wins; an empty success is reported
/// as no usable route; a failure passes through with its kind and message.
pub fn outcome_from_response(resp: ProviderResponse, source: SourceId) -> (r: AggregationOutcome)
    ensures
        resp.spec_usable() ==> ({
            &&& r matches AggregationOutcome::Success { candidate, source: s }
            &&& s == source
            &&& resp matches ProviderResponse::Success(cs)
            &&& candidate == cs@[0]
        }),
        resp matches ProviderResponse::Failure(k, m) ==> (r matches AggregationOutcome::Failure {
            kind,
            message,
        } && kind == k && message == m),
        !resp.spec_usable() && !(resp is Failure) ==> (r matches AggregationOutcome::Failure {
            kind,
            message,
        } && kind == FailureKind::NoUsableRoute && message@ == "no usable route"@),
{
    match resp {
        ProviderResponse::Success(mut cs) => {
            if cs.len() > 0 {
                let candidate = cs.remove(0);
                AggregationOutcome::Success { candidate, source }
            } else {
                AggregationOutcome::Failure {
                    kind: FailureKind::NoUsableRoute,
                    message: String::from_str("no usable route"),
                }
            }
        },
        ProviderResponse::SuccessEmpty => AggregationOutcome::Failure {
            kind: FailureKind::NoUsableRoute,
            message: String::from_str("no usable route"),
        },
        ProviderResponse::Failure(kind, message) => AggregationOutcome::Failure { kind, message },
    }
}

/// The ordering key a CommercialA alternative is minimized by: its
/// origin-to-destination via-distance, with alternatives that lack one
/// ordered after every alternative that has one.
pub open spec fn vbd_key(r: Route) -> int {
    if r.Via_Distances@.len() >= 2 {
        r.Via_Distances@[1] as int
    } else {
        0x7fffffffffffffff
    }
}

/// The index CommercialA selection picks: the first alternative whose
/// via-distance key is minimal; `None` only for an empty list.
pub fn select_vbd_route(routes: &Vec<Route>) -> (r: Option<usize>)
    ensures
        match r {
            Some(i) => {
                &&& i < routes@.len()
                &&& forall|k: int|
                    0 <= k < routes@.len() ==> vbd_key(routes@[i as int]) <= vbd_key(
                        #[trigger] routes@[k],
                    )
                &&& forall|k: int|
                    0 <= k < i ==> vbd_key(#[trigger] routes@[k]) > vbd_key(routes@[i as int])
            },
            None => routes@.len() == 0,
        },
{
    let n = routes.len();
    if n == 0 {
        return None;
    }
    let mut best: usize = 0;
    let mut best_key: i64 = vbd_key_exec(&routes[0]);
    let mut i: usize = 1;
    while i < n
        invariant
            1 <= i <= n,
            n == routes@.len(),
            best < i,
            best_key == vbd_key(routes@[best as int]),
            forall|k: int| 0 <= k < i ==> best_key <= vbd_key(#[trigger] routes@[k]),
            forall|k: int| 0 <= k < best ==> vbd_key(#[trigger] routes@[k]) > best_key,
        decreases n - i,
    {
        let key = vbd_key_exec(&routes[i]);
        if key < best_key {
            best = i;
            best_key = key;
        }
        i = i + 1;
    }
    Some(best)
}

/// The via-distance key of one alternative; `i64::MAX` stands in for a
/// missing one, ordering it last.
fn vbd_key_exec(r: &Route) -> (k: i64)
    ensures
        k as int == vbd_key(*r),
{
    if r.Via_Distances.len() >= 2 {
        r.Via_Distances[1] as i64
    } else {
        0x7fffffffffffffff
    }
}

/// Distance in meters a CommercialA alternative reports: entry 1 of its
/// via-distance list, a missing or negative entry defaulting to zero.
pub open spec fn vbd_dist(r: Route) -> int {
    if r.Via_Distances@.len() >= 2 && r.Via_Distances@[1] >= 0 {
        r.Via_Distances@[1] as int
    } else {
        0
    }
}

/// Duration in seconds a CommercialA alternative reports, defaulting as the
/// distance does.
pub open spec fn vbd_dur(r: Route) -> int {
    if r.Via_Durations@.len() >= 2 && r.Via_Durations@[1] >= 0 {
        r.Via_Durations@[1] as int
    } else {
        0
    }
}

/// `c` is what the CommercialA selection owes: built from the first
/// alternative whose via-distance key is minimal, with its geometry
/// transcoded from precision 6 to 5.
pub open spec fn is_vbd_choice(routes: Seq<Route>, c: RouteCandidate) -> bool {
    exists|i: int|
        #![auto]
        {
            &&& 0 <= i < routes.len()
            &&& forall|k: int|
                0 <= k < routes.len() ==> vbd_key(routes[i]) <= vbd_key(#[trigger] routes[k])
            &&& forall|k: int| 0 <= k < i ==> vbd_key(#[trigger] routes[k]) > vbd_key(routes[i])
            &&& c.geometry@ == crate::codec::reencode_spec(routes[i].Geometry@, 6, 5)
            &&& c.distance_m == vbd_dist(routes[i])
            &&& c.duration_s == vbd_dur(routes[i])
        }
}

/// The candidate the CommercialA adapter emits: the first alternative with
/// the minimal via-distance key, its geometry transcoded from precision 6 to
/// 5, distance and duration read with their documented defaults.
pub fn vbd_candidate(routes: &Vec<Route>) -> (r: Option<RouteCandidate>)
    ensures
        r is None <==> routes@.len() == 0,
        r matches Some(c) ==> is_vbd_choice(routes@, c),
{
    match select_vbd_route(routes) {
        None => None,
        Some(i) => {
            let rt = &routes[i];
            let geometry = crate::codec::decode_geometry(rt.Geometry.as_str());
            let distance_m: u64 = if rt.Via_Distances.len() >= 2 && rt.Via_Distances[1] >= 0 {
                rt.Via_Distances[1] as u64
            } else {
                0
            };
            let duration_s: u64 = if rt.Via_Durations.len() >= 2 && rt.Via_Durations[1] >= 0 {
                rt.Via_Durations[1] as u64
            } else {
                0
            };
            Some(RouteCandidate { geometry, distance_m, duration_s })
        },
    }
}

/// The message a CommercialA logical failure surfaces: the provider's own
/// error type and message when it sent one.
pub fn vbd_failure_message(error: &Option<VBDError>) -> (r: String)
    ensures
        error matches Some(e) ==> r@ == "request fail, type: "@ + e.ExceptionType@
            + ", message: "@ + e.Message@,
        error is None ==> r@ == "request fail"@,
{
    match error {
        Some(e) => {
            let mut s = String::from_str("request fail, type: ");
            s.append(e.ExceptionType.as_str());
            s.append(", message: ");
            s.append(e.Message.as_str());
            s
        },
        None => String::from_str("request fail"),
    }
}

/// The message a CommercialA logical failure owes the caller.
pub open spec fn vbd_failure_text(error: Option<VBDError>) -> Seq<char> {
    match error {
        Some(e) => "request fail, type: "@ + e.ExceptionType@ + ", message: "@ + e.Message@,
        None => "request fail"@,
    }
}

/// Normalizes a parsed CommercialA answer: a logical failure carries the
/// provider's own error text; a success emits exactly the selected
/// candidate, or reports an empty route list.
pub fn vbd_response(is_success: bool, error: &Option<VBDError>, routes: &Vec<Route>) -> (r:
    ProviderResponse)
    ensures
        !is_success ==> (r matches ProviderResponse::Failure(k, m) && k == FailureKind::Logical
            && m@ == vbd_failure_text(*error)),
        is_success && routes@.len() == 0 ==> r is SuccessEmpty,
        is_success && routes@.len() > 0 ==> (r matches ProviderResponse::Success(cs) && cs@.len()
            == 1 && is_vbd_choice(routes@, cs@[0])),
{
    if !is_success {
        ProviderResponse::Failure(FailureKind::Logical, vbd_failure_message(error))
    } else {
        match vbd_candidate(routes) {
            None => ProviderResponse::SuccessEmpty,
            Some(c) => {
                let mut cs: Vec<RouteCandidate> = Vec::new();
                cs.push(c);
                ProviderResponse::Success(cs)
            },
        }
    }
}

/// The ordering key of a CommercialB alternative: its first-leg metric, an
/// alternative without one ordered after every alternative that has one.
pub open spec fn google_key(r: GoogleRoute) -> int {
    match r.leg_metric {
        Some(v) => v as int,
        None => 0x8000000000000000,
    }
}

/// The index CommercialB selection picks: the first alternative whose
/// first-leg key is minimal; `None` only for an empty list.
pub fn select_google_route(routes: &Vec<GoogleRoute>) -> (r: Option<usize>)
    ensures
        match r {
            Some(i) => {
                &&& i < routes@.len()
                &&& forall|k: int|
                    0 <= k < routes@.len() ==> google_key(routes@[i as int]) <= google_key(
                        #[trigger] routes@[k],
                    )
                &&& forall|k: int|
                    0 <= k < i ==> google_key(#[trigger] routes@[k]) > google_key(
                        routes@[i as int],
                    )
            },
            None => routes@.len() == 0,
        },
{
    let n = routes.len();
    if n == 0 {
        return None;
    }
    let mut best: usize = 0;
    let mut best_key: Option<i64> = routes[0].leg_metric;
    let mut i: usize = 1;
    while i < n
        invariant
            1 <= i <= n,
            n == routes@.len(),
            best < i,
            best_key == routes@[best as int].leg_metric,
            forall|k: int|
                0 <= k < i ==> google_key(routes@[best as int]) <= google_key(
                    #[trigger] routes@[k],
                ),
            forall|k: int|
                0 <= k < best ==> google_key(#[trigger] routes@[k]) > google_key(
                    routes@[best as int],
                ),
        decreases n - i,
    {
        let cand = routes[i].leg_metric;
        let better: bool = match (cand, best_key) {
            (Some(v), Some(b)) => v < b,
            (Some(_), None) => true,
            (None, _) => false,
        };
        if better {
            best = i;
            best_key = cand;
        }
        i = i + 1;
    }
    Some(best)
}

/// The candidate the CommercialB adapter emits: the first minimal-key
/// alternative with its fields read under their documented defaults; its
/// polyline is already at the output precision, so no transcoding happens.
/// `c` is what the CommercialB selection owes: built from the first
/// alternative whose first-leg key is minimal, its fields read under their
/// documented defaults.
pub open spec fn is_google_choice(routes: Seq<GoogleRoute>, c: RouteCandidate) -> bool {
    exists|i: int|
        #![auto]
        {
            &&& 0 <= i < routes.len()
            &&& forall|k: int|
                0 <= k < routes.len() ==> google_key(routes[i]) <= google_key(
                    #[trigger] routes[k],
                )
            &&& forall|k: int| 0 <= k < i ==> google_key(#[trigger] routes[k]) > google_key(
                routes[i],
            )
            &&& routes[i].overview_points matches Some(g) ==> c.geometry@ == g@
            &&& routes[i].overview_points is None ==> c.geometry@ == Seq::<char>::empty()
            &&& c.distance_m as int == (match routes[i].distance_value {
                Some(d) => d as int,
                None => 0,
            })
            &&& c.duration_s as int == (match routes[i].duration_value {
                Some(d) => d as int,
                None => 0,
            })
        }
}

pub fn google_candidate(routes: &Vec<GoogleRoute>) -> (r: Option<RouteCandidate>)
    ensures
        r is None <==> routes@.len() == 0,
        r matches Some(c) ==> is_google_choice(routes@, c),
{
    match select_google_route(routes) {
        None => None,
        Some(i) => {
            let rt = &routes[i];
            let geometry: String = match &rt.overview_points {
                Some(g) => g.clone(),
                None => String::new(),
            };
            let distance_m: u64 = match rt.distance_value {
                Some(d) => d,
                None => 0,
            };
            let duration_s: u64 = match rt.duration_value {
                Some(d) => d,
                None => 0,
            };
            Some(RouteCandidate { geometry, distance_m, duration_s })
        },
    }
}

} // verus!
