//! Normalized data model shared by the provider adapters and the aggregator:
//! waypoints, provider identifiers, route candidates, provider responses and
//! the externally visible aggregation outcome.

use vstd::prelude::*;

verus! {

/// A geographic coordinate in fixed-point micro-degrees (degrees scaled by
/// 1_000_000), latitude first.  Fixed-point keeps the parsing, formatting and
/// distance-policy logic exact.
#[derive(Clone, Copy, PartialEq, Eq, Structural, Debug)]
pub struct Waypoint {
    pub lat_e6: i64,
    pub lng_e6: i64,
}

impl Waypoint {
    pub fn new(lat_e6: i64, lng_e6: i64) -> (r: Waypoint)
        ensures
            r.lat_e6 == lat_e6,
            r.lng_e6 == lng_e6,
    {
        Waypoint { lat_e6, lng_e6 }
    }

    pub fn set_lat(&mut self, lat_e6: i64)
        ensures
            final(self).lat_e6 == lat_e6,
            final(self).lng_e6 == old(self).lng_e6,
    {
        self.lat_e6 = lat_e6;
    }

    pub fn set_lng(&mut self, lng_e6: i64)
        ensures
            final(self).lng_e6 == lng_e6,
            final(self).lat_e6 == old(self).lat_e6,
    {
        self.lng_e6 = lng_e6;
    }
}

/// The CommercialA request payload: the waypoints plus the routing options
/// this system fixes by policy (alternatives on, full geometry, distances,
/// durations and instructions requested, shortest-distance criterion off,
/// u-turns allowed, vehicle type 3).
#[derive(Clone, Debug)]
pub struct BodyVietBanDo {
    pub Alternative: i8,
    pub Distance: i8,
    pub Duration: i8,
    pub Geometry: i8,
    pub Instructions: i8,
    pub Points: Vec<Waypoint>,
    pub RouteCriteria: i8,
    pub Uturn: i8,
    pub VehicleType: i8,
}

impl BodyVietBanDo {
    /// The fixed option values every CommercialA request carries.
    pub fn new(points: Vec<Waypoint>) -> (r: BodyVietBanDo)
        ensures
            r.Alternative == 2,
            r.Distance == 1,
            r.Duration == 1,
            r.Geometry == 1,
            r.Instructions == 1,
            r.Points == points,
            r.RouteCriteria == 0,
            r.Uturn == 1,
            r.VehicleType == 3,
    {
        BodyVietBanDo {
            Alternative: 2,
            Distance: 1,
            Duration: 1,
            Geometry: 1,
            Instructions: 1,
            Points: points,
            RouteCriteria: 0,
            Uturn: 1,
            VehicleType: 3,
        }
    }
}

/// Identifier of one routing provider, or of the smart policy where a source
/// list may name it.
#[derive(Clone, Copy, PartialEq, Eq, Structural, Debug)]
pub enum SourceId {
    Osrm,
    Vietbando,
    Google,
    Smart,
}

/// One provider's proposed path, already normalized: an encoded-polyline
/// geometry, a road distance in whole meters and a duration in whole seconds.
#[derive(Clone, Debug)]
pub struct RouteCandidate {
    pub geometry: String,
    pub distance_m: u64,
    pub duration_s: u64,
}

/// Why an adapter call produced no usable route.
#[derive(Clone, Copy, PartialEq, Eq, Structural, Debug)]
pub enum FailureKind {
    /// Network-level failure or timeout.
    Transport,
    /// The provider answered with a non-success HTTP status.
    UpstreamStatus,
    /// The provider's response did not match the expected schema.
    Parse,
    /// The provider understood the request but reports it cannot be satisfied.
    Logical,
    /// A required setting or parameter is missing or unrecognized.
    Configuration,
    /// Every source was exhausted without a usable route.
    NoUsableRoute,
}

/// Tagged result of a single provider-adapter call.
#[derive(Clone, Debug)]
pub enum ProviderResponse {
    /// The call succeeded and returned the given candidates, in provider order.
    Success(Vec<RouteCandidate>),
    /// The call succeeded but carried no usable route.
    SuccessEmpty,
    /// The call failed; the kind classifies it and the message describes it.
    Failure(FailureKind, String),
}

impl ProviderResponse {
    /// A response is usable exactly when it is a success carrying at least one
    /// candidate; anything else makes an ordered-fallback chain advance.
    pub open spec fn spec_usable(&self) -> bool {
        match self {
            ProviderResponse::Success(cs) => cs@.len() > 0,
            _ => false,
        }
    }

    /// Usability test driving the ordered-fallback policy.
    pub fn is_usable(&self) -> (r: bool)
        ensures
            r == self.spec_usable(),
    {
        match self {
            ProviderResponse::Success(cs) => cs.len() > 0,
            _ => false,
        }
    }
}

/// The final externally visible result: one chosen candidate with the name of
/// the provider that produced it, or a classified failure.
#[derive(Clone, Debug)]
pub enum AggregationOutcome {
    /// Serialized to HTTP status 200.
    Success { candidate: RouteCandidate, source: SourceId },
    /// Serialized to HTTP status 400, whatever the kind.
    Failure { kind: FailureKind, message: String },
}

impl AggregationOutcome {
    /// The HTTP status this outcome maps to at the system boundary: every
    /// success is 200 and every failure class is a uniform 400.
    pub fn status(&self) -> (r: u16)
        ensures
            r == 200 <==> self is Success,
            r == 400 <==> self is Failure,
    {
        match self {
            AggregationOutcome::Success { .. } => 200,
            AggregationOutcome::Failure { .. } => 400,
        }
    }
}

/// A provider-reported error of the CommercialA provider, surfaced verbatim
/// when its success flag is false.
#[derive(Clone, Debug)]
pub struct VBDError {
    pub ExceptionType: String,
    pub Message: String,
}

/// Per-segment detail of one CommercialA route alternative.
#[derive(Clone, Debug)]
pub struct Steps {
    pub Distances: Vec<i32>,
    pub Durations: Vec<i32>,
    pub Indices: Vec<i32>,
    pub Names: Vec<String>,
    pub Turns: Vec<i32>,
}

/// One CommercialA route alternative as the provider reports it: encoded
/// geometry at precision 6 plus via-point distance, duration and index lists
/// whose entry 1 is the origin-to-destination figure.
#[derive(Clone, Debug)]
pub struct Route {
    pub Geometry: String,
    pub Steps: Steps,
    pub Via_Distances: Vec<i32>,
    pub Via_Durations: Vec<i32>,
    pub Via_Indices: Vec<i32>,
}

/// One route alternative of the CommercialB provider, reduced to the fields
/// the selection reads; absent fields stay `None` and fall back to documented
/// defaults.
#[derive(Clone, Debug)]
pub struct GoogleRoute {
    /// The first-leg metric the selection minimizes; `None` when the response
    /// did not carry one.
    pub leg_metric: Option<i64>,
    /// Road distance in meters of the first leg.
    pub distance_value: Option<u64>,
    /// Travel time in seconds of the first leg.
    pub duration_value: Option<u64>,
    /// Encoded overview polyline, already at the output precision.
    pub overview_points: Option<String>,
}

} // verus!
