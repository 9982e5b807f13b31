//! Route-aggregation engine: queries independent routing providers for a path
//! between ordered geographic waypoints, normalizes their responses, and picks
//! a final answer by a per-mode policy (direct, ordered fallback, or a "smart"
//! mode that escalates from an open provider to a paid one only when the open
//! route looks implausible).

use vstd::prelude::*;

mod aggregator;
mod boundary;
mod codec;
mod coords;
mod distance;
mod model;

pub use aggregator::HttpEvent;
pub use aggregator::RetryDecision;
pub use aggregator::SmartAction;
pub use aggregator::fallback_fallthrough;
pub use aggregator::format_response;
pub use aggregator::format_response_third_party;
pub use aggregator::google_candidate;
pub use aggregator::osrm_retry_decision;
pub use aggregator::outcome_from_response;
pub use aggregator::parse_source;
pub use aggregator::plan_direct;
pub use aggregator::select_first_usable;
pub use aggregator::select_google_route;
pub use aggregator::select_vbd_route;
pub use aggregator::smart_decision;
pub use aggregator::source_name;
pub use aggregator::str_eq;
pub use aggregator::vbd_candidate;
pub use aggregator::vbd_failure_message;
pub use aggregator::vbd_response;
pub use boundary::build_google_url;
pub use boundary::get_location;
pub use codec::decode_geometry;
pub use codec::decode_polyline_text;
pub use codec::encode_polyline_scaled;
pub use codec::reencode;
pub use distance::total_distance_mm;
pub use model::AggregationOutcome;
pub use model::BodyVietBanDo;
pub use model::FailureKind;
pub use model::GoogleRoute;
pub use model::ProviderResponse;
pub use model::Route;
pub use model::RouteCandidate;
pub use model::SourceId;
pub use model::Steps;
pub use model::VBDError;
pub use model::Waypoint;

verus! {

} // verus!
