//! Reading the capture time out of a sidecar's JSON payload, and the
//! capture-date precedence rule.

use vstd::prelude::*;
use crate::dates::{spec_parse_i64, parse_i64};

verus! {

/// The capture-time field a sidecar payload reports under
/// `photoTakenTime.timestamp`, as a function of the payload text alone.
pub uninterp spec fn sidecar_ts_of(s: Seq<char>) -> Option<Seq<char>>;

/// Whether a payload text is well-formed JSON, as a function of the text
/// alone.
pub uninterp spec fn json_wf(s: Seq<char>) -> bool;

/// Relies on `serde_json::from_str::<Value>`, `Value::get` and
/// `Value::as_str`: the string found under `photoTakenTime.timestamp`
/// depends on the payload text alone, and is only found in a payload that
/// parses.
#[verifier::external_body]
pub fn sidecar_timestamp_field(content: &str) -> (r: Option<String>)
    ensures
        match r {
            Some(t) => sidecar_ts_of(content@) == Some(t@),
            None => sidecar_ts_of(content@) is None,
        },
        r is Some ==> json_wf(content@),
{
    let v: serde_json::Value = match serde_json::from_str(content) {
        Ok(v) => v,
        Err(_) => return None,
    };
    v.get("photoTakenTime")
        .and_then(|t| t.get("timestamp"))
        .and_then(|t| t.as_str())
        .map(|t| t.to_string())
}

/// Relies on `serde_json::from_str::<Value>`: whether the payload text
/// parses as JSON depends on the text alone.
#[verifier::external_body]
pub fn json_is_valid(content: &str) -> (r: bool)
    ensures
        r == json_wf(content@),
{
    serde_json::from_str::<serde_json::Value>(content).is_ok()
}

/// The epoch seconds a sidecar payload reports: its capture-time field
/// read as a decimal integer, when there is one and it fits the machine
/// range.
pub open spec fn spec_sidecar_epoch(p: Seq<char>) -> Option<int> {
    match sidecar_ts_of(p) {
        Some(ts) => match spec_parse_i64(ts) {
            Some(v) => if i64::MIN <= v <= i64::MAX {
                Some(v)
            } else {
                None
            },
            None => None,
        },
        None => None,
    }
}

/// Reads and parses the capture time of one sidecar payload.
pub fn sidecar_epoch(content: &str) -> (r: Option<i64>)
    ensures
        match spec_sidecar_epoch(content@) {
            Some(v) => r matches Some(x) && x as int == v,
            None => r is None,
        },
{
    match sidecar_timestamp_field(content) {
        Some(ts) => parse_i64(ts.as_str()),
        None => None,
    }
}

/// Resolves the capture date of a media file: embedded capture metadata
/// first; otherwise the associated sidecar's reported time; otherwise no
/// date.
pub fn resolve_capture_date(embedded: Option<i64>, sidecar_payload: Option<&str>) -> (r: Option<
    i64,
>)
    ensures
        embedded matches Some(t) ==> r == Some(t),
        embedded is None ==> (match sidecar_payload {
            Some(p) => (match spec_sidecar_epoch(p@) {
                Some(v) => r matches Some(x) && x as int == v,
                None => r is None,
            }),
            None => r is None,
        }),
{
    match embedded {
        Some(t) => Some(t),
        None => match sidecar_payload {
            Some(p) => sidecar_epoch(p),
            None => None,
        },
    }
}

} // verus!
