//! Autonomous-system information for an organisation (ProjectDiscovery's asnmap).
use vstd::prelude::*;

use crate::address::{address_string, address_text, IpAddress};
use crate::modules::FetchError;
use crate::text::{concat, strip_suffixes, strip_suffixes_str};

verus! {

/// One address block of an autonomous system, as asnmap reports it.
#[derive(Debug)]
pub struct AsnEntry {
    pub first_ip: String,
    pub last_ip: String,
    pub asn: i64,
    pub country: String,
    pub org: String,
}

/// The organisation name that stands for `domain`: the domain with every
/// trailing `.com` removed.
pub open spec fn organisation(domain: Seq<char>) -> Seq<char> {
    strip_suffixes(domain, ".com"@)
}

/// The organisation name that stands for `domain` (`trim_end_matches(".com")`).
pub fn base_domain(domain: &str) -> (r: String)
    ensures
        r@ == organisation(domain@),
{
    strip_suffixes_str(domain, ".com")
}

/// The address that asks asnmap about the organisation that stands for `domain`.
pub fn query_url(domain: &str) -> (r: String)
    ensures
        r@ == "https://asn.projectdiscovery.io/api/v1/asnmap?org="@ + organisation(domain@),
{
    let base = base_domain(domain);
    concat("https://asn.projectdiscovery.io/api/v1/asnmap?org=", base.as_str())
}

/// For a `body` that is a JSON document: whether its top-level value is an
/// object with a member named `key` (`Some(true)`) or not (`Some(false)`);
/// `None` for a body that is not a JSON document.
pub uninterp spec fn json_top_level_member(body: Seq<u8>, key: Seq<char>) -> Option<bool>;

/// Parses `body` with `serde_json::from_slice::<serde_json::Value>` and asks
/// the parsed value for its member `key` with `serde_json::Value::get`. The
/// claim: the answer depends on the bytes and the key alone. What it is for
/// given bytes is not stated here (it is serde_json's JSON grammar).
#[verifier::external_body]
fn json_member_present(body: &[u8], key: &str) -> (r: Option<bool>)
    ensures
        r == json_top_level_member(body@, key@),
{
    serde_json::from_slice::<serde_json::Value>(body).ok().map(|v| v.get(key).is_some())
}

/// The member whose presence in asnmap's answer reports an error.
pub open spec fn error_member() -> Seq<char> {
    "error"@
}

/// Whether asnmap's answer `body` reports an error: it is a JSON object with
/// an `error` member. A body that is not JSON reports none.
pub open spec fn reports_error(body: Seq<u8>) -> bool {
    json_top_level_member(body, error_member()) == Some(true)
}

/// Whether `body` reports an error, given what the JSON probe of its `error`
/// member found: an unreadable body (`None`) reports none.
pub fn error_reported(member_present: Option<bool>) -> (r: bool)
    ensures
        r == (member_present == Some(true)),
{
    match member_present {
        Some(present) => present,
        None => false,
    }
}

/// What asnmap's answer amounts to, given whether the fetched body reported
/// an error (`Ok(true)`), did not (`Ok(false)`), or could not be fetched
/// (`Err`), and the body decoded as a list of entries: an error report
/// means no entries; otherwise the decoded list, or its decoding failure.
pub fn resolve(
    reported_error: Result<bool, FetchError>,
    decoded: Result<Vec<AsnEntry>, FetchError>,
) -> (r: Result<Vec<AsnEntry>, FetchError>)
    ensures
        match reported_error {
            Err(e) => r == Err::<Vec<AsnEntry>, FetchError>(e),
            Ok(true) => r matches Ok(v) && v@.len() == 0,
            Ok(false) => r == decoded,
        },
{
    match reported_error {
        Err(e) => Err(e),
        Ok(true) => Ok(Vec::new()),
        Ok(false) => decoded,
    }
}

/// The address blocks that asnmap's answer lists. `body` is the fetched
/// answer; `decoded` is that same body decoded as a list of entries. A body
/// that is a JSON object with an `error` member yields no entries.
pub fn enumerate(body: Result<Vec<u8>, FetchError>, decoded: Result<Vec<AsnEntry>, FetchError>) -> (r:
    Result<Vec<AsnEntry>, FetchError>)
    ensures
        match body {
            Err(e) => r == Err::<Vec<AsnEntry>, FetchError>(e),
            Ok(bytes) => if reports_error(bytes@) {
                r matches Ok(v) && v@.len() == 0
            } else {
                r == decoded
            },
        },
{
    let reported_error = match body {
        Err(e) => Err(e),
        Ok(bytes) => Ok(error_reported(json_member_present(bytes.as_slice(), "error"))),
    };
    resolve(reported_error, decoded)
}

/// The `/24` blocks that an entry's first and last addresses fall in: each
/// address in its canonical text, followed by `/24`.
pub fn calculate_ip_blocks(first_ip: &IpAddress, last_ip: &IpAddress) -> (r: Vec<String>)
    ensures
        r@.len() == 2,
        r@[0]@ == address_text(*first_ip) + "/24"@,
        r@[1]@ == address_text(*last_ip) + "/24"@,
{
    let mut r: Vec<String> = Vec::new();
    let mut first = address_string(first_ip);
    first.append("/24");
    r.push(first);
    let mut last = address_string(last_ip);
    last.append("/24");
    r.push(last);
    r
}

} // verus!
