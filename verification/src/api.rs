//! Plain data shapes of the two call contracts this library serves: the
//! request payloads a caller hands in and the response it takes back. The
//! transport layer around the library converts between these and its own
//! wire types; the extraction logic itself only reads and fills them.

use vstd::prelude::*;

verus! {

/// A request to parse an alert e-mail body.
pub struct Payload {
    pub api_key: String,
    pub email_body: String,
    pub domain_exclusions: Vec<String>,
}

/// A request to filter a list of strings by exclusion substrings.
pub struct FilterByExclusions {
    pub api_key: String,
    pub strings: Vec<String>,
    pub exclusions: Vec<String>,
}

/// The outcome handed back to a caller: the surviving or parsed strings,
/// and any row-level diagnostics.
pub struct Response {
    pub filtered_messages: Vec<String>,
    pub error_messages: Vec<String>,
}

/// A request to parse a CIPP alert body.
pub struct CIPPAlertData {
    pub api_key: String,
    pub body: String,
    pub domain_exclusions: Vec<String>,
}

} // verus!
