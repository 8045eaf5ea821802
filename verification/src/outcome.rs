//! What a verification ends in: the server's classification of a license
//! key, the errors, and the rule that maps a response to one of them.

use crate::text::same_text;
use vstd::prelude::*;

verus! {

/// The classification a validation server gives to a license key.
#[derive(Debug, Clone, Copy, PartialEq, Eq, Structural)]
pub enum ValidationType {
    Valid,
    NotFound,
    NotActive,
    Expired,
    LicenseScopeFailed,
    IpLimitExceeded,
    RateLimitExceeded,
    ServerError,
}

/// Why a verification did not end in a classification.
#[derive(Debug, Clone, Copy, PartialEq, Eq, Structural)]
pub enum LicenseGateError {
    /// The body was no JSON, reported an error, or could not be read.
    ServerError,
    /// The request could not be sent, or no response arrived.
    ConnectionError,
    /// Challenge mode was on and the signed challenge did not verify.
    ChallengeFailed,
    /// The server answered, and the license is not valid for this reason.
    Validation(ValidationType),
}

/// The classification that the `result` text of a response stands for,
/// beside the response's `valid` flag. `"VALID"` with the flag off is a
/// contradiction and counts as a server error; so does every unknown text.
pub open spec fn outcome_of(result: Seq<char>, valid: bool) -> ValidationType {
    if result == "VALID"@ {
        if valid {
            ValidationType::Valid
        } else {
            ValidationType::ServerError
        }
    } else if result == "NOT_FOUND"@ {
        ValidationType::NotFound
    } else if result == "NOT_ACTIVE"@ {
        ValidationType::NotActive
    } else if result == "EXPIRED"@ {
        ValidationType::Expired
    } else if result == "LICENSE_SCOPE_FAILED"@ {
        ValidationType::LicenseScopeFailed
    } else if result == "IP_LIMIT_EXCEEDED"@ {
        ValidationType::IpLimitExceeded
    } else if result == "RATE_LIMIT_EXCEEDED"@ {
        ValidationType::RateLimitExceeded
    } else {
        ValidationType::ServerError
    }
}

impl ValidationType {
    /// The classification for the `result` text and `valid` flag of a
    /// response.
    pub fn from_result(result: &str, valid: bool) -> (outcome: ValidationType)
        ensures
            outcome == outcome_of(result@, valid),
    {
        if same_text(result, "VALID") {
            if valid {
                ValidationType::Valid
            } else {
                ValidationType::ServerError
            }
        } else if same_text(result, "NOT_FOUND") {
            ValidationType::NotFound
        } else if same_text(result, "NOT_ACTIVE") {
            ValidationType::NotActive
        } else if same_text(result, "EXPIRED") {
            ValidationType::Expired
        } else if same_text(result, "LICENSE_SCOPE_FAILED") {
            ValidationType::LicenseScopeFailed
        } else if same_text(result, "IP_LIMIT_EXCEEDED") {
            ValidationType::IpLimitExceeded
        } else if same_text(result, "RATE_LIMIT_EXCEEDED") {
            ValidationType::RateLimitExceeded
        } else {
            ValidationType::ServerError
        }
    }
}

} // verus!
