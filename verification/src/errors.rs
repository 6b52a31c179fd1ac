//! The error taxonomy of the adapter.
//!
//! Every failure is terminal for the call: missing required parameters,
//! invalid generation parameters, a malformed template, token-fetch
//! failures, transport failures, and provider responses that are not a
//! success or lack the translated field.

use vstd::prelude::*;

verus! {

/// A caller-supplied parameter, named for error reports.
#[derive(Clone, Copy, Debug, PartialEq, Eq, Structural)]
pub enum ParamName {
    ApiKey,
    SecretKey,
    ModelString,
    Temperature,
    TopP,
    PenaltyScore,
}

/// Why a translation call failed.
#[derive(Debug)]
pub enum TranslateError {
    /// A required parameter is absent (a configuration error).
    MissingParameter(ParamName),
    /// A numeric parameter is not decimal text.
    NotANumber(ParamName),
    /// A numeric parameter lies outside its allowed interval.
    OutOfRange(ParamName),
    /// The prompt template is not a JSON array of message objects.
    MalformedTemplate,
    /// The token endpoint's response held no access token.
    AuthFailure,
    /// The network transport failed; the cause as text.
    TransportFailure(String),
    /// The provider answered with a non-success status; status and body.
    ProviderError(u16, String),
    /// A success response without the translated field.
    MissingResult,
}

} // verus!
