//! Provider responses and endpoint addresses.
//!
//! The host performs the HTTP calls; the functions here decide everything
//! around them: the exact endpoint addresses, what a token response yields,
//! and what a translation response yields for every status and body.

use vstd::prelude::*;
use vstd::string::StringExecFns;
use crate::errors::TranslateError;

verus! {

/// The string value of field `key` in `body` read as a JSON document, when
/// `body` is a JSON object with such a field.
pub uninterp spec fn json_str_field(body: Seq<char>, key: Seq<char>) -> Option<Seq<char>>;

/// Relies on `serde_json::from_str`, `serde_json::Value::get` and
/// `serde_json::Value::as_str`: for a given body and key the extracted
/// field is a function of them alone — `Some` exactly when the body parses
/// as JSON, the parse is an object with that member, and the member is a
/// string.
#[verifier::external_body]
fn extract_string_field(body: &str, key: &str) -> (r: Option<String>)
    ensures
        r matches Some(v) ==> json_str_field(body@, key@) == Some(v@),
        r is None ==> json_str_field(body@, key@) is None,
{
    serde_json::from_str::<serde_json::Value>(body).ok().and_then(
        |doc| doc.get(key).and_then(|f| f.as_str()).map(|v| v.to_string()),
    )
}

/// The token carried by an authentication response: its `access_token`
/// field, or `AuthFailure` when the body holds none.
pub fn parse_auth_response(body: &str) -> (r: Result<String, TranslateError>)
    ensures
        match json_str_field(body@, "access_token"@) {
            Some(t) => r matches Ok(tok) && tok@ == t,
            None => r matches Err(e) && e is AuthFailure,
        },
{
    match extract_string_field(body, "access_token") {
        Some(tok) => Ok(tok),
        None => Err(TranslateError::AuthFailure),
    }
}

/// The translated text carried by a provider response: for a success
/// status the `result` field, else the status and body as a provider
/// error.  A success response without `result` is `MissingResult`.
pub fn extract_translation(status: u16, body: &str) -> (r: Result<String, TranslateError>)
    ensures
        !(200 <= status < 300) ==> (r matches Err(e) && (e matches TranslateError::ProviderError(
            st,
            b,
        ) && st == status && b@ == body@)),
        (200 <= status < 300) ==> match json_str_field(body@, "result"@) {
            Some(t) => r matches Ok(out) && out@ == t,
            None => r matches Err(e) && e is MissingResult,
        },
{
    if !(200 <= status && status < 300) {
        return Err(TranslateError::ProviderError(status, body.to_owned()));
    }
    match extract_string_field(body, "result") {
        Some(out) => Ok(out),
        None => Err(TranslateError::MissingResult),
    }
}

/// The token endpoint with the caller's credentials as query parameters.
pub fn compose_auth_url(api_key: &str, secret_key: &str) -> (r: String)
    ensures
        r@ == "https://aip.baidubce.com/oauth/2.0/token?grant_type=client_credentials&client_id="@
            + api_key@ + "&client_secret="@ + secret_key@,
{
    let mut u =
        "https://aip.baidubce.com/oauth/2.0/token?grant_type=client_credentials&client_id=".to_owned();
    u.append(api_key);
    u.append("&client_secret=");
    u.append(secret_key);
    u
}

/// The translation endpoint: base address, model, and the access token as
/// a query parameter.
pub fn compose_translate_url(request_url: &str, model_string: &str, token: &str) -> (r: String)
    ensures
        r@ == request_url@ + model_string@ + "?access_token="@ + token@,
{
    let mut u = request_url.to_owned();
    u.append(model_string);
    u.append("?access_token=");
    u.append(token);
    u
}

} // verus!
