use ernie_translate::errors::TranslateError;
use ernie_translate::response::{
    compose_auth_url, compose_translate_url, extract_translation, parse_auth_response,
};

#[test]
fn auth_response_yields_token() {
    let r = parse_auth_response("{\"access_token\":\"tok123\",\"expires_in\":2592000}");
    assert_eq!(r.unwrap(), "tok123");
}

#[test]
fn auth_response_without_token_fails() {
    assert!(matches!(
        parse_auth_response("{\"error\":\"invalid_client\"}"),
        Err(TranslateError::AuthFailure)
    ));
    assert!(matches!(
        parse_auth_response("not json at all"),
        Err(TranslateError::AuthFailure)
    ));
    assert!(matches!(
        parse_auth_response("{\"access_token\":42}"),
        Err(TranslateError::AuthFailure)
    ));
}

#[test]
fn mocked_success_response_yields_result() {
    let r = extract_translation(200, "{\"result\":\"Hello, world!\"}");
    assert_eq!(r.unwrap(), "Hello, world!");
}

#[test]
fn success_response_without_result_is_missing_result() {
    assert!(matches!(
        extract_translation(200, "{\"error_code\":17}"),
        Err(TranslateError::MissingResult)
    ));
}

#[test]
fn non_success_status_is_provider_error() {
    match extract_translation(500, "server blew up") {
        Err(TranslateError::ProviderError(status, body)) => {
            assert_eq!(status, 500);
            assert_eq!(body, "server blew up");
        }
        _ => panic!("expected a provider error"),
    }
}

#[test]
fn auth_url_exact() {
    assert_eq!(
        compose_auth_url("AK", "SK"),
        "https://aip.baidubce.com/oauth/2.0/token?grant_type=client_credentials&client_id=AK&client_secret=SK"
    );
}

#[test]
fn translate_url_exact() {
    assert_eq!(
        compose_translate_url(
            "https://aip.baidubce.com/rpc/2.0/ai_custom/v1/wenxinworkshop/chat/",
            "ernie-lite-8k",
            "tok"
        ),
        "https://aip.baidubce.com/rpc/2.0/ai_custom/v1/wenxinworkshop/chat/ernie-lite-8k?access_token=tok"
    );
}
