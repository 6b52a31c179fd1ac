use ernie_translate::builder::{build, default_prompts, RawParams};
use ernie_translate::errors::{ParamName, TranslateError};
use ernie_translate::payload::render_payload;

fn full_params() -> RawParams {
    RawParams {
        api_key: Some("ak".to_string()),
        secret_key: Some("sk".to_string()),
        model_string: Some("ernie-lite-8k".to_string()),
        system_prompt: None,
        prompts: None,
        temperature: None,
        top_p: None,
        penalty_score: None,
        request_url: None,
    }
}

#[test]
fn missing_api_key_is_config_error() {
    let mut p = full_params();
    p.api_key = None;
    let r = build("hi", "en", p);
    assert!(matches!(
        r,
        Err(TranslateError::MissingParameter(ParamName::ApiKey))
    ));
}

#[test]
fn missing_secret_key_is_config_error() {
    let mut p = full_params();
    p.secret_key = None;
    let r = build("hi", "en", p);
    assert!(matches!(
        r,
        Err(TranslateError::MissingParameter(ParamName::SecretKey))
    ));
}

#[test]
fn missing_model_string_is_config_error() {
    let mut p = full_params();
    p.model_string = None;
    let r = build("hi", "en", p);
    assert!(matches!(
        r,
        Err(TranslateError::MissingParameter(ParamName::ModelString))
    ));
}

#[test]
fn default_template_substitutes_last_message() {
    let r = build("你好，世界！", "en", full_params()).unwrap();
    let msgs = &r.payload.messages;
    assert_eq!(msgs.len(), 7);
    let last = &msgs[msgs.len() - 1];
    assert_eq!(last.role, "user");
    assert_eq!(
        last.content,
        "Translate the text delimited by ``` below to en, only return translation:\n```\n你好，世界！\n```\n"
    );
}

#[test]
fn build_is_deterministic_byte_identical() {
    let r1 = build("你好，世界！", "en", full_params()).unwrap();
    let r2 = build("你好，世界！", "en", full_params()).unwrap();
    let b1 = render_payload(&r1.payload);
    let b2 = render_payload(&r2.payload);
    assert_eq!(b1, b2);
}

#[test]
fn build_carries_plan_fields() {
    let r = build("hi", "en", full_params()).unwrap();
    assert_eq!(r.api_key, "ak");
    assert_eq!(r.secret_key, "sk");
    assert_eq!(r.model_string, "ernie-lite-8k");
    assert_eq!(
        r.request_url,
        "https://aip.baidubce.com/rpc/2.0/ai_custom/v1/wenxinworkshop/chat/"
    );
}

#[test]
fn temperature_zero_rejected() {
    let mut p = full_params();
    p.temperature = Some("0.0".to_string());
    assert!(matches!(
        build("hi", "en", p),
        Err(TranslateError::OutOfRange(ParamName::Temperature))
    ));
}

#[test]
fn temperature_one_accepted() {
    let mut p = full_params();
    p.temperature = Some("1.0".to_string());
    assert!(build("hi", "en", p).is_ok());
}

#[test]
fn temperature_above_one_rejected() {
    let mut p = full_params();
    p.temperature = Some("1.01".to_string());
    assert!(matches!(
        build("hi", "en", p),
        Err(TranslateError::OutOfRange(ParamName::Temperature))
    ));
}

#[test]
fn top_p_bounds_accepted() {
    let mut p = full_params();
    p.top_p = Some("0.0".to_string());
    assert!(build("hi", "en", p).is_ok());
    let mut p2 = full_params();
    p2.top_p = Some("1.0".to_string());
    assert!(build("hi", "en", p2).is_ok());
}

#[test]
fn top_p_outside_rejected() {
    let mut p = full_params();
    p.top_p = Some("1.01".to_string());
    assert!(matches!(
        build("hi", "en", p),
        Err(TranslateError::OutOfRange(ParamName::TopP))
    ));
    let mut p2 = full_params();
    p2.top_p = Some("-0.01".to_string());
    assert!(matches!(
        build("hi", "en", p2),
        Err(TranslateError::OutOfRange(ParamName::TopP))
    ));
}

#[test]
fn penalty_score_bounds() {
    let mut p = full_params();
    p.penalty_score = Some("1.0".to_string());
    assert!(build("hi", "en", p).is_ok());
    let mut p2 = full_params();
    p2.penalty_score = Some("2.0".to_string());
    assert!(build("hi", "en", p2).is_ok());
    let mut p3 = full_params();
    p3.penalty_score = Some("0.99".to_string());
    assert!(matches!(
        build("hi", "en", p3),
        Err(TranslateError::OutOfRange(ParamName::PenaltyScore))
    ));
    let mut p4 = full_params();
    p4.penalty_score = Some("2.01".to_string());
    assert!(matches!(
        build("hi", "en", p4),
        Err(TranslateError::OutOfRange(ParamName::PenaltyScore))
    ));
}

#[test]
fn unparsable_temperature_is_not_a_number() {
    let mut p = full_params();
    p.temperature = Some("abc".to_string());
    assert!(matches!(
        build("hi", "en", p),
        Err(TranslateError::NotANumber(ParamName::Temperature))
    ));
}

#[test]
fn malformed_prompts_truncated_array() {
    let mut p = full_params();
    p.prompts = Some("[{\"role\":\"user\",\"content\":\"x\"".to_string());
    assert!(matches!(
        build("hi", "en", p),
        Err(TranslateError::MalformedTemplate)
    ));
}

#[test]
fn prompts_not_an_array() {
    let mut p = full_params();
    p.prompts = Some("{\"role\":\"user\"}".to_string());
    assert!(matches!(
        build("hi", "en", p),
        Err(TranslateError::MalformedTemplate)
    ));
}

#[test]
fn rendered_payload_exact_text() {
    let mut p = full_params();
    p.prompts = Some("[{\"role\":\"user\",\"content\":\"hi $to$\"}]".to_string());
    let r = build("x", "en", p).unwrap();
    let body = render_payload(&r.payload);
    assert_eq!(
        body,
        "{\"messages\":[{\"role\":\"user\",\"content\":\"hi en\"}],\"stream\":false,\
         \"temperature\":0.6,\"top_p\":0.9,\"penalty_score\":1.0,\
         \"system\":\"You are a professional translation engine.\",\
         \"max_output_tokens\":2048}"
    );
}

#[test]
fn default_prompts_is_valid_template() {
    let text = default_prompts();
    let chars: Vec<char> = text.chars().collect();
    let parsed = ernie_translate::template::parse_template(&chars);
    assert!(parsed.is_some());
    assert_eq!(parsed.unwrap().len(), 7);
}

#[test]
fn custom_system_prompt_kept() {
    let mut p = full_params();
    p.system_prompt = Some("be brief".to_string());
    let r = build("hi", "en", p).unwrap();
    assert_eq!(r.payload.system, "be brief");
}
