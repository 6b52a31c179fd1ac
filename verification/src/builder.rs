//! The request builder.
//!
//! From the caller's parameter bag, `build` validates the required and
//! optional parameters in a fixed order, substitutes the target language
//! and source text into the prompt template, and assembles the provider
//! payload together with everything the host needs to address the call.
//! It is pure: identical inputs give identical plans, and no I/O happens
//! here.

use vstd::prelude::*;
use crate::decimal::{dec_den, dec_num, spec_parse_decimal, parse_decimal, Decimal, DecimalV};
use crate::errors::{ParamName, TranslateError};
use crate::payload::{payload_wf, PayloadV, TranslationPayload};
use crate::subst::{spec_subst, substitute};
use crate::template::{msgs_view, parse_template, spec_parse_template, Message, MessageV};
use crate::text::{chars_to_string, str_to_chars};

verus! {

/// The caller's parameter bag: three required entries and six optional
/// ones, all textual.
pub struct RawParams {
    pub api_key: Option<String>,
    pub secret_key: Option<String>,
    pub model_string: Option<String>,
    pub system_prompt: Option<String>,
    pub prompts: Option<String>,
    pub temperature: Option<String>,
    pub top_p: Option<String>,
    pub penalty_score: Option<String>,
    pub request_url: Option<String>,
}

pub struct RawParamsV {
    pub api_key: Option<Seq<char>>,
    pub secret_key: Option<Seq<char>>,
    pub model_string: Option<Seq<char>>,
    pub system_prompt: Option<Seq<char>>,
    pub prompts: Option<Seq<char>>,
    pub temperature: Option<Seq<char>>,
    pub top_p: Option<Seq<char>>,
    pub penalty_score: Option<Seq<char>>,
    pub request_url: Option<Seq<char>>,
}

pub open spec fn osview(o: Option<String>) -> Option<Seq<char>> {
    match o {
        Some(s) => Some(s@),
        None => None,
    }
}

impl View for RawParams {
    type V = RawParamsV;

    open spec fn view(&self) -> RawParamsV {
        RawParamsV {
            api_key: osview(self.api_key),
            secret_key: osview(self.secret_key),
            model_string: osview(self.model_string),
            system_prompt: osview(self.system_prompt),
            prompts: osview(self.prompts),
            temperature: osview(self.temperature),
            top_p: osview(self.top_p),
            penalty_score: osview(self.penalty_score),
            request_url: osview(self.request_url),
        }
    }
}

/// Everything one translation call needs besides the response handling:
/// the payload, the endpoint pieces, and the credentials.
pub struct RequestPlan {
    pub payload: TranslationPayload,
    pub request_url: String,
    pub model_string: String,
    pub api_key: String,
    pub secret_key: String,
}

pub struct RequestPlanV {
    pub payload: PayloadV,
    pub request_url: Seq<char>,
    pub model_string: Seq<char>,
    pub api_key: Seq<char>,
    pub secret_key: Seq<char>,
}

impl View for RequestPlan {
    type V = RequestPlanV;

    open spec fn view(&self) -> RequestPlanV {
        RequestPlanV {
            payload: self.payload@,
            request_url: self.request_url@,
            model_string: self.model_string@,
            api_key: self.api_key@,
            secret_key: self.secret_key@,
        }
    }
}

pub open spec fn spec_default_system_prompt() -> Seq<char> {
    "You are a professional translation engine."@
}

pub open spec fn spec_default_prompts() -> Seq<char> {
    r#"[{"role":"user","content":"You are a professional translation engine, skilled in translating text into accurate, professional, fluent, and natural translations, avoiding mechanical literal translations like machine translation. You only translate the text without interpreting it. You only respond with the translated text and do not include any additional content."},{"role":"assistant","content":"OK, I will only translate the text content you provided, never interpret it."},{"role":"user","content":"Translate the text delimited by ``` below to Simplified Chinese(简体中文), only return translation:\n```\nHello, world!\n```\n"},{"role":"assistant","content":"你好，世界！"},{"role":"user","content":"Translate the text delimited by ``` below to English, only return translation:\n```\n再见，小明\n```\n"},{"role":"assistant","content":"Bye, Xiaoming."},{"role":"user","content":"Translate the text delimited by ``` below to $to$, only return translation:\n```\n$src_text$\n```\n"}]"#@
}

pub open spec fn spec_default_temperature() -> Seq<char> {
    "0.6"@
}

pub open spec fn spec_default_top_p() -> Seq<char> {
    "0.9"@
}

pub open spec fn spec_default_penalty_score() -> Seq<char> {
    "1.0"@
}

pub open spec fn spec_default_request_url() -> Seq<char> {
    "https://aip.baidubce.com/rpc/2.0/ai_custom/v1/wenxinworkshop/chat/"@
}

/// The default prompt template as text.
pub fn default_prompts() -> (r: String)
    ensures
        r@ == spec_default_prompts(),
{
    r#"[{"role":"user","content":"You are a professional translation engine, skilled in translating text into accurate, professional, fluent, and natural translations, avoiding mechanical literal translations like machine translation. You only translate the text without interpreting it. You only respond with the translated text and do not include any additional content."},{"role":"assistant","content":"OK, I will only translate the text content you provided, never interpret it."},{"role":"user","content":"Translate the text delimited by ``` below to Simplified Chinese(简体中文), only return translation:\n```\nHello, world!\n```\n"},{"role":"assistant","content":"你好，世界！"},{"role":"user","content":"Translate the text delimited by ``` below to English, only return translation:\n```\n再见，小明\n```\n"},{"role":"assistant","content":"Bye, Xiaoming."},{"role":"user","content":"Translate the text delimited by ``` below to $to$, only return translation:\n```\n$src_text$\n```\n"}]"#.to_owned()
}

pub open spec fn to_placeholder() -> Seq<char> {
    seq!['$', 't', 'o', '$']
}

pub open spec fn src_placeholder() -> Seq<char> {
    seq!['$', 's', 'r', 'c', '_', 't', 'e', 'x', 't', '$']
}

fn placeholder_to() -> (v: Vec<char>)
    ensures
        v@ == to_placeholder(),
{
    let mut v: Vec<char> = Vec::new();
    v.push('$');
    v.push('t');
    v.push('o');
    v.push('$');
    assert(v@ =~= to_placeholder());
    v
}

fn placeholder_src() -> (v: Vec<char>)
    ensures
        v@ == src_placeholder(),
{
    let mut v: Vec<char> = Vec::new();
    v.push('$');
    v.push('s');
    v.push('r');
    v.push('c');
    v.push('_');
    v.push('t');
    v.push('e');
    v.push('x');
    v.push('t');
    v.push('$');
    assert(v@ =~= src_placeholder());
    v
}

/// One message after substitution: the role kept, every `$to$` replaced
/// by the target language and every `$src_text$` by the source text.
pub open spec fn spec_substitute_message(m: MessageV, to: Seq<char>, text: Seq<char>) -> MessageV {
    MessageV {
        role: m.role,
        content: spec_subst(m.content, to_placeholder(), to, src_placeholder(), text),
    }
}

/// What `build` returns, for every input: each required parameter checked
/// in order, each numeric parameter parsed then range-checked in order,
/// the template parsed, and the payload assembled.
pub open spec fn spec_build(text: Seq<char>, to: Seq<char>, p: RawParamsV) -> Result<
    RequestPlanV,
    TranslateError,
> {
    match (p.api_key, p.secret_key, p.model_string) {
        (None, _, _) => Err(TranslateError::MissingParameter(ParamName::ApiKey)),
        (Some(_), None, _) => Err(TranslateError::MissingParameter(ParamName::SecretKey)),
        (Some(_), Some(_), None) => Err(TranslateError::MissingParameter(ParamName::ModelString)),
        (Some(api_key), Some(secret_key), Some(model_string)) => {
            let system = match p.system_prompt {
                Some(v) => v,
                None => spec_default_system_prompt(),
            };
            let prompts = match p.prompts {
                Some(v) => v,
                None => spec_default_prompts(),
            };
            let temp_txt = match p.temperature {
                Some(v) => v,
                None => spec_default_temperature(),
            };
            let top_txt = match p.top_p {
                Some(v) => v,
                None => spec_default_top_p(),
            };
            let pen_txt = match p.penalty_score {
                Some(v) => v,
                None => spec_default_penalty_score(),
            };
            let request_url = match p.request_url {
                Some(v) => v,
                None => spec_default_request_url(),
            };
            match spec_parse_decimal(temp_txt) {
                None => Err(TranslateError::NotANumber(ParamName::Temperature)),
                Some(tv) => match spec_parse_decimal(top_txt) {
                    None => Err(TranslateError::NotANumber(ParamName::TopP)),
                    Some(pv) => match spec_parse_decimal(pen_txt) {
                        None => Err(TranslateError::NotANumber(ParamName::PenaltyScore)),
                        Some(sv) => {
                            if !(dec_num(tv) > 0 && dec_num(tv) <= 1 * dec_den(tv)) {
                                Err(TranslateError::OutOfRange(ParamName::Temperature))
                            } else if !(dec_num(pv) >= 0 && dec_num(pv) <= 1 * dec_den(pv)) {
                                Err(TranslateError::OutOfRange(ParamName::TopP))
                            } else if !(dec_den(sv) <= dec_num(sv) && dec_num(sv) <= 2 * dec_den(
                                sv,
                            )) {
                                Err(TranslateError::OutOfRange(ParamName::PenaltyScore))
                            } else {
                                match spec_parse_template(prompts) {
                                    None => Err(TranslateError::MalformedTemplate),
                                    Some(ms) => Ok(
                                        RequestPlanV {
                                            payload: PayloadV {
                                                messages: ms.map_values(
                                                    |m: MessageV| spec_substitute_message(m, to, text),
                                                ),
                                                temperature: tv,
                                                top_p: pv,
                                                penalty_score: sv,
                                                system: system,
                                            },
                                            request_url: request_url,
                                            model_string: model_string,
                                            api_key: api_key,
                                            secret_key: secret_key,
                                        },
                                    ),
                                }
                            }
                        },
                    },
                },
            }
        },
    }
}

/// Build the request plan for one call, exactly as `spec_build` says.
/// The plan's payload is well formed, so it can always be rendered.
pub fn build(text: &str, to: &str, params: RawParams) -> (r: Result<RequestPlan, TranslateError>)
    ensures
        spec_build(text@, to@, params@) == (match r {
            Ok(plan) => Ok::<RequestPlanV, TranslateError>(plan@),
            Err(e) => Err::<RequestPlanV, TranslateError>(e),
        }),
        r matches Ok(plan) ==> payload_wf(plan@.payload),
{
    let ghost pv0 = params@;
    let RawParams {
        api_key,
        secret_key,
        model_string,
        system_prompt,
        prompts,
        temperature,
        top_p,
        penalty_score,
        request_url,
    } = params;
    let api_key = match api_key {
        Some(v) => v,
        None => {
            return Err(TranslateError::MissingParameter(ParamName::ApiKey));
        },
    };
    let secret_key = match secret_key {
        Some(v) => v,
        None => {
            return Err(TranslateError::MissingParameter(ParamName::SecretKey));
        },
    };
    let model_string = match model_string {
        Some(v) => v,
        None => {
            return Err(TranslateError::MissingParameter(ParamName::ModelString));
        },
    };
    let system = match system_prompt {
        Some(v) => v,
        None => "You are a professional translation engine.".to_owned(),
    };
    let prompts = match prompts {
        Some(v) => v,
        None => default_prompts(),
    };
    let temp_txt = match temperature {
        Some(v) => v,
        None => "0.6".to_owned(),
    };
    let top_txt = match top_p {
        Some(v) => v,
        None => "0.9".to_owned(),
    };
    let pen_txt = match penalty_score {
        Some(v) => v,
        None => "1.0".to_owned(),
    };
    let request_url = match request_url {
        Some(v) => v,
        None => "https://aip.baidubce.com/rpc/2.0/ai_custom/v1/wenxinworkshop/chat/".to_owned(),
    };
    let tv: Decimal = match parse_decimal(&str_to_chars(temp_txt.as_str())) {
        Some(d) => d,
        None => {
            return Err(TranslateError::NotANumber(ParamName::Temperature));
        },
    };
    let pv: Decimal = match parse_decimal(&str_to_chars(top_txt.as_str())) {
        Some(d) => d,
        None => {
            return Err(TranslateError::NotANumber(ParamName::TopP));
        },
    };
    let sv: Decimal = match parse_decimal(&str_to_chars(pen_txt.as_str())) {
        Some(d) => d,
        None => {
            return Err(TranslateError::NotANumber(ParamName::PenaltyScore));
        },
    };
    if !(tv.gt_zero() && tv.le_small(1)) {
        return Err(TranslateError::OutOfRange(ParamName::Temperature));
    }
    if !(pv.ge_zero() && pv.le_small(1)) {
        return Err(TranslateError::OutOfRange(ParamName::TopP));
    }
    if !(sv.ge_one() && sv.le_small(2)) {
        return Err(TranslateError::OutOfRange(ParamName::PenaltyScore));
    }
    let msgs: Vec<Message> = match parse_template(&str_to_chars(prompts.as_str())) {
        Some(v) => v,
        None => {
            return Err(TranslateError::MalformedTemplate);
        },
    };
    let to_chars = str_to_chars(to);
    let text_chars = str_to_chars(text);
    let ph_to = placeholder_to();
    let ph_src = placeholder_src();
    let ghost target = msgs_view(msgs@).map_values(
        |m: MessageV| spec_substitute_message(m, to@, text@),
    );
    let mut out_msgs: Vec<Message> = Vec::new();
    let mut i: usize = 0;
    proof {
        assert(msgs_view(out_msgs@) =~= target.take(0));
    }
    while i < msgs.len()
        invariant
            0 <= i <= msgs.len(),
            target == msgs_view(msgs@).map_values(
                |m: MessageV| spec_substitute_message(m, to@, text@),
            ),
            target.len() == msgs@.len(),
            ph_to@ == to_placeholder(),
            ph_src@ == src_placeholder(),
            to_chars@ == to@,
            text_chars@ == text@,
            msgs_view(out_msgs@) == target.take(i as int),
        decreases msgs@.len() - i,
    {
        let role_chars = str_to_chars(msgs[i].role.as_str());
        let content_chars = str_to_chars(msgs[i].content.as_str());
        let new_content = substitute(&content_chars, &ph_to, &to_chars, &ph_src, &text_chars);
        let m = Message {
            role: chars_to_string(&role_chars),
            content: chars_to_string(&new_content),
        };
        proof {
            assert(target[i as int] == spec_substitute_message(msgs@[i as int]@, to@, text@));
            assert(m@ == target[i as int]);
        }
        let ghost before = out_msgs@;
        out_msgs.push(m);
        proof {
            assert(before.len() == i) by {
                assert(msgs_view(before).len() == before.len());
                assert(target.take(i as int).len() == i);
            }
            assert(out_msgs@ == before.push(m));
            assert forall|k: int| 0 <= k < out_msgs@.len() implies msgs_view(out_msgs@)[k]
                == target.take(i + 1)[k] by {
                assert(msgs_view(out_msgs@)[k] == out_msgs@[k]@);
                if k < i {
                    assert(out_msgs@[k] == before[k]);
                    assert(msgs_view(before)[k] == before[k]@);
                    assert(msgs_view(before)[k] == target.take(i as int)[k]);
                } else {
                    assert(out_msgs@[k] == m);
                }
            }
            assert(msgs_view(out_msgs@) =~= target.take(i + 1));
        }
        i += 1;
    }
    proof {
        assert(target.take(target.len() as int) =~= target);
    }
    let payload = TranslationPayload {
        messages: out_msgs,
        temperature: tv,
        top_p: pv,
        penalty_score: sv,
        system,
    };
    let plan = RequestPlan { payload, request_url, model_string, api_key, secret_key };
    proof {
        assert(spec_build(text@, to@, pv0) == Ok::<RequestPlanV, TranslateError>(plan@));
    }
    Ok(plan)
}

/// Build the request plan and render its payload as JSON text in one
/// step: the form a host sends over the wire.
pub fn build_with_body(text: &str, to: &str, params: RawParams) -> (r: Result<
    (RequestPlan, String),
    TranslateError,
>)
    ensures
        match r {
            Ok(pb) => spec_build(text@, to@, params@) == Ok::<RequestPlanV, TranslateError>(pb.0@)
                && pb.1@ == crate::payload::spec_render_payload(pb.0@.payload),
            Err(e) => spec_build(text@, to@, params@) == Err::<RequestPlanV, TranslateError>(e),
        },
{
    match build(text, to, params) {
        Ok(plan) => {
            let body = crate::payload::render_payload(&plan.payload);
            Ok((plan, body))
        },
        Err(e) => Err(e),
    }
}

/// The builder is deterministic: equal inputs give the same outcome, and
/// on success the same payload, which renders to byte-identical text.
pub proof fn lemma_build_deterministic(
    t1: Seq<char>,
    to1: Seq<char>,
    p1: RawParamsV,
    t2: Seq<char>,
    to2: Seq<char>,
    p2: RawParamsV,
)
    requires
        t1 == t2,
        to1 == to2,
        p1 == p2,
    ensures
        spec_build(t1, to1, p1) == spec_build(t2, to2, p2),
        spec_build(t1, to1, p1) is Ok ==> crate::payload::spec_render_payload(
            spec_build(t1, to1, p1)->Ok_0.payload,
        ) == crate::payload::spec_render_payload(spec_build(t2, to2, p2)->Ok_0.payload),
{
}

} // verus!
