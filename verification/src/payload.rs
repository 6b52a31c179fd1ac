//! The assembled provider payload and its JSON text.
//!
//! The payload carries the substituted message sequence, the three
//! validated generation parameters, the system prompt, a fixed
//! `stream: false`, and a fixed maximum output token count.  Rendering is
//! exact, so equal payloads produce byte-identical request bodies.

use vstd::prelude::*;
use crate::decimal::{dec_wf, Decimal, DecimalV, spec_render_decimal, render_decimal};
use crate::json::{spec_render_string, spec_u64_digits, render_string_into, push_u64};
use crate::subst::push_all;
use crate::template::{content_key, role_key, Message, MessageV, msgs_view};
use crate::text::{chars_to_string, str_to_chars};

verus! {

/// Upper bound on the tokens the provider may generate, sent with every
/// request.
pub const MAX_OUTPUT_TOKENS: u64 = 2048;

/// The request body of one translation call.
pub struct TranslationPayload {
    pub messages: Vec<Message>,
    pub temperature: Decimal,
    pub top_p: Decimal,
    pub penalty_score: Decimal,
    pub system: String,
}

pub struct PayloadV {
    pub messages: Seq<MessageV>,
    pub temperature: DecimalV,
    pub top_p: DecimalV,
    pub penalty_score: DecimalV,
    pub system: Seq<char>,
}

impl View for TranslationPayload {
    type V = PayloadV;

    open spec fn view(&self) -> PayloadV {
        PayloadV {
            messages: msgs_view(self.messages@),
            temperature: self.temperature@,
            top_p: self.top_p@,
            penalty_score: self.penalty_score@,
            system: self.system@,
        }
    }
}

/// Well-formedness: the numeric parameters hold digits as their invariant
/// demands.
pub open spec fn payload_wf(p: PayloadV) -> bool {
    dec_wf(p.temperature) && dec_wf(p.top_p) && dec_wf(p.penalty_score)
}

/// One message as JSON text: `{"role":R,"content":C}`.
pub open spec fn spec_render_message(m: MessageV) -> Seq<char> {
    seq!['{'] + spec_render_string(role_key()) + seq![':'] + spec_render_string(m.role)
        + seq![','] + spec_render_string(content_key()) + seq![':'] + spec_render_string(m.content)
        + seq!['}']
}

/// The comma-separated message list, without brackets.
pub open spec fn spec_render_messages_inner(ms: Seq<MessageV>) -> Seq<char>
    decreases ms.len(),
{
    if ms.len() == 0 {
        Seq::<char>::empty()
    } else if ms.len() == 1 {
        spec_render_message(ms[0])
    } else {
        spec_render_messages_inner(ms.drop_last()) + seq![','] + spec_render_message(ms.last())
    }
}

/// The message array as JSON text.
pub open spec fn spec_render_messages(ms: Seq<MessageV>) -> Seq<char> {
    seq!['['] + spec_render_messages_inner(ms) + seq![']']
}

/// The whole payload as JSON text, members in a fixed order.
pub open spec fn spec_render_payload(p: PayloadV) -> Seq<char> {
    seq!['{'] + spec_render_string("messages"@) + seq![':'] + spec_render_messages(p.messages)
        + seq![','] + spec_render_string("stream"@) + seq![':'] + seq!['f', 'a', 'l', 's', 'e']
        + seq![','] + spec_render_string("temperature"@) + seq![':'] + spec_render_decimal(
        p.temperature,
    ) + seq![','] + spec_render_string("top_p"@) + seq![':'] + spec_render_decimal(p.top_p)
        + seq![','] + spec_render_string("penalty_score"@) + seq![':'] + spec_render_decimal(
        p.penalty_score,
    ) + seq![','] + spec_render_string("system"@) + seq![':'] + spec_render_string(p.system)
        + seq![','] + spec_render_string("max_output_tokens"@) + seq![':'] + spec_u64_digits(
        MAX_OUTPUT_TOKENS as int,
    ) + seq!['}']
}

fn render_message_into(out: &mut Vec<char>, m: &Message)
    ensures
        final(out)@ == old(out)@ + spec_render_message(m@),
{
    out.push('{');
    let mut rk: Vec<char> = Vec::new();
    rk.push('r');
    rk.push('o');
    rk.push('l');
    rk.push('e');
    assert(rk@ =~= role_key());
    render_string_into(out, &rk);
    out.push(':');
    let role = str_to_chars(m.role.as_str());
    render_string_into(out, &role);
    out.push(',');
    let mut ck: Vec<char> = Vec::new();
    ck.push('c');
    ck.push('o');
    ck.push('n');
    ck.push('t');
    ck.push('e');
    ck.push('n');
    ck.push('t');
    assert(ck@ =~= content_key());
    render_string_into(out, &ck);
    out.push(':');
    let content = str_to_chars(m.content.as_str());
    render_string_into(out, &content);
    out.push('}');
    proof {
        assert(out@ =~= old(out)@ + spec_render_message(m@));
    }
}

fn render_messages_into(out: &mut Vec<char>, ms: &Vec<Message>)
    ensures
        final(out)@ == old(out)@ + spec_render_messages(msgs_view(ms@)),
{
    out.push('[');
    let ghost all = msgs_view(ms@);
    let mut i: usize = 0;
    proof {
        assert(old(out)@.push('[') =~= old(out)@ + seq!['[']);
        assert(all.take(0) =~= Seq::<MessageV>::empty());
    }
    while i < ms.len()
        invariant
            0 <= i <= ms.len(),
            all == msgs_view(ms@),
            out@ == old(out)@ + seq!['['] + spec_render_messages_inner(all.take(i as int)),
        decreases ms@.len() - i,
    {
        let ghost pre = out@;
        if i > 0 {
            out.push(',');
        }
        render_message_into(out, &ms[i]);
        proof {
            assert(all.take(i + 1).drop_last() =~= all.take(i as int));
            assert(all.take(i + 1).last() == all[i as int]);
            assert(all[i as int] == ms@[i as int]@);
            if i == 0 {
                assert(spec_render_messages_inner(all.take(1)) == spec_render_message(all[0]));
                assert(out@ =~= old(out)@ + seq!['['] + spec_render_messages_inner(all.take(1)));
            } else {
                assert(spec_render_messages_inner(all.take(i + 1))
                    == spec_render_messages_inner(all.take(i as int)) + seq![',']
                    + spec_render_message(all[i as int]));
                assert(out@ =~= old(out)@ + seq!['['] + spec_render_messages_inner(
                    all.take(i + 1),
                ));
            }
        }
        i += 1;
    }
    out.push(']');
    proof {
        assert(all.take(all.len() as int) =~= all);
        assert(out@ =~= old(out)@ + spec_render_messages(all));
    }
}

/// Render the payload as JSON text, exactly as `spec_render_payload`.
pub fn render_payload(p: &TranslationPayload) -> (r: String)
    requires
        payload_wf(p@),
    ensures
        r@ == spec_render_payload(p@),
{
    let mut out: Vec<char> = Vec::new();
    out.push('{');
    let k1 = str_to_chars("messages");
    render_string_into(&mut out, &k1);
    out.push(':');
    render_messages_into(&mut out, &p.messages);
    proof {
        assert(out@ =~= seq!['{'] + spec_render_string("messages"@) + seq![':']
            + spec_render_messages(p@.messages));
    }
    out.push(',');
    let k2 = str_to_chars("stream");
    render_string_into(&mut out, &k2);
    out.push(':');
    out.push('f');
    out.push('a');
    out.push('l');
    out.push('s');
    out.push('e');
    let ghost part2 = seq!['{'] + spec_render_string("messages"@) + seq![':']
        + spec_render_messages(p@.messages) + seq![','] + spec_render_string("stream"@)
        + seq![':'] + seq!['f', 'a', 'l', 's', 'e'];
    proof {
        assert(out@ =~= part2);
    }
    out.push(',');
    let k3 = str_to_chars("temperature");
    render_string_into(&mut out, &k3);
    out.push(':');
    let td = render_decimal(&p.temperature);
    push_all(&mut out, &td);
    let ghost part3 = part2 + seq![','] + spec_render_string("temperature"@) + seq![':']
        + spec_render_decimal(p@.temperature);
    proof {
        assert(out@ =~= part3);
    }
    out.push(',');
    let k4 = str_to_chars("top_p");
    render_string_into(&mut out, &k4);
    out.push(':');
    let pd = render_decimal(&p.top_p);
    push_all(&mut out, &pd);
    let ghost part4 = part3 + seq![','] + spec_render_string("top_p"@) + seq![':']
        + spec_render_decimal(p@.top_p);
    proof {
        assert(out@ =~= part4);
    }
    out.push(',');
    let k5 = str_to_chars("penalty_score");
    render_string_into(&mut out, &k5);
    out.push(':');
    let sd = render_decimal(&p.penalty_score);
    push_all(&mut out, &sd);
    let ghost part5 = part4 + seq![','] + spec_render_string("penalty_score"@) + seq![':']
        + spec_render_decimal(p@.penalty_score);
    proof {
        assert(out@ =~= part5);
    }
    out.push(',');
    let k6 = str_to_chars("system");
    render_string_into(&mut out, &k6);
    out.push(':');
    let sys = str_to_chars(p.system.as_str());
    render_string_into(&mut out, &sys);
    let ghost part6 = part5 + seq![','] + spec_render_string("system"@) + seq![':']
        + spec_render_string(p@.system);
    proof {
        assert(out@ =~= part6);
    }
    out.push(',');
    let k7 = str_to_chars("max_output_tokens");
    render_string_into(&mut out, &k7);
    out.push(':');
    push_u64(&mut out, MAX_OUTPUT_TOKENS);
    out.push('}');
    proof {
        assert(out@ =~= part6 + seq![','] + spec_render_string("max_output_tokens"@) + seq![':']
            + spec_u64_digits(MAX_OUTPUT_TOKENS as int) + seq!['}']);
        assert(out@ =~= spec_render_payload(p@));
    }
    chars_to_string(&out)
}

} // verus!
