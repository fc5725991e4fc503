//! Server-Sent-Events wire rendering.
//!
//! Every downstream event is rendered as `event: <name>\ndata: <json>\n\n`.
//! The JSON payloads are built here with a verified string escaper, so the
//! whole wire text of the translate-mode stream is pinned by contracts.

use vstd::prelude::*;

use crate::error::AppError;
use crate::text::{copy_str, dec_str, dec_u64, push_char};
use crate::transcoder::{view_event, AnthropicStreamEvent, GEvent};

verus! {

broadcast use vstd::string::group_string_axioms;

// ---------------------------------------------------------------------------
// JSON string escaping
// ---------------------------------------------------------------------------

/// A hexadecimal digit character, lower case.
pub open spec fn hex_digit(d: nat) -> char {
    if d < 10 {
        ((48 + d) as u8) as char
    } else {
        ((87 + d) as u8) as char
    }
}

/// The escape of one character inside a JSON string.
pub open spec fn escape_char(c: char) -> Seq<char> {
    let u = c as u32;
    if c == '"' {
        seq!['\\', '"']
    } else if c == '\\' {
        seq!['\\', '\\']
    } else if c == '\n' {
        seq!['\\', 'n']
    } else if c == '\r' {
        seq!['\\', 'r']
    } else if c == '\t' {
        seq!['\\', 't']
    } else if u == 8 {
        seq!['\\', 'b']
    } else if u == 12 {
        seq!['\\', 'f']
    } else if u < 32 {
        seq!['\\', 'u', '0', '0', hex_digit((u / 16) as nat), hex_digit((u % 16) as nat)]
    } else {
        seq![c]
    }
}

/// The escape of a whole string.
pub open spec fn escape_seq(s: Seq<char>) -> Seq<char>
    decreases s.len(),
{
    if s.len() == 0 {
        Seq::empty()
    } else {
        escape_char(s[0]) + escape_seq(s.drop_first())
    }
}

/// A JSON string literal: quotes around the escaped text.
pub open spec fn quoted(s: Seq<char>) -> Seq<char> {
    seq!['"'] + escape_seq(s) + seq!['"']
}

proof fn lemma_escape_snoc(s: Seq<char>, c: char)
    ensures
        escape_seq(s.push(c)) == escape_seq(s) + escape_char(c),
    decreases s.len(),
{
    reveal_with_fuel(escape_seq, 3);
    if s.len() == 0 {
        assert(s.push(c)[0] == c);
        assert(s.push(c).drop_first() =~= Seq::<char>::empty());
        assert(escape_seq(s.push(c)) =~= escape_seq(s) + escape_char(c));
    } else {
        assert(s.push(c)[0] == s[0]);
        assert(s.push(c).drop_first() =~= s.drop_first().push(c));
        lemma_escape_snoc(s.drop_first(), c);
        assert(escape_seq(s.push(c)) =~= escape_seq(s) + escape_char(c));
    }
}

fn push_escaped(out: &mut String, c: char)
    ensures
        final(out)@ == old(out)@ + escape_char(c),
{
    let ghost pre = out@;
    let u = c as u32;
    if c == '"' {
        push_char(out, '\\');
        push_char(out, '"');
    } else if c == '\\' {
        push_char(out, '\\');
        push_char(out, '\\');
    } else if c == '\n' {
        push_char(out, '\\');
        push_char(out, 'n');
    } else if c == '\r' {
        push_char(out, '\\');
        push_char(out, 'r');
    } else if c == '\t' {
        push_char(out, '\\');
        push_char(out, 't');
    } else if u == 8 {
        push_char(out, '\\');
        push_char(out, 'b');
    } else if u == 12 {
        push_char(out, '\\');
        push_char(out, 'f');
    } else if u < 32 {
        push_char(out, '\\');
        push_char(out, 'u');
        push_char(out, '0');
        push_char(out, '0');
        let hi = u / 16;
        let lo = u % 16;
        let hc = if hi < 10 {
            ((48 + hi) as u8) as char
        } else {
            ((87 + hi) as u8) as char
        };
        let lc = if lo < 10 {
            ((48 + lo) as u8) as char
        } else {
            ((87 + lo) as u8) as char
        };
        push_char(out, hc);
        push_char(out, lc);
    } else {
        push_char(out, c);
    }
    proof {
        assert(out@ =~= pre + escape_char(c));
    }
}

/// Renders a JSON string literal for `s`.
pub fn json_quote(s: &str) -> (r: String)
    ensures
        r@ == quoted(s@),
{
    let n = s.unicode_len();
    let mut r = String::new();
    push_char(&mut r, '"');
    let mut i: usize = 0;
    proof {
        assert(escape_seq(s@.take(0)) =~= Seq::<char>::empty());
        assert(r@ =~= seq!['"'] + escape_seq(s@.take(0)));
    }
    while i < n
        invariant
            n == s@.len(),
            i <= n,
            r@ == seq!['"'] + escape_seq(s@.take(i as int)),
        decreases n - i,
    {
        let ghost pre = s@.take(i as int);
        push_escaped(&mut r, s.get_char(i));
        i = i + 1;
        proof {
            assert(s@.take(i as int) =~= pre.push(s@[i - 1]));
            lemma_escape_snoc(pre, s@[i - 1]);
            assert(r@ =~= seq!['"'] + escape_seq(s@.take(i as int)));
        }
    }
    push_char(&mut r, '"');
    proof {
        assert(s@.take(n as int) =~= s@);
        assert(r@ =~= quoted(s@));
    }
    r
}

// ---------------------------------------------------------------------------
// event rendering
// ---------------------------------------------------------------------------

/// The SSE wire framing of one event.
pub open spec fn sse_text(event: Seq<char>, data: Seq<char>) -> Seq<char> {
    "event: "@ + event + "\ndata: "@ + data + "\n\n"@
}

/// Frames one SSE event.
pub fn sse_event(event: &str, data: &str) -> (r: String)
    ensures
        r@ == sse_text(event@, data@),
{
    let mut r = String::new();
    r.append("event: ");
    r.append(event);
    r.append("\ndata: ");
    r.append(data);
    r.append("\n\n");
    proof {
        assert(r@ =~= sse_text(event@, data@));
    }
    r
}

/// The SSE event name of a stream event.
pub open spec fn event_name(g: GEvent) -> Seq<char> {
    match g {
        GEvent::EMessageStart { .. } => "message_start"@,
        GEvent::ETextStart { .. } => "content_block_start"@,
        GEvent::EThinkingStart { .. } => "content_block_start"@,
        GEvent::EToolUseStart { .. } => "content_block_start"@,
        GEvent::ETextDelta { .. } => "content_block_delta"@,
        GEvent::EThinkingDelta { .. } => "content_block_delta"@,
        GEvent::ESignatureDelta { .. } => "content_block_delta"@,
        GEvent::EInputJsonDelta { .. } => "content_block_delta"@,
        GEvent::EBlockStop { .. } => "content_block_stop"@,
        GEvent::EMessageDelta { .. } => "message_delta"@,
        GEvent::EMessageStop => "message_stop"@,
    }
}

/// The JSON data payload of a stream event.
pub open spec fn event_data(g: GEvent) -> Seq<char> {
    match g {
        GEvent::EMessageStart { message_id } => {
            "{\"type\":\"message_start\",\"message\":{\"id\":"@ + quoted(message_id)
                + ",\"type\":\"message\",\"role\":\"assistant\",\"content\":[],\"usage\":{\"input_tokens\":0,\"output_tokens\":0,\"cache_creation_input_tokens\":0,\"cache_read_input_tokens\":0}}}"@
        },
        GEvent::ETextStart { index } => {
            "{\"type\":\"content_block_start\",\"index\":"@ + dec_str(index as nat)
                + ",\"content_block\":{\"type\":\"text\",\"text\":\"\"}}"@
        },
        GEvent::EThinkingStart { index } => {
            "{\"type\":\"content_block_start\",\"index\":"@ + dec_str(index as nat)
                + ",\"content_block\":{\"type\":\"thinking\",\"thinking\":\"\",\"signature\":\"\"}}"@
        },
        GEvent::EToolUseStart { index, id, name } => {
            "{\"type\":\"content_block_start\",\"index\":"@ + dec_str(index as nat)
                + ",\"content_block\":{\"type\":\"tool_use\",\"id\":"@ + quoted(id)
                + ",\"name\":"@ + quoted(name) + ",\"input\":{}}}"@
        },
        GEvent::ETextDelta { index, text } => {
            "{\"type\":\"content_block_delta\",\"index\":"@ + dec_str(index as nat)
                + ",\"delta\":{\"type\":\"text_delta\",\"text\":"@ + quoted(text) + "}}"@
        },
        GEvent::EThinkingDelta { index, thinking } => {
            "{\"type\":\"content_block_delta\",\"index\":"@ + dec_str(index as nat)
                + ",\"delta\":{\"type\":\"thinking_delta\",\"thinking\":"@ + quoted(thinking)
                + "}}"@
        },
        GEvent::ESignatureDelta { index, signature } => {
            "{\"type\":\"content_block_delta\",\"index\":"@ + dec_str(index as nat)
                + ",\"delta\":{\"type\":\"signature_delta\",\"signature\":"@ + quoted(
                signature,
            ) + "}}"@
        },
        GEvent::EInputJsonDelta { index, partial_json } => {
            "{\"type\":\"content_block_delta\",\"index\":"@ + dec_str(index as nat)
                + ",\"delta\":{\"type\":\"input_json_delta\",\"partial_json\":"@ + quoted(
                partial_json,
            ) + "}}"@
        },
        GEvent::EBlockStop { index } => {
            "{\"type\":\"content_block_stop\",\"index\":"@ + dec_str(index as nat) + "}"@
        },
        GEvent::EMessageDelta { stop_reason } => {
            "{\"type\":\"message_delta\",\"delta\":{\"stop_reason\":"@ + quoted(stop_reason)
                + "},\"usage\":{\"output_tokens\":0}}"@
        },
        GEvent::EMessageStop => "{\"type\":\"message_stop\"}"@,
    }
}

/// The full wire text of a stream event.
pub open spec fn render_sse_spec(g: GEvent) -> Seq<char> {
    sse_text(event_name(g), event_data(g))
}

/// Renders one stream event to its SSE wire text.
pub fn render_event(e: &AnthropicStreamEvent) -> (r: String)
    ensures
        r@ == render_sse_spec(view_event(*e)),
{
    match e {
        AnthropicStreamEvent::MessageStart { message_id } => {
            let mut d = String::new();
            d.append("{\"type\":\"message_start\",\"message\":{\"id\":");
            let q = json_quote(message_id.as_str());
            d.append(q.as_str());
            d.append(
                ",\"type\":\"message\",\"role\":\"assistant\",\"content\":[],\"usage\":{\"input_tokens\":0,\"output_tokens\":0,\"cache_creation_input_tokens\":0,\"cache_read_input_tokens\":0}}}",
            );
            let r = sse_event("message_start", d.as_str());
            proof {
                assert(d@ =~= event_data(view_event(*e)));
            }
            r
        },
        AnthropicStreamEvent::TextBlockStart { index } => {
            let mut d = String::new();
            d.append("{\"type\":\"content_block_start\",\"index\":");
            let num = dec_u64(*index as u64);
            d.append(num.as_str());
            d.append(",\"content_block\":{\"type\":\"text\",\"text\":\"\"}}");
            let r = sse_event("content_block_start", d.as_str());
            proof {
                assert(d@ =~= event_data(view_event(*e)));
            }
            r
        },
        AnthropicStreamEvent::ThinkingBlockStart { index } => {
            let mut d = String::new();
            d.append("{\"type\":\"content_block_start\",\"index\":");
            let num = dec_u64(*index as u64);
            d.append(num.as_str());
            d.append(
                ",\"content_block\":{\"type\":\"thinking\",\"thinking\":\"\",\"signature\":\"\"}}",
            );
            let r = sse_event("content_block_start", d.as_str());
            proof {
                assert(d@ =~= event_data(view_event(*e)));
            }
            r
        },
        AnthropicStreamEvent::ToolUseBlockStart { index, id, name } => {
            let mut d = String::new();
            d.append("{\"type\":\"content_block_start\",\"index\":");
            let num = dec_u64(*index as u64);
            d.append(num.as_str());
            d.append(",\"content_block\":{\"type\":\"tool_use\",\"id\":");
            let qi = json_quote(id.as_str());
            d.append(qi.as_str());
            d.append(",\"name\":");
            let qn = json_quote(name.as_str());
            d.append(qn.as_str());
            d.append(",\"input\":{}}}");
            let r = sse_event("content_block_start", d.as_str());
            proof {
                assert(d@ =~= event_data(view_event(*e)));
            }
            r
        },
        AnthropicStreamEvent::TextDelta { index, text } => {
            let mut d = String::new();
            d.append("{\"type\":\"content_block_delta\",\"index\":");
            let num = dec_u64(*index as u64);
            d.append(num.as_str());
            d.append(",\"delta\":{\"type\":\"text_delta\",\"text\":");
            let q = json_quote(text.as_str());
            d.append(q.as_str());
            d.append("}}");
            let r = sse_event("content_block_delta", d.as_str());
            proof {
                assert(d@ =~= event_data(view_event(*e)));
            }
            r
        },
        AnthropicStreamEvent::ThinkingDelta { index, thinking } => {
            let mut d = String::new();
            d.append("{\"type\":\"content_block_delta\",\"index\":");
            let num = dec_u64(*index as u64);
            d.append(num.as_str());
            d.append(",\"delta\":{\"type\":\"thinking_delta\",\"thinking\":");
            let q = json_quote(thinking.as_str());
            d.append(q.as_str());
            d.append("}}");
            let r = sse_event("content_block_delta", d.as_str());
            proof {
                assert(d@ =~= event_data(view_event(*e)));
            }
            r
        },
        AnthropicStreamEvent::SignatureDelta { index, signature } => {
            let mut d = String::new();
            d.append("{\"type\":\"content_block_delta\",\"index\":");
            let num = dec_u64(*index as u64);
            d.append(num.as_str());
            d.append(",\"delta\":{\"type\":\"signature_delta\",\"signature\":");
            let q = json_quote(signature.as_str());
            d.append(q.as_str());
            d.append("}}");
            let r = sse_event("content_block_delta", d.as_str());
            proof {
                assert(d@ =~= event_data(view_event(*e)));
            }
            r
        },
        AnthropicStreamEvent::InputJsonDelta { index, partial_json } => {
            let mut d = String::new();
            d.append("{\"type\":\"content_block_delta\",\"index\":");
            let num = dec_u64(*index as u64);
            d.append(num.as_str());
            d.append(",\"delta\":{\"type\":\"input_json_delta\",\"partial_json\":");
            let q = json_quote(partial_json.as_str());
            d.append(q.as_str());
            d.append("}}");
            let r = sse_event("content_block_delta", d.as_str());
            proof {
                assert(d@ =~= event_data(view_event(*e)));
            }
            r
        },
        AnthropicStreamEvent::BlockStop { index } => {
            let mut d = String::new();
            d.append("{\"type\":\"content_block_stop\",\"index\":");
            let num = dec_u64(*index as u64);
            d.append(num.as_str());
            d.append("}");
            let r = sse_event("content_block_stop", d.as_str());
            proof {
                assert(d@ =~= event_data(view_event(*e)));
            }
            r
        },
        AnthropicStreamEvent::MessageDelta { stop_reason } => {
            let mut d = String::new();
            d.append("{\"type\":\"message_delta\",\"delta\":{\"stop_reason\":");
            let q = json_quote(stop_reason.as_str());
            d.append(q.as_str());
            d.append("},\"usage\":{\"output_tokens\":0}}");
            let r = sse_event("message_delta", d.as_str());
            proof {
                assert(d@ =~= event_data(view_event(*e)));
            }
            r
        },
        AnthropicStreamEvent::MessageStop => {
            let r = sse_event("message_stop", "{\"type\":\"message_stop\"}");
            r
        },
    }
}

/// The body of a terminal error event.
pub open spec fn error_body(kind: Seq<char>, message: Seq<char>) -> Seq<char> {
    "{\"type\":\"error\",\"error\":{\"type\":"@ + quoted(kind) + ",\"message\":"@ + quoted(
        message,
    ) + "}}"@
}

/// Renders a terminal error event for the downstream stream.
pub fn error_event(err: &AppError) -> (r: String)
    ensures
        r@ == sse_text("error"@, error_body(err.error_type@, err.message@)),
{
    let mut d = String::new();
    d.append("{\"type\":\"error\",\"error\":{\"type\":");
    let qk = json_quote(err.error_type.as_str());
    d.append(qk.as_str());
    d.append(",\"message\":");
    let qm = json_quote(err.message.as_str());
    d.append(qm.as_str());
    d.append("}}");
    let r = sse_event("error", d.as_str());
    proof {
        assert(d@ =~= error_body(err.error_type@, err.message@));
    }
    r
}

} // verus!
