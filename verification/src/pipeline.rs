//! The request pipeline's decisions.
//!
//! Admission (model required, allow-list, block-list), mode selection and
//! model-map substitution are pure functions here; the surrounding HTTP
//! server performs the I/O and consults them.  The in-flight gauge is
//! modelled by a bounded counter whose transitions are pinned by contracts.

use vstd::prelude::*;

use crate::config::{assoc_lookup, Config};
use crate::dialect::{
    OpenAIChoiceMessage, OpenAIReasoning, OpenAIReasoningContent, OpenAIResponse, OpenAIToolCall,
    OpenAIToolCallFunction,
};
use crate::error::AppError;
use crate::text::{concat4, copy_str, dec_str, dec_u64, str_eq};
use crate::translate::{calls_view, view_tool_call};

verus! {

broadcast use vstd::string::group_string_axioms;

// ---------------------------------------------------------------------------
// request identifiers and trace helpers
// ---------------------------------------------------------------------------

/// Builds a request identifier `req-<unix_ms>-<counter>` from the clock and
/// the process-wide counter value.
pub fn next_request_id(ts_ms: u64, counter: u64) -> (r: String)
    ensures
        r@ == "req-"@ + dec_str(ts_ms as nat) + "-"@ + dec_str(counter as nat),
{
    let ts = dec_u64(ts_ms);
    let seq_text = dec_u64(counter);
    let r = concat4("req-", ts.as_str(), "-", seq_text.as_str());
    proof {
        assert(r@ =~= "req-"@ + dec_str(ts_ms as nat) + "-"@ + dec_str(counter as nat));
    }
    r
}

/// The body text recorded on a span; kept whole.
pub fn truncate_for_trace(value: &str) -> (r: String)
    ensures
        r@ == value@,
{
    copy_str(value)
}

/// Appends one chunk to the downstream response trace.
pub fn append_trace(buf: &mut String, chunk: &str)
    ensures
        final(buf)@ == old(buf)@ + chunk@,
{
    buf.append(chunk);
}

// ---------------------------------------------------------------------------
// admission
// ---------------------------------------------------------------------------

/// What the pipeline decided for a request.
#[derive(Debug, Clone)]
pub struct RequestPlan {
    /// True in pass-through mode; the body is forwarded untouched.
    pub passthrough: bool,
    /// The model name after map substitution (translate mode only).
    pub model: String,
}

/// Is the model name in the list?
pub open spec fn in_list(l: Seq<String>, m: Seq<char>) -> bool {
    exists|i: int| 0 <= i < l.len() && l[i]@ == m
}

/// The admission error for a model, if any: missing or empty model, a
/// non-empty allow list without it, or a block list with it.
pub open spec fn admission_err(model: Option<String>, cfg: Config) -> Option<Seq<char>> {
    match model {
        None => Some("model is required"@),
        Some(m) => {
            if m@.len() == 0 {
                Some("model is required"@)
            } else if cfg.models.allowlist@.len() > 0 && !in_list(cfg.models.allowlist@, m@) {
                Some("model not in allowlist"@)
            } else if in_list(cfg.models.blocklist@, m@) {
                Some("model is blocked"@)
            } else {
                None
            }
        },
    }
}

/// Admits a request: the model must be present, allowed and not blocked.
/// In translate mode the model map substitutes the name; pass-through mode
/// leaves it untouched.
pub fn plan_request(model: Option<String>, config: &Config) -> (r: Result<
    RequestPlan,
    AppError,
>)
    ensures
        match r {
            Ok(p) => {
                &&& admission_err(model, *config) is None
                &&& p.passthrough == (config.anthropic.forward_mode@ == "passthrough"@)
                &&& model matches Some(m) && (if !p.passthrough {
                    match assoc_lookup(config.models.model_map@, m@) {
                        Some(mapped) => p.model@ == mapped,
                        None => p.model@ == m@,
                    }
                } else {
                    p.model@ == m@
                })
            },
            Err(e) => {
                &&& admission_err(model, *config) matches Some(msg) && e.message@ == msg
                &&& e.status == 400
                &&& e.error_type@ == "invalid_request_error"@
            },
        },
{
    let m = match model {
        Some(m) => m,
        None => {
            return Err(AppError::invalid_request("model is required"));
        },
    };
    if m.unicode_len() == 0 {
        return Err(AppError::invalid_request("model is required"));
    }
    if config.models.allowlist.len() > 0 && !crate::config::list_contains(
        &config.models.allowlist,
        m.as_str(),
    ) {
        return Err(AppError::invalid_request("model not in allowlist"));
    }
    if crate::config::list_contains(&config.models.blocklist, m.as_str()) {
        return Err(AppError::invalid_request("model is blocked"));
    }
    let passthrough = str_eq(config.anthropic.forward_mode.as_str(), "passthrough");
    let mapped = if passthrough {
        m
    } else {
        match crate::config::lookup(&config.models.model_map, m.as_str()) {
            Some(target) => target,
            None => m,
        }
    };
    Ok(RequestPlan { passthrough, model: mapped })
}

// ---------------------------------------------------------------------------
// in-flight gauge
// ---------------------------------------------------------------------------

/// The admission gauge: how many requests are live, against a capacity.
#[derive(Debug, Clone)]
pub struct InflightCounter {
    pub count: usize,
    pub capacity: usize,
}

impl InflightCounter {
    /// A fresh gauge at zero.
    pub fn new(capacity: usize) -> (r: Self)
        ensures
            r.count == 0,
            r.capacity == capacity,
    {
        InflightCounter { count: 0, capacity }
    }

    /// Takes one slot when one is free; a full gauge refuses.
    pub fn try_acquire(&mut self) -> (r: bool)
        ensures
            old(self).count < old(self).capacity ==> r && final(self).count == old(self).count
                + 1,
            old(self).count >= old(self).capacity ==> !r && *final(self) == *old(self),
            final(self).capacity == old(self).capacity,
    {
        if self.count < self.capacity {
            self.count = self.count + 1;
            true
        } else {
            false
        }
    }

    /// Releases one slot when a request ends.
    pub fn release(&mut self)
        requires
            old(self).count > 0,
        ensures
            final(self).count == old(self).count - 1,
            final(self).capacity == old(self).capacity,
    {
        self.count = self.count - 1;
    }
}

/// Law: a successful acquisition followed by its release leaves the gauge
/// exactly where it was, so after the last request completes the gauge is
/// back at its initial value; a gauge that starts at zero returns to zero.
pub proof fn lemma_gauge_round_trip(c: InflightCounter)
    requires
        c.count < c.capacity,
    ensures
        ({
            let acquired = InflightCounter { count: (c.count + 1) as usize, ..c };
            let released = InflightCounter {
                count: (acquired.count - 1) as usize,
                ..acquired
            };
            released == c
        }),
{
}

// ---------------------------------------------------------------------------
// pass-through headers
// ---------------------------------------------------------------------------

/// The `host[:port]` of a base URL, when it parses.  Names the verdict of
/// `reqwest`'s URL parser, which depends on the text alone.
pub uninterp spec fn host_port_of(url: Seq<char>) -> Option<Seq<char>>;

/// Relies on `reqwest::Url::parse`, `Url::host_str` and `Url::port`: yields
/// the parsed host with its explicit port, if the URL has a host at all.
#[verifier::external_body]
fn parse_host_port(url: &str) -> (r: Option<String>)
    ensures
        crate::config::opt_view(r) == host_port_of(url@),
{
    let parsed = reqwest::Url::parse(url).ok()?;
    let host = parsed.host_str()?.to_string();
    match parsed.port() {
        Some(port) => Some(format!("{}:{}", host, port)),
        None => Some(host),
    }
}

/// Is this header dropped before forwarding?
pub open spec fn dropped_header(name: Seq<char>) -> bool {
    name == "host"@ || name == "content-length"@
}

/// The forwarded header list: incoming headers without `host` and
/// `content-length`, kept in order.
pub open spec fn forwarded_headers(h: Seq<(String, String)>) -> Seq<(String, String)>
    decreases h.len(),
{
    if h.len() == 0 {
        Seq::empty()
    } else {
        let rest = forwarded_headers(h.drop_first());
        if dropped_header(h[0].0@) {
            rest
        } else {
            seq![h[0]] + rest
        }
    }
}

proof fn lemma_forwarded_snoc(h: Seq<(String, String)>, p: (String, String))
    ensures
        forwarded_headers(h.push(p)) == forwarded_headers(h) + (if dropped_header(p.0@) {
            Seq::<(String, String)>::empty()
        } else {
            seq![p]
        }),
    decreases h.len(),
{
    reveal_with_fuel(forwarded_headers, 3);
    if h.len() == 0 {
        assert(h.push(p)[0] == p);
        assert(h.push(p).drop_first() =~= Seq::<(String, String)>::empty());
        if dropped_header(p.0@) {
            assert(forwarded_headers(h.push(p)) =~= forwarded_headers(h)
                + Seq::<(String, String)>::empty());
        } else {
            assert(forwarded_headers(h.push(p)) =~= forwarded_headers(h) + seq![p]);
        }
    } else {
        assert(h.push(p)[0] == h[0]);
        assert(h.push(p).drop_first() =~= h.drop_first().push(p));
        lemma_forwarded_snoc(h.drop_first(), p);
        if dropped_header(h[0].0@) {
            assert(forwarded_headers(h.push(p)) =~= forwarded_headers(h) + (if dropped_header(
                p.0@,
            ) {
                Seq::<(String, String)>::empty()
            } else {
                seq![p]
            }));
        } else {
            assert(forwarded_headers(h.push(p)) =~= seq![h[0]] + (forwarded_headers(
                h.drop_first(),
            ) + (if dropped_header(p.0@) {
                Seq::<(String, String)>::empty()
            } else {
                seq![p]
            })));
            assert(forwarded_headers(h.push(p)) =~= forwarded_headers(h) + (if dropped_header(
                p.0@,
            ) {
                Seq::<(String, String)>::empty()
            } else {
                seq![p]
            }));
        }
    }
}

/// Builds the pass-through header list: incoming headers minus `host` and
/// `content-length`, then a `host` header for the base URL's host and port
/// when the URL parses.
pub fn build_passthrough_headers(incoming: &Vec<(String, String)>, base_url: &str) -> (r: Vec<
    (String, String),
>)
    ensures
        ({
            let kept = forwarded_headers(incoming@);
            match host_port_of(base_url@) {
                Some(hp) => {
                    &&& r@.len() == kept.len() + 1
                    &&& r@.take(kept.len() as int) == kept
                    &&& r@.last().0@ == "host"@
                    &&& r@.last().1@ == hp
                },
                None => r@ == kept,
            }
        }),
{
    let n = incoming.len();
    let mut out: Vec<(String, String)> = Vec::new();
    let mut i: usize = 0;
    proof {
        assert(incoming@.take(0) =~= Seq::<(String, String)>::empty());
        assert(out@ =~= forwarded_headers(incoming@.take(0)));
    }
    while i < n
        invariant
            n == incoming@.len(),
            i <= n,
            out@ == forwarded_headers(incoming@.take(i as int)),
        decreases n - i,
    {
        let ghost pre = incoming@.take(i as int);
        let name = &incoming[i].0;
        if !(str_eq(name.as_str(), "host") || str_eq(name.as_str(), "content-length")) {
            let pair = (incoming[i].0.clone(), incoming[i].1.clone());
            proof {
                assert(pair == incoming@[i as int]);
            }
            out.push(pair);
        }
        i = i + 1;
        proof {
            assert(incoming@.take(i as int) =~= pre.push(incoming@[i - 1]));
            lemma_forwarded_snoc(pre, incoming@[i - 1]);
            assert(out@ =~= forwarded_headers(incoming@.take(i as int)));
        }
    }
    proof {
        assert(incoming@.take(n as int) =~= incoming@);
    }
    match parse_host_port(base_url) {
        Some(hp) => {
            let ghost kept = out@;
            out.push((copy_str("host"), hp));
            proof {
                assert(out@.take(kept.len() as int) =~= kept);
            }
            out
        },
        None => out,
    }
}

// ---------------------------------------------------------------------------
// response traces
// ---------------------------------------------------------------------------

/// One choice of a non-streamed response, summarised for the span's
/// `output` attribute.
#[derive(Debug, Clone)]
pub struct ChoiceTrace {
    pub role: String,
    pub reasoning_content: Option<OpenAIReasoning>,
    pub tool_calls: Option<Vec<OpenAIToolCall>>,
    pub content: Option<String>,
}

/// Does the trace reflect the choice's message?
pub open spec fn choice_trace_matches(t: ChoiceTrace, m: OpenAIChoiceMessage) -> bool {
    &&& t.role@ == m.role@
    &&& match (t.content, m.content) {
        (None, None) => true,
        (Some(a), Some(b)) => a@ == b@,
        _ => false,
    }
    &&& match (t.tool_calls, m.tool_calls) {
        (None, None) => true,
        (Some(a), Some(b)) => calls_view(a@) == calls_view(b@),
        _ => false,
    }
    &&& match (t.reasoning_content, m.reasoning_content) {
        (None, None) => true,
        (Some(OpenAIReasoning::Opaque), Some(OpenAIReasoning::Opaque)) => true,
        (Some(OpenAIReasoning::Plain(a)), Some(OpenAIReasoning::Plain(b))) => a@ == b@,
        (Some(OpenAIReasoning::Structured(a)), Some(OpenAIReasoning::Structured(b))) => a.kind@
            == b.kind@ && a.thinking@ == b.thinking@ && a.signature@ == b.signature@,
        _ => false,
    }
}

fn clone_calls(calls: &Vec<OpenAIToolCall>) -> (r: Vec<OpenAIToolCall>)
    ensures
        calls_view(r@) == calls_view(calls@),
{
    let n = calls.len();
    let mut out: Vec<OpenAIToolCall> = Vec::new();
    let mut i: usize = 0;
    while i < n
        invariant
            n == calls@.len(),
            i <= n,
            out@.len() == i,
            forall|j: int|
                0 <= j < i ==> view_tool_call(#[trigger] out@[j]) == view_tool_call(
                    calls@[j],
                ),
        decreases n - i,
    {
        let c = &calls[i];
        out.push(
            OpenAIToolCall {
                id: c.id.clone(),
                call_type: c.call_type.clone(),
                function: OpenAIToolCallFunction {
                    name: c.function.name.clone(),
                    arguments: c.function.arguments.clone(),
                },
            },
        );
        i = i + 1;
    }
    proof {
        assert(calls_view(out@) =~= calls_view(calls@));
    }
    out
}

/// Summarises a non-streamed response's choices for the span's `output`
/// attribute, one entry per choice.
pub fn openai_output_messages(resp: &OpenAIResponse) -> (r: Vec<ChoiceTrace>)
    ensures
        r@.len() == resp.choices@.len(),
        forall|i: int|
            0 <= i < resp.choices@.len() ==> choice_trace_matches(
                #[trigger] r@[i],
                resp.choices@[i].message,
            ),
{
    let n = resp.choices.len();
    let mut out: Vec<ChoiceTrace> = Vec::new();
    let mut i: usize = 0;
    while i < n
        invariant
            n == resp.choices@.len(),
            i <= n,
            out@.len() == i,
            forall|j: int|
                0 <= j < i ==> choice_trace_matches(
                    #[trigger] out@[j],
                    resp.choices@[j].message,
                ),
        decreases n - i,
    {
        let m = &resp.choices[i].message;
        let reasoning = match &m.reasoning_content {
            None => None,
            Some(OpenAIReasoning::Opaque) => Some(OpenAIReasoning::Opaque),
            Some(OpenAIReasoning::Plain(t)) => Some(OpenAIReasoning::Plain(t.clone())),
            Some(OpenAIReasoning::Structured(s)) => Some(
                OpenAIReasoning::Structured(
                    OpenAIReasoningContent {
                        kind: s.kind.clone(),
                        thinking: s.thinking.clone(),
                        signature: s.signature.clone(),
                    },
                ),
            ),
        };
        let tool_calls = match &m.tool_calls {
            None => None,
            Some(cs) => Some(clone_calls(cs)),
        };
        let content = match &m.content {
            None => None,
            Some(c) => Some(c.clone()),
        };
        out.push(ChoiceTrace { role: m.role.clone(), reasoning_content: reasoning, tool_calls, content });
        i = i + 1;
    }
    out
}

} // verus!
