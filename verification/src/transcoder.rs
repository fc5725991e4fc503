//! The streaming transcoder.
//!
//! It consumes an OpenAI delta stream, chunk by chunk, and re-synthesises a
//! well-formed Anthropic event sequence: one `message_start`, content blocks
//! that open, stream deltas and close, an optional `message_delta` with the
//! mapped stop reason, and a final `message_stop`.  Tool-call fragments are
//! merged per upstream index; a tool-use block starts only once both id and
//! name are known, and arguments received earlier are emitted right after
//! the start.  The contracts mirror every transition over a ghost view of
//! the state ([`GStream`]) and of the emitted events ([`GEvent`]).

use vstd::prelude::*;

use crate::dialect::{
    parses_as_json, OpenAIReasoningDelta, OpenAIStreamChunk, OpenAIToolCallDelta,
};
use crate::error::AppError;
use crate::text::{copy_str, str_eq, str_starts_with, trim, trim_spec};
use crate::translate::finish_to_stop;

verus! {

broadcast use vstd::string::group_string_axioms;

// ---------------------------------------------------------------------------
// events
// ---------------------------------------------------------------------------

/// One downstream Anthropic stream event.
#[derive(Debug, Clone)]
pub enum AnthropicStreamEvent {
    MessageStart { message_id: String },
    TextBlockStart { index: u32 },
    ThinkingBlockStart { index: u32 },
    ToolUseBlockStart { index: u32, id: String, name: String },
    TextDelta { index: u32, text: String },
    ThinkingDelta { index: u32, thinking: String },
    SignatureDelta { index: u32, signature: String },
    InputJsonDelta { index: u32, partial_json: String },
    BlockStop { index: u32 },
    MessageDelta { stop_reason: String },
    MessageStop,
}

/// Ghost descriptor of one stream event.
pub enum GEvent {
    EMessageStart { message_id: Seq<char> },
    ETextStart { index: u32 },
    EThinkingStart { index: u32 },
    EToolUseStart { index: u32, id: Seq<char>, name: Seq<char> },
    ETextDelta { index: u32, text: Seq<char> },
    EThinkingDelta { index: u32, thinking: Seq<char> },
    ESignatureDelta { index: u32, signature: Seq<char> },
    EInputJsonDelta { index: u32, partial_json: Seq<char> },
    EBlockStop { index: u32 },
    EMessageDelta { stop_reason: Seq<char> },
    EMessageStop,
}

/// The descriptor of one event.
pub open spec fn view_event(e: AnthropicStreamEvent) -> GEvent {
    match e {
        AnthropicStreamEvent::MessageStart { message_id } => GEvent::EMessageStart {
            message_id: message_id@,
        },
        AnthropicStreamEvent::TextBlockStart { index } => GEvent::ETextStart { index },
        AnthropicStreamEvent::ThinkingBlockStart { index } => GEvent::EThinkingStart { index },
        AnthropicStreamEvent::ToolUseBlockStart { index, id, name } => GEvent::EToolUseStart {
            index,
            id: id@,
            name: name@,
        },
        AnthropicStreamEvent::TextDelta { index, text } => GEvent::ETextDelta {
            index,
            text: text@,
        },
        AnthropicStreamEvent::ThinkingDelta { index, thinking } => GEvent::EThinkingDelta {
            index,
            thinking: thinking@,
        },
        AnthropicStreamEvent::SignatureDelta { index, signature } => GEvent::ESignatureDelta {
            index,
            signature: signature@,
        },
        AnthropicStreamEvent::InputJsonDelta { index, partial_json } => {
            GEvent::EInputJsonDelta { index, partial_json: partial_json@ }
        },
        AnthropicStreamEvent::BlockStop { index } => GEvent::EBlockStop { index },
        AnthropicStreamEvent::MessageDelta { stop_reason } => GEvent::EMessageDelta {
            stop_reason: stop_reason@,
        },
        AnthropicStreamEvent::MessageStop => GEvent::EMessageStop,
    }
}

/// The descriptors of an event vector.
pub open spec fn events_view(v: Seq<AnthropicStreamEvent>) -> Seq<GEvent> {
    v.map_values(|e: AnthropicStreamEvent| view_event(e))
}

// ---------------------------------------------------------------------------
// state
// ---------------------------------------------------------------------------

/// Per-tool-call sub-state, keyed by the upstream tool-call index.
#[derive(Debug, Clone)]
pub struct ToolCallState {
    pub upstream_index: u32,
    pub id: Option<String>,
    pub name: Option<String>,
    pub arguments: String,
    pub block_index: u32,
    pub started: bool,
    pub stopped: bool,
}

/// The transcoder state for one streamed request.
#[derive(Debug)]
pub struct StreamState {
    pub started: bool,
    pub message_id: Option<String>,
    pub model: Option<String>,
    pub next_index: u32,
    pub text_block_index: Option<u32>,
    pub thinking_block_index: Option<u32>,
    pub tool_calls: Vec<ToolCallState>,
    pub output_text: String,
    pub reasoning_text: String,
    pub reasoning_signature: Option<String>,
}

/// Ghost descriptor of a tool-call sub-state.
pub struct GToolState {
    pub upstream_index: u32,
    pub id: Option<Seq<char>>,
    pub name: Option<Seq<char>>,
    pub arguments: Seq<char>,
    pub block_index: u32,
    pub started: bool,
    pub stopped: bool,
}

/// Ghost descriptor of the transcoder state.
pub struct GStream {
    pub started: bool,
    pub message_id: Option<Seq<char>>,
    pub model: Option<Seq<char>>,
    pub next_index: u32,
    pub text_block: Option<u32>,
    pub thinking_block: Option<u32>,
    pub tools: Seq<GToolState>,
    pub output_text: Seq<char>,
    pub reasoning_text: Seq<char>,
    pub reasoning_signature: Option<Seq<char>>,
}

/// The descriptor of a tool-call sub-state.
pub open spec fn view_tool(t: ToolCallState) -> GToolState {
    GToolState {
        upstream_index: t.upstream_index,
        id: crate::config::opt_view(t.id),
        name: crate::config::opt_view(t.name),
        arguments: t.arguments@,
        block_index: t.block_index,
        started: t.started,
        stopped: t.stopped,
    }
}

/// The descriptors of a tool-state vector.
pub open spec fn tools_view(v: Seq<ToolCallState>) -> Seq<GToolState> {
    v.map_values(|t: ToolCallState| view_tool(t))
}

/// The descriptor of the transcoder state.
pub open spec fn view_stream(s: StreamState) -> GStream {
    GStream {
        started: s.started,
        message_id: crate::config::opt_view(s.message_id),
        model: crate::config::opt_view(s.model),
        next_index: s.next_index,
        text_block: s.text_block_index,
        thinking_block: s.thinking_block_index,
        tools: tools_view(s.tool_calls@),
        output_text: s.output_text@,
        reasoning_text: s.reasoning_text@,
        reasoning_signature: crate::config::opt_view(s.reasoning_signature),
    }
}

/// The initial ghost state.
pub open spec fn g_initial() -> GStream {
    GStream {
        started: false,
        message_id: None,
        model: None,
        next_index: 0,
        text_block: None,
        thinking_block: None,
        tools: Seq::empty(),
        output_text: Seq::empty(),
        reasoning_text: Seq::empty(),
        reasoning_signature: None,
    }
}

impl StreamState {
    /// A fresh transcoder state.
    pub fn new() -> (r: Self)
        ensures
            view_stream(r) == g_initial(),
    {
        let r = StreamState {
            started: false,
            message_id: None,
            model: None,
            next_index: 0,
            text_block_index: None,
            thinking_block_index: None,
            tool_calls: Vec::new(),
            output_text: String::new(),
            reasoning_text: String::new(),
            reasoning_signature: None,
        };
        proof {
            assert(tools_view(r.tool_calls@) =~= Seq::<GToolState>::empty());
        }
        r
    }
}

// ---------------------------------------------------------------------------
// SSE framing
// ---------------------------------------------------------------------------

/// Index of the first `'\n'` in `s`, or `s.len()` if there is none.
pub open spec fn first_newline(s: Seq<char>) -> nat
    decreases s.len(),
{
    if s.len() == 0 {
        0
    } else if s[0] == '\n' {
        0
    } else {
        1 + first_newline(s.drop_first())
    }
}

proof fn lemma_first_newline(s: Seq<char>, i: int)
    requires
        0 <= i <= s.len(),
        forall|j: int| 0 <= j < i ==> s[j] != '\n',
        i < s.len() ==> s[i] == '\n',
    ensures
        first_newline(s) == i,
    decreases s.len(),
{
    if s.len() == 0 {
    } else if s[0] == '\n' {
        assert(i == 0);
    } else {
        lemma_first_newline(s.drop_first(), i - 1);
    }
}

/// Splits one complete line off the front of the buffer.  Returns the text
/// before the first newline and leaves the rest; with no newline the buffer
/// is unchanged and `None` comes back.
pub fn pop_line(buffer: &mut String) -> (r: Option<String>)
    ensures
        match r {
            Some(line) => {
                &&& first_newline(old(buffer)@) < old(buffer)@.len()
                &&& line@ == old(buffer)@.take(first_newline(old(buffer)@) as int)
                &&& final(buffer)@ == old(buffer)@.skip(first_newline(old(buffer)@) as int + 1)
            },
            None => {
                &&& first_newline(old(buffer)@) == old(buffer)@.len()
                &&& final(buffer)@ == old(buffer)@
            },
        },
{
    let s = buffer.as_str();
    let n = s.unicode_len();
    let mut k: usize = 0;
    while k < n && s.get_char(k) != '\n'
        invariant
            n == s@.len(),
            k <= n,
            forall|j: int| 0 <= j < k ==> s@[j] != '\n',
        decreases n - k,
    {
        k = k + 1;
    }
    proof {
        lemma_first_newline(s@, k as int);
    }
    if k == n {
        return None;
    }
    let line = copy_str(s.substring_char(0, k));
    let rest = copy_str(s.substring_char(k + 1, n));
    *buffer = rest;
    Some(line)
}

/// `s` with every trailing `'\r'` removed.
pub open spec fn trim_cr(s: Seq<char>) -> Seq<char>
    decreases s.len(),
{
    if s.len() > 0 && s[s.len() - 1] == '\r' {
        trim_cr(s.drop_last())
    } else {
        s
    }
}

proof fn lemma_trim_cr(s: Seq<char>, e: int)
    requires
        0 <= e <= s.len(),
        forall|j: int| e <= j < s.len() ==> s[j] == '\r',
        e > 0 ==> s[e - 1] != '\r',
    ensures
        trim_cr(s) == s.take(e),
    decreases s.len(),
{
    if s.len() > 0 && s[s.len() - 1] == '\r' {
        assert(e < s.len());
        lemma_trim_cr(s.drop_last(), e);
        assert(s.drop_last().take(e) =~= s.take(e));
    } else {
        assert(e == s.len());
        assert(s.take(e) =~= s);
    }
}

/// `s` with every repetition of the `data:` prefix removed.
pub open spec fn strip_data_prefixes(s: Seq<char>) -> Seq<char>
    decreases s.len(),
{
    if s.len() >= 5 && s.take(5) == "data:"@ {
        strip_data_prefixes(s.skip(5))
    } else {
        s
    }
}

/// The payload of a `data:` line: repeated prefixes stripped, whitespace
/// trimmed.
pub open spec fn sse_payload(s: Seq<char>) -> Seq<char> {
    trim_spec(strip_data_prefixes(trim_cr(s)))
}

/// Is this line a `data:` frame at all (after trailing carriage returns are
/// dropped)?
pub open spec fn is_data_line(s: Seq<char>) -> bool {
    let t = trim_cr(s);
    t.len() >= 5 && t.take(5) == "data:"@
}

/// Classification of one SSE line.
#[derive(Debug)]
pub enum SseLine {
    /// Not a `data:` frame; ignored.
    Skip,
    /// The end-of-stream marker `[DONE]`.
    Done,
    /// A data payload to parse as a JSON chunk.
    Chunk(String),
}

/// Classifies one SSE line: frames without the `data:` prefix are ignored,
/// the literal `[DONE]` payload ends the stream, and any other payload is a
/// chunk.
pub fn parse_sse_line(line: &str) -> (r: SseLine)
    ensures
        match r {
            SseLine::Skip => !is_data_line(line@),
            SseLine::Done => is_data_line(line@) && sse_payload(line@) == "[DONE]"@,
            SseLine::Chunk(p) => is_data_line(line@) && sse_payload(line@) != "[DONE]"@ && p@
                == sse_payload(line@),
        },
{
    let n = line.unicode_len();
    let mut e: usize = n;
    while e > 0 && line.get_char(e - 1) == '\r'
        invariant
            n == line@.len(),
            e <= n,
            forall|j: int| e <= j < n ==> line@[j] == '\r',
        decreases e,
    {
        e = e - 1;
    }
    proof {
        lemma_trim_cr(line@, e as int);
    }
    let trimmed = line.substring_char(0, e);
    proof {
        reveal_strlit("data:");
    }
    if !str_starts_with(trimmed, "data:") {
        return SseLine::Skip;
    }
    let mut rest = trimmed;
    proof {
        assert(strip_data_prefixes(line@.take(e as int)) == strip_data_prefixes(rest@));
    }
    while rest.unicode_len() >= 5 && str_starts_with(rest, "data:")
        invariant
            strip_data_prefixes(trim_cr(line@)) == strip_data_prefixes(rest@),
        decreases rest@.len(),
    {
        let m = rest.unicode_len();
        let ghost pre = rest@;
        rest = rest.substring_char(5, m);
        proof {
            reveal_strlit("data:");
            assert(pre.take(5) =~= pre.subrange(0, 5));
            assert(pre.take(5) == "data:"@);
            assert(rest@ =~= pre.skip(5));
            assert(strip_data_prefixes(pre) == strip_data_prefixes(pre.skip(5)));
        }
    }
    proof {
        if rest@.len() >= 5 && rest@.take(5) == "data:"@ {
            assert(rest@.subrange(0, 5) == "data:"@);
            assert(false);
        }
        assert(strip_data_prefixes(rest@) == rest@);
    }
    let payload = trim(rest);
    if str_eq(payload, "[DONE]") {
        SseLine::Done
    } else {
        SseLine::Chunk(copy_str(payload))
    }
}

// ---------------------------------------------------------------------------
// block-opening transitions
// ---------------------------------------------------------------------------

/// Opening the text block on demand: reuse the open one, or assign the next
/// index and emit its start event.
pub open spec fn g_open_text(s: GStream) -> (GStream, Seq<GEvent>, u32) {
    match s.text_block {
        Some(i) => (s, Seq::empty(), i),
        None => (
            GStream {
                next_index: vstd::wrapping::u32_specs::wrapping_add(s.next_index, 1),
                text_block: Some(s.next_index),
                ..s
            },
            seq![GEvent::ETextStart { index: s.next_index }],
            s.next_index,
        ),
    }
}

/// Opening the thinking block on demand.
pub open spec fn g_open_thinking(s: GStream) -> (GStream, Seq<GEvent>, u32) {
    match s.thinking_block {
        Some(i) => (s, Seq::empty(), i),
        None => (
            GStream {
                next_index: vstd::wrapping::u32_specs::wrapping_add(s.next_index, 1),
                thinking_block: Some(s.next_index),
                ..s
            },
            seq![GEvent::EThinkingStart { index: s.next_index }],
            s.next_index,
        ),
    }
}

impl StreamState {
    /// Returns the open text block's index, opening it on demand.
    fn ensure_text_block(&mut self, out: &mut Vec<AnthropicStreamEvent>) -> (idx: u32)
        ensures
            ({
                let (s2, ev, i) = g_open_text(view_stream(*old(self)));
                &&& view_stream(*final(self)) == s2
                &&& events_view(final(out)@) == events_view(old(out)@) + ev
                &&& idx == i
            }),
    {
        match self.text_block_index {
            Some(i) => {
                proof {
                    assert(events_view(out@) =~= events_view(out@) + Seq::<GEvent>::empty());
                }
                i
            },
            None => {
                let idx = self.next_index;
                self.next_index = idx.wrapping_add(1);
                self.text_block_index = Some(idx);
                let ghost pre_out = out@;
                out.push(AnthropicStreamEvent::TextBlockStart { index: idx });
                proof {
                    assert(events_view(out@) =~= events_view(pre_out) + seq![
                        GEvent::ETextStart { index: idx },
                    ]);
                }
                idx
            },
        }
    }

    /// Returns the open thinking block's index, opening it on demand.
    fn ensure_thinking_block(&mut self, out: &mut Vec<AnthropicStreamEvent>) -> (idx: u32)
        ensures
            ({
                let (s2, ev, i) = g_open_thinking(view_stream(*old(self)));
                &&& view_stream(*final(self)) == s2
                &&& events_view(final(out)@) == events_view(old(out)@) + ev
                &&& idx == i
            }),
    {
        match self.thinking_block_index {
            Some(i) => {
                proof {
                    assert(events_view(out@) =~= events_view(out@) + Seq::<GEvent>::empty());
                }
                i
            },
            None => {
                let idx = self.next_index;
                self.next_index = idx.wrapping_add(1);
                self.thinking_block_index = Some(idx);
                let ghost pre_out = out@;
                out.push(AnthropicStreamEvent::ThinkingBlockStart { index: idx });
                proof {
                    assert(events_view(out@) =~= events_view(pre_out) + seq![
                        GEvent::EThinkingStart { index: idx },
                    ]);
                }
                idx
            },
        }
    }
}

// ---------------------------------------------------------------------------
// delta transitions
// ---------------------------------------------------------------------------

/// A non-empty content delta: the text accumulates, the text block opens on
/// demand, and a text delta is emitted.
pub open spec fn g_content_delta(s: GStream, text: Seq<char>) -> (GStream, Seq<GEvent>) {
    if text.len() == 0 {
        (s, Seq::empty())
    } else {
        let s1 = GStream { output_text: s.output_text + text, ..s };
        let (s2, ev, idx) = g_open_text(s1);
        (s2, ev + seq![GEvent::ETextDelta { index: idx, text }])
    }
}

/// A reasoning delta: the object form opens the thinking block and streams
/// its fields; the string form streams thinking text; anything else is
/// ignored.
pub open spec fn g_reasoning_delta(s: GStream, r: OpenAIReasoningDelta) -> (
    GStream,
    Seq<GEvent>,
) {
    match r {
        OpenAIReasoningDelta::Structured(d) => {
            let (s1, ev0, idx) = g_open_thinking(s);
            let (s2, ev1) = match d.thinking {
                Some(t) => (
                    GStream { reasoning_text: s1.reasoning_text + t@, ..s1 },
                    seq![GEvent::EThinkingDelta { index: idx, thinking: t@ }],
                ),
                None => (s1, Seq::<GEvent>::empty()),
            };
            let (s3, ev2) = match d.signature {
                Some(sg) => (
                    GStream { reasoning_signature: Some(sg@), ..s2 },
                    seq![GEvent::ESignatureDelta { index: idx, signature: sg@ }],
                ),
                None => (s2, Seq::<GEvent>::empty()),
            };
            (s3, ev0 + ev1 + ev2)
        },
        OpenAIReasoningDelta::Plain(t) => {
            let s1 = GStream { reasoning_text: s.reasoning_text + t@, ..s };
            let (s2, ev0, idx) = g_open_thinking(s1);
            (s2, ev0 + seq![GEvent::EThinkingDelta { index: idx, thinking: t@ }])
        },
        OpenAIReasoningDelta::Opaque => (s, Seq::empty()),
    }
}

/// Position of the sub-state for an upstream tool-call index.
pub open spec fn g_find_tool(tools: Seq<GToolState>, uidx: u32) -> Option<int>
    decreases tools.len(),
{
    if tools.len() == 0 {
        None
    } else if tools[0].upstream_index == uidx {
        Some(0)
    } else {
        match g_find_tool(tools.drop_first(), uidx) {
            Some(j) => Some(1 + j),
            None => None,
        }
    }
}

proof fn lemma_find_tool(tools: Seq<GToolState>, uidx: u32, j: int)
    requires
        0 <= j <= tools.len(),
        forall|k: int| 0 <= k < j ==> tools[k].upstream_index != uidx,
        j < tools.len() ==> tools[j].upstream_index == uidx,
    ensures
        g_find_tool(tools, uidx) == if j < tools.len() {
            Some(j)
        } else {
            None::<int>
        },
    decreases tools.len(),
{
    if tools.len() == 0 {
    } else if tools[0].upstream_index == uidx {
        assert(j == 0);
    } else {
        lemma_find_tool(tools.drop_first(), uidx, j - 1);
    }
}

/// One tool-call delta: the sub-state is looked up or created, id and name
/// merge, arguments append (streaming through once the block has started),
/// and the block starts when id and name first become known, followed by
/// any buffered arguments.
pub open spec fn g_tool_delta(s: GStream, d: OpenAIToolCallDelta) -> (GStream, Seq<GEvent>) {
    let (s1, ti): (GStream, int) = match g_find_tool(s.tools, d.index) {
        Some(j) => (s, j),
        None => (
            GStream {
                next_index: vstd::wrapping::u32_specs::wrapping_add(s.next_index, 1),
                tools: s.tools.push(
                    GToolState {
                        upstream_index: d.index,
                        id: None,
                        name: None,
                        arguments: Seq::empty(),
                        block_index: s.next_index,
                        started: false,
                        stopped: false,
                    },
                ),
                ..s
            },
            s.tools.len() as int,
        ),
    };
    let t0 = s1.tools[ti];
    let t1 = GToolState {
        id: match d.id {
            Some(x) => Some(x@),
            None => t0.id,
        },
        ..t0
    };
    let (t2, ev_args): (GToolState, Seq<GEvent>) = match d.function {
        None => (t1, Seq::empty()),
        Some(f) => {
            let named = GToolState {
                name: match f.name {
                    Some(nm) => Some(nm@),
                    None => t1.name,
                },
                ..t1
            };
            match f.arguments {
                Some(a) => (
                    GToolState { arguments: named.arguments + a@, ..named },
                    if named.started {
                        seq![
                            GEvent::EInputJsonDelta {
                                index: named.block_index,
                                partial_json: a@,
                            },
                        ]
                    } else {
                        Seq::empty()
                    },
                ),
                None => (named, Seq::empty()),
            }
        },
    };
    let (t3, ev_start): (GToolState, Seq<GEvent>) = if !t2.started && t2.id is Some
        && t2.name is Some {
        (
            GToolState { started: true, ..t2 },
            seq![
                GEvent::EToolUseStart {
                    index: t2.block_index,
                    id: match t2.id {
                        Some(x) => x,
                        None => Seq::empty(),
                    },
                    name: match t2.name {
                        Some(x) => x,
                        None => Seq::empty(),
                    },
                },
            ] + if t2.arguments.len() > 0 {
                seq![
                    GEvent::EInputJsonDelta {
                        index: t2.block_index,
                        partial_json: t2.arguments,
                    },
                ]
            } else {
                Seq::empty()
            },
        )
    } else {
        (t2, Seq::empty())
    };
    (GStream { tools: s1.tools.update(ti, t3), ..s1 }, ev_args + ev_start)
}

/// A whole list of tool-call deltas, applied in order.
pub open spec fn g_tool_deltas(s: GStream, ds: Seq<OpenAIToolCallDelta>) -> (
    GStream,
    Seq<GEvent>,
)
    decreases ds.len(),
{
    if ds.len() == 0 {
        (s, Seq::empty())
    } else {
        let (s1, ev1) = g_tool_delta(s, ds[0]);
        let (s2, ev2) = g_tool_deltas(s1, ds.drop_first());
        (s2, ev1 + ev2)
    }
}

// ---------------------------------------------------------------------------
// flush and chunk transitions
// ---------------------------------------------------------------------------

/// Flushing the tool sub-states, front to back: a started tool whose
/// accumulated arguments are empty or are not JSON is an error (stopping the
/// sweep there); every sub-state not yet stopped gets its stop event.
pub open spec fn g_flush_tools(tools: Seq<GToolState>) -> (
    Seq<GToolState>,
    Seq<GEvent>,
    Option<crate::translate::GError>,
)
    decreases tools.len(),
{
    if tools.len() == 0 {
        (tools, Seq::empty(), None)
    } else {
        let t = tools[0];
        if t.started && t.arguments.len() == 0 {
            (tools, Seq::empty(), Some(crate::translate::g_invalid("tool_use arguments empty"@)))
        } else if t.started && !parses_as_json(t.arguments) {
            (
                tools,
                Seq::empty(),
                Some(crate::translate::g_invalid("tool_use arguments invalid json"@)),
            )
        } else {
            let (t1, ev1): (GToolState, Seq<GEvent>) = if !t.stopped {
                (
                    GToolState { stopped: true, ..t },
                    seq![GEvent::EBlockStop { index: t.block_index }],
                )
            } else {
                (t, Seq::empty())
            };
            let (rest, ev2, err) = g_flush_tools(tools.drop_first());
            (seq![t1] + rest, ev1 + ev2, err)
        }
    }
}

/// Flushing all open blocks: the text block closes, then the thinking
/// block, then the tool sub-states as [`g_flush_tools`] describes.
pub open spec fn g_stream_flush(s: GStream) -> (
    GStream,
    Seq<GEvent>,
    Option<crate::translate::GError>,
) {
    let (s1, ev1): (GStream, Seq<GEvent>) = match s.text_block {
        Some(i) => (GStream { text_block: None, ..s }, seq![GEvent::EBlockStop { index: i }]),
        None => (s, Seq::empty()),
    };
    let (s2, ev2): (GStream, Seq<GEvent>) = match s1.thinking_block {
        Some(i) => (
            GStream { thinking_block: None, ..s1 },
            seq![GEvent::EBlockStop { index: i }],
        ),
        None => (s1, Seq::empty()),
    };
    let (tools2, ev3, err) = g_flush_tools(s2.tools);
    (GStream { tools: tools2, ..s2 }, ev1 + ev2 + ev3, err)
}

/// The first chunk starts the message: upstream id and model are captured
/// and `message_start` goes out with the id (or a placeholder).
pub open spec fn g_start(s: GStream, id: Option<Seq<char>>, model: Option<Seq<char>>) -> (
    GStream,
    Seq<GEvent>,
) {
    if s.started {
        (s, Seq::empty())
    } else {
        (
            GStream { started: true, message_id: id, model, ..s },
            seq![
                GEvent::EMessageStart {
                    message_id: match id {
                        Some(x) => x,
                        None => "msg_stream"@,
                    },
                },
            ],
        )
    }
}

/// One whole chunk: start on demand, then the first choice's content,
/// reasoning and tool-call deltas in order; a finish reason flushes all open
/// blocks and emits `message_delta` with the mapped stop reason.
pub open spec fn g_chunk(s: GStream, chunk: OpenAIStreamChunk) -> (
    GStream,
    Seq<GEvent>,
    Option<crate::translate::GError>,
) {
    let (s0, ev0) = g_start(
        s,
        crate::config::opt_view(chunk.id),
        crate::config::opt_view(chunk.model),
    );
    if chunk.choices@.len() == 0 {
        (s0, ev0, None)
    } else {
        let choice = chunk.choices@[0];
        let (s1, ev1): (GStream, Seq<GEvent>) = match choice.delta.content {
            Some(c) => g_content_delta(s0, c@),
            None => (s0, Seq::empty()),
        };
        let (s2, ev2): (GStream, Seq<GEvent>) = match choice.delta.reasoning_content {
            Some(rc) => g_reasoning_delta(s1, rc),
            None => (s1, Seq::empty()),
        };
        let (s3, ev3): (GStream, Seq<GEvent>) = match choice.delta.tool_calls {
            Some(ds) => g_tool_deltas(s2, ds@),
            None => (s2, Seq::empty()),
        };
        match choice.finish_reason {
            None => (s3, ev0 + ev1 + ev2 + ev3, None),
            Some(f) => {
                let (s4, ev4, err) = g_stream_flush(s3);
                match err {
                    Some(e) => (s4, ev0 + ev1 + ev2 + ev3 + ev4, Some(e)),
                    None => (
                        s4,
                        ev0 + ev1 + ev2 + ev3 + ev4 + seq![
                            GEvent::EMessageDelta { stop_reason: finish_to_stop(f@) },
                        ],
                        None,
                    ),
                }
            },
        }
    }
}

/// The end of the stream: flush all open blocks, then `message_stop`.
pub open spec fn g_finish(s: GStream) -> (
    GStream,
    Seq<GEvent>,
    Option<crate::translate::GError>,
) {
    let (s1, ev, err) = g_stream_flush(s);
    match err {
        Some(e) => (s1, ev, Some(e)),
        None => (s1, ev.push(GEvent::EMessageStop), None),
    }
}

impl StreamState {
    /// Applies one tool-call delta, as [`g_tool_delta`] describes.
    fn apply_tool_delta(&mut self, d: &OpenAIToolCallDelta, out: &mut Vec<AnthropicStreamEvent>)
        ensures
            ({
                let (s2, ev) = g_tool_delta(view_stream(*old(self)), *d);
                &&& view_stream(*final(self)) == s2
                &&& events_view(final(out)@) == events_view(old(out)@) + ev
            }),
    {
        let ghost s_in = view_stream(*self);
        let n = self.tool_calls.len();
        let mut j: usize = 0;
        while j < n && self.tool_calls[j].upstream_index != d.index
            invariant
                n == self.tool_calls@.len(),
                j <= n,
                forall|k: int|
                    0 <= k < j ==> (#[trigger] self.tool_calls@[k]).upstream_index != d.index,
                *self == *old(self),
            decreases n - j,
        {
            j = j + 1;
        }
        proof {
            assert forall|k: int| 0 <= k < j implies (#[trigger] tools_view(
                self.tool_calls@,
            )[k]).upstream_index != d.index by {
                assert(tools_view(self.tool_calls@)[k] == view_tool(self.tool_calls@[k]));
            }
            if j < n {
                assert(tools_view(self.tool_calls@)[j as int].upstream_index == d.index);
            }
            lemma_find_tool(tools_view(self.tool_calls@), d.index, j as int);
        }
        if j == n {
            let idx = self.next_index;
            self.next_index = idx.wrapping_add(1);
            let ghost pre_tools = self.tool_calls@;
            self.tool_calls.push(
                ToolCallState {
                    upstream_index: d.index,
                    id: None,
                    name: None,
                    arguments: String::new(),
                    block_index: idx,
                    started: false,
                    stopped: false,
                },
            );
            proof {
                assert(tools_view(self.tool_calls@) =~= tools_view(pre_tools).push(
                    GToolState {
                        upstream_index: d.index,
                        id: None,
                        name: None,
                        arguments: Seq::empty(),
                        block_index: idx,
                        started: false,
                        stopped: false,
                    },
                ));
            }
        }
        let ghost step = g_tool_delta(s_in, *d);
        let ghost ti = j as int;
        let ghost s1_tools = tools_view(self.tool_calls@);
        let ghost pre_out = out@;
        let mut t = self.tool_calls.remove(j);
        let ghost t0 = view_tool(t);
        proof {
            assert(t0 == s1_tools[ti]);
        }
        match &d.id {
            Some(x) => {
                t.id = Some(x.clone());
            },
            None => {},
        }
        let ghost t1 = view_tool(t);
        match &d.function {
            Some(f) => {
                match &f.name {
                    Some(nm) => {
                        t.name = Some(nm.clone());
                    },
                    None => {},
                }
                match &f.arguments {
                    Some(a) => {
                        t.arguments.append(a.as_str());
                        if t.started {
                            out.push(
                                AnthropicStreamEvent::InputJsonDelta {
                                    index: t.block_index,
                                    partial_json: a.clone(),
                                },
                            );
                        }
                    },
                    None => {},
                }
            },
            None => {},
        }
        let ghost t2 = view_tool(t);
        if !t.started && t.id.is_some() && t.name.is_some() {
            t.started = true;
            let idv = match &t.id {
                Some(x) => x.clone(),
                None => String::new(),
            };
            let nmv = match &t.name {
                Some(x) => x.clone(),
                None => String::new(),
            };
            out.push(
                AnthropicStreamEvent::ToolUseBlockStart {
                    index: t.block_index,
                    id: idv,
                    name: nmv,
                },
            );
            if t.arguments.unicode_len() > 0 {
                out.push(
                    AnthropicStreamEvent::InputJsonDelta {
                        index: t.block_index,
                        partial_json: t.arguments.clone(),
                    },
                );
            }
        }
        let ghost t3 = view_tool(t);
        let ghost mid_tools = self.tool_calls@;
        self.tool_calls.insert(j, t);
        proof {
            assert(self.tool_calls@ =~= mid_tools.insert(ti, t));
            assert(tools_view(self.tool_calls@) =~= s1_tools.update(ti, t3));
            assert(view_stream(*self) == step.0);
            assert(events_view(out@) =~= events_view(pre_out) + step.1);
        }
    }

    /// Flushes all open blocks, as [`g_stream_flush`] describes; returns the
    /// error of a started tool whose arguments are empty or not JSON.
    fn flush_open_blocks(&mut self, out: &mut Vec<AnthropicStreamEvent>) -> (r: Option<
        AppError,
    >)
        ensures
            ({
                let (s2, ev, err) = g_stream_flush(view_stream(*old(self)));
                &&& view_stream(*final(self)) == s2
                &&& events_view(final(out)@) == events_view(old(out)@) + ev
                &&& match (r, err) {
                    (None, None) => true,
                    (Some(e), Some(ge)) => e.status == 400 && e.error_type@ == ge.kind
                        && e.message@ == ge.message,
                    _ => false,
                }
            }),
    {
        let ghost s_in = view_stream(*self);
        let ghost spec_out = g_stream_flush(s_in);
        match self.text_block_index {
            Some(i) => {
                self.text_block_index = None;
                let ghost pre = out@;
                out.push(AnthropicStreamEvent::BlockStop { index: i });
                proof {
                    assert(events_view(out@) =~= events_view(pre) + seq![
                        GEvent::EBlockStop { index: i },
                    ]);
                }
            },
            None => {},
        }
        match self.thinking_block_index {
            Some(i) => {
                self.thinking_block_index = None;
                let ghost pre = out@;
                out.push(AnthropicStreamEvent::BlockStop { index: i });
                proof {
                    assert(events_view(out@) =~= events_view(pre) + seq![
                        GEvent::EBlockStop { index: i },
                    ]);
                }
            },
            None => {},
        }
        let ghost tv0 = tools_view(self.tool_calls@);
        let ghost ev_base = events_view(out@);
        let ghost mid_state = view_stream(*self);
        let ghost stops_ev = ev_base.skip(events_view(old(out)@).len() as int);
        proof {
            assert(tv0.skip(0) =~= tv0);
            assert(tools_view(self.tool_calls@).take(0) =~= Seq::<GToolState>::empty());
            assert(ev_base.skip(ev_base.len() as int) =~= Seq::<GEvent>::empty());
            assert(ev_base =~= events_view(old(out)@) + stops_ev);
            assert(spec_out.2 == g_flush_tools(tv0).2);
            assert(spec_out.1 =~= stops_ev + g_flush_tools(tv0).1);
            assert(spec_out.0 == (GStream { tools: g_flush_tools(tv0).0, ..mid_state }));
            assert(view_stream(*self) == (GStream {
                tools: tools_view(self.tool_calls@),
                ..mid_state
            }));
        }
        let n = self.tool_calls.len();
        let mut k: usize = 0;
        while k < n
            invariant
                spec_out == g_stream_flush(view_stream(*old(self))),
                n == self.tool_calls@.len(),
                tv0.len() == n,
                k <= n,
                events_view(out@).len() >= ev_base.len(),
                events_view(out@).take(ev_base.len() as int) == ev_base,
                ev_base == events_view(old(out)@) + stops_ev,
                spec_out.2 == g_flush_tools(tv0).2,
                spec_out.1 == stops_ev + g_flush_tools(tv0).1,
                spec_out.0 == (GStream { tools: g_flush_tools(tv0).0, ..mid_state }),
                view_stream(*self) == (GStream {
                    tools: tools_view(self.tool_calls@),
                    ..mid_state
                }),
                tools_view(self.tool_calls@).skip(k as int) == tv0.skip(k as int),
                g_flush_tools(tv0).2 == g_flush_tools(tv0.skip(k as int)).2,
                g_flush_tools(tv0).1 == events_view(out@).skip(ev_base.len() as int)
                    + g_flush_tools(tv0.skip(k as int)).1,
                g_flush_tools(tv0).0 == tools_view(self.tool_calls@).take(k as int)
                    + g_flush_tools(tv0.skip(k as int)).0,
            decreases n - k,
        {
            proof {
                assert(tv0.skip(k as int)[0] == tools_view(self.tool_calls@)[k as int]);
                assert(tv0.skip(k as int).drop_first() =~= tv0.skip(k + 1));
            }
            let started = self.tool_calls[k].started;
            if started {
                let bad_empty = self.tool_calls[k].arguments.unicode_len() == 0;
                let bad_json = if bad_empty {
                    false
                } else {
                    !crate::dialect::json_is_valid(self.tool_calls[k].arguments.as_str())
                };
                if bad_empty || bad_json {
                    proof {
                        let tail = g_flush_tools(tv0.skip(k as int));
                        assert(tail.2 is Some);
                        assert(tail.0 =~= tv0.skip(k as int));
                        assert(tail.1 =~= Seq::<GEvent>::empty());
                        assert(g_flush_tools(tv0).0 =~= tools_view(self.tool_calls@).take(
                            k as int,
                        ) + tools_view(self.tool_calls@).skip(k as int));
                        assert(g_flush_tools(tv0).0 =~= tools_view(self.tool_calls@));
                        assert(view_stream(*self) == spec_out.0);
                        assert(g_flush_tools(tv0).1 =~= events_view(out@).skip(
                            ev_base.len() as int,
                        ));
                        assert(events_view(out@) =~= events_view(out@).take(
                            ev_base.len() as int,
                        ) + events_view(out@).skip(ev_base.len() as int));
                        assert(events_view(out@) =~= events_view(old(out)@) + spec_out.1);
                    }
                    if bad_empty {
                        proof {
                            assert(g_flush_tools(tv0.skip(k as int)).2 == Some(
                                crate::translate::g_invalid("tool_use arguments empty"@),
                            ));
                        }
                        return Some(AppError::invalid_request("tool_use arguments empty"));
                    }
                    proof {
                        assert(g_flush_tools(tv0.skip(k as int)).2 == Some(
                            crate::translate::g_invalid("tool_use arguments invalid json"@),
                        ));
                    }
                    return Some(AppError::invalid_request("tool_use arguments invalid json"));
                }
            }
            let ghost pre_tools = tools_view(self.tool_calls@);
            let ghost pre_ev = events_view(out@);
            if !self.tool_calls[k].stopped {
                let mut t = self.tool_calls.remove(k);
                let bi = t.block_index;
                t.stopped = true;
                let ghost mid = self.tool_calls@;
                self.tool_calls.insert(k, t);
                out.push(AnthropicStreamEvent::BlockStop { index: bi });
                proof {
                    assert(self.tool_calls@ =~= mid.insert(k as int, t));
                    assert(tools_view(self.tool_calls@) =~= pre_tools.update(
                        k as int,
                        GToolState { stopped: true, ..pre_tools[k as int] },
                    ));
                    assert(events_view(out@) =~= pre_ev + seq![
                        GEvent::EBlockStop { index: bi },
                    ]);
                }
            }
            k = k + 1;
            proof {
                assert(tools_view(self.tool_calls@).skip(k as int) =~= pre_tools.skip(
                    k as int,
                ));
                assert(tools_view(self.tool_calls@).skip(k as int) =~= tv0.skip(k as int));
                assert(events_view(out@).take(ev_base.len() as int) =~= ev_base);
                let prev_tail = g_flush_tools(tv0.skip(k - 1));
                let tail = g_flush_tools(tv0.skip(k as int));
                assert(prev_tail.1 =~= (if !tv0.skip(k - 1)[0].stopped {
                    seq![GEvent::EBlockStop { index: tv0.skip(k - 1)[0].block_index }]
                } else {
                    Seq::<GEvent>::empty()
                }) + tail.1);
                assert(g_flush_tools(tv0).1 =~= events_view(out@).skip(
                    ev_base.len() as int,
                ) + tail.1);
                assert(g_flush_tools(tv0).0 =~= tools_view(self.tool_calls@).take(k as int)
                    + tail.0);
                assert(view_stream(*self) == (GStream {
                    tools: tools_view(self.tool_calls@),
                    ..mid_state
                }));
            }
        }
        proof {
            assert(tv0.skip(n as int) =~= Seq::<GToolState>::empty());
            assert(g_flush_tools(tv0).1 =~= events_view(out@).skip(ev_base.len() as int));
            assert(g_flush_tools(tv0).0 =~= tools_view(self.tool_calls@).take(n as int)
                + Seq::<GToolState>::empty());
            assert(tools_view(self.tool_calls@).take(n as int) =~= tools_view(
                self.tool_calls@,
            ));
            assert(view_stream(*self) == spec_out.0);
            assert(events_view(out@) =~= events_view(out@).take(ev_base.len() as int)
                + events_view(out@).skip(ev_base.len() as int));
            assert(events_view(out@) =~= events_view(old(out)@) + spec_out.1);
        }
        None
    }

    /// Applies a non-empty content delta, as [`g_content_delta`] describes.
    fn apply_content(&mut self, c: String, out: &mut Vec<AnthropicStreamEvent>)
        ensures
            ({
                let (s2, ev) = g_content_delta(view_stream(*old(self)), c@);
                &&& view_stream(*final(self)) == s2
                &&& events_view(final(out)@) == events_view(old(out)@) + ev
            }),
    {
        if c.unicode_len() > 0 {
            self.output_text.append(c.as_str());
            let idx = self.ensure_text_block(out);
            let ghost pre = out@;
            let ghost cv = c@;
            out.push(AnthropicStreamEvent::TextDelta { index: idx, text: c });
            proof {
                assert(events_view(out@) =~= events_view(pre) + seq![
                    GEvent::ETextDelta { index: idx, text: cv },
                ]);
            }
        } else {
            proof {
                assert(events_view(out@) =~= events_view(out@) + Seq::<GEvent>::empty());
            }
        }
    }

    /// Applies a reasoning delta, as [`g_reasoning_delta`] describes.
    fn apply_reasoning(&mut self, rc: OpenAIReasoningDelta, out: &mut Vec<AnthropicStreamEvent>)
        ensures
            ({
                let (s2, ev) = g_reasoning_delta(view_stream(*old(self)), rc);
                &&& view_stream(*final(self)) == s2
                &&& events_view(final(out)@) == events_view(old(out)@) + ev
            }),
    {
        match rc {
            OpenAIReasoningDelta::Structured(dd) => {
                let idx = self.ensure_thinking_block(out);
                match dd.thinking {
                    Some(t) => {
                        self.reasoning_text.append(t.as_str());
                        let ghost pre = out@;
                        let ghost tv = t@;
                        out.push(
                            AnthropicStreamEvent::ThinkingDelta { index: idx, thinking: t },
                        );
                        proof {
                            assert(events_view(out@) =~= events_view(pre) + seq![
                                GEvent::EThinkingDelta { index: idx, thinking: tv },
                            ]);
                        }
                    },
                    None => {},
                }
                match dd.signature {
                    Some(sg) => {
                        self.reasoning_signature = Some(sg.clone());
                        let ghost pre = out@;
                        let ghost sv = sg@;
                        out.push(
                            AnthropicStreamEvent::SignatureDelta { index: idx, signature: sg },
                        );
                        proof {
                            assert(events_view(out@) =~= events_view(pre) + seq![
                                GEvent::ESignatureDelta { index: idx, signature: sv },
                            ]);
                        }
                    },
                    None => {},
                }
            },
            OpenAIReasoningDelta::Plain(t) => {
                self.reasoning_text.append(t.as_str());
                let idx = self.ensure_thinking_block(out);
                let ghost pre = out@;
                let ghost tv = t@;
                out.push(AnthropicStreamEvent::ThinkingDelta { index: idx, thinking: t });
                proof {
                    assert(events_view(out@) =~= events_view(pre) + seq![
                        GEvent::EThinkingDelta { index: idx, thinking: tv },
                    ]);
                }
            },
            OpenAIReasoningDelta::Opaque => {
                proof {
                    assert(events_view(out@) =~= events_view(out@) + Seq::<GEvent>::empty());
                }
            },
        }
    }

    /// Handles one parsed chunk, as [`g_chunk`] describes: the returned
    /// events go downstream in order, and a returned error ends the stream.
    #[verifier::rlimit(100)]
    pub fn handle_chunk(&mut self, chunk: OpenAIStreamChunk) -> (r: (
        Vec<AnthropicStreamEvent>,
        Option<AppError>,
    ))
        ensures
            ({
                let (s2, ev, err) = g_chunk(view_stream(*old(self)), chunk);
                &&& view_stream(*final(self)) == s2
                &&& events_view(r.0@) == ev
                &&& match (r.1, err) {
                    (None, None) => true,
                    (Some(e), Some(ge)) => e.status == 400 && e.error_type@ == ge.kind
                        && e.message@ == ge.message,
                    _ => false,
                }
            }),
    {
        let mut out: Vec<AnthropicStreamEvent> = Vec::new();
        proof {
            assert(events_view(out@) =~= Seq::<GEvent>::empty());
        }
        let OpenAIStreamChunk { id, model, choices } = chunk;
        if !self.started {
            self.started = true;
            let mid = match &id {
                Some(s) => s.clone(),
                None => copy_str("msg_stream"),
            };
            self.message_id = id;
            self.model = model;
            let ghost pre = out@;
            out.push(AnthropicStreamEvent::MessageStart { message_id: mid });
            proof {
                assert(events_view(out@) =~= events_view(pre) + seq![
                    GEvent::EMessageStart { message_id: mid@ },
                ]);
            }
        }
        let ghost start_step = g_start(
            view_stream(*old(self)),
            crate::config::opt_view(chunk.id),
            crate::config::opt_view(chunk.model),
        );
        proof {
            assert(view_stream(*self) == start_step.0);
            assert(events_view(out@) =~= start_step.1);
        }
        if choices.len() == 0 {
            return (out, None);
        }
        let mut choices = choices;
        let choice = choices.remove(0);
        let ghost gchoice = chunk.choices@[0];
        let crate::dialect::OpenAIStreamChoice { index: _, delta, finish_reason } = choice;
        let crate::dialect::OpenAIStreamDelta {
            role: _,
            content,
            tool_calls,
            reasoning_content,
        } = delta;
        match content {
            Some(c) => {
                self.apply_content(c, &mut out);
            },
            None => {},
        }
        let ghost content_step: (GStream, Seq<GEvent>) = match gchoice.delta.content {
            Some(c) => g_content_delta(start_step.0, c@),
            None => (start_step.0, Seq::empty()),
        };
        proof {
            assert(view_stream(*self) == content_step.0);
            assert(events_view(out@) =~= start_step.1 + content_step.1);
        }
        match reasoning_content {
            Some(rc) => {
                self.apply_reasoning(rc, &mut out);
            },
            None => {},
        }
        let ghost reasoning_step: (GStream, Seq<GEvent>) = match gchoice.delta.reasoning_content {
            Some(rc) => g_reasoning_delta(content_step.0, rc),
            None => (content_step.0, Seq::empty()),
        };
        proof {
            assert(view_stream(*self) == reasoning_step.0);
            assert(events_view(out@) =~= start_step.1 + content_step.1 + reasoning_step.1);
        }
        match tool_calls {
            Some(ds) => {
                let ghost dsv = ds@;
                let ghost sA = reasoning_step.0;
                let ghost evA = events_view(out@);
                proof {
                    assert(dsv.skip(0) =~= dsv);
                    assert(evA.skip(evA.len() as int) =~= Seq::<GEvent>::empty());
                }
                let m = ds.len();
                let mut i: usize = 0;
                while i < m
                    invariant
                        m == dsv.len(),
                        ds@ == dsv,
                        i <= m,
                        events_view(out@).len() >= evA.len(),
                        events_view(out@).take(evA.len() as int) == evA,
                        g_tool_deltas(sA, dsv).0 == g_tool_deltas(
                            view_stream(*self),
                            dsv.skip(i as int),
                        ).0,
                        g_tool_deltas(sA, dsv).1 == events_view(out@).skip(evA.len() as int)
                            + g_tool_deltas(view_stream(*self), dsv.skip(i as int)).1,
                    decreases m - i,
                {
                    proof {
                        assert(dsv.skip(i as int)[0] == dsv[i as int]);
                        assert(dsv.skip(i as int).drop_first() =~= dsv.skip(i + 1));
                    }
                    let ghost pre_state = view_stream(*self);
                    let ghost pre_ev = events_view(out@);
                    self.apply_tool_delta(&ds[i], &mut out);
                    i = i + 1;
                    proof {
                        let one = g_tool_delta(pre_state, dsv[i - 1]);
                        let tail = g_tool_deltas(view_stream(*self), dsv.skip(i as int));
                        assert(g_tool_deltas(pre_state, dsv.skip(i - 1)).1 =~= one.1 + tail.1);
                        assert(events_view(out@).skip(evA.len() as int) =~= pre_ev.skip(
                            evA.len() as int,
                        ) + one.1);
                        assert(events_view(out@).take(evA.len() as int) =~= evA);
                        assert(g_tool_deltas(sA, dsv).1 =~= events_view(out@).skip(
                            evA.len() as int,
                        ) + tail.1);
                    }
                }
                proof {
                    assert(dsv.skip(m as int) =~= Seq::<OpenAIToolCallDelta>::empty());
                    assert(events_view(out@) =~= evA + events_view(out@).skip(
                        evA.len() as int,
                    ));
                }
            },
            None => {},
        }
        let ghost tools_step: (GStream, Seq<GEvent>) = match gchoice.delta.tool_calls {
            Some(ds2) => g_tool_deltas(reasoning_step.0, ds2@),
            None => (reasoning_step.0, Seq::empty()),
        };
        proof {
            assert(view_stream(*self) == tools_step.0);
            assert(events_view(out@) =~= start_step.1 + content_step.1 + reasoning_step.1
                + tools_step.1);
        }
        match finish_reason {
            Some(f) => {
                let flush_err = self.flush_open_blocks(&mut out);
                match flush_err {
                    Some(e) => {
                        return (out, Some(e));
                    },
                    None => {
                        let stop = copy_str(crate::translate::map_finish_reason(f.as_str()));
                        let ghost pre = out@;
                        out.push(AnthropicStreamEvent::MessageDelta { stop_reason: stop });
                        proof {
                            assert(events_view(out@) =~= events_view(pre) + seq![
                                GEvent::EMessageDelta { stop_reason: finish_to_stop(f@) },
                            ]);
                        }
                    },
                }
            },
            None => {},
        }
        (out, None)
    }

    /// Ends the stream, as [`g_finish`] describes: flush all open blocks and
    /// emit `message_stop`, or surface the flush error.
    pub fn finish(&mut self) -> (r: (Vec<AnthropicStreamEvent>, Option<AppError>))
        ensures
            ({
                let (s2, ev, err) = g_finish(view_stream(*old(self)));
                &&& view_stream(*final(self)) == s2
                &&& events_view(r.0@) == ev
                &&& match (r.1, err) {
                    (None, None) => true,
                    (Some(e), Some(ge)) => e.status == 400 && e.error_type@ == ge.kind
                        && e.message@ == ge.message,
                    _ => false,
                }
            }),
    {
        let mut out: Vec<AnthropicStreamEvent> = Vec::new();
        proof {
            assert(events_view(out@) =~= Seq::<GEvent>::empty());
        }
        let flush_err = self.flush_open_blocks(&mut out);
        match flush_err {
            Some(e) => (out, Some(e)),
            None => {
                let ghost pre = out@;
                out.push(AnthropicStreamEvent::MessageStop);
                proof {
                    assert(events_view(out@) =~= events_view(pre).push(GEvent::EMessageStop));
                }
                (out, None)
            },
        }
    }
}

// ---------------------------------------------------------------------------
// trace summaries
// ---------------------------------------------------------------------------

/// One tool call of the output trace.
#[derive(Debug, Clone)]
pub struct OutputTraceCall {
    pub id: String,
    pub call_type: String,
    pub name: String,
    pub arguments: String,
}

/// The output trace of a finished stream: what the upstream model answered,
/// in OpenAI terms, for span attributes.
#[derive(Debug, Clone)]
pub struct OutputTraceMessage {
    pub role: String,
    pub reasoning_content: Option<String>,
    pub tool_calls: Vec<OutputTraceCall>,
    pub content: Option<String>,
}

/// The upstream-response trace of a finished stream, in Anthropic terms.
#[derive(Debug, Clone)]
pub struct UpstreamResponseTrace {
    pub response_type: String,
    pub role: String,
    pub content: Vec<crate::dialect::AnthropicContentBlock>,
    pub stop_reason: String,
}

/// An optional name, or a default.
pub open spec fn name_or(o: Option<Seq<char>>, d: Seq<char>) -> Seq<char> {
    match o {
        Some(x) => x,
        None => d,
    }
}

/// The named tool calls of the state, as (id, name, arguments) triples; a
/// sub-state without a name is skipped, an absent id gets a placeholder.
pub open spec fn g_output_calls(tools: Seq<GToolState>) -> Seq<(Seq<char>, Seq<char>, Seq<char>)>
    decreases tools.len(),
{
    if tools.len() == 0 {
        Seq::empty()
    } else {
        let rest = g_output_calls(tools.drop_first());
        if tools[0].name is Some {
            seq![
                (
                    name_or(tools[0].id, "tool_call"@),
                    name_or(tools[0].name, Seq::empty()),
                    tools[0].arguments,
                ),
            ] + rest
        } else {
            rest
        }
    }
}

proof fn lemma_output_calls_snoc(s: Seq<GToolState>, t: GToolState)
    ensures
        g_output_calls(s.push(t)) == g_output_calls(s) + (if t.name is Some {
            seq![
                (name_or(t.id, "tool_call"@), name_or(t.name, Seq::empty()), t.arguments),
            ]
        } else {
            Seq::<(Seq<char>, Seq<char>, Seq<char>)>::empty()
        }),
    decreases s.len(),
{
    reveal_with_fuel(g_output_calls, 3);
    if s.len() == 0 {
        assert(s.push(t)[0] == t);
        assert(s.push(t).drop_first() =~= Seq::<GToolState>::empty());
        if t.name is Some {
            assert(g_output_calls(s.push(t)) =~= g_output_calls(s) + seq![
                (name_or(t.id, "tool_call"@), name_or(t.name, Seq::empty()), t.arguments),
            ]);
        } else {
            assert(g_output_calls(s.push(t)) =~= g_output_calls(s)
                + Seq::<(Seq<char>, Seq<char>, Seq<char>)>::empty());
        }
    } else {
        assert(s.push(t)[0] == s[0]);
        assert(s.push(t).drop_first() =~= s.drop_first().push(t));
        lemma_output_calls_snoc(s.drop_first(), t);
        if s[0].name is Some {
            assert(g_output_calls(s.push(t)) =~= seq![
                (name_or(s[0].id, "tool_call"@), name_or(s[0].name, Seq::empty()), s[0].arguments),
            ] + g_output_calls(s.drop_first().push(t)));
        }
    }
}

/// Summarises the stream for the span's `output` attribute: the assistant
/// role, the accumulated reasoning and text when non-empty, and every named
/// tool call.  Nothing but the role yields no trace.
pub fn stream_output_messages(state: &StreamState) -> (r: Option<OutputTraceMessage>)
    ensures
        ({
            let s = view_stream(*state);
            let calls = g_output_calls(s.tools);
            match r {
                None => s.reasoning_text.len() == 0 && calls.len() == 0 && s.output_text.len()
                    == 0,
                Some(m) => {
                    &&& !(s.reasoning_text.len() == 0 && calls.len() == 0
                        && s.output_text.len() == 0)
                    &&& m.role@ == "assistant"@
                    &&& match m.reasoning_content {
                        Some(t) => s.reasoning_text.len() > 0 && t@ == s.reasoning_text,
                        None => s.reasoning_text.len() == 0,
                    }
                    &&& m.tool_calls@.len() == calls.len()
                    &&& forall|i: int|
                        0 <= i < calls.len() ==> {
                            &&& (#[trigger] m.tool_calls@[i]).id@ == calls[i].0
                            &&& m.tool_calls@[i].call_type@ == "function"@
                            &&& m.tool_calls@[i].name@ == calls[i].1
                            &&& m.tool_calls@[i].arguments@ == calls[i].2
                        }
                    &&& match m.content {
                        Some(c) => s.output_text.len() > 0 && c@ == s.output_text,
                        None => s.output_text.len() == 0,
                    }
                },
            }
        }),
{
    let ghost tv = tools_view(state.tool_calls@);
    let mut calls: Vec<OutputTraceCall> = Vec::new();
    let n = state.tool_calls.len();
    let mut i: usize = 0;
    proof {
        assert(tv.take(0) =~= Seq::<GToolState>::empty());
    }
    while i < n
        invariant
            n == state.tool_calls@.len(),
            tv == tools_view(state.tool_calls@),
            i <= n,
            g_output_calls(tv.take(i as int)).len() == calls@.len(),
            forall|j: int|
                0 <= j < calls@.len() ==> {
                    &&& (#[trigger] calls@[j]).id@ == g_output_calls(tv.take(i as int))[j].0
                    &&& calls@[j].call_type@ == "function"@
                    &&& calls@[j].name@ == g_output_calls(tv.take(i as int))[j].1
                    &&& calls@[j].arguments@ == g_output_calls(tv.take(i as int))[j].2
                },
        decreases n - i,
    {
        let t = &state.tool_calls[i];
        let ghost pre = tv.take(i as int);
        match &t.name {
            Some(nm) => {
                let idv = match &t.id {
                    Some(x) => x.clone(),
                    None => copy_str("tool_call"),
                };
                calls.push(
                    OutputTraceCall {
                        id: idv,
                        call_type: copy_str("function"),
                        name: nm.clone(),
                        arguments: t.arguments.clone(),
                    },
                );
            },
            None => {},
        }
        i = i + 1;
        proof {
            assert(tv.take(i as int) =~= pre.push(tv[i - 1]));
            lemma_output_calls_snoc(pre, tv[i - 1]);
        }
    }
    proof {
        assert(tv.take(n as int) =~= tv);
    }
    let has_reasoning = state.reasoning_text.unicode_len() > 0;
    let has_text = state.output_text.unicode_len() > 0;
    if !has_reasoning && calls.len() == 0 && !has_text {
        return None;
    }
    Some(
        OutputTraceMessage {
            role: copy_str("assistant"),
            reasoning_content: if has_reasoning {
                Some(state.reasoning_text.clone())
            } else {
                None
            },
            tool_calls: calls,
            content: if has_text {
                Some(state.output_text.clone())
            } else {
                None
            },
        },
    )
}

/// The upstream answer reconstructed in Anthropic terms for logging: a
/// thinking block when reasoning was seen, the text, then every named tool
/// call with its arguments (or an empty object when they are not JSON).
pub open spec fn g_upstream_blocks(s: GStream) -> Seq<crate::translate::GBlock> {
    let tb: Seq<crate::translate::GBlock> = if s.reasoning_text.len() > 0
        || s.reasoning_signature is Some {
        seq![
            crate::translate::GBlock::GThinking {
                thinking: s.reasoning_text,
                signature: name_or(s.reasoning_signature, "auto"@),
            },
        ]
    } else {
        Seq::empty()
    };
    let xb: Seq<crate::translate::GBlock> = if s.output_text.len() > 0 {
        seq![crate::translate::GBlock::GText { text: s.output_text, cache_control: None }]
    } else {
        Seq::empty()
    };
    tb + xb + g_upstream_tools(s.tools)
}

/// The tool-use blocks of the upstream trace.
pub open spec fn g_upstream_tools(tools: Seq<GToolState>) -> Seq<crate::translate::GBlock>
    decreases tools.len(),
{
    if tools.len() == 0 {
        Seq::empty()
    } else {
        let rest = g_upstream_tools(tools.drop_first());
        if tools[0].name is Some {
            seq![
                crate::translate::GBlock::GToolUse {
                    id: name_or(tools[0].id, "tool_use"@),
                    name: name_or(tools[0].name, Seq::empty()),
                    input: if parses_as_json(tools[0].arguments) {
                        tools[0].arguments
                    } else {
                        "{}"@
                    },
                },
            ] + rest
        } else {
            rest
        }
    }
}

proof fn lemma_upstream_tools_snoc(s: Seq<GToolState>, t: GToolState)
    ensures
        g_upstream_tools(s.push(t)) == g_upstream_tools(s) + (if t.name is Some {
            seq![
                crate::translate::GBlock::GToolUse {
                    id: name_or(t.id, "tool_use"@),
                    name: name_or(t.name, Seq::empty()),
                    input: if parses_as_json(t.arguments) {
                        t.arguments
                    } else {
                        "{}"@
                    },
                },
            ]
        } else {
            Seq::<crate::translate::GBlock>::empty()
        }),
    decreases s.len(),
{
    reveal_with_fuel(g_upstream_tools, 3);
    if s.len() == 0 {
        assert(s.push(t)[0] == t);
        assert(s.push(t).drop_first() =~= Seq::<GToolState>::empty());
        if t.name is Some {
            assert(g_upstream_tools(s.push(t)) =~= g_upstream_tools(s) + seq![
                crate::translate::GBlock::GToolUse {
                    id: name_or(t.id, "tool_use"@),
                    name: name_or(t.name, Seq::empty()),
                    input: if parses_as_json(t.arguments) {
                        t.arguments
                    } else {
                        "{}"@
                    },
                },
            ]);
        } else {
            assert(g_upstream_tools(s.push(t)) =~= g_upstream_tools(s)
                + Seq::<crate::translate::GBlock>::empty());
        }
    } else {
        assert(s.push(t)[0] == s[0]);
        assert(s.push(t).drop_first() =~= s.drop_first().push(t));
        lemma_upstream_tools_snoc(s.drop_first(), t);
        if s[0].name is Some {
            assert(g_upstream_tools(s.push(t)) =~= seq![
                crate::translate::GBlock::GToolUse {
                    id: name_or(s[0].id, "tool_use"@),
                    name: name_or(s[0].name, Seq::empty()),
                    input: if parses_as_json(s[0].arguments) {
                        s[0].arguments
                    } else {
                        "{}"@
                    },
                },
            ] + g_upstream_tools(s.drop_first().push(t)));
        }
    }
}

/// Reconstructs the upstream answer for logging, or nothing when the stream
/// produced no content at all.
pub fn stream_upstream_response(state: &StreamState) -> (r: Option<UpstreamResponseTrace>)
    ensures
        ({
            let gb = g_upstream_blocks(view_stream(*state));
            match r {
                None => gb.len() == 0,
                Some(m) => {
                    &&& gb.len() > 0
                    &&& m.response_type@ == "message"@
                    &&& m.role@ == "assistant"@
                    &&& crate::translate::blocks_view(m.content@) == gb
                    &&& m.stop_reason@ == "tool_use"@
                },
            }
        }),
{
    let ghost s = view_stream(*state);
    let mut content: Vec<crate::dialect::AnthropicContentBlock> = Vec::new();
    let has_reasoning = state.reasoning_text.unicode_len() > 0
        || state.reasoning_signature.is_some();
    if has_reasoning {
        let signature = match &state.reasoning_signature {
            Some(sg) => sg.clone(),
            None => copy_str("auto"),
        };
        content.push(
            crate::dialect::AnthropicContentBlock::Thinking {
                thinking: state.reasoning_text.clone(),
                signature,
            },
        );
    }
    if state.output_text.unicode_len() > 0 {
        content.push(
            crate::dialect::AnthropicContentBlock::Text {
                text: state.output_text.clone(),
                cache_control: None,
            },
        );
    }
    let ghost head = crate::translate::blocks_view(content@);
    proof {
        let tb: Seq<crate::translate::GBlock> = if s.reasoning_text.len() > 0
            || s.reasoning_signature is Some {
            seq![
                crate::translate::GBlock::GThinking {
                    thinking: s.reasoning_text,
                    signature: name_or(s.reasoning_signature, "auto"@),
                },
            ]
        } else {
            Seq::empty()
        };
        let xb: Seq<crate::translate::GBlock> = if s.output_text.len() > 0 {
            seq![
                crate::translate::GBlock::GText { text: s.output_text, cache_control: None },
            ]
        } else {
            Seq::empty()
        };
        assert(head =~= tb + xb);
    }
    let ghost tv = tools_view(state.tool_calls@);
    let n = state.tool_calls.len();
    let mut i: usize = 0;
    proof {
        assert(tv.take(0) =~= Seq::<GToolState>::empty());
        assert(crate::translate::blocks_view(content@) =~= head + g_upstream_tools(
            tv.take(0),
        ));
    }
    while i < n
        invariant
            n == state.tool_calls@.len(),
            tv == tools_view(state.tool_calls@),
            i <= n,
            head == crate::translate::blocks_view(content@).take(head.len() as int),
            crate::translate::blocks_view(content@) == head + g_upstream_tools(
                tv.take(i as int),
            ),
        decreases n - i,
    {
        let t = &state.tool_calls[i];
        let ghost pre = tv.take(i as int);
        let ghost pre_blocks = content@;
        match &t.name {
            Some(nm) => {
                let idv = match &t.id {
                    Some(x) => x.clone(),
                    None => copy_str("tool_use"),
                };
                let input = if crate::dialect::json_is_valid(t.arguments.as_str()) {
                    t.arguments.clone()
                } else {
                    copy_str("{}")
                };
                content.push(
                    crate::dialect::AnthropicContentBlock::ToolUse {
                        id: idv,
                        name: nm.clone(),
                        input,
                    },
                );
                proof {
                    assert(crate::translate::blocks_view(content@)
                        =~= crate::translate::blocks_view(pre_blocks).push(
                        crate::translate::view_block(content@.last()),
                    ));
                }
            },
            None => {},
        }
        i = i + 1;
        proof {
            assert(tv.take(i as int) =~= pre.push(tv[i - 1]));
            lemma_upstream_tools_snoc(pre, tv[i - 1]);
            assert(crate::translate::blocks_view(content@) =~= head + g_upstream_tools(
                tv.take(i as int),
            ));
            assert(crate::translate::blocks_view(content@).take(head.len() as int)
                =~= head);
        }
    }
    proof {
        assert(tv.take(n as int) =~= tv);
    }
    if content.len() == 0 {
        return None;
    }
    Some(
        UpstreamResponseTrace {
            response_type: copy_str("message"),
            role: copy_str("assistant"),
            content,
            stop_reason: copy_str("tool_use"),
        },
    )
}

// ---------------------------------------------------------------------------
// laws
// ---------------------------------------------------------------------------

/// Does a started tool sub-state have bad accumulated arguments: empty, or
/// not a JSON value?
pub open spec fn bad_tool_arguments(t: GToolState) -> bool {
    t.started && (t.arguments.len() == 0 || !parses_as_json(t.arguments))
}

/// Law: when the tool flush succeeds, every started tool call's accumulated
/// arguments are non-empty and parse as JSON; when it fails, the error is
/// an invalid-request error with one of the two argument messages.
pub proof fn lemma_flush_arguments_json(tools: Seq<GToolState>)
    ensures
        g_flush_tools(tools).2 is None ==> forall|i: int|
            0 <= i < tools.len() && (#[trigger] tools[i]).started ==> tools[i].arguments.len()
                > 0 && parses_as_json(tools[i].arguments),
        g_flush_tools(tools).2 matches Some(ge) ==> ge.kind == "invalid_request_error"@ && (
        ge.message == "tool_use arguments empty"@ || ge.message
            == "tool_use arguments invalid json"@),
    decreases tools.len(),
{
    if tools.len() == 0 {
    } else {
        let t = tools[0];
        if t.started && t.arguments.len() == 0 {
        } else if t.started && !parses_as_json(t.arguments) {
        } else {
            lemma_flush_arguments_json(tools.drop_first());
            if g_flush_tools(tools).2 is None {
                assert forall|i: int|
                    0 <= i < tools.len() && (#[trigger] tools[i]).started implies tools[i].arguments.len()
                    > 0 && parses_as_json(tools[i].arguments) by {
                    if i > 0 {
                        assert(tools[i] == tools.drop_first()[i - 1]);
                    }
                }
            }
        }
    }
}

/// Law: the tool flush fails exactly when some started tool sub-state's
/// accumulated arguments are empty or do not parse as JSON.
pub proof fn lemma_flush_error_iff(tools: Seq<GToolState>)
    ensures
        (g_flush_tools(tools).2 is Some) <==> (exists|k: int|
            0 <= k < tools.len() && bad_tool_arguments(#[trigger] tools[k])),
    decreases tools.len(),
{
    if tools.len() == 0 {
    } else {
        let t = tools[0];
        if bad_tool_arguments(t) {
            assert(g_flush_tools(tools).2 is Some);
        } else {
            lemma_flush_error_iff(tools.drop_first());
            let rest = tools.drop_first();
            if g_flush_tools(tools).2 is Some {
                let k = choose|k: int| 0 <= k < rest.len() && bad_tool_arguments(rest[k]);
                assert(tools[k + 1] == rest[k]);
                assert(bad_tool_arguments(tools[k + 1]));
            }
            if exists|k: int| 0 <= k < tools.len() && bad_tool_arguments(#[trigger] tools[k]) {
                let k = choose|k: int| 0 <= k < tools.len() && bad_tool_arguments(tools[k]);
                assert(k != 0);
                assert(rest[k - 1] == tools[k]);
                assert(bad_tool_arguments(rest[k - 1]));
                assert(g_flush_tools(rest).2 is Some);
            }
        }
    }
}

/// Law: once started, tool-call argument strings must together parse as
/// JSON by the end of the stream: ending the stream fails if and only if
/// some started tool call's accumulated arguments are empty or are not a
/// JSON value, and then the error is an invalid-request error with one of
/// the two argument messages; on success every started tool call's
/// arguments are non-empty JSON.
pub proof fn lemma_stream_tool_arguments(s: GStream)
    ensures
        (g_finish(s).2 is Some) <==> (exists|k: int|
            0 <= k < s.tools.len() && bad_tool_arguments(#[trigger] s.tools[k])),
        g_finish(s).2 is None ==> forall|i: int|
            0 <= i < s.tools.len() && (#[trigger] s.tools[i]).started
                ==> s.tools[i].arguments.len() > 0 && parses_as_json(s.tools[i].arguments),
        g_finish(s).2 matches Some(ge) ==> ge.kind == "invalid_request_error"@ && (ge.message
            == "tool_use arguments empty"@ || ge.message
            == "tool_use arguments invalid json"@),
{
    lemma_flush_arguments_json(s.tools);
    lemma_flush_error_iff(s.tools);
}

/// One whole upstream stream, chunk by chunk, from a given state; a chunk
/// error ends the run.
pub open spec fn g_run(s: GStream, chunks: Seq<OpenAIStreamChunk>) -> (
    GStream,
    Seq<GEvent>,
    Option<crate::translate::GError>,
)
    decreases chunks.len(),
{
    if chunks.len() == 0 {
        (s, Seq::empty(), None)
    } else {
        let (s1, ev1, err1) = g_chunk(s, chunks[0]);
        match err1 {
            Some(e) => (s1, ev1, Some(e)),
            None => {
                let (s2, ev2, err2) = g_run(s1, chunks.drop_first());
                (s2, ev1 + ev2, err2)
            },
        }
    }
}

/// A whole translate-mode stream: every chunk, then the end-of-stream
/// flush.  The result is the full downstream event sequence, or the events
/// emitted before a terminal error.
pub open spec fn g_transcode(chunks: Seq<OpenAIStreamChunk>) -> (
    Seq<GEvent>,
    Option<crate::translate::GError>,
) {
    let (s1, ev1, err1) = g_run(g_initial(), chunks);
    match err1 {
        Some(e) => (ev1, Some(e)),
        None => {
            let (s2, ev2, err2) = g_finish(s1);
            (ev1 + ev2, err2)
        },
    }
}

/// No `message_start` anywhere in `h`.
pub open spec fn no_msg_start(h: Seq<GEvent>) -> bool {
    forall|j: int| 0 <= j < h.len() ==> !((#[trigger] h[j]) is EMessageStart)
}

/// No `message_stop` anywhere in `h`.
pub open spec fn no_msg_stop(h: Seq<GEvent>) -> bool {
    forall|j: int| 0 <= j < h.len() ==> !((#[trigger] h[j]) is EMessageStop)
}

proof fn lemma_no_concat(a: Seq<GEvent>, b: Seq<GEvent>)
    ensures
        no_msg_start(a) && no_msg_start(b) ==> no_msg_start(a + b),
        no_msg_stop(a) && no_msg_stop(b) ==> no_msg_stop(a + b),
{
    if no_msg_start(a) && no_msg_start(b) {
        assert forall|j: int| 0 <= j < (a + b).len() implies !((#[trigger] (a + b)[j])
            is EMessageStart) by {
            if j < a.len() {
                assert((a + b)[j] == a[j]);
            } else {
                assert((a + b)[j] == b[j - a.len()]);
            }
        }
    }
    if no_msg_stop(a) && no_msg_stop(b) {
        assert forall|j: int| 0 <= j < (a + b).len() implies !((#[trigger] (a + b)[j])
            is EMessageStop) by {
            if j < a.len() {
                assert((a + b)[j] == a[j]);
            } else {
                assert((a + b)[j] == b[j - a.len()]);
            }
        }
    }
}

proof fn lemma_tool_deltas_events(s: GStream, ds: Seq<OpenAIToolCallDelta>)
    ensures
        no_msg_start(g_tool_deltas(s, ds).1),
        no_msg_stop(g_tool_deltas(s, ds).1),
        g_tool_deltas(s, ds).0.started == s.started,
    decreases ds.len(),
{
    if ds.len() == 0 {
    } else {
        let (s1, ev1) = g_tool_delta(s, ds[0]);
        lemma_tool_deltas_events(s1, ds.drop_first());
        assert(no_msg_start(ev1));
        assert(no_msg_stop(ev1));
        lemma_no_concat(ev1, g_tool_deltas(s1, ds.drop_first()).1);
    }
}

proof fn lemma_flush_events(s: GStream)
    ensures
        no_msg_start(g_stream_flush(s).1),
        no_msg_stop(g_stream_flush(s).1),
{
    lemma_message_stop_last(s);
    assert forall|j: int| 0 <= j < g_stream_flush(s).1.len() implies !((#[trigger] g_stream_flush(
        s,
    ).1[j]) is EMessageStart) by {
        assert(g_stream_flush(s).1[j] is EBlockStop);
    }
    assert forall|j: int| 0 <= j < g_stream_flush(s).1.len() implies !((#[trigger] g_stream_flush(
        s,
    ).1[j]) is EMessageStop) by {
        assert(g_stream_flush(s).1[j] is EBlockStop);
    }
}

proof fn lemma_delta_phase_events(s0: GStream, choice: crate::dialect::OpenAIStreamChoice)
    ensures
        ({
            let (s1, ev1): (GStream, Seq<GEvent>) = match choice.delta.content {
                Some(c) => g_content_delta(s0, c@),
                None => (s0, Seq::empty()),
            };
            let (s2, ev2): (GStream, Seq<GEvent>) = match choice.delta.reasoning_content {
                Some(rc) => g_reasoning_delta(s1, rc),
                None => (s1, Seq::empty()),
            };
            let (s3, ev3): (GStream, Seq<GEvent>) = match choice.delta.tool_calls {
                Some(ds) => g_tool_deltas(s2, ds@),
                None => (s2, Seq::empty()),
            };
            &&& s3.started == s0.started
            &&& no_msg_start(ev1 + ev2 + ev3)
            &&& no_msg_stop(ev1 + ev2 + ev3)
        }),
{
    let (s1, ev1): (GStream, Seq<GEvent>) = match choice.delta.content {
        Some(c) => g_content_delta(s0, c@),
        None => (s0, Seq::empty()),
    };
    let (s2, ev2): (GStream, Seq<GEvent>) = match choice.delta.reasoning_content {
        Some(rc) => g_reasoning_delta(s1, rc),
        None => (s1, Seq::empty()),
    };
    let (s3, ev3): (GStream, Seq<GEvent>) = match choice.delta.tool_calls {
        Some(ds) => g_tool_deltas(s2, ds@),
        None => (s2, Seq::empty()),
    };
    match choice.delta.tool_calls {
        Some(ds) => {
            lemma_tool_deltas_events(s2, ds@);
        },
        None => {},
    }
    assert(no_msg_start(ev1) && no_msg_stop(ev1));
    assert(no_msg_start(ev2) && no_msg_stop(ev2));
    assert(no_msg_start(ev3) && no_msg_stop(ev3));
    lemma_no_concat(ev1, ev2);
    lemma_no_concat(ev1 + ev2, ev3);
}

#[verifier::rlimit(100)]
proof fn lemma_chunk_events(s: GStream, chunk: OpenAIStreamChunk)
    ensures
        ({
            let (s2, ev, err) = g_chunk(s, chunk);
            &&& s2.started
            &&& no_msg_stop(ev)
            &&& s.started ==> no_msg_start(ev)
            &&& !s.started ==> ev.len() > 0 && ev[0] is EMessageStart && no_msg_start(
                ev.drop_first(),
            )
        }),
{
    let (s0, ev0) = g_start(
        s,
        crate::config::opt_view(chunk.id),
        crate::config::opt_view(chunk.model),
    );
    if chunk.choices@.len() == 0 {
        assert(no_msg_stop(ev0));
        if !s.started {
            assert(ev0.drop_first() =~= Seq::<GEvent>::empty());
        }
    } else {
        let choice = chunk.choices@[0];
        let (s1, ev1): (GStream, Seq<GEvent>) = match choice.delta.content {
            Some(c) => g_content_delta(s0, c@),
            None => (s0, Seq::empty()),
        };
        let (s2, ev2): (GStream, Seq<GEvent>) = match choice.delta.reasoning_content {
            Some(rc) => g_reasoning_delta(s1, rc),
            None => (s1, Seq::empty()),
        };
        let (s3, ev3): (GStream, Seq<GEvent>) = match choice.delta.tool_calls {
            Some(ds) => g_tool_deltas(s2, ds@),
            None => (s2, Seq::empty()),
        };
        lemma_delta_phase_events(s0, choice);
        let tail0 = ev1 + ev2 + ev3;
        assert(no_msg_start(tail0) && no_msg_stop(tail0));
        assert(no_msg_start(ev1) && no_msg_stop(ev1)) by {
            assert(forall|j: int| 0 <= j < ev1.len() ==> tail0[j] == ev1[j]);
        }
        match choice.finish_reason {
            None => {
                assert(ev0 + ev1 + ev2 + ev3 =~= ev0 + tail0);
                if s.started {
                    lemma_no_concat(ev0, tail0);
                } else {
                    assert((ev0 + tail0)[0] is EMessageStart);
                    assert((ev0 + tail0).drop_first() =~= tail0);
                }
            },
            Some(f) => {
                let (s4, ev4, err) = g_stream_flush(s3);
                lemma_flush_events(s3);
                lemma_no_concat(tail0, ev4);
                let tail1 = tail0 + ev4;
                match err {
                    Some(_e) => {
                        assert(ev0 + ev1 + ev2 + ev3 + ev4 =~= ev0 + tail1);
                        if s.started {
                            lemma_no_concat(ev0, tail1);
                            assert(no_msg_start(ev0 + ev1 + ev2 + ev3 + ev4));
                        } else {
                            assert((ev0 + tail1)[0] is EMessageStart);
                            assert((ev0 + tail1).drop_first() =~= tail1);
                        }
                        assert(no_msg_stop(ev0 + tail1));
                    },
                    None => {
                        let md = seq![
                            GEvent::EMessageDelta { stop_reason: finish_to_stop(f@) },
                        ];
                        lemma_no_concat(tail1, md);
                        let tail2 = tail1 + md;
                        assert(ev0 + ev1 + ev2 + ev3 + ev4 + md =~= ev0 + tail2);
                        if s.started {
                            lemma_no_concat(ev0, tail2);
                            assert(no_msg_start(ev0 + ev1 + ev2 + ev3 + ev4 + md));
                        } else {
                            assert((ev0 + tail2)[0] is EMessageStart);
                            assert((ev0 + tail2).drop_first() =~= tail2);
                        }
                        assert(no_msg_stop(ev0 + tail2));
                    },
                }
            },
        }
    }
}

proof fn lemma_run_events(s: GStream, chunks: Seq<OpenAIStreamChunk>)
    ensures
        ({
            let (s2, ev, err) = g_run(s, chunks);
            &&& no_msg_stop(ev)
            &&& s.started ==> s2.started && no_msg_start(ev)
            &&& (!s.started && chunks.len() > 0) ==> s2.started && ev.len() > 0 && ev[0]
                is EMessageStart && no_msg_start(ev.drop_first())
            &&& (!s.started && chunks.len() == 0) ==> ev.len() == 0
        }),
    decreases chunks.len(),
{
    if chunks.len() == 0 {
    } else {
        let (s1, ev1, err1) = g_chunk(s, chunks[0]);
        lemma_chunk_events(s, chunks[0]);
        match err1 {
            Some(_e) => {},
            None => {
                let (s2, ev2, err2) = g_run(s1, chunks.drop_first());
                lemma_run_events(s1, chunks.drop_first());
                lemma_no_concat(ev1, ev2);
                if s.started {
                } else {
                    assert((ev1 + ev2)[0] == ev1[0]);
                    assert(no_msg_start(ev1.drop_first()));
                    assert(no_msg_start(ev2));
                    assert forall|j: int| 0 <= j < (ev1 + ev2).drop_first().len() implies !((
                    #[trigger] (ev1 + ev2).drop_first()[j]) is EMessageStart) by {
                        if j < ev1.len() - 1 {
                            assert((ev1 + ev2).drop_first()[j] == ev1.drop_first()[j]);
                        } else {
                            assert((ev1 + ev2).drop_first()[j] == ev2[j - (ev1.len() - 1)]);
                        }
                    }
                }
            },
        }
    }
}

/// No `message_delta` anywhere in `h`.
pub open spec fn no_msg_delta(h: Seq<GEvent>) -> bool {
    forall|j: int| 0 <= j < h.len() ==> !((#[trigger] h[j]) is EMessageDelta)
}

proof fn lemma_no_delta_concat(a: Seq<GEvent>, b: Seq<GEvent>)
    requires
        no_msg_delta(a),
        no_msg_delta(b),
    ensures
        no_msg_delta(a + b),
{
    assert forall|j: int| 0 <= j < (a + b).len() implies !((#[trigger] (a + b)[j])
        is EMessageDelta) by {
        if j < a.len() {
            assert((a + b)[j] == a[j]);
        } else {
            assert((a + b)[j] == b[j - a.len()]);
        }
    }
}

proof fn lemma_tool_deltas_no_delta(s: GStream, ds: Seq<OpenAIToolCallDelta>)
    ensures
        no_msg_delta(g_tool_deltas(s, ds).1),
    decreases ds.len(),
{
    if ds.len() == 0 {
    } else {
        let (s1, ev1) = g_tool_delta(s, ds[0]);
        lemma_tool_deltas_no_delta(s1, ds.drop_first());
        assert(no_msg_delta(ev1));
        lemma_no_delta_concat(ev1, g_tool_deltas(s1, ds.drop_first()).1);
    }
}

proof fn lemma_flush_no_delta(s: GStream)
    ensures
        no_msg_delta(g_stream_flush(s).1),
{
    lemma_message_stop_last(s);
    assert forall|j: int| 0 <= j < g_stream_flush(s).1.len() implies !((
    #[trigger] g_stream_flush(s).1[j]) is EMessageDelta) by {
        assert(g_stream_flush(s).1[j] is EBlockStop);
    }
}

#[verifier::rlimit(100)]
proof fn lemma_chunk_no_delta(s: GStream, chunk: OpenAIStreamChunk)
    ensures
        ({
            let (s2, ev, err) = g_chunk(s, chunk);
            (err is Some || !chunk_finishes(chunk)) ==> no_msg_delta(ev)
        }),
{
    let (s0, ev0) = g_start(
        s,
        crate::config::opt_view(chunk.id),
        crate::config::opt_view(chunk.model),
    );
    assert(no_msg_delta(ev0));
    if chunk.choices@.len() == 0 {
    } else {
        let choice = chunk.choices@[0];
        let (s1, ev1): (GStream, Seq<GEvent>) = match choice.delta.content {
            Some(c) => g_content_delta(s0, c@),
            None => (s0, Seq::empty()),
        };
        let (s2, ev2): (GStream, Seq<GEvent>) = match choice.delta.reasoning_content {
            Some(rc) => g_reasoning_delta(s1, rc),
            None => (s1, Seq::empty()),
        };
        let (s3, ev3): (GStream, Seq<GEvent>) = match choice.delta.tool_calls {
            Some(ds) => g_tool_deltas(s2, ds@),
            None => (s2, Seq::empty()),
        };
        match choice.delta.tool_calls {
            Some(ds) => {
                lemma_tool_deltas_no_delta(s2, ds@);
            },
            None => {},
        }
        assert(no_msg_delta(ev1));
        assert(no_msg_delta(ev2));
        assert(no_msg_delta(ev3));
        lemma_no_delta_concat(ev0, ev1);
        lemma_no_delta_concat(ev0 + ev1, ev2);
        lemma_no_delta_concat(ev0 + ev1 + ev2, ev3);
        match choice.finish_reason {
            None => {},
            Some(_f) => {
                lemma_flush_no_delta(s3);
                let (s4, ev4, err) = g_stream_flush(s3);
                lemma_no_delta_concat(ev0 + ev1 + ev2 + ev3, ev4);
            },
        }
    }
}

/// Every started tool sub-state's accumulated arguments are non-empty JSON.
pub open spec fn tools_args_ok(s: GStream) -> bool {
    forall|k: int|
        0 <= k < s.tools.len() && (#[trigger] s.tools[k]).started
            ==> s.tools[k].arguments.len() > 0 && parses_as_json(s.tools[k].arguments)
}

proof fn lemma_flush_fields(tools: Seq<GToolState>)
    ensures
        ({
            let (t2, ev, err) = g_flush_tools(tools);
            err is None ==> t2.len() == tools.len() && (forall|k: int|
                0 <= k < tools.len() ==> (#[trigger] t2[k]).started == tools[k].started
                    && t2[k].arguments == tools[k].arguments)
        }),
    decreases tools.len(),
{
    if tools.len() == 0 {
    } else {
        let t = tools[0];
        if t.started && t.arguments.len() == 0 {
        } else if t.started && !parses_as_json(t.arguments) {
        } else {
            lemma_flush_fields(tools.drop_first());
            let (t2, ev, err) = g_flush_tools(tools);
            if err is None {
                let (r2, ev2, err2) = g_flush_tools(tools.drop_first());
                assert forall|k: int|
                    0 <= k < tools.len() implies (#[trigger] t2[k]).started
                    == tools[k].started && t2[k].arguments == tools[k].arguments by {
                    if k > 0 {
                        assert(t2[k] == r2[k - 1]);
                        assert(tools.drop_first()[k - 1] == tools[k]);
                    }
                }
            }
        }
    }
}

proof fn lemma_flush_ok_of_args(tools: Seq<GToolState>)
    requires
        forall|k: int|
            0 <= k < tools.len() && (#[trigger] tools[k]).started
                ==> tools[k].arguments.len() > 0 && parses_as_json(tools[k].arguments),
    ensures
        g_flush_tools(tools).2 is None,
    decreases tools.len(),
{
    if tools.len() == 0 {
    } else {
        assert(!(tools[0].started && tools[0].arguments.len() == 0));
        assert(!(tools[0].started && !parses_as_json(tools[0].arguments)));
        assert forall|k: int|
            0 <= k < tools.drop_first().len() && (#[trigger] tools.drop_first()[k]).started implies tools.drop_first()[k].arguments.len()
            > 0 && parses_as_json(tools.drop_first()[k].arguments) by {
            assert(tools.drop_first()[k] == tools[k + 1]);
        }
        lemma_flush_ok_of_args(tools.drop_first());
    }
}

#[verifier::rlimit(100)]
proof fn lemma_chunk_args_ok(s: GStream, chunk: OpenAIStreamChunk)
    ensures
        ({
            let (s2, ev, err) = g_chunk(s, chunk);
            (err is None && chunk_finishes(chunk)) ==> tools_args_ok(s2)
        }),
{
    let (s0, ev0) = g_start(
        s,
        crate::config::opt_view(chunk.id),
        crate::config::opt_view(chunk.model),
    );
    if chunk.choices@.len() == 0 {
    } else {
        let choice = chunk.choices@[0];
        let (s1, ev1): (GStream, Seq<GEvent>) = match choice.delta.content {
            Some(c) => g_content_delta(s0, c@),
            None => (s0, Seq::empty()),
        };
        let (s2, ev2): (GStream, Seq<GEvent>) = match choice.delta.reasoning_content {
            Some(rc) => g_reasoning_delta(s1, rc),
            None => (s1, Seq::empty()),
        };
        let (s3, ev3): (GStream, Seq<GEvent>) = match choice.delta.tool_calls {
            Some(ds) => g_tool_deltas(s2, ds@),
            None => (s2, Seq::empty()),
        };
        match choice.finish_reason {
            None => {},
            Some(_f) => {
                let (s4, ev4, err) = g_stream_flush(s3);
                if err is None {
                    lemma_flush_arguments_json(s3.tools);
                    lemma_flush_fields(s3.tools);
                    assert(s4.tools == g_flush_tools(s3.tools).0);
                    assert forall|k: int|
                        0 <= k < s4.tools.len() && (#[trigger] s4.tools[k]).started implies s4.tools[k].arguments.len()
                        > 0 && parses_as_json(s4.tools[k].arguments) by {
                        assert(s4.tools[k].started == s3.tools[k].started);
                        assert(s4.tools[k].arguments == s3.tools[k].arguments);
                    }
                }
            },
        }
    }
}

proof fn lemma_run_no_delta(s: GStream, chunks: Seq<OpenAIStreamChunk>)
    requires
        finish_only_last(chunks),
    ensures
        ({
            let (s2, ev, err) = g_run(s, chunks);
            &&& err is Some ==> no_msg_delta(ev)
            &&& (err is None && (chunks.len() == 0 || !chunk_finishes(
                chunks.last(),
            ))) ==> no_msg_delta(ev)
            &&& (err is None && chunks.len() > 0 && chunk_finishes(chunks.last()))
                ==> tools_args_ok(s2)
        }),
    decreases chunks.len(),
{
    if chunks.len() == 0 {
    } else {
        let (s1, ev1, err1) = g_chunk(s, chunks[0]);
        lemma_chunk_no_delta(s, chunks[0]);
        lemma_chunk_args_ok(s, chunks[0]);
        assert(finish_only_last(chunks.drop_first())) by {
            assert forall|j: int|
                0 <= j < chunks.drop_first().len() - 1 implies !chunk_finishes(
                #[trigger] chunks.drop_first()[j],
            ) by {
                assert(chunks.drop_first()[j] == chunks[j + 1]);
            }
        }
        match err1 {
            Some(_e) => {
                if chunks.len() > 1 {
                    assert(!chunk_finishes(chunks[0]));
                }
                assert(no_msg_delta(ev1));
            },
            None => {
                let (s2, ev2, err2) = g_run(s1, chunks.drop_first());
                lemma_run_no_delta(s1, chunks.drop_first());
                if chunks.len() == 1 {
                    assert(chunks.drop_first().len() == 0);
                    assert(ev2 =~= Seq::<GEvent>::empty());
                    assert(chunks.last() == chunks[0]);
                    if !chunk_finishes(chunks[0]) {
                        assert(no_msg_delta(ev1));
                        lemma_no_delta_concat(ev1, ev2);
                    }
                } else {
                    assert(!chunk_finishes(chunks[0]));
                    assert(no_msg_delta(ev1));
                    assert(chunks.drop_first().last() == chunks.last());
                    assert(chunks.drop_first().len() > 0);
                    if err2 is Some || !chunk_finishes(chunks.last()) {
                        assert(no_msg_delta(ev2));
                        lemma_no_delta_concat(ev1, ev2);
                    }
                }
            },
        }
    }
}

/// Law: a stream that ends in an error emits no `message_delta` at all (and,
/// by [`lemma_stream_event_order`], no `message_stop`): the terminal error
/// event is the only thing that can follow what was already sent.  As with
/// the block grammar, the law asks that a finish reason arrive only on the
/// last chunk.
pub proof fn lemma_error_run_no_message_delta(chunks: Seq<OpenAIStreamChunk>)
    requires
        finish_only_last(chunks),
    ensures
        ({
            let (h, err) = g_transcode(chunks);
            err is Some ==> no_msg_delta(h)
        }),
{
    let (s1, ev1, err1) = g_run(g_initial(), chunks);
    lemma_run_no_delta(g_initial(), chunks);
    match err1 {
        Some(_e) => {},
        None => {
            let (s2, ev2, err2) = g_finish(s1);
            match err2 {
                Some(_e2) => {
                    lemma_flush_no_delta(s1);
                    if chunks.len() == 0 {
                        assert(s1.tools =~= Seq::<GToolState>::empty());
                        lemma_flush_ok_of_args(s1.tools);
                        assert(false);
                    } else if chunk_finishes(chunks.last()) {
                        assert(tools_args_ok(s1));
                        lemma_flush_ok_of_args(s1.tools);
                        assert(false);
                    } else {
                        assert(no_msg_delta(ev1));
                        assert(ev2 == g_stream_flush(s1).1);
                        lemma_no_delta_concat(ev1, ev2);
                    }
                },
                None => {},
            }
        },
    }
}

/// Law: the downstream event sequence of a whole stream opens with exactly
/// one `message_start` and, when the stream succeeds, closes with exactly
/// one `message_stop`; a failed stream emits no `message_stop` at all, and
/// the terminal error event takes its place.
pub proof fn lemma_stream_event_order(chunks: Seq<OpenAIStreamChunk>)
    requires
        chunks.len() > 0,
    ensures
        ({
            let (h, err) = g_transcode(chunks);
            &&& h.len() > 0
            &&& h[0] is EMessageStart
            &&& no_msg_start(h.drop_first())
            &&& err is None ==> h.last() is EMessageStop && no_msg_stop(h.drop_last())
            &&& err is Some ==> no_msg_stop(h)
        }),
{
    let (s1, ev1, err1) = g_run(g_initial(), chunks);
    lemma_run_events(g_initial(), chunks);
    match err1 {
        Some(_e) => {},
        None => {
            let (s2, ev2, err2) = g_finish(s1);
            lemma_message_stop_last(s1);
            lemma_flush_events(s1);
            let h = ev1 + ev2;
            assert(h[0] == ev1[0]);
            match err2 {
                Some(_e2) => {
                    assert(ev2 == g_stream_flush(s1).1);
                    lemma_no_concat(ev1, ev2);
                },
                None => {
                    assert(h.last() == ev2.last());
                    assert(h.last() is EMessageStop);
                    assert forall|j: int| 0 <= j < h.drop_last().len() implies !((
                    #[trigger] h.drop_last()[j]) is EMessageStop) by {
                        if j < ev1.len() {
                            assert(h.drop_last()[j] == ev1[j]);
                        } else {
                            assert(h.drop_last()[j] == ev2[j - ev1.len()]);
                            assert(j - ev1.len() < ev2.len() - 1);
                        }
                    }
                },
            }
            assert forall|j: int| 0 <= j < h.drop_first().len() implies !((
            #[trigger] h.drop_first()[j]) is EMessageStart) by {
                if j < ev1.len() - 1 {
                    assert(h.drop_first()[j] == ev1.drop_first()[j]);
                } else {
                    assert(h.drop_first()[j] == ev2[j - (ev1.len() - 1)]);
                    assert(!(ev2[j - (ev1.len() - 1)] is EMessageStart)) by {
                        if j - (ev1.len() - 1) < g_stream_flush(s1).1.len() {
                            assert(ev2[j - (ev1.len() - 1)] is EBlockStop);
                        }
                    }
                }
            }
        },
    }
}

// ---------------------------------------------------------------------------
// per-index block grammar
// ---------------------------------------------------------------------------

/// Where one block index stands in the event grammar.
pub enum BlockPhase {
    /// No event for this index yet.
    PNone,
    /// Started and not yet stopped.
    POpen,
    /// Started and stopped.
    PClosed,
    /// Stopped without a start: a tool sub-state flushed before it started.
    POrphan,
    /// The grammar is broken for this index.
    PInvalid,
}

/// Is `e` a block start for index `i`?
pub open spec fn is_start_at(e: GEvent, i: u32) -> bool {
    match e {
        GEvent::ETextStart { index } => index == i,
        GEvent::EThinkingStart { index } => index == i,
        GEvent::EToolUseStart { index, .. } => index == i,
        _ => false,
    }
}

/// Is `e` a block delta for index `i`?
pub open spec fn is_delta_at(e: GEvent, i: u32) -> bool {
    match e {
        GEvent::ETextDelta { index, .. } => index == i,
        GEvent::EThinkingDelta { index, .. } => index == i,
        GEvent::ESignatureDelta { index, .. } => index == i,
        GEvent::EInputJsonDelta { index, .. } => index == i,
        _ => false,
    }
}

/// Is `e` the block stop for index `i`?
pub open spec fn is_stop_at(e: GEvent, i: u32) -> bool {
    match e {
        GEvent::EBlockStop { index } => index == i,
        _ => false,
    }
}

/// One automaton step of the per-index grammar
/// `start delta* stop | stop`.
pub open spec fn phase_step(p: BlockPhase, e: GEvent, i: u32) -> BlockPhase {
    if is_start_at(e, i) {
        match p {
            BlockPhase::PNone => BlockPhase::POpen,
            _ => BlockPhase::PInvalid,
        }
    } else if is_delta_at(e, i) {
        match p {
            BlockPhase::POpen => BlockPhase::POpen,
            _ => BlockPhase::PInvalid,
        }
    } else if is_stop_at(e, i) {
        match p {
            BlockPhase::POpen => BlockPhase::PClosed,
            BlockPhase::PNone => BlockPhase::POrphan,
            _ => BlockPhase::PInvalid,
        }
    } else {
        p
    }
}

/// The automaton run over a whole event sequence.
pub open spec fn phase_run(p: BlockPhase, h: Seq<GEvent>, i: u32) -> BlockPhase
    decreases h.len(),
{
    if h.len() == 0 {
        p
    } else {
        phase_run(phase_step(p, h[0], i), h.drop_first(), i)
    }
}

/// Where index `i` stands after the events `h`.
pub open spec fn block_phase(h: Seq<GEvent>, i: u32) -> BlockPhase {
    phase_run(BlockPhase::PNone, h, i)
}

proof fn lemma_phase_run_concat(p: BlockPhase, a: Seq<GEvent>, b: Seq<GEvent>, i: u32)
    ensures
        phase_run(p, a + b, i) == phase_run(phase_run(p, a, i), b, i),
    decreases a.len(),
{
    if a.len() == 0 {
        assert(a + b =~= b);
    } else {
        assert((a + b)[0] == a[0]);
        assert((a + b).drop_first() =~= a.drop_first() + b);
        lemma_phase_run_concat(phase_step(p, a[0], i), a.drop_first(), b, i);
    }
}

proof fn lemma_phase_run_one(p: BlockPhase, e: GEvent, i: u32)
    ensures
        phase_run(p, seq![e], i) == phase_step(p, e, i),
{
    assert(seq![e][0] == e);
    assert(seq![e].drop_first() =~= Seq::<GEvent>::empty());
    assert(phase_run(phase_step(p, e, i), Seq::<GEvent>::empty(), i) == phase_step(p, e, i));
}

/// Is some block open at index `i` in this state?
pub open spec fn open_index(s: GStream, i: u32) -> bool {
    ||| s.text_block == Some(i)
    ||| s.thinking_block == Some(i)
    ||| exists|k: int|
        0 <= k < s.tools.len() && (#[trigger] s.tools[k]).block_index == i && s.tools[k].started
            && !s.tools[k].stopped
}

/// The stream invariant tying the state to the per-index grammar of the
/// events emitted so far: no index's grammar is broken, the open indices are
/// exactly the state's open blocks, indices at or above `next_index` are
/// untouched, every tool sub-state's flags match its index's phase, and all
/// live block indices are distinct.
pub open spec fn inv_stream(s: GStream, h: Seq<GEvent>) -> bool {
    &&& forall|i: u32| !((#[trigger] block_phase(h, i)) is PInvalid)
    &&& forall|i: u32| ((#[trigger] block_phase(h, i)) is POpen) <==> open_index(s, i)
    &&& forall|i: u32| s.next_index <= i ==> ((#[trigger] block_phase(h, i)) is PNone)
    &&& forall|k: int|
        0 <= k < s.tools.len() ==> (#[trigger] s.tools[k]).block_index < s.next_index
    &&& forall|k: int|
        0 <= k < s.tools.len() && !(#[trigger] s.tools[k]).started && !s.tools[k].stopped
            ==> (block_phase(h, s.tools[k].block_index) is PNone)
    &&& forall|k: int|
        0 <= k < s.tools.len() && (#[trigger] s.tools[k]).started && s.tools[k].stopped
            ==> (block_phase(h, s.tools[k].block_index) is PClosed)
    &&& forall|k: int|
        0 <= k < s.tools.len() && !(#[trigger] s.tools[k]).started && s.tools[k].stopped
            ==> (block_phase(h, s.tools[k].block_index) is POrphan)
    &&& forall|k1: int, k2: int|
        0 <= k1 < k2 < s.tools.len() ==> (#[trigger] s.tools[k1]).block_index != (
        #[trigger] s.tools[k2]).block_index
    &&& match s.text_block {
        Some(i) => i < s.next_index,
        None => true,
    }
    &&& match s.thinking_block {
        Some(i) => i < s.next_index,
        None => true,
    }
    &&& match (s.text_block, s.thinking_block) {
        (Some(i), Some(j)) => i != j,
        _ => true,
    }
    &&& forall|k: int|
        0 <= k < s.tools.len() ==> s.text_block != Some(
            (#[trigger] s.tools[k]).block_index,
        ) && s.thinking_block != Some(s.tools[k].block_index)
}

/// No tool sub-state has been stopped yet (no flush has run).
pub open spec fn tools_unstopped(s: GStream) -> bool {
    forall|k: int| 0 <= k < s.tools.len() ==> !(#[trigger] s.tools[k]).stopped
}

proof fn lemma_phase_append(h: Seq<GEvent>, ev: Seq<GEvent>)
    ensures
        forall|i: u32|
            #![trigger block_phase(h + ev, i)]
            block_phase(h + ev, i) == phase_run(block_phase(h, i), ev, i),
{
    assert forall|i: u32| block_phase(h + ev, i) == phase_run(block_phase(h, i), ev, i) by {
        lemma_phase_run_concat(BlockPhase::PNone, h, ev, i);
    }
}

proof fn lemma_phase_run_two(p: BlockPhase, a: GEvent, b: GEvent, i: u32)
    ensures
        phase_run(p, seq![a, b], i) == phase_step(phase_step(p, a, i), b, i),
{
    assert(seq![a, b].drop_first() =~= seq![b]);
    lemma_phase_run_one(phase_step(p, a, i), b, i);
}

proof fn lemma_phase_run_three(p: BlockPhase, a: GEvent, b: GEvent, c: GEvent, i: u32)
    ensures
        phase_run(p, seq![a, b, c], i) == phase_step(
            phase_step(phase_step(p, a, i), b, i),
            c,
            i,
        ),
{
    assert(seq![a, b, c].drop_first() =~= seq![b, c]);
    lemma_phase_run_two(phase_step(p, a, i), b, c, i);
}

proof fn lemma_inv_start(s: GStream, h: Seq<GEvent>, id: Option<Seq<char>>, model: Option<
    Seq<char>,
>)
    requires
        inv_stream(s, h),
    ensures
        ({
            let (s1, ev) = g_start(s, id, model);
            &&& inv_stream(s1, h + ev)
            &&& s1.next_index == s.next_index
            &&& s1.tools == s.tools
            &&& s1.text_block == s.text_block
            &&& s1.thinking_block == s.thinking_block
        }),
{
    let (s1, ev) = g_start(s, id, model);
    lemma_phase_append(h, ev);
    if !s.started {
        assert forall|i: u32| block_phase(h + ev, i) == block_phase(h, i) by {
            lemma_phase_run_one(
                block_phase(h, i),
                GEvent::EMessageStart {
                    message_id: match id {
                        Some(x) => x,
                        None => "msg_stream"@,
                    },
                },
                i,
            );
        }
    } else {
        assert forall|i: u32| block_phase(h + ev, i) == block_phase(h, i) by {
            assert(phase_run(block_phase(h, i), ev, i) == block_phase(h, i));
        }
    }
}

proof fn lemma_inv_open_text(s: GStream, h: Seq<GEvent>)
    requires
        inv_stream(s, h),
        s.next_index < 0xFFFF_FFFF,
    ensures
        ({
            let (s2, ev, idx) = g_open_text(s);
            &&& inv_stream(s2, h + ev)
            &&& s2.text_block == Some(idx)
            &&& s2.thinking_block == s.thinking_block
            &&& s2.tools == s.tools
            &&& s.next_index <= s2.next_index <= s.next_index + 1
            &&& block_phase(h + ev, idx) is POpen
        }),
{
    let (s2, ev, idx) = g_open_text(s);
    lemma_phase_append(h, ev);
    match s.text_block {
        Some(i) => {
            assert forall|i2: u32| block_phase(h + ev, i2) == block_phase(h, i2) by {
                assert(phase_run(block_phase(h, i2), ev, i2) == block_phase(h, i2));
            }
        },
        None => {
            let j = s.next_index;
            assert(vstd::wrapping::u32_specs::wrapping_add(j, 1) == j + 1);
            assert forall|i2: u32| i2 != j implies block_phase(h + ev, i2) == block_phase(
                h,
                i2,
            ) by {
                lemma_phase_run_one(block_phase(h, i2), GEvent::ETextStart { index: j }, i2);
            }
            assert(block_phase(h, j) is PNone);
            lemma_phase_run_one(block_phase(h, j), GEvent::ETextStart { index: j }, j);
            assert(block_phase(h + ev, j) is POpen);
            assert forall|i2: u32| ((#[trigger] block_phase(h + ev, i2)) is POpen)
                <==> open_index(s2, i2) by {
                if i2 != j {
                    assert(open_index(s2, i2) == open_index(s, i2));
                }
            }
        },
    }
}

proof fn lemma_inv_open_thinking(s: GStream, h: Seq<GEvent>)
    requires
        inv_stream(s, h),
        s.next_index < 0xFFFF_FFFF,
    ensures
        ({
            let (s2, ev, idx) = g_open_thinking(s);
            &&& inv_stream(s2, h + ev)
            &&& s2.thinking_block == Some(idx)
            &&& s2.text_block == s.text_block
            &&& s2.tools == s.tools
            &&& s.next_index <= s2.next_index <= s.next_index + 1
            &&& block_phase(h + ev, idx) is POpen
        }),
{
    let (s2, ev, idx) = g_open_thinking(s);
    lemma_phase_append(h, ev);
    match s.thinking_block {
        Some(i) => {
            assert forall|i2: u32| block_phase(h + ev, i2) == block_phase(h, i2) by {
                assert(phase_run(block_phase(h, i2), ev, i2) == block_phase(h, i2));
            }
        },
        None => {
            let j = s.next_index;
            assert(vstd::wrapping::u32_specs::wrapping_add(j, 1) == j + 1);
            assert forall|i2: u32| i2 != j implies block_phase(h + ev, i2) == block_phase(
                h,
                i2,
            ) by {
                lemma_phase_run_one(
                    block_phase(h, i2),
                    GEvent::EThinkingStart { index: j },
                    i2,
                );
            }
            assert(block_phase(h, j) is PNone);
            lemma_phase_run_one(block_phase(h, j), GEvent::EThinkingStart { index: j }, j);
            assert(block_phase(h + ev, j) is POpen);
            assert forall|i2: u32| ((#[trigger] block_phase(h + ev, i2)) is POpen)
                <==> open_index(s2, i2) by {
                if i2 != j {
                    assert(open_index(s2, i2) == open_index(s, i2));
                }
            }
        },
    }
}

proof fn lemma_inv_content(s: GStream, h: Seq<GEvent>, t: Seq<char>)
    requires
        inv_stream(s, h),
        s.next_index < 0xFFFF_FFFF,
    ensures
        ({
            let (s2, ev) = g_content_delta(s, t);
            &&& inv_stream(s2, h + ev)
            &&& s2.tools == s.tools
            &&& s2.thinking_block == s.thinking_block
            &&& s.next_index <= s2.next_index <= s.next_index + 1
        }),
{
    if t.len() == 0 {
        let (s2, ev) = g_content_delta(s, t);
        lemma_phase_append(h, ev);
        assert(h + ev =~= h);
    } else {
        let s1 = GStream { output_text: s.output_text + t, ..s };
        assert(inv_stream(s1, h));
        lemma_inv_open_text(s1, h);
        let (s2, ev0, idx) = g_open_text(s1);
        let d = GEvent::ETextDelta { index: idx, text: t };
        let h1 = h + ev0;
        lemma_phase_append(h1, seq![d]);
        assert forall|i2: u32| i2 != idx implies block_phase(h1 + seq![d], i2) == block_phase(
            h1,
            i2,
        ) by {
            lemma_phase_run_one(block_phase(h1, i2), d, i2);
        }
        lemma_phase_run_one(block_phase(h1, idx), d, idx);
        assert(block_phase(h1 + seq![d], idx) is POpen);
        assert(h + (ev0 + seq![d]) =~= h1 + seq![d]);
        assert forall|i2: u32| ((#[trigger] block_phase(h1 + seq![d], i2)) is POpen)
            <==> open_index(s2, i2) by {
            assert(block_phase(h1 + seq![d], i2) == (if i2 == idx {
                block_phase(h1 + seq![d], idx)
            } else {
                block_phase(h1, i2)
            }));
        }
    }
}

#[verifier::rlimit(100)]
proof fn lemma_inv_reasoning_structured(
    s: GStream,
    h: Seq<GEvent>,
    d: crate::dialect::OpenAIReasoningContentDelta,
)
    requires
        inv_stream(s, h),
        s.next_index < 0xFFFF_FFFF,
    ensures
        ({
            let (s2, ev) = g_reasoning_delta(s, OpenAIReasoningDelta::Structured(d));
            &&& inv_stream(s2, h + ev)
            &&& s2.tools == s.tools
            &&& s.next_index <= s2.next_index <= s.next_index + 1
        }),
{
    lemma_inv_open_thinking(s, h);
            let (s1, ev0, idx) = g_open_thinking(s);
            let h1 = h + ev0;
            let (s2, ev1): (GStream, Seq<GEvent>) = match d.thinking {
                Some(t) => (
                    GStream { reasoning_text: s1.reasoning_text + t@, ..s1 },
                    seq![GEvent::EThinkingDelta { index: idx, thinking: t@ }],
                ),
                None => (s1, Seq::<GEvent>::empty()),
            };
            assert(inv_stream(s2, h1)) by {
                assert(open_index(s2, idx) == open_index(s1, idx));
                assert(forall|i2: u32| open_index(s2, i2) == open_index(s1, i2));
            }
            let h2 = h1 + ev1;
            lemma_phase_append(h1, ev1);
            assert forall|i2: u32| i2 != idx implies block_phase(h2, i2) == block_phase(
                h1,
                i2,
            ) by {
                match d.thinking {
                    Some(t) => {
                        lemma_phase_run_one(
                            block_phase(h1, i2),
                            GEvent::EThinkingDelta { index: idx, thinking: t@ },
                            i2,
                        );
                    },
                    None => {
                        assert(h2 =~= h1);
                    },
                }
            }
            match d.thinking {
                Some(t) => {
                    lemma_phase_run_one(
                        block_phase(h1, idx),
                        GEvent::EThinkingDelta { index: idx, thinking: t@ },
                        idx,
                    );
                },
                None => {
                    assert(h2 =~= h1);
                },
            }
            assert(block_phase(h2, idx) is POpen);
            assert(inv_stream(s2, h2)) by {
                assert forall|i2: u32| ((#[trigger] block_phase(h2, i2)) is POpen)
                    <==> open_index(s2, i2) by {
                    if i2 != idx {
                        assert(block_phase(h2, i2) == block_phase(h1, i2));
                    }
                }
            }
            let (s3, ev2): (GStream, Seq<GEvent>) = match d.signature {
                Some(sg) => (
                    GStream { reasoning_signature: Some(sg@), ..s2 },
                    seq![GEvent::ESignatureDelta { index: idx, signature: sg@ }],
                ),
                None => (s2, Seq::<GEvent>::empty()),
            };
            assert(inv_stream(s3, h2)) by {
                assert(forall|i2: u32| open_index(s3, i2) == open_index(s2, i2));
            }
            let h3 = h2 + ev2;
            lemma_phase_append(h2, ev2);
            assert forall|i2: u32| i2 != idx implies block_phase(h3, i2) == block_phase(
                h2,
                i2,
            ) by {
                match d.signature {
                    Some(sg) => {
                        lemma_phase_run_one(
                            block_phase(h2, i2),
                            GEvent::ESignatureDelta { index: idx, signature: sg@ },
                            i2,
                        );
                    },
                    None => {
                        assert(h3 =~= h2);
                    },
                }
            }
            match d.signature {
                Some(sg) => {
                    lemma_phase_run_one(
                        block_phase(h2, idx),
                        GEvent::ESignatureDelta { index: idx, signature: sg@ },
                        idx,
                    );
                },
                None => {
                    assert(h3 =~= h2);
                },
            }
            assert(block_phase(h3, idx) is POpen);
            assert(inv_stream(s3, h3)) by {
                assert forall|i2: u32| ((#[trigger] block_phase(h3, i2)) is POpen)
                    <==> open_index(s3, i2) by {
                    if i2 != idx {
                        assert(block_phase(h3, i2) == block_phase(h2, i2));
                    }
                }
            }
            assert(h + (ev0 + ev1 + ev2) =~= h3);
}

proof fn lemma_inv_reasoning(s: GStream, h: Seq<GEvent>, r: OpenAIReasoningDelta)
    requires
        inv_stream(s, h),
        s.next_index < 0xFFFF_FFFF,
    ensures
        ({
            let (s2, ev) = g_reasoning_delta(s, r);
            &&& inv_stream(s2, h + ev)
            &&& s2.tools == s.tools
            &&& s.next_index <= s2.next_index <= s.next_index + 1
        }),
{
    match r {
        OpenAIReasoningDelta::Structured(d) => {
            lemma_inv_reasoning_structured(s, h, d);
        },
        OpenAIReasoningDelta::Plain(t) => {
            let s1 = GStream { reasoning_text: s.reasoning_text + t@, ..s };
            assert(inv_stream(s1, h));
            lemma_inv_open_thinking(s1, h);
            let (s2, ev0, idx) = g_open_thinking(s1);
            let d = GEvent::EThinkingDelta { index: idx, thinking: t@ };
            let h1 = h + ev0;
            lemma_phase_append(h1, seq![d]);
            assert forall|i2: u32| i2 != idx implies block_phase(h1 + seq![d], i2)
                == block_phase(h1, i2) by {
                lemma_phase_run_one(block_phase(h1, i2), d, i2);
            }
            lemma_phase_run_one(block_phase(h1, idx), d, idx);
            assert(block_phase(h1 + seq![d], idx) is POpen);
            assert(h + (ev0 + seq![d]) =~= h1 + seq![d]);
            assert forall|i2: u32| ((#[trigger] block_phase(h1 + seq![d], i2)) is POpen)
                <==> open_index(s2, i2) by {
                if i2 != idx {
                    assert(block_phase(h1 + seq![d], i2) == block_phase(h1, i2));
                }
            }
        },
        OpenAIReasoningDelta::Opaque => {
            let (s2, ev) = g_reasoning_delta(s, r);
            lemma_phase_append(h, ev);
            assert(h + ev =~= h);
        },
    }
}

proof fn lemma_find_tool_valid(tools: Seq<GToolState>, uidx: u32)
    ensures
        match g_find_tool(tools, uidx) {
            Some(j) => 0 <= j < tools.len() && tools[j].upstream_index == uidx,
            None => true,
        },
    decreases tools.len(),
{
    if tools.len() == 0 {
    } else if tools[0].upstream_index == uidx {
    } else {
        lemma_find_tool_valid(tools.drop_first(), uidx);
    }
}

#[verifier::rlimit(100)]
proof fn lemma_inv_update_tool(
    s1: GStream,
    s2: GStream,
    h: Seq<GEvent>,
    h2: Seq<GEvent>,
    ti: int,
    t3: GToolState,
)
    requires
        inv_stream(s1, h),
        tools_unstopped(s1),
        0 <= ti < s1.tools.len(),
        s2 == (GStream { tools: s1.tools.update(ti, t3), ..s1 }),
        t3.block_index == s1.tools[ti].block_index,
        !t3.stopped,
        forall|i: u32|
            i != s1.tools[ti].block_index ==> #[trigger] block_phase(h2, i) == block_phase(
                h,
                i,
            ),
        !t3.started ==> !s1.tools[ti].started && block_phase(h2, s1.tools[ti].block_index)
            == block_phase(h, s1.tools[ti].block_index),
        t3.started ==> block_phase(h2, s1.tools[ti].block_index) is POpen,
    ensures
        inv_stream(s2, h2),
        tools_unstopped(s2),
{
    let bi = s1.tools[ti].block_index;
    assert forall|i2: u32| !((#[trigger] block_phase(h2, i2)) is PInvalid) by {
        if i2 != bi {
            assert(block_phase(h2, i2) == block_phase(h, i2));
        } else {
            if t3.started {
            } else {
                assert(block_phase(h2, bi) == block_phase(h, bi));
            }
        }
    }
    assert forall|i2: u32| ((#[trigger] block_phase(h2, i2)) is POpen) <==> open_index(
        s2,
        i2,
    ) by {
        if i2 == bi {
            if block_phase(h2, bi) is POpen {
                if t3.started {
                    assert(s2.tools[ti].block_index == bi && s2.tools[ti].started
                        && !s2.tools[ti].stopped);
                    assert(open_index(s2, bi));
                } else {
                    assert(block_phase(h, bi) is POpen);
                    assert(open_index(s1, bi));
                    if s1.text_block == Some(bi) || s1.thinking_block == Some(bi) {
                        assert(open_index(s2, bi));
                    } else {
                        let k = choose|k: int|
                            0 <= k < s1.tools.len() && (#[trigger] s1.tools[k]).block_index
                                == bi && s1.tools[k].started && !s1.tools[k].stopped;
                        assert(k == ti || s2.tools[k] == s1.tools[k]);
                        assert(k != ti);
                        assert(open_index(s2, bi));
                    }
                }
            }
            if open_index(s2, bi) {
                if s2.text_block == Some(bi) || s2.thinking_block == Some(bi) {
                    assert(block_phase(h, bi) is POpen);
                    assert(!t3.started);
                    assert(block_phase(h2, bi) is POpen);
                } else {
                    let k = choose|k: int|
                        0 <= k < s2.tools.len() && (#[trigger] s2.tools[k]).block_index == bi
                            && s2.tools[k].started && !s2.tools[k].stopped;
                    if k == ti {
                        if t3.started {
                            assert(block_phase(h2, bi) is POpen);
                        } else {
                            assert(false);
                        }
                    } else {
                        assert(s2.tools[k] == s1.tools[k]);
                        assert(open_index(s1, bi));
                        assert(block_phase(h, bi) is POpen);
                        assert(block_phase(h2, bi) is POpen) by {
                            if !t3.started {
                                assert(block_phase(h2, bi) == block_phase(h, bi));
                            }
                        }
                    }
                }
            }
        } else {
            assert(block_phase(h2, i2) == block_phase(h, i2));
            assert(open_index(s2, i2) == open_index(s1, i2)) by {
                if open_index(s2, i2) && !(s2.text_block == Some(i2) || s2.thinking_block
                    == Some(i2)) {
                    let k = choose|k: int|
                        0 <= k < s2.tools.len() && (#[trigger] s2.tools[k]).block_index == i2
                            && s2.tools[k].started && !s2.tools[k].stopped;
                    assert(k != ti);
                    assert(s2.tools[k] == s1.tools[k]);
                }
                if open_index(s1, i2) && !(s1.text_block == Some(i2) || s1.thinking_block
                    == Some(i2)) {
                    let k = choose|k: int|
                        0 <= k < s1.tools.len() && (#[trigger] s1.tools[k]).block_index == i2
                            && s1.tools[k].started && !s1.tools[k].stopped;
                    assert(k != ti);
                    assert(s2.tools[k] == s1.tools[k]);
                }
            }
        }
    }
    assert forall|i2: u32| s2.next_index <= i2 implies ((#[trigger] block_phase(h2, i2))
        is PNone) by {
        assert(i2 != bi);
        assert(block_phase(h2, i2) == block_phase(h, i2));
    }
    assert forall|k: int|
        0 <= k < s2.tools.len() && !(#[trigger] s2.tools[k]).started
            && !s2.tools[k].stopped implies (block_phase(h2, s2.tools[k].block_index)
        is PNone) by {
        if k != ti {
            assert(s2.tools[k] == s1.tools[k]);
            assert(s2.tools[k].block_index != bi);
            assert(block_phase(h2, s2.tools[k].block_index) == block_phase(
                h,
                s2.tools[k].block_index,
            ));
        } else {
            assert(!t3.started);
            assert(block_phase(h2, bi) == block_phase(h, bi));
        }
    }
    assert forall|k: int|
        0 <= k < s2.tools.len() && (#[trigger] s2.tools[k]).started
            && s2.tools[k].stopped implies (block_phase(h2, s2.tools[k].block_index)
        is PClosed) by {
        assert(k != ti);
        assert(s2.tools[k] == s1.tools[k]);
        assert(false);
    }
    assert forall|k: int|
        0 <= k < s2.tools.len() && !(#[trigger] s2.tools[k]).started
            && s2.tools[k].stopped implies (block_phase(h2, s2.tools[k].block_index)
        is POrphan) by {
        assert(k != ti);
        assert(s2.tools[k] == s1.tools[k]);
        assert(false);
    }
    assert forall|k: int| 0 <= k < s2.tools.len() implies !(#[trigger] s2.tools[k]).stopped by {
        if k != ti {
            assert(s2.tools[k] == s1.tools[k]);
        }
    }
    assert forall|k1: int, k2: int| 0 <= k1 < k2 < s2.tools.len() implies (
    #[trigger] s2.tools[k1]).block_index != (#[trigger] s2.tools[k2]).block_index by {
        assert(s2.tools[k1].block_index == s1.tools[k1].block_index);
        assert(s2.tools[k2].block_index == s1.tools[k2].block_index);
    }
    assert forall|k: int|
        0 <= k < s2.tools.len() implies s2.text_block != Some(
        (#[trigger] s2.tools[k]).block_index,
    ) && s2.thinking_block != Some(s2.tools[k].block_index) by {
        assert(s2.tools[k].block_index == s1.tools[k].block_index);
    }
    assert forall|k: int|
        0 <= k < s2.tools.len() implies (#[trigger] s2.tools[k]).block_index
        < s2.next_index by {
        assert(s2.tools[k].block_index == s1.tools[k].block_index);
    }
}

#[verifier::rlimit(100)]
proof fn lemma_inv_tool_delta(s: GStream, h: Seq<GEvent>, d: OpenAIToolCallDelta)
    requires
        inv_stream(s, h),
        tools_unstopped(s),
        s.next_index < 0xFFFF_FFFF,
    ensures
        ({
            let (s2, ev) = g_tool_delta(s, d);
            &&& inv_stream(s2, h + ev)
            &&& tools_unstopped(s2)
            &&& s.next_index <= s2.next_index <= s.next_index + 1
            &&& s2.text_block == s.text_block
            &&& s2.thinking_block == s.thinking_block
        }),
{
    lemma_find_tool_valid(s.tools, d.index);
    let (s1, ti): (GStream, int) = match g_find_tool(s.tools, d.index) {
        Some(j) => (s, j),
        None => (
            GStream {
                next_index: vstd::wrapping::u32_specs::wrapping_add(s.next_index, 1),
                tools: s.tools.push(
                    GToolState {
                        upstream_index: d.index,
                        id: None,
                        name: None,
                        arguments: Seq::empty(),
                        block_index: s.next_index,
                        started: false,
                        stopped: false,
                    },
                ),
                ..s
            },
            s.tools.len() as int,
        ),
    };
    assert(vstd::wrapping::u32_specs::wrapping_add(s.next_index, 1) == s.next_index + 1);
    assert(inv_stream(s1, h)) by {
        if g_find_tool(s.tools, d.index) is None {
            assert forall|i2: u32| ((#[trigger] block_phase(h, i2)) is POpen) <==> open_index(
                s1,
                i2,
            ) by {
                if open_index(s1, i2) && !(s1.text_block == Some(i2) || s1.thinking_block
                    == Some(i2)) {
                    let k = choose|k: int|
                        0 <= k < s1.tools.len() && (#[trigger] s1.tools[k]).block_index == i2
                            && s1.tools[k].started && !s1.tools[k].stopped;
                    assert(k < s.tools.len());
                    assert(s1.tools[k] == s.tools[k]);
                    assert(open_index(s, i2));
                }
                if open_index(s, i2) && !(s.text_block == Some(i2) || s.thinking_block
                    == Some(i2)) {
                    let k = choose|k: int|
                        0 <= k < s.tools.len() && (#[trigger] s.tools[k]).block_index == i2
                            && s.tools[k].started && !s.tools[k].stopped;
                    assert(s1.tools[k] == s.tools[k]);
                    assert(open_index(s1, i2));
                }
            }
        }
    }
    assert(tools_unstopped(s1)) by {
        assert forall|k: int| 0 <= k < s1.tools.len() implies !(
        #[trigger] s1.tools[k]).stopped by {
            if k < s.tools.len() {
                assert(s1.tools[k] == s.tools[k]);
            }
        }
    }
    assert(0 <= ti < s1.tools.len());
    let t0 = s1.tools[ti];
    let bi = t0.block_index;
    assert(!t0.stopped);
    let t1 = GToolState {
        id: match d.id {
            Some(x) => Some(x@),
            None => t0.id,
        },
        ..t0
    };
    let (t2, ev_args): (GToolState, Seq<GEvent>) = match d.function {
        None => (t1, Seq::empty()),
        Some(f) => {
            let named = GToolState {
                name: match f.name {
                    Some(nm) => Some(nm@),
                    None => t1.name,
                },
                ..t1
            };
            match f.arguments {
                Some(a) => (
                    GToolState { arguments: named.arguments + a@, ..named },
                    if named.started {
                        seq![
                            GEvent::EInputJsonDelta {
                                index: named.block_index,
                                partial_json: a@,
                            },
                        ]
                    } else {
                        Seq::empty()
                    },
                ),
                None => (named, Seq::empty()),
            }
        },
    };
    let h1 = h + ev_args;
    lemma_phase_append(h, ev_args);
    if ev_args.len() > 0 {
        assert(t0.started);
        assert(open_index(s1, bi)) by {
            assert(s1.tools[ti].block_index == bi && s1.tools[ti].started
                && !s1.tools[ti].stopped);
        }
        assert(block_phase(h, bi) is POpen);
        assert forall|i2: u32| i2 != bi implies block_phase(h1, i2) == block_phase(h, i2) by {
            lemma_phase_run_one(block_phase(h, i2), ev_args[0], i2);
        }
        lemma_phase_run_one(block_phase(h, bi), ev_args[0], bi);
        assert(block_phase(h1, bi) is POpen);
    } else {
        assert(h1 =~= h);
    }
    assert(forall|i2: u32| block_phase(h1, i2) == block_phase(h, i2));
    let (t3, ev_start): (GToolState, Seq<GEvent>) = if !t2.started && t2.id is Some
        && t2.name is Some {
        (
            GToolState { started: true, ..t2 },
            seq![
                GEvent::EToolUseStart {
                    index: t2.block_index,
                    id: match t2.id {
                        Some(x) => x,
                        None => Seq::empty(),
                    },
                    name: match t2.name {
                        Some(x) => x,
                        None => Seq::empty(),
                    },
                },
            ] + if t2.arguments.len() > 0 {
                seq![
                    GEvent::EInputJsonDelta {
                        index: t2.block_index,
                        partial_json: t2.arguments,
                    },
                ]
            } else {
                Seq::empty()
            },
        )
    } else {
        (t2, Seq::empty())
    };
    let h2 = h1 + ev_start;
    lemma_phase_append(h1, ev_start);
    if ev_start.len() > 0 {
        assert(!t0.started);
        assert(block_phase(h, bi) is PNone) by {
            assert(s1.tools[ti].block_index == bi && !s1.tools[ti].started
                && !s1.tools[ti].stopped);
        }
        let se = GEvent::EToolUseStart {
            index: bi,
            id: match t2.id {
                Some(x) => x,
                None => Seq::empty(),
            },
            name: match t2.name {
                Some(x) => x,
                None => Seq::empty(),
            },
        };
        if t2.arguments.len() > 0 {
            let de = GEvent::EInputJsonDelta { index: bi, partial_json: t2.arguments };
            assert(ev_start =~= seq![se, de]);
            assert forall|i2: u32| i2 != bi implies block_phase(h2, i2) == block_phase(
                h1,
                i2,
            ) by {
                lemma_phase_run_two(block_phase(h1, i2), se, de, i2);
            }
            lemma_phase_run_two(block_phase(h1, bi), se, de, bi);
            assert(block_phase(h2, bi) is POpen);
        } else {
            assert(ev_start =~= seq![se]);
            assert forall|i2: u32| i2 != bi implies block_phase(h2, i2) == block_phase(
                h1,
                i2,
            ) by {
                lemma_phase_run_one(block_phase(h1, i2), se, i2);
            }
            lemma_phase_run_one(block_phase(h1, bi), se, bi);
            assert(block_phase(h2, bi) is POpen);
        }
    } else {
        assert(h2 =~= h1);
    }
    let s2 = GStream { tools: s1.tools.update(ti, t3), ..s1 };
    assert(h + (ev_args + ev_start) =~= h2);
    assert(t3.block_index == bi && !t3.stopped);
    assert(t3.started == (t0.started || ev_start.len() > 0));
    if t3.started && ev_args.len() == 0 && ev_start.len() == 0 {
        assert(open_index(s1, bi)) by {
            assert(s1.tools[ti].block_index == bi && s1.tools[ti].started
                && !s1.tools[ti].stopped);
        }
        assert(block_phase(h, bi) is POpen);
        assert(block_phase(h2, bi) is POpen);
    }
    lemma_inv_update_tool(s1, s2, h, h2, ti, t3);
}

proof fn lemma_inv_tool_deltas(s: GStream, h: Seq<GEvent>, ds: Seq<OpenAIToolCallDelta>)
    requires
        inv_stream(s, h),
        tools_unstopped(s),
        s.next_index + ds.len() <= 0xFFFF_FFFF,
    ensures
        ({
            let (s2, ev) = g_tool_deltas(s, ds);
            &&& inv_stream(s2, h + ev)
            &&& tools_unstopped(s2)
            &&& s.next_index <= s2.next_index <= s.next_index + ds.len()
            &&& s2.text_block == s.text_block
            &&& s2.thinking_block == s.thinking_block
        }),
    decreases ds.len(),
{
    if ds.len() == 0 {
        let (s2, ev) = g_tool_deltas(s, ds);
        assert(h + ev =~= h);
    } else {
        let (s1, ev1) = g_tool_delta(s, ds[0]);
        lemma_inv_tool_delta(s, h, ds[0]);
        let (s2, ev2) = g_tool_deltas(s1, ds.drop_first());
        lemma_inv_tool_deltas(s1, h + ev1, ds.drop_first());
        assert(h + (ev1 + ev2) =~= (h + ev1) + ev2);
    }
}

/// Does some not-yet-stopped tool sub-state own index `i`?
pub open spec fn unstopped_at(tools: Seq<GToolState>, i: u32) -> bool {
    exists|k: int|
        0 <= k < tools.len() && (#[trigger] tools[k]).block_index == i && !tools[k].stopped
}

#[verifier::rlimit(100)]
proof fn lemma_inv_flush_tools(tools: Seq<GToolState>, h: Seq<GEvent>)
    requires
        forall|k: int|
            0 <= k < tools.len() && (#[trigger] tools[k]).started && !tools[k].stopped ==> (
            block_phase(h, tools[k].block_index) is POpen),
        forall|k: int|
            0 <= k < tools.len() && !(#[trigger] tools[k]).started && !tools[k].stopped ==> (
            block_phase(h, tools[k].block_index) is PNone),
        forall|k: int|
            0 <= k < tools.len() && (#[trigger] tools[k]).started && tools[k].stopped ==> (
            block_phase(h, tools[k].block_index) is PClosed),
        forall|k: int|
            0 <= k < tools.len() && !(#[trigger] tools[k]).started && tools[k].stopped ==> (
            block_phase(h, tools[k].block_index) is POrphan),
        forall|k1: int, k2: int|
            0 <= k1 < k2 < tools.len() ==> (#[trigger] tools[k1]).block_index != (
            #[trigger] tools[k2]).block_index,
        forall|i: u32| !((#[trigger] block_phase(h, i)) is PInvalid),
    ensures
        ({
            let (t2, ev, err) = g_flush_tools(tools);
            &&& forall|i: u32| !((#[trigger] block_phase(h + ev, i)) is PInvalid)
            &&& err is None ==> {
                &&& t2.len() == tools.len()
                &&& forall|k: int|
                    0 <= k < tools.len() ==> (#[trigger] t2[k]).block_index
                        == tools[k].block_index && t2[k].started == tools[k].started
                        && t2[k].stopped
                &&& forall|i: u32|
                    !unstopped_at(tools, i) ==> #[trigger] block_phase(h + ev, i)
                        == block_phase(h, i)
                &&& forall|k: int|
                    0 <= k < tools.len() && (#[trigger] tools[k]).started
                        && !tools[k].stopped ==> (block_phase(h + ev, tools[k].block_index)
                    is PClosed)
                &&& forall|k: int|
                    0 <= k < tools.len() && !(#[trigger] tools[k]).started
                        && !tools[k].stopped ==> (block_phase(h + ev, tools[k].block_index)
                    is POrphan)
                &&& forall|k: int|
                    0 <= k < tools.len() && (#[trigger] tools[k]).stopped ==> block_phase(
                        h + ev,
                        tools[k].block_index,
                    ) == block_phase(h, tools[k].block_index)
            }
        }),
    decreases tools.len(),
{
    let (t2, ev, err) = g_flush_tools(tools);
    if tools.len() == 0 {
        assert(h + ev =~= h);
    } else {
        let t = tools[0];
        let bi = t.block_index;
        if t.started && t.arguments.len() == 0 {
            assert(h + ev =~= h);
        } else if t.started && !parses_as_json(t.arguments) {
            assert(h + ev =~= h);
        } else {
            let rest = tools.drop_first();
            let (t1, ev1): (GToolState, Seq<GEvent>) = if !t.stopped {
                (
                    GToolState { stopped: true, ..t },
                    seq![GEvent::EBlockStop { index: bi }],
                )
            } else {
                (t, Seq::empty())
            };
            let h1 = h + ev1;
            lemma_phase_append(h, ev1);
            if !t.stopped {
                assert forall|i2: u32| i2 != bi implies block_phase(h1, i2) == block_phase(
                    h,
                    i2,
                ) by {
                    lemma_phase_run_one(block_phase(h, i2), GEvent::EBlockStop { index: bi }, i2);
                }
                lemma_phase_run_one(block_phase(h, bi), GEvent::EBlockStop { index: bi }, bi);
                if t.started {
                    assert(block_phase(h, bi) is POpen);
                    assert(block_phase(h1, bi) is PClosed);
                } else {
                    assert(block_phase(h, bi) is PNone);
                    assert(block_phase(h1, bi) is POrphan);
                }
            } else {
                assert(h1 =~= h);
            }
            assert forall|k: int|
                0 <= k < rest.len() implies (#[trigger] rest[k]).block_index != bi by {
                assert(rest[k] == tools[k + 1]);
            }
            assert(forall|k: int|
                0 <= k < rest.len() ==> #[trigger] block_phase(h1, rest[k].block_index)
                    == block_phase(h, rest[k].block_index));
            assert(forall|k: int| 0 <= k < rest.len() ==> rest[k] == tools[k + 1]);
            assert forall|i2: u32| !((#[trigger] block_phase(h1, i2)) is PInvalid) by {
                if i2 != bi {
                    assert(block_phase(h1, i2) == block_phase(h, i2));
                }
            }
            lemma_inv_flush_tools(rest, h1);
            let (r2, ev2, err2) = g_flush_tools(rest);
            assert(h + (ev1 + ev2) =~= h1 + ev2);
            assert forall|i2: u32| !((#[trigger] block_phase(h + ev, i2)) is PInvalid) by {
                assert(block_phase(h + ev, i2) == block_phase(h1 + ev2, i2));
            }
            if err2 is None {
                assert(t2 =~= seq![t1] + r2);
                assert(t2.len() == tools.len());
                assert forall|k: int|
                    0 <= k < tools.len() implies (#[trigger] t2[k]).block_index
                    == tools[k].block_index && t2[k].started == tools[k].started
                    && t2[k].stopped by {
                    if k > 0 {
                        assert(t2[k] == r2[k - 1]);
                        assert(rest[k - 1] == tools[k]);
                    }
                }
                assert forall|i2: u32|
                    !unstopped_at(tools, i2) implies #[trigger] block_phase(h + ev, i2)
                    == block_phase(h, i2) by {
                    assert(!unstopped_at(rest, i2)) by {
                        if unstopped_at(rest, i2) {
                            let k = choose|k: int|
                                0 <= k < rest.len() && (#[trigger] rest[k]).block_index == i2
                                    && !rest[k].stopped;
                            assert(rest[k] == tools[k + 1]);
                            assert(unstopped_at(tools, i2));
                        }
                    }
                    assert(i2 != bi || t.stopped) by {
                        if i2 == bi && !t.stopped {
                            assert(unstopped_at(tools, bi));
                        }
                    }
                    assert(block_phase(h1, i2) == block_phase(h, i2));
                    assert(block_phase(h + ev, i2) == block_phase(h1 + ev2, i2));
                }
                assert forall|k: int|
                    0 <= k < tools.len() && (#[trigger] tools[k]).started
                        && !tools[k].stopped implies (block_phase(h + ev, tools[k].block_index)
                    is PClosed) by {
                    if k == 0 {
                        assert(!unstopped_at(rest, bi)) by {
                            if unstopped_at(rest, bi) {
                                let kk = choose|kk: int|
                                    0 <= kk < rest.len() && (#[trigger] rest[kk]).block_index
                                        == bi && !rest[kk].stopped;
                                assert(rest[kk] == tools[kk + 1]);
                            }
                        }
                        assert(block_phase(h1 + ev2, bi) == block_phase(h1, bi));
                        assert(block_phase(h + ev, bi) == block_phase(h1 + ev2, bi));
                    } else {
                        assert(rest[k - 1] == tools[k]);
                        assert(block_phase(h1 + ev2, tools[k].block_index) is PClosed);
                        assert(block_phase(h + ev, tools[k].block_index) == block_phase(
                            h1 + ev2,
                            tools[k].block_index,
                        ));
                    }
                }
                assert forall|k: int|
                    0 <= k < tools.len() && !(#[trigger] tools[k]).started
                        && !tools[k].stopped implies (block_phase(h + ev, tools[k].block_index)
                    is POrphan) by {
                    if k == 0 {
                        assert(!unstopped_at(rest, bi)) by {
                            if unstopped_at(rest, bi) {
                                let kk = choose|kk: int|
                                    0 <= kk < rest.len() && (#[trigger] rest[kk]).block_index
                                        == bi && !rest[kk].stopped;
                                assert(rest[kk] == tools[kk + 1]);
                            }
                        }
                        assert(block_phase(h1 + ev2, bi) == block_phase(h1, bi));
                        assert(block_phase(h + ev, bi) == block_phase(h1 + ev2, bi));
                    } else {
                        assert(rest[k - 1] == tools[k]);
                        assert(block_phase(h1 + ev2, tools[k].block_index) is POrphan);
                        assert(block_phase(h + ev, tools[k].block_index) == block_phase(
                            h1 + ev2,
                            tools[k].block_index,
                        ));
                    }
                }
                assert forall|k: int|
                    0 <= k < tools.len() && (#[trigger] tools[k]).stopped implies block_phase(
                    h + ev,
                    tools[k].block_index,
                ) == block_phase(h, tools[k].block_index) by {
                    if k == 0 {
                        assert(h1 =~= h);
                        assert(!unstopped_at(rest, bi)) by {
                            if unstopped_at(rest, bi) {
                                let kk = choose|kk: int|
                                    0 <= kk < rest.len() && (#[trigger] rest[kk]).block_index
                                        == bi && !rest[kk].stopped;
                                assert(rest[kk] == tools[kk + 1]);
                            }
                        }
                        assert(block_phase(h1 + ev2, bi) == block_phase(h1, bi));
                        assert(block_phase(h + ev, bi) == block_phase(h1 + ev2, bi));
                    } else {
                        assert(rest[k - 1] == tools[k]);
                        assert(block_phase(h1 + ev2, tools[k].block_index) == block_phase(
                            h1,
                            tools[k].block_index,
                        ));
                        assert(block_phase(h1, tools[k].block_index) == block_phase(
                            h,
                            tools[k].block_index,
                        ));
                        assert(block_phase(h + ev, tools[k].block_index) == block_phase(
                            h1 + ev2,
                            tools[k].block_index,
                        ));
                    }
                }
            }
        }
    }
}

#[verifier::rlimit(100)]
proof fn lemma_inv_close_text(s: GStream, h: Seq<GEvent>)
    requires
        inv_stream(s, h),
    ensures
        ({
            let (sa, ev1): (GStream, Seq<GEvent>) = match s.text_block {
                Some(i) => (
                    GStream { text_block: None, ..s },
                    seq![GEvent::EBlockStop { index: i }],
                ),
                None => (s, Seq::empty()),
            };
            &&& inv_stream(sa, h + ev1)
            &&& sa.text_block is None
            &&& sa.thinking_block == s.thinking_block
            &&& sa.tools == s.tools
            &&& sa.next_index == s.next_index
        }),
{
    let (sa, ev1): (GStream, Seq<GEvent>) = match s.text_block {
        Some(i) => (GStream { text_block: None, ..s }, seq![GEvent::EBlockStop { index: i }]),
        None => (s, Seq::empty()),
    };
    let ha = h + ev1;
    lemma_phase_append(h, ev1);
    match s.text_block {
        Some(i) => {
            assert forall|i2: u32| i2 != i implies block_phase(ha, i2) == block_phase(
                h,
                i2,
            ) by {
                lemma_phase_run_one(block_phase(h, i2), GEvent::EBlockStop { index: i }, i2);
            }
            assert(block_phase(h, i) is POpen);
            lemma_phase_run_one(block_phase(h, i), GEvent::EBlockStop { index: i }, i);
            assert(block_phase(ha, i) is PClosed);
            assert(inv_stream(sa, ha)) by {
                assert forall|i2: u32| ((#[trigger] block_phase(ha, i2)) is POpen)
                    <==> open_index(sa, i2) by {
                    if i2 != i {
                        assert(block_phase(ha, i2) == block_phase(h, i2));
                        assert(open_index(sa, i2) == open_index(s, i2));
                    } else {
                        assert(!open_index(sa, i)) by {
                            if open_index(sa, i) {
                                assert(sa.thinking_block != Some(i));
                                let k = choose|k: int|
                                    0 <= k < sa.tools.len() && (#[trigger] sa.tools[k]).block_index
                                        == i && sa.tools[k].started && !sa.tools[k].stopped;
                                assert(s.text_block != Some(sa.tools[k].block_index));
                            }
                        }
                    }
                }
                assert forall|i2: u32| sa.next_index <= i2 implies ((
                #[trigger] block_phase(ha, i2)) is PNone) by {
                    assert(i2 != i);
                    assert(block_phase(ha, i2) == block_phase(h, i2));
                }
                assert forall|k: int|
                    0 <= k < sa.tools.len() implies (#[trigger] sa.tools[k]).block_index
                    != i by {
                    assert(s.text_block != Some(s.tools[k].block_index));
                }
            }
        },
        None => {
            assert(ha =~= h);
        },
    }
}

#[verifier::rlimit(100)]
proof fn lemma_inv_close_thinking(sa: GStream, ha: Seq<GEvent>)
    requires
        inv_stream(sa, ha),
    ensures
        ({
            let (sb, ev2): (GStream, Seq<GEvent>) = match sa.thinking_block {
                Some(i) => (
                    GStream { thinking_block: None, ..sa },
                    seq![GEvent::EBlockStop { index: i }],
                ),
                None => (sa, Seq::empty()),
            };
            &&& inv_stream(sb, ha + ev2)
            &&& sb.thinking_block is None
            &&& sb.text_block == sa.text_block
            &&& sb.tools == sa.tools
            &&& sb.next_index == sa.next_index
        }),
{
    let (sb, ev2): (GStream, Seq<GEvent>) = match sa.thinking_block {
        Some(i) => (
            GStream { thinking_block: None, ..sa },
            seq![GEvent::EBlockStop { index: i }],
        ),
        None => (sa, Seq::empty()),
    };
    let hb = ha + ev2;
    lemma_phase_append(ha, ev2);
    match sa.thinking_block {
        Some(i) => {
            assert forall|i2: u32| i2 != i implies block_phase(hb, i2) == block_phase(
                ha,
                i2,
            ) by {
                lemma_phase_run_one(block_phase(ha, i2), GEvent::EBlockStop { index: i }, i2);
            }
            assert(block_phase(ha, i) is POpen);
            lemma_phase_run_one(block_phase(ha, i), GEvent::EBlockStop { index: i }, i);
            assert(block_phase(hb, i) is PClosed);
            assert(inv_stream(sb, hb)) by {
                assert forall|i2: u32| ((#[trigger] block_phase(hb, i2)) is POpen)
                    <==> open_index(sb, i2) by {
                    if i2 != i {
                        assert(block_phase(hb, i2) == block_phase(ha, i2));
                        assert(open_index(sb, i2) == open_index(sa, i2));
                    } else {
                        assert(!open_index(sb, i)) by {
                            if open_index(sb, i) {
                                assert(sb.text_block != Some(i));
                                let k = choose|k: int|
                                    0 <= k < sb.tools.len() && (#[trigger] sb.tools[k]).block_index
                                        == i && sb.tools[k].started && !sb.tools[k].stopped;
                                assert(sa.thinking_block != Some(sa.tools[k].block_index));
                            }
                        }
                    }
                }
                assert forall|i2: u32| sb.next_index <= i2 implies ((
                #[trigger] block_phase(hb, i2)) is PNone) by {
                    assert(i2 != i);
                    assert(block_phase(hb, i2) == block_phase(ha, i2));
                }
                assert forall|k: int|
                    0 <= k < sb.tools.len() implies (#[trigger] sb.tools[k]).block_index
                    != i by {
                    assert(sa.thinking_block != Some(sa.tools[k].block_index));
                }
            }
        },
        None => {
            assert(hb =~= ha);
        },
    }
}

proof fn lemma_inv_flush(s: GStream, h: Seq<GEvent>)
    requires
        inv_stream(s, h),
    ensures
        ({
            let (s2, ev, err) = g_stream_flush(s);
            &&& forall|i: u32| !((#[trigger] block_phase(h + ev, i)) is PInvalid)
            &&& err is None ==> {
                &&& inv_stream(s2, h + ev)
                &&& forall|i: u32| !((#[trigger] block_phase(h + ev, i)) is POpen)
                &&& s2.next_index == s.next_index
            }
        }),
{
    let (sa, ev1): (GStream, Seq<GEvent>) = match s.text_block {
        Some(i) => (GStream { text_block: None, ..s }, seq![GEvent::EBlockStop { index: i }]),
        None => (s, Seq::empty()),
    };
    lemma_inv_close_text(s, h);
    let ha = h + ev1;
    let (sb, ev2): (GStream, Seq<GEvent>) = match sa.thinking_block {
        Some(i) => (
            GStream { thinking_block: None, ..sa },
            seq![GEvent::EBlockStop { index: i }],
        ),
        None => (sa, Seq::empty()),
    };
    lemma_inv_close_thinking(sa, ha);
    let hb = ha + ev2;
    lemma_inv_flush_state(sb, hb);
    let (tools2, ev3, err) = g_flush_tools(sb.tools);
    let hc = hb + ev3;
    assert(h + (ev1 + ev2 + ev3) =~= hc);
    assert forall|i2: u32| !((#[trigger] block_phase(h + (ev1 + ev2 + ev3), i2))
        is PInvalid) by {
        assert(block_phase(h + (ev1 + ev2 + ev3), i2) == block_phase(hc, i2));
    }
    if err is None {
        assert(inv_stream(GStream { tools: tools2, ..sb }, hc));
        assert(forall|i2: u32| !((#[trigger] block_phase(hc, i2)) is POpen));
        assert forall|i2: u32| !((#[trigger] block_phase(h + (ev1 + ev2 + ev3), i2))
            is POpen) by {
            assert(block_phase(h + (ev1 + ev2 + ev3), i2) == block_phase(hc, i2));
        }
    }
}

#[verifier::rlimit(100)]
proof fn lemma_inv_flush_state(sb: GStream, hb: Seq<GEvent>)
    requires
        inv_stream(sb, hb),
        sb.text_block is None,
        sb.thinking_block is None,
    ensures
        ({
            let (tools2, ev3, err) = g_flush_tools(sb.tools);
            &&& forall|i: u32| !((#[trigger] block_phase(hb + ev3, i)) is PInvalid)
            &&& err is None ==> {
                &&& inv_stream(GStream { tools: tools2, ..sb }, hb + ev3)
                &&& forall|i: u32| !((#[trigger] block_phase(hb + ev3, i)) is POpen)
            }
        }),
{
    assert forall|k: int|
        0 <= k < sb.tools.len() && (#[trigger] sb.tools[k]).started
            && !sb.tools[k].stopped implies (block_phase(hb, sb.tools[k].block_index)
        is POpen) by {
        assert(open_index(sb, sb.tools[k].block_index));
    }
    lemma_inv_flush_tools(sb.tools, hb);
    let (tools2, ev3, err) = g_flush_tools(sb.tools);
    let s2 = GStream { tools: tools2, ..sb };
    let hc = hb + ev3;
    if err is None {
        assert forall|i2: u32| !((#[trigger] block_phase(hc, i2)) is POpen) by {
            if unstopped_at(sb.tools, i2) {
                let k = choose|k: int|
                    0 <= k < sb.tools.len() && (#[trigger] sb.tools[k]).block_index == i2
                        && !sb.tools[k].stopped;
                if sb.tools[k].started {
                    assert(block_phase(hc, i2) is PClosed);
                } else {
                    assert(block_phase(hc, i2) is POrphan);
                }
            } else {
                assert(block_phase(hc, i2) == block_phase(hb, i2));
                if block_phase(hb, i2) is POpen {
                    assert(open_index(sb, i2));
                    let k = choose|k: int|
                        0 <= k < sb.tools.len() && (#[trigger] sb.tools[k]).block_index == i2
                            && sb.tools[k].started && !sb.tools[k].stopped;
                    assert(unstopped_at(sb.tools, i2));
                }
            }
        }
        assert(inv_stream(s2, hc)) by {
            assert forall|i2: u32| ((#[trigger] block_phase(hc, i2)) is POpen) <==> open_index(
                s2,
                i2,
            ) by {
                assert(!open_index(s2, i2)) by {
                    if open_index(s2, i2) {
                        let k = choose|k: int|
                            0 <= k < s2.tools.len() && (#[trigger] s2.tools[k]).block_index
                                == i2 && s2.tools[k].started && !s2.tools[k].stopped;
                        assert(s2.tools[k].stopped);
                    }
                }
            }
            assert forall|i2: u32| s2.next_index <= i2 implies ((
            #[trigger] block_phase(hc, i2)) is PNone) by {
                assert(!unstopped_at(sb.tools, i2)) by {
                    if unstopped_at(sb.tools, i2) {
                        let k = choose|k: int|
                            0 <= k < sb.tools.len() && (#[trigger] sb.tools[k]).block_index
                                == i2 && !sb.tools[k].stopped;
                        assert(sb.tools[k].block_index < sb.next_index);
                    }
                }
                assert(block_phase(hc, i2) == block_phase(hb, i2));
            }
            assert forall|k: int|
                0 <= k < s2.tools.len() && (#[trigger] s2.tools[k]).started
                    && s2.tools[k].stopped implies (block_phase(hc, s2.tools[k].block_index)
                is PClosed) by {
                assert(s2.tools[k].block_index == sb.tools[k].block_index);
                assert(s2.tools[k].started == sb.tools[k].started);
                if sb.tools[k].stopped {
                    assert(block_phase(hc, sb.tools[k].block_index) == block_phase(
                        hb,
                        sb.tools[k].block_index,
                    ));
                }
            }
            assert forall|k: int|
                0 <= k < s2.tools.len() && !(#[trigger] s2.tools[k]).started
                    && s2.tools[k].stopped implies (block_phase(hc, s2.tools[k].block_index)
                is POrphan) by {
                assert(s2.tools[k].block_index == sb.tools[k].block_index);
                assert(s2.tools[k].started == sb.tools[k].started);
                if sb.tools[k].stopped {
                    assert(block_phase(hc, sb.tools[k].block_index) == block_phase(
                        hb,
                        sb.tools[k].block_index,
                    ));
                }
            }
            assert forall|k: int|
                0 <= k < s2.tools.len() && !(#[trigger] s2.tools[k]).started
                    && !s2.tools[k].stopped implies (block_phase(hc, s2.tools[k].block_index)
                is PNone) by {
                assert(s2.tools[k].stopped);
            }
            assert forall|k1: int, k2: int| 0 <= k1 < k2 < s2.tools.len() implies (
            #[trigger] s2.tools[k1]).block_index != (#[trigger] s2.tools[k2]).block_index by {
                assert(s2.tools[k1].block_index == sb.tools[k1].block_index);
                assert(s2.tools[k2].block_index == sb.tools[k2].block_index);
            }
            assert forall|k: int|
                0 <= k < s2.tools.len() implies (#[trigger] s2.tools[k]).block_index
                < s2.next_index && s2.text_block != Some(s2.tools[k].block_index)
                && s2.thinking_block != Some(s2.tools[k].block_index) by {
                assert(s2.tools[k].block_index == sb.tools[k].block_index);
            }
        }
    }
}

/// How many block indices one chunk can assign at most: a text block, a
/// thinking block, and one per tool-call delta.
pub open spec fn chunk_budget(c: OpenAIStreamChunk) -> int {
    if c.choices@.len() == 0 {
        0
    } else {
        2 + (match c.choices@[0].delta.tool_calls {
            Some(ds) => ds@.len() as int,
            None => 0,
        })
    }
}

/// Does this chunk carry a finish reason?
pub open spec fn chunk_finishes(c: OpenAIStreamChunk) -> bool {
    c.choices@.len() > 0 && c.choices@[0].finish_reason is Some
}

/// The block-index budget of a whole stream.
pub open spec fn run_budget(chunks: Seq<OpenAIStreamChunk>) -> int
    decreases chunks.len(),
{
    if chunks.len() == 0 {
        0
    } else {
        chunk_budget(chunks[0]) + run_budget(chunks.drop_first())
    }
}

proof fn lemma_run_budget_nonneg(chunks: Seq<OpenAIStreamChunk>)
    ensures
        run_budget(chunks) >= 0,
    decreases chunks.len(),
{
    if chunks.len() > 0 {
        lemma_run_budget_nonneg(chunks.drop_first());
    }
}

/// A finish reason appears at most on the last chunk.
pub open spec fn finish_only_last(chunks: Seq<OpenAIStreamChunk>) -> bool {
    forall|j: int| 0 <= j < chunks.len() - 1 ==> !chunk_finishes(#[trigger] chunks[j])
}

proof fn lemma_inv_nonblock(s4: GStream, h4: Seq<GEvent>, e: GEvent)
    requires
        inv_stream(s4, h4),
        forall|i: u32| !is_start_at(e, i) && !is_delta_at(e, i) && !is_stop_at(e, i),
    ensures
        inv_stream(s4, h4 + seq![e]),
        forall|i: u32|
            #![trigger block_phase(h4 + seq![e], i)]
            block_phase(h4 + seq![e], i) == block_phase(h4, i),
{
    let h5 = h4 + seq![e];
    lemma_phase_append(h4, seq![e]);
    assert forall|i: u32| #![trigger block_phase(h5, i)] block_phase(h5, i) == block_phase(
        h4,
        i,
    ) by {
        lemma_phase_run_one(block_phase(h4, i), e, i);
    }
    assert forall|i: u32| ((#[trigger] block_phase(h5, i)) is POpen) <==> open_index(
        s4,
        i,
    ) by {
        assert(block_phase(h5, i) == block_phase(h4, i));
    }
    assert forall|i: u32| !((#[trigger] block_phase(h5, i)) is PInvalid) by {
        assert(block_phase(h5, i) == block_phase(h4, i));
    }
    assert forall|i: u32| s4.next_index <= i implies ((#[trigger] block_phase(h5, i))
        is PNone) by {
        assert(block_phase(h5, i) == block_phase(h4, i));
    }
    assert forall|k: int|
        0 <= k < s4.tools.len() && !(#[trigger] s4.tools[k]).started
            && !s4.tools[k].stopped implies (block_phase(h5, s4.tools[k].block_index)
        is PNone) by {
        assert(block_phase(h5, s4.tools[k].block_index) == block_phase(
            h4,
            s4.tools[k].block_index,
        ));
    }
    assert forall|k: int|
        0 <= k < s4.tools.len() && (#[trigger] s4.tools[k]).started
            && s4.tools[k].stopped implies (block_phase(h5, s4.tools[k].block_index)
        is PClosed) by {
        assert(block_phase(h5, s4.tools[k].block_index) == block_phase(
            h4,
            s4.tools[k].block_index,
        ));
    }
    assert forall|k: int|
        0 <= k < s4.tools.len() && !(#[trigger] s4.tools[k]).started
            && s4.tools[k].stopped implies (block_phase(h5, s4.tools[k].block_index)
        is POrphan) by {
        assert(block_phase(h5, s4.tools[k].block_index) == block_phase(
            h4,
            s4.tools[k].block_index,
        ));
    }
}

#[verifier::rlimit(100)]
proof fn lemma_inv_chunk(s: GStream, h: Seq<GEvent>, chunk: OpenAIStreamChunk)
    requires
        inv_stream(s, h),
        tools_unstopped(s),
        s.next_index + chunk_budget(chunk) < 0x1_0000_0000,
    ensures
        ({
            let (s2, ev, err) = g_chunk(s, chunk);
            &&& forall|i: u32| !((#[trigger] block_phase(h + ev, i)) is PInvalid)
            &&& err is None ==> inv_stream(s2, h + ev) && s2.next_index <= s.next_index
                + chunk_budget(chunk)
            &&& (err is None && !chunk_finishes(chunk)) ==> tools_unstopped(s2)
        }),
{
    let (s0, ev0) = g_start(
        s,
        crate::config::opt_view(chunk.id),
        crate::config::opt_view(chunk.model),
    );
    lemma_inv_start(s, h, crate::config::opt_view(chunk.id), crate::config::opt_view(
        chunk.model,
    ));
    let h0 = h + ev0;
    assert(tools_unstopped(s0));
    if chunk.choices@.len() == 0 {
    } else {
        let choice = chunk.choices@[0];
        let (s1, ev1): (GStream, Seq<GEvent>) = match choice.delta.content {
            Some(c) => g_content_delta(s0, c@),
            None => (s0, Seq::empty()),
        };
        let (s2, ev2): (GStream, Seq<GEvent>) = match choice.delta.reasoning_content {
            Some(rc) => g_reasoning_delta(s1, rc),
            None => (s1, Seq::empty()),
        };
        let (s3, ev3): (GStream, Seq<GEvent>) = match choice.delta.tool_calls {
            Some(ds) => g_tool_deltas(s2, ds@),
            None => (s2, Seq::empty()),
        };
        lemma_inv_delta_phase(s0, h0, choice);
        let h3 = ((h0 + ev1) + ev2) + ev3;
        assert(inv_stream(s3, h3));
        assert(tools_unstopped(s3));
        assert(h + (ev0 + ev1 + ev2 + ev3) =~= h3);
        match choice.finish_reason {
            None => {
                assert forall|i: u32| !((#[trigger] block_phase(
                    h + (ev0 + ev1 + ev2 + ev3),
                    i,
                )) is PInvalid) by {
                    assert(block_phase(h + (ev0 + ev1 + ev2 + ev3), i) == block_phase(h3, i));
                }
            },
            Some(f) => {
                lemma_inv_finish_reason(s3, h3, f@);
                let (s4, ev4, err) = g_stream_flush(s3);
                let h4 = h3 + ev4;
                assert(h + (ev0 + ev1 + ev2 + ev3 + ev4) =~= h4);
                match err {
                    Some(_e) => {
                        assert forall|i: u32| !((#[trigger] block_phase(
                            h + (ev0 + ev1 + ev2 + ev3 + ev4),
                            i,
                        )) is PInvalid) by {
                            assert(block_phase(h + (ev0 + ev1 + ev2 + ev3 + ev4), i)
                                == block_phase(h4, i));
                        }
                    },
                    None => {
                        let md = GEvent::EMessageDelta { stop_reason: finish_to_stop(f@) };
                        let h5 = h4 + seq![md];
                        assert(h + (ev0 + ev1 + ev2 + ev3 + ev4 + seq![md]) =~= h5);
                        assert(inv_stream(s4, h5));
                    },
                }
            },
        }
    }
}

#[verifier::rlimit(100)]
proof fn lemma_inv_delta_phase(
    s0: GStream,
    h0: Seq<GEvent>,
    choice: crate::dialect::OpenAIStreamChoice,
)
    requires
        inv_stream(s0, h0),
        tools_unstopped(s0),
        s0.next_index + 2 + (match choice.delta.tool_calls {
            Some(ds) => ds@.len() as int,
            None => 0,
        }) < 0x1_0000_0000,
    ensures
        ({
            let (s1, ev1): (GStream, Seq<GEvent>) = match choice.delta.content {
                Some(c) => g_content_delta(s0, c@),
                None => (s0, Seq::empty()),
            };
            let (s2, ev2): (GStream, Seq<GEvent>) = match choice.delta.reasoning_content {
                Some(rc) => g_reasoning_delta(s1, rc),
                None => (s1, Seq::empty()),
            };
            let (s3, ev3): (GStream, Seq<GEvent>) = match choice.delta.tool_calls {
                Some(ds) => g_tool_deltas(s2, ds@),
                None => (s2, Seq::empty()),
            };
            &&& inv_stream(s3, ((h0 + ev1) + ev2) + ev3)
            &&& tools_unstopped(s3)
            &&& s3.next_index <= s0.next_index + 2 + (match choice.delta.tool_calls {
                Some(ds) => ds@.len() as int,
                None => 0,
            })
        }),
{
    let (s1, ev1): (GStream, Seq<GEvent>) = match choice.delta.content {
        Some(c) => g_content_delta(s0, c@),
        None => (s0, Seq::empty()),
    };
    match choice.delta.content {
        Some(c) => {
            lemma_inv_content(s0, h0, c@);
        },
        None => {
            assert(h0 + ev1 =~= h0);
        },
    }
    let h1 = h0 + ev1;
    assert(inv_stream(s1, h1));
    assert(tools_unstopped(s1)) by {
        assert(s1.tools == s0.tools);
    }
    let (s2, ev2): (GStream, Seq<GEvent>) = match choice.delta.reasoning_content {
        Some(rc) => g_reasoning_delta(s1, rc),
        None => (s1, Seq::empty()),
    };
    match choice.delta.reasoning_content {
        Some(rc) => {
            lemma_inv_reasoning(s1, h1, rc);
        },
        None => {
            assert(h1 + ev2 =~= h1);
        },
    }
    let h2 = h1 + ev2;
    assert(inv_stream(s2, h2));
    assert(tools_unstopped(s2)) by {
        assert(s2.tools == s1.tools);
    }
    match choice.delta.tool_calls {
        Some(ds) => {
            lemma_inv_tool_deltas(s2, h2, ds@);
        },
        None => {
            let (s3, ev3): (GStream, Seq<GEvent>) = match choice.delta.tool_calls {
                Some(ds) => g_tool_deltas(s2, ds@),
                None => (s2, Seq::empty()),
            };
            assert(h2 + ev3 =~= h2);
        },
    }
}

proof fn lemma_inv_finish_reason(s3: GStream, h3: Seq<GEvent>, f: Seq<char>)
    requires
        inv_stream(s3, h3),
    ensures
        ({
            let (s4, ev4, err) = g_stream_flush(s3);
            &&& forall|i: u32| !((#[trigger] block_phase(h3 + ev4, i)) is PInvalid)
            &&& err is None ==> inv_stream(
                s4,
                (h3 + ev4) + seq![GEvent::EMessageDelta { stop_reason: finish_to_stop(f) }],
            ) && s4.next_index == s3.next_index
        }),
{
    lemma_inv_flush(s3, h3);
    let (s4, ev4, err) = g_stream_flush(s3);
    if err is None {
        lemma_inv_nonblock(
            s4,
            h3 + ev4,
            GEvent::EMessageDelta { stop_reason: finish_to_stop(f) },
        );
    }
}

proof fn lemma_inv_run(s: GStream, h: Seq<GEvent>, chunks: Seq<OpenAIStreamChunk>)
    requires
        inv_stream(s, h),
        tools_unstopped(s),
        finish_only_last(chunks),
        s.next_index + run_budget(chunks) < 0x1_0000_0000,
    ensures
        ({
            let (s2, ev, err) = g_run(s, chunks);
            &&& forall|i: u32| !((#[trigger] block_phase(h + ev, i)) is PInvalid)
            &&& err is None ==> inv_stream(s2, h + ev)
        }),
    decreases chunks.len(),
{
    if chunks.len() == 0 {
        let (s2, ev, err) = g_run(s, chunks);
        assert(h + ev =~= h);
    } else {
        lemma_run_budget_nonneg(chunks.drop_first());
        let (s1, ev1, err1) = g_chunk(s, chunks[0]);
        lemma_inv_chunk(s, h, chunks[0]);
        match err1 {
            Some(_e) => {},
            None => {
                if chunks.len() == 1 {
                    let (s2, ev2, err2) = g_run(s1, chunks.drop_first());
                    assert(chunks.drop_first().len() == 0);
                    assert(ev2 =~= Seq::<GEvent>::empty());
                    assert(h + (ev1 + ev2) =~= h + ev1);
                } else {
                    assert(!chunk_finishes(chunks[0]));
                    assert(tools_unstopped(s1));
                    assert(finish_only_last(chunks.drop_first())) by {
                        assert forall|j: int|
                            0 <= j < chunks.drop_first().len() - 1 implies !chunk_finishes(
                            #[trigger] chunks.drop_first()[j],
                        ) by {
                            assert(chunks.drop_first()[j] == chunks[j + 1]);
                        }
                    }
                    lemma_inv_run(s1, h + ev1, chunks.drop_first());
                    let (s2, ev2, err2) = g_run(s1, chunks.drop_first());
                    assert(h + (ev1 + ev2) =~= (h + ev1) + ev2);
                    assert forall|i: u32| !((#[trigger] block_phase(h + (ev1 + ev2), i))
                        is PInvalid) by {
                        assert(block_phase(h + (ev1 + ev2), i) == block_phase(
                            (h + ev1) + ev2,
                            i,
                        ));
                    }
                }
            },
        }
    }
}

/// Law: per block index, the downstream events of a whole stream follow the
/// grammar `start delta* stop`, or a bare stop for a tool sub-state that
/// never started; on success no block is left open at `message_stop`.  The
/// law asks that the upstream send a finish reason only on its last chunk,
/// and bounds the number of blocks to keep indices from wrapping.
pub proof fn lemma_stream_block_grammar(chunks: Seq<OpenAIStreamChunk>)
    requires
        finish_only_last(chunks),
        run_budget(chunks) < 0x1_0000_0000,
    ensures
        ({
            let (h, err) = g_transcode(chunks);
            &&& forall|i: u32| !((#[trigger] block_phase(h, i)) is PInvalid)
            &&& err is None ==> forall|i: u32| !((#[trigger] block_phase(h, i)) is POpen)
        }),
{
    let s0 = g_initial();
    let h0 = Seq::<GEvent>::empty();
    assert(inv_stream(s0, h0)) by {
        assert(forall|i: u32| #[trigger] block_phase(h0, i) == BlockPhase::PNone);
        assert forall|i: u32| !(open_index(s0, i)) by {
            if open_index(s0, i) {
                let k = choose|k: int|
                    0 <= k < s0.tools.len() && (#[trigger] s0.tools[k]).block_index == i
                        && s0.tools[k].started && !s0.tools[k].stopped;
            }
        }
    }
    lemma_run_budget_nonneg(chunks);
    lemma_inv_run(s0, h0, chunks);
    let (s1, ev1, err1) = g_run(s0, chunks);
    assert(h0 + ev1 =~= ev1);
    match err1 {
        Some(_e) => {
            assert forall|i: u32| !((#[trigger] block_phase(ev1, i)) is PInvalid) by {
                assert(block_phase(ev1, i) == block_phase(h0 + ev1, i));
            }
        },
        None => {
            assert(inv_stream(s1, ev1)) by {
                assert forall|i: u32| ((#[trigger] block_phase(ev1, i)) is POpen)
                    <==> open_index(s1, i) by {
                    assert(block_phase(ev1, i) == block_phase(h0 + ev1, i));
                }
                assert forall|i: u32| !((#[trigger] block_phase(ev1, i)) is PInvalid) by {
                    assert(block_phase(ev1, i) == block_phase(h0 + ev1, i));
                }
                assert forall|i: u32| s1.next_index <= i implies ((
                #[trigger] block_phase(ev1, i)) is PNone) by {
                    assert(block_phase(ev1, i) == block_phase(h0 + ev1, i));
                }
                assert forall|k: int|
                    0 <= k < s1.tools.len() && !(#[trigger] s1.tools[k]).started
                        && !s1.tools[k].stopped implies (block_phase(
                    ev1,
                    s1.tools[k].block_index,
                ) is PNone) by {
                    assert(block_phase(ev1, s1.tools[k].block_index) == block_phase(
                        h0 + ev1,
                        s1.tools[k].block_index,
                    ));
                }
                assert forall|k: int|
                    0 <= k < s1.tools.len() && (#[trigger] s1.tools[k]).started
                        && s1.tools[k].stopped implies (block_phase(
                    ev1,
                    s1.tools[k].block_index,
                ) is PClosed) by {
                    assert(block_phase(ev1, s1.tools[k].block_index) == block_phase(
                        h0 + ev1,
                        s1.tools[k].block_index,
                    ));
                }
                assert forall|k: int|
                    0 <= k < s1.tools.len() && !(#[trigger] s1.tools[k]).started
                        && s1.tools[k].stopped implies (block_phase(
                    ev1,
                    s1.tools[k].block_index,
                ) is POrphan) by {
                    assert(block_phase(ev1, s1.tools[k].block_index) == block_phase(
                        h0 + ev1,
                        s1.tools[k].block_index,
                    ));
                }
            }
            lemma_inv_flush(s1, ev1);
            let (s2, evf, errf) = g_stream_flush(s1);
            let hf = ev1 + evf;
            match errf {
                Some(_e2) => {},
                None => {
                    let stop = GEvent::EMessageStop;
                    let hh = hf + seq![stop];
                    lemma_phase_append(hf, seq![stop]);
                    assert forall|i: u32| #![trigger block_phase(hh, i)] block_phase(hh, i)
                        == block_phase(hf, i) by {
                        lemma_phase_run_one(block_phase(hf, i), stop, i);
                    }
                    assert(ev1 + evf.push(stop) =~= hh);
                    assert forall|i: u32| !((#[trigger] block_phase(
                        ev1 + evf.push(stop),
                        i,
                    )) is PInvalid) by {
                        assert(block_phase(ev1 + evf.push(stop), i) == block_phase(hh, i));
                    }
                    assert forall|i: u32| !((#[trigger] block_phase(ev1 + evf.push(stop), i))
                        is POpen) by {
                        assert(block_phase(ev1 + evf.push(stop), i) == block_phase(hh, i));
                    }
                },
            }
        },
    }
}

proof fn lemma_flush_tools_stops_only(tools: Seq<GToolState>)
    ensures
        forall|j: int|
            0 <= j < g_flush_tools(tools).1.len() ==> (#[trigger] g_flush_tools(
                tools,
            ).1[j]) is EBlockStop,
    decreases tools.len(),
{
    if tools.len() == 0 {
    } else {
        let t = tools[0];
        if t.started && t.arguments.len() == 0 {
        } else if t.started && !parses_as_json(t.arguments) {
        } else {
            lemma_flush_tools_stops_only(tools.drop_first());
        }
    }
}

/// Law: every event of a flush is a `content_block_stop`, and a successful
/// finish emits exactly one `message_stop`, as its last event.
pub proof fn lemma_message_stop_last(s: GStream)
    ensures
        forall|j: int|
            0 <= j < g_stream_flush(s).1.len() ==> (#[trigger] g_stream_flush(
                s,
            ).1[j]) is EBlockStop,
        g_finish(s).2 is None ==> {
            let ev = g_finish(s).1;
            &&& ev.len() > 0
            &&& ev.last() is EMessageStop
            &&& forall|j: int| 0 <= j < ev.len() - 1 ==> !((#[trigger] ev[j]) is EMessageStop)
        },
{
    lemma_flush_tools_stops_only(s.tools);
    let (s1, ev, err) = g_stream_flush(s);
    assert forall|j: int| 0 <= j < ev.len() implies (#[trigger] ev[j]) is EBlockStop by {
        let (s2, ev3, _e) = ({
            let (sa, ev1): (GStream, Seq<GEvent>) = match s.text_block {
                Some(i) => (
                    GStream { text_block: None, ..s },
                    seq![GEvent::EBlockStop { index: i }],
                ),
                None => (s, Seq::empty()),
            };
            let (sb, ev2): (GStream, Seq<GEvent>) = match sa.thinking_block {
                Some(i) => (
                    GStream { thinking_block: None, ..sa },
                    seq![GEvent::EBlockStop { index: i }],
                ),
                None => (sa, Seq::empty()),
            };
            let (tools2, ev3, e) = g_flush_tools(sb.tools);
            (sb, ev3, e)
        });
        assert(g_flush_tools(s.tools).1 == ev3);
    }
}

} // verus!
