//! Translators between the Anthropic and OpenAI dialects.
//!
//! The contracts speak over ghost descriptors: a [`GMessage`] describes one
//! produced OpenAI message, a [`GBlock`] one Anthropic content block, both as
//! plain character sequences.  The translation functions promise that their
//! output, viewed through these descriptors, equals a recursive specification
//! of the translation.

use vstd::prelude::*;

use crate::config::{assoc_lookup, opt_view, policy_of, Config, DocumentPolicy};
use crate::dialect::{
    parses_as_json, AnthropicContent, AnthropicContentBlock, AnthropicMessage, AnthropicModel,
    AnthropicModelsResponse, AnthropicOutputFormat, AnthropicRequest, AnthropicResponse,
    AnthropicSource, AnthropicSystem, AnthropicSystemBlock, AnthropicThinking, AnthropicTool,
    AnthropicToolChoice, AnthropicUsage, OpenAIContentPart, OpenAIFunctionDef, OpenAIImageUrl,
    OpenAIChoice, OpenAIChoiceMessage, OpenAIJsonSchema, OpenAIMessage, OpenAIMessageContent,
    OpenAIModel, OpenAIModelsResponse, OpenAIReasoning, OpenAIRequest, OpenAIResponse,
    OpenAIResponseFormat, OpenAIStreamOptions, OpenAITool, OpenAIToolCall, OpenAIToolCallFunction,
    OpenAIToolChoice, OpenAIToolChoiceFunction, OpenAIToolChoiceName, OpenAIUsage,
    ToolResultContent,
};
use crate::text::{
    ascii_alnum, concat2, copy_str, dec_str, dec_u64_pad, is_ascii_alnum, lower_char,
    push_char, str_eq, upper_char, zero_pad,
};

verus! {

broadcast use {
    vstd::multiset::group_multiset_axioms,
    vstd::seq_lib::group_to_multiset_ensures,
    vstd::string::group_string_axioms,
};

/// A translator failure: the wire error kind and a message.
#[derive(Debug)]
pub struct TranslateError {
    pub error_type: String,
    pub message: String,
}

impl TranslateError {
    /// The input request cannot be translated.
    pub fn invalid_request(message: &str) -> (r: Self)
        ensures
            r.error_type@ == "invalid_request_error"@,
            r.message@ == message@,
    {
        TranslateError {
            error_type: copy_str("invalid_request_error"),
            message: copy_str(message),
        }
    }

    /// The downstream response cannot be translated.
    pub fn api_error(message: &str) -> (r: Self)
        ensures
            r.error_type@ == "api_error"@,
            r.message@ == message@,
    {
        TranslateError { error_type: copy_str("api_error"), message: copy_str(message) }
    }
}

// ---------------------------------------------------------------------------
// ghost descriptors
// ---------------------------------------------------------------------------

/// Ghost error descriptor: kind and message.
pub struct GError {
    pub kind: Seq<char>,
    pub message: Seq<char>,
}

/// An invalid-request error descriptor.
pub open spec fn g_invalid(message: Seq<char>) -> GError {
    GError { kind: "invalid_request_error"@, message }
}

/// An api-error descriptor.
pub open spec fn g_api(message: Seq<char>) -> GError {
    GError { kind: "api_error"@, message }
}

/// Ghost descriptor of one OpenAI message content.
pub enum GContent {
    GNone,
    GText(Seq<char>),
    GParts(Seq<GPart>),
}

/// Ghost descriptor of one OpenAI content part.
pub enum GPart {
    GPartText(Seq<char>),
    GPartImage(Seq<char>),
}

/// Ghost descriptor of one OpenAI tool call.
pub struct GToolCall {
    pub id: Seq<char>,
    pub call_type: Seq<char>,
    pub name: Seq<char>,
    pub arguments: Seq<char>,
}

/// Ghost descriptor of one produced OpenAI message.
pub struct GMessage {
    pub role: Seq<char>,
    pub content: GContent,
    pub tool_calls: Option<Seq<GToolCall>>,
    pub tool_call_id: Option<Seq<char>>,
    pub reasoning: Option<Seq<char>>,
}

/// Ghost descriptor of an Anthropic block source.
pub struct GSource {
    pub source_type: Seq<char>,
    pub media_type: Option<Seq<char>>,
    pub data: Option<Seq<char>>,
}

/// Ghost descriptor of one Anthropic content block.
pub enum GBlock {
    GText { text: Seq<char>, cache_control: Option<Seq<char>> },
    GImage(GSource),
    GDocument(GSource),
    GToolResult { tool_use_id: Seq<char>, text: Seq<char>, is_error: Option<bool> },
    GToolUse { id: Seq<char>, name: Seq<char>, input: Seq<char> },
    GThinking { thinking: Seq<char>, signature: Seq<char> },
    GRedacted(Seq<char>),
}

/// The descriptor of an OpenAI content part.
pub open spec fn view_part(p: OpenAIContentPart) -> GPart {
    match p {
        OpenAIContentPart::Text { text } => GPart::GPartText(text@),
        OpenAIContentPart::ImageUrl { image_url } => GPart::GPartImage(image_url.url@),
    }
}

/// The descriptor of an OpenAI tool call.
pub open spec fn view_tool_call(c: OpenAIToolCall) -> GToolCall {
    GToolCall {
        id: c.id@,
        call_type: c.call_type@,
        name: c.function.name@,
        arguments: c.function.arguments@,
    }
}

/// The descriptor of an OpenAI message content.
pub open spec fn view_content(c: Option<OpenAIMessageContent>) -> GContent {
    match c {
        None => GContent::GNone,
        Some(OpenAIMessageContent::Text(s)) => GContent::GText(s@),
        Some(OpenAIMessageContent::Parts(ps)) => GContent::GParts(
            ps@.map_values(|p: OpenAIContentPart| view_part(p)),
        ),
    }
}

/// The descriptor of an OpenAI message.
pub open spec fn view_msg(m: OpenAIMessage) -> GMessage {
    GMessage {
        role: m.role@,
        content: view_content(m.content),
        tool_calls: match m.tool_calls {
            None => None,
            Some(v) => Some(v@.map_values(|c: OpenAIToolCall| view_tool_call(c))),
        },
        tool_call_id: opt_view(m.tool_call_id),
        reasoning: opt_view(m.reasoning_content),
    }
}

/// The descriptor of a block source.
pub open spec fn view_source(s: AnthropicSource) -> GSource {
    GSource {
        source_type: s.source_type@,
        media_type: opt_view(s.media_type),
        data: opt_view(s.data),
    }
}

/// The descriptor of an Anthropic content block.
pub open spec fn view_block(b: AnthropicContentBlock) -> GBlock {
    match b {
        AnthropicContentBlock::Text { text, cache_control } => GBlock::GText {
            text: text@,
            cache_control: opt_view(cache_control),
        },
        AnthropicContentBlock::Image { source } => GBlock::GImage(view_source(source)),
        AnthropicContentBlock::Document { source } => GBlock::GDocument(view_source(source)),
        AnthropicContentBlock::ToolResult { tool_use_id, content, is_error } => {
            GBlock::GToolResult {
                tool_use_id: tool_use_id@,
                text: match content {
                    ToolResultContent::Text(s) => s@,
                    ToolResultContent::Json(j) => j@,
                },
                is_error,
            }
        },
        AnthropicContentBlock::ToolUse { id, name, input } => GBlock::GToolUse {
            id: id@,
            name: name@,
            input: input@,
        },
        AnthropicContentBlock::Thinking { thinking, signature } => GBlock::GThinking {
            thinking: thinking@,
            signature: signature@,
        },
        AnthropicContentBlock::RedactedThinking { data } => GBlock::GRedacted(data@),
    }
}

/// The descriptors of a message vector.
pub open spec fn msgs_view(v: Seq<OpenAIMessage>) -> Seq<GMessage> {
    v.map_values(|m: OpenAIMessage| view_msg(m))
}

/// The descriptors of a part vector.
pub open spec fn parts_view(v: Seq<OpenAIContentPart>) -> Seq<GPart> {
    v.map_values(|p: OpenAIContentPart| view_part(p))
}

/// The descriptors of a tool-call vector.
pub open spec fn calls_view(v: Seq<OpenAIToolCall>) -> Seq<GToolCall> {
    v.map_values(|c: OpenAIToolCall| view_tool_call(c))
}

/// The descriptors of an Anthropic block vector.
pub open spec fn blocks_view(v: Seq<AnthropicContentBlock>) -> Seq<GBlock> {
    v.map_values(|b: AnthropicContentBlock| view_block(b))
}

// ---------------------------------------------------------------------------
// finish reasons
// ---------------------------------------------------------------------------

/// The Anthropic stop reason for an OpenAI finish reason.  Total: unknown
/// reasons map to `end_turn`.
pub open spec fn finish_to_stop(reason: Seq<char>) -> Seq<char> {
    if reason == "length"@ {
        "max_tokens"@
    } else if reason == "tool_calls"@ {
        "tool_use"@
    } else {
        "end_turn"@
    }
}

/// The stop reason for an optional finish reason; an absent one means
/// `end_turn`.
pub open spec fn finish_opt_to_stop(reason: Option<Seq<char>>) -> Seq<char> {
    match reason {
        None => "end_turn"@,
        Some(f) => finish_to_stop(f),
    }
}

/// Maps an OpenAI finish reason to the Anthropic stop reason.
pub fn map_finish_reason(reason: &str) -> (r: &str)
    ensures
        r@ == finish_to_stop(reason@),
{
    if str_eq(reason, "length") {
        "max_tokens"
    } else if str_eq(reason, "tool_calls") {
        "tool_use"
    } else {
        "end_turn"
    }
}

// ---------------------------------------------------------------------------
// system prompt
// ---------------------------------------------------------------------------

/// Concatenation of the system blocks' texts; a non-text block is an error.
pub open spec fn g_system_blocks(bs: Seq<AnthropicSystemBlock>) -> Result<Seq<char>, GError>
    decreases bs.len(),
{
    if bs.len() == 0 {
        Ok(Seq::empty())
    } else if bs[0].block_type@ != "text"@ {
        Err(g_invalid("system block type not supported: "@ + bs[0].block_type@))
    } else {
        let head = match bs[0].text {
            Some(t) => t@,
            None => Seq::empty(),
        };
        match g_system_blocks(bs.drop_first()) {
            Ok(t) => Ok(head + t),
            Err(e) => Err(e),
        }
    }
}

/// The system prompt as one string.
pub open spec fn g_system_text(system: AnthropicSystem) -> Result<Seq<char>, GError> {
    match system {
        AnthropicSystem::Text(s) => Ok(s@),
        AnthropicSystem::Blocks(bs) => g_system_blocks(bs@),
    }
}

/// Concatenates a system prompt to a single string; non-text system blocks
/// are rejected.
pub fn extract_system_text(system: AnthropicSystem) -> (r: Result<String, TranslateError>)
    ensures
        match r {
            Ok(s) => g_system_text(system) == Ok::<Seq<char>, GError>(s@),
            Err(e) => g_system_text(system) matches Err(ge) && ge.kind == e.error_type@
                && ge.message == e.message@,
        },
{
    match system {
        AnthropicSystem::Text(s) => Ok(s),
        AnthropicSystem::Blocks(blocks) => {
            let ghost all = blocks@;
            let n = blocks.len();
            let mut out = String::new();
            let mut i: usize = 0;
            proof {
                assert(all.skip(0) =~= all);
            }
            while i < n
                invariant
                    n == all.len(),
                    blocks@ == all,
                    g_system_text(system) == g_system_blocks(all),
                    i <= n,
                    g_system_blocks(all) matches Ok(t) ==> g_system_blocks(all.skip(i as int))
                        matches Ok(t2) && t == out@ + t2,
                    g_system_blocks(all) matches Err(e) ==> g_system_blocks(all.skip(i as int))
                        matches Err(e2) && e == e2,
                decreases n - i,
            {
                proof {
                    assert(all.skip(i as int)[0] == all[i as int]);
                    assert(all.skip(i as int).drop_first() =~= all.skip(i + 1));
                }
                let ghost old_out = out@;
                let b = &blocks[i];
                if !str_eq(b.block_type.as_str(), "text") {
                    let msg = concat2("system block type not supported: ", b.block_type.as_str());
                    proof {
                        let tail = all.skip(i as int);
                        assert(g_system_blocks(tail) matches Err(e) && e == g_invalid(
                            "system block type not supported: "@ + all[i as int].block_type@,
                        ));
                        if g_system_blocks(all) matches Ok(t) {
                            assert(false);
                        }
                    }
                    return Err(TranslateError::invalid_request(msg.as_str()));
                }
                match &b.text {
                    Some(t) => {
                        out.append(t.as_str());
                    },
                    None => {},
                }
                i = i + 1;
                proof {
                    let tail = all.skip(i - 1);
                    let head: Seq<char> = match all[i - 1].text {
                        Some(t) => t@,
                        None => Seq::empty(),
                    };
                    assert(out@ =~= old_out + head);
                    let whole = g_system_blocks(all);
                    if whole is Ok {
                        let t = whole->Ok_0;
                        assert(g_system_blocks(tail) matches Ok(t2) && t == old_out + t2);
                        let t2 = g_system_blocks(tail)->Ok_0;
                        assert(g_system_blocks(all.skip(i as int)) matches Ok(t3) && t2 == head
                            + t3);
                        let t3 = g_system_blocks(all.skip(i as int))->Ok_0;
                        assert(t == out@ + t3);
                    }
                }
            }
            proof {
                assert(all.skip(n as int) =~= Seq::<AnthropicSystemBlock>::empty());
            }
            Ok(out)
        },
    }
}

// ---------------------------------------------------------------------------
// tools, tool choice, output format
// ---------------------------------------------------------------------------

/// Does this OpenAI tool correspond to that Anthropic tool?
pub open spec fn tool_matches(o: OpenAITool, a: AnthropicTool) -> bool {
    &&& o.tool_type@ == "function"@
    &&& o.function.name@ == a.name@
    &&& opt_view(o.function.description) == opt_view(a.description)
    &&& o.function.parameters@ == a.input_schema@
}

/// Maps each Anthropic tool to an OpenAI function tool.
fn anthropic_tools_to_openai_tools(tools: Vec<AnthropicTool>) -> (r: Vec<OpenAITool>)
    ensures
        r@.len() == tools@.len(),
        forall|i: int| 0 <= i < tools@.len() ==> tool_matches(#[trigger] r@[i], tools@[i]),
{
    let n = tools.len();
    let mut out: Vec<OpenAITool> = Vec::new();
    let mut i: usize = 0;
    while i < n
        invariant
            n == tools@.len(),
            i <= n,
            out@.len() == i,
            forall|j: int| 0 <= j < i ==> tool_matches(#[trigger] out@[j], tools@[j]),
        decreases n - i,
    {
        let t = &tools[i];
        out.push(
            OpenAITool {
                tool_type: copy_str("function"),
                function: OpenAIFunctionDef {
                    name: t.name.clone(),
                    description: match &t.description {
                        Some(d) => Some(d.clone()),
                        None => None,
                    },
                    parameters: t.input_schema.clone(),
                },
            },
        );
        i = i + 1;
    }
    out
}

/// Does this OpenAI tool choice correspond to that Anthropic one?  `auto`
/// and `any` both collapse to the `auto` mode; `tool` with a name becomes a
/// named function; anything else passes through as a mode string.
pub open spec fn tool_choice_matches(o: OpenAIToolChoice, a: AnthropicToolChoice) -> bool {
    if a.choice_type@ == "auto"@ || a.choice_type@ == "any"@ {
        o matches OpenAIToolChoice::Mode(m) && m@ == "auto"@
    } else if a.choice_type@ == "tool"@ {
        o matches OpenAIToolChoice::Tool(t) && t.choice_type@ == "function"@ && t.function.name@
            == (match a.name {
            Some(nm) => nm@,
            None => Seq::empty(),
        })
    } else {
        o matches OpenAIToolChoice::Mode(m) && m@ == a.choice_type@
    }
}

/// Maps an Anthropic tool choice to the OpenAI form.
pub fn anthropic_tool_choice_to_openai(choice: AnthropicToolChoice) -> (r: OpenAIToolChoice)
    ensures
        tool_choice_matches(r, choice),
{
    let ct = choice.choice_type.as_str();
    if str_eq(ct, "auto") || str_eq(ct, "any") {
        OpenAIToolChoice::Mode(copy_str("auto"))
    } else if str_eq(ct, "tool") {
        let name = match choice.name {
            Some(nm) => nm,
            None => String::new(),
        };
        OpenAIToolChoice::Tool(
            OpenAIToolChoiceFunction {
                choice_type: copy_str("function"),
                function: OpenAIToolChoiceName { name },
            },
        )
    } else {
        OpenAIToolChoice::Mode(choice.choice_type)
    }
}

/// Does this OpenAI response format correspond to that Anthropic output
/// format under the given strictness?
pub open spec fn output_format_matches(
    o: OpenAIResponseFormat,
    a: AnthropicOutputFormat,
    strict: bool,
) -> bool {
    &&& o.format_type@ == "json_schema"@
    &&& o.json_schema matches Some(js) && js.name is None && js.schema@ == a.schema@ && js.strict
        == Some(strict)
}

/// Maps an Anthropic output format to an OpenAI `json_schema` response
/// format.
fn anthropic_output_format_to_openai(format: AnthropicOutputFormat, output_strict: bool) -> (r:
    OpenAIResponseFormat)
    ensures
        output_format_matches(r, format, output_strict),
{
    OpenAIResponseFormat {
        format_type: copy_str("json_schema"),
        json_schema: Some(
            OpenAIJsonSchema { name: None, schema: format.schema, strict: Some(output_strict) },
        ),
    }
}

// ---------------------------------------------------------------------------
// reasoning effort
// ---------------------------------------------------------------------------

/// Does some threshold of the thinking map lie at or under the budget?
pub open spec fn some_threshold_le(m: Seq<(u32, String)>, budget: u32) -> bool {
    exists|i: int| 0 <= i < m.len() && m[i].0 <= budget
}

/// Is a reasoning effort in force for this request?  True exactly when a
/// thinking directive carries a budget that reaches some threshold.
pub open spec fn g_include_reasoning(thinking: Option<AnthropicThinking>, m: Seq<(u32, String)>)
    -> bool {
    match thinking {
        None => false,
        Some(t) => match t.budget_tokens {
            None => false,
            Some(b) => some_threshold_le(m, b),
        },
    }
}

/// The chosen effort `e` is the value of a largest threshold at or under the
/// budget.
pub open spec fn effort_chosen(m: Seq<(u32, String)>, budget: u32, e: Seq<char>) -> bool {
    exists|k: int|
        #![trigger m[k]]
        0 <= k < m.len() && m[k].0 <= budget && e == m[k].1@ && (forall|j: int|
            0 <= j < m.len() && (#[trigger] m[j]).0 <= budget ==> m[j].0 <= m[k].0)
}

/// Derives the reasoning effort from the thinking budget: among the
/// configured thresholds at or under the budget, the largest one's effort
/// wins; no threshold reached or no budget means no effort.
pub fn map_reasoning_effort(thinking: &AnthropicThinking, config: &Config) -> (r: Option<String>)
    ensures
        ({
            let m = config.models.thinking_map@;
            match thinking.budget_tokens {
                None => r is None,
                Some(b) => match r {
                    Some(e) => effort_chosen(m, b, e@) && some_threshold_le(m, b),
                    None => !some_threshold_le(m, b),
                },
            }
        }),
{
    let budget = match thinking.budget_tokens {
        Some(b) => b,
        None => {
            return None;
        },
    };
    let pairs = config.thinking_map_pairs();
    let ghost m = config.models.thinking_map@;
    proof {
        assert forall|x: (u32, String)| m.contains(x) implies pairs@.contains(x) by {
            assert(m.to_multiset().count(x) > 0);
            assert(pairs@.to_multiset().count(x) > 0);
        }
        assert forall|x: (u32, String)| pairs@.contains(x) implies m.contains(x) by {
            assert(pairs@.to_multiset().count(x) > 0);
            assert(m.to_multiset().count(x) > 0);
        }
    }
    let mut i: usize = pairs.len();
    while i > 0
        invariant
            i <= pairs@.len(),
            thinking.budget_tokens == Some(budget),
            m == config.models.thinking_map@,
            forall|x: (u32, String)| m.contains(x) ==> pairs@.contains(x),
            forall|x: (u32, String)| pairs@.contains(x) ==> m.contains(x),
            forall|a: int, b: int| 0 <= a < b < pairs@.len() ==> pairs@[a].0 <= pairs@[b].0,
            forall|j: int| i <= j < pairs@.len() ==> pairs@[j].0 > budget,
        decreases i,
    {
        i = i - 1;
        if budget >= pairs[i].0 {
            let e = pairs[i].1.clone();
            proof {
                let p = pairs@[i as int];
                assert(pairs@.contains(p));
                assert(m.contains(p));
                let k = choose|k: int| 0 <= k < m.len() && m[k] == p;
                assert forall|j: int| 0 <= j < m.len() && m[j].0 <= budget implies m[j].0
                    <= m[k].0 by {
                    assert(m.contains(m[j]));
                    assert(pairs@.contains(m[j]));
                    let idx = choose|idx: int| 0 <= idx < pairs@.len() && pairs@[idx] == m[j];
                    assert(idx <= i);
                }
                assert(effort_chosen(m, budget, e@));
                assert(some_threshold_le(m, budget)) by {
                    assert(0 <= k < m.len() && m[k].0 <= budget);
                }
            }
            return Some(e);
        }
    }
    proof {
        if some_threshold_le(m, budget) {
            let j = choose|j: int| 0 <= j < m.len() && m[j].0 <= budget;
            assert(m.contains(m[j]));
            assert(pairs@.contains(m[j]));
            let idx = choose|idx: int| 0 <= idx < pairs@.len() && pairs@[idx] == m[j];
            assert(pairs@[idx].0 > budget);
            assert(false);
        }
    }
    None
}

// ---------------------------------------------------------------------------
// model-id display names
// ---------------------------------------------------------------------------

/// Index of the first `'-'` in `s`, or `s.len()` if there is none.
pub open spec fn first_dash(s: Seq<char>) -> nat
    decreases s.len(),
{
    if s.len() == 0 {
        0
    } else if s[0] == '-' {
        0
    } else {
        1 + first_dash(s.drop_first())
    }
}

/// One id token rendered for display: short all-alphanumeric tokens are
/// upper-cased whole; longer ones get a capital first letter and the rest
/// lower-cased.
pub open spec fn display_token(p: Seq<char>) -> Seq<char> {
    if p.len() <= 3 && (forall|i: int| 0 <= i < p.len() ==> is_ascii_alnum(p[i])) {
        p.map_values(|c: char| upper_char(c))
    } else {
        seq![upper_char(p[0])] + p.drop_first().map_values(|c: char| lower_char(c))
    }
}

/// The display rendering of a model id: tokens split on `'-'`, each rendered
/// by [`display_token`], joined with spaces.
pub open spec fn titleize(s: Seq<char>) -> Seq<char>
    decreases s.len(),
{
    let k = first_dash(s);
    if k >= s.len() {
        display_token(s)
    } else {
        display_token(s.take(k as int)) + seq![' '] + titleize(s.skip(k as int + 1))
    }
}

proof fn lemma_first_dash(s: Seq<char>, i: int)
    requires
        0 <= i <= s.len(),
        forall|j: int| 0 <= j < i ==> s[j] != '-',
        i < s.len() ==> s[i] == '-',
    ensures
        first_dash(s) == i,
    decreases s.len(),
{
    if s.len() == 0 {
    } else if s[0] == '-' {
        assert(i == 0);
    } else {
        lemma_first_dash(s.drop_first(), i - 1);
    }
}

/// Renders one token of a model id.
fn render_token(p: &str) -> (r: String)
    ensures
        r@ == display_token(p@),
{
    let n = p.unicode_len();
    let mut all: bool = true;
    let mut i: usize = 0;
    while i < n
        invariant
            n == p@.len(),
            i <= n,
            all == (forall|j: int| 0 <= j < i ==> is_ascii_alnum(p@[j])),
        decreases n - i,
    {
        let ok = ascii_alnum(p.get_char(i));
        proof {
            if all && ok {
                assert(forall|j: int| 0 <= j < i + 1 ==> is_ascii_alnum(p@[j]));
            }
        }
        all = all && ok;
        i = i + 1;
    }
    let mut r = String::new();
    if n <= 3 && all {
        let ghost target = p@.map_values(|c: char| upper_char(c));
        let mut j: usize = 0;
        while j < n
            invariant
                n == p@.len(),
                j <= n,
                target == p@.map_values(|c: char| upper_char(c)),
                r@ =~= target.take(j as int),
            decreases n - j,
        {
            push_char(&mut r, to_upper_char_local(p.get_char(j)));
            j = j + 1;
            proof {
                assert(target.take(j as int) =~= target.take(j - 1).push(target[j - 1]));
            }
        }
        proof {
            assert(target.take(n as int) =~= target);
        }
    } else {
        let ghost rest = p@.drop_first().map_values(|c: char| lower_char(c));
        push_char(&mut r, to_upper_char_local(p.get_char(0)));
        let mut j: usize = 1;
        while j < n
            invariant
                n == p@.len(),
                n >= 1,
                1 <= j <= n,
                rest == p@.drop_first().map_values(|c: char| lower_char(c)),
                r@ =~= seq![upper_char(p@[0])] + rest.take(j - 1),
            decreases n - j,
        {
            push_char(&mut r, to_lower_char_local(p.get_char(j)));
            j = j + 1;
            proof {
                assert(rest.take(j - 1) =~= rest.take(j - 2).push(rest[j - 2]));
                assert(rest[j - 2] == lower_char(p@[j - 1]));
            }
        }
        proof {
            assert(rest.take(n - 1) =~= rest);
        }
    }
    r
}

fn to_upper_char_local(c: char) -> (r: char)
    ensures
        r == upper_char(c),
{
    crate::text::to_upper_char(c)
}

fn to_lower_char_local(c: char) -> (r: char)
    ensures
        r == lower_char(c),
{
    crate::text::to_lower_char(c)
}

/// Renders a model id for display: split on `'-'`, short alphanumeric tokens
/// upper-cased, longer tokens capitalised, joined with spaces.
pub fn titleize_model_id(id: &str) -> (r: String)
    ensures
        r@ == titleize(id@),
{
    let n = id.unicode_len();
    let mut out = String::new();
    let mut start: usize = 0;
    let mut first: bool = true;
    proof {
        assert(id@.skip(0) =~= id@);
    }
    loop
        invariant_except_break
            n == id@.len(),
            start <= n,
            first ==> start == 0 && out@ =~= Seq::<char>::empty(),
            first ==> titleize(id@) == titleize(id@.skip(start as int)),
            !first ==> titleize(id@) == out@ + seq![' '] + titleize(id@.skip(start as int)),
        ensures
            out@ == titleize(id@),
        decreases n - start,
    {
        let ghost old_out = out@;
        let mut k: usize = start;
        while k < n && id.get_char(k) != '-'
            invariant
                n == id@.len(),
                start <= k <= n,
                forall|j: int| start <= j < k ==> id@[j] != '-',
            decreases n - k,
        {
            k = k + 1;
        }
        proof {
            let tail = id@.skip(start as int);
            assert forall|j: int| 0 <= j < k - start implies tail[j] != '-' by {
                assert(tail[j] == id@[start + j]);
            }
            if k < n {
                assert(tail[k - start] == id@[k as int]);
            }
            lemma_first_dash(tail, k - start);
        }
        let seg = id.substring_char(start, k);
        proof {
            assert(seg@ =~= id@.skip(start as int).take(k - start));
        }
        let rendered = render_token(seg);
        if !first {
            push_char(&mut out, ' ');
        }
        out.append(rendered.as_str());
        if k == n {
            proof {
                let tail = id@.skip(start as int);
                assert(first_dash(tail) == tail.len());
                assert(tail.take(k - start) =~= tail);
                assert(titleize(tail) == display_token(tail));
                if first {
                    assert(out@ =~= old_out + rendered@);
                    assert(out@ =~= titleize(id@));
                } else {
                    assert(out@ =~= old_out + seq![' '] + rendered@);
                    assert(out@ =~= titleize(id@));
                }
            }
            break;
        }
        proof {
            let tail = id@.skip(start as int);
            assert(first_dash(tail) == k - start);
            assert(k - start < tail.len());
            assert(titleize(tail) == display_token(tail.take(k - start)) + seq![' '] + titleize(
                tail.skip(k - start + 1),
            ));
            assert(tail.skip(k - start + 1) =~= id@.skip(k + 1));
            if first {
                assert(out@ =~= old_out + rendered@);
                assert(titleize(id@) == out@ + seq![' '] + titleize(id@.skip(k + 1)));
            } else {
                assert(out@ =~= old_out + seq![' '] + rendered@);
                assert(titleize(id@) == old_out + seq![' '] + titleize(tail));
                assert(titleize(id@) =~= out@ + seq![' '] + titleize(id@.skip(k + 1)));
            }
        }
        start = k + 1;
        first = false;
    }
    out
}

// ---------------------------------------------------------------------------
// timestamps
// ---------------------------------------------------------------------------

/// Truncated subtraction.
pub open spec fn monus(a: int, b: int) -> int {
    if a >= b {
        a - b
    } else {
        0
    }
}

/// Proleptic-Gregorian civil date for a day count from the Unix epoch:
/// `(year, month, day)`.
pub open spec fn civil_spec(days: nat) -> (int, int, int) {
    let z = days + 719468;
    let era = z / 146097;
    let doe = z % 146097;
    let num = monus(doe - doe / 1460 + doe / 36524, (doe / 146096) as int);
    let yoe = num / 365;
    let y = yoe + era * 400;
    let doy = monus(doe as int, 365 * yoe + yoe / 4 - yoe / 100);
    let mp = (5 * doy + 2) / 153;
    let d = monus(doy, (153 * mp + 2) / 5) + 1;
    let m = if mp < 10 {
        mp + 3
    } else {
        mp - 9
    };
    ((if m <= 2 {
        y + 1
    } else {
        y
    }), m, d)
}

/// Civil date for a non-negative day count.
pub fn civil_from_days(days: i64) -> (r: (i64, u32, u32))
    requires
        0 <= days <= 0x10_0000_0000_0000,
    ensures
        r.0 == civil_spec(days as nat).0,
        r.1 == civil_spec(days as nat).1,
        r.2 == civil_spec(days as nat).2,
{
    let du: u64 = days as u64;
    let z: u64 = du + 719468;
    let era: u64 = z / 146097;
    let doe: u64 = z % 146097;
    assert(doe < 146097);
    let a1: u64 = doe / 1460;
    let a2: u64 = doe / 36524;
    let a3: u64 = doe / 146096;
    assert(a1 <= doe && a2 <= doe && a3 <= doe);
    let s1: u64 = doe - a1 + a2;
    let num: u64 = if s1 >= a3 {
        s1 - a3
    } else {
        0
    };
    let yoe: u64 = num / 365;
    assert(yoe <= 401);
    let y: u64 = yoe + era * 400;
    let acc: u64 = 365 * yoe + yoe / 4 - yoe / 100;
    let doy: u64 = if doe >= acc {
        doe - acc
    } else {
        0
    };
    assert(doy < 146097);
    let mp: u64 = (5 * doy + 2) / 153;
    assert(mp <= 4775);
    let cut: u64 = (153 * mp + 2) / 5;
    let d: u64 = (if doy >= cut {
        doy - cut
    } else {
        0
    }) + 1;
    let m: u64 = if mp < 10 {
        mp + 3
    } else {
        mp - 9
    };
    let year: u64 = if m <= 2 {
        y + 1
    } else {
        y
    };
    (year as i64, m as u32, d as u32)
}

/// ISO-8601 rendering `YYYY-MM-DDTHH:MM:SSZ` of a non-negative Unix-seconds
/// value.
pub open spec fn iso8601_of(secs: nat) -> Seq<char> {
    let days = secs / 86400;
    let rem = secs % 86400;
    let c = civil_spec(days);
    zero_pad(dec_str(c.0 as nat), 4) + "-"@ + zero_pad(dec_str(c.1 as nat), 2) + "-"@ + zero_pad(
        dec_str(c.2 as nat),
        2,
    ) + "T"@ + zero_pad(dec_str((rem / 3600) as nat), 2) + ":"@ + zero_pad(
        dec_str(((rem % 3600) / 60) as nat),
        2,
    ) + ":"@ + zero_pad(dec_str((rem % 60) as nat), 2) + "Z"@
}

/// Renders a Unix-seconds timestamp as ISO-8601; negative timestamps are
/// rejected as invalid requests.
pub fn unix_to_iso8601(ts: i64) -> (r: Result<String, TranslateError>)
    ensures
        match r {
            Ok(s) => ts >= 0 && s@ == iso8601_of(ts as nat),
            Err(e) => ts < 0 && e.error_type@ == "invalid_request_error"@ && e.message@
                == "invalid created timestamp"@,
        },
{
    if ts < 0 {
        return Err(TranslateError::invalid_request("invalid created timestamp"));
    }
    let secs: u64 = ts as u64;
    let days: u64 = secs / 86400;
    let rem: u64 = secs % 86400;
    assert(days <= 0x10_0000_0000_0000);
    let c = civil_from_days(days as i64);
    assert(c.0 >= 0);
    let year = dec_u64_pad(c.0 as u64, 4);
    let month = dec_u64_pad(c.1 as u64, 2);
    let day = dec_u64_pad(c.2 as u64, 2);
    let hour = dec_u64_pad(rem / 3600, 2);
    let minute = dec_u64_pad((rem % 3600) / 60, 2);
    let second = dec_u64_pad(rem % 60, 2);
    let mut out = year;
    out.append("-");
    out.append(month.as_str());
    out.append("-");
    out.append(day.as_str());
    out.append("T");
    out.append(hour.as_str());
    out.append(":");
    out.append(minute.as_str());
    out.append(":");
    out.append(second.as_str());
    out.append("Z");
    Ok(out)
}

// ---------------------------------------------------------------------------
// model list
// ---------------------------------------------------------------------------

/// Does this Anthropic model entry render that OpenAI one under the display
/// map?
pub open spec fn model_entry_matches(
    r: AnthropicModel,
    m: OpenAIModel,
    display_map: Seq<(String, String)>,
) -> bool {
    &&& r.id@ == m.id@
    &&& r.model_type@ == "model"@
    &&& r.display_name@ == (match assoc_lookup(display_map, m.id@) {
        Some(d) => d,
        None => titleize(m.id@),
    })
    &&& r.created_at@ == (match m.created {
        Some(ts) => iso8601_of(ts as nat),
        None => "1970-01-01T00:00:00Z"@,
    })
}

/// The first invalid `created` timestamp in the list, if any.
pub open spec fn g_models_err(data: Seq<OpenAIModel>) -> Option<int>
    decreases data.len(),
{
    if data.len() == 0 {
        None
    } else if data[0].created matches Some(ts) && ts < 0 {
        Some(0)
    } else {
        match g_models_err(data.drop_first()) {
            Some(i) => Some(1 + i),
            None => None,
        }
    }
}

/// Converts an OpenAI model list to the Anthropic shape.  Display names come
/// from the display map, else from [`titleize`]; `created_at` renders the
/// Unix timestamp as ISO-8601, with the epoch for an absent one; a negative
/// timestamp is an invalid request.
pub fn openai_models_to_anthropic(
    resp: OpenAIModelsResponse,
    model_display_map: &Vec<(String, String)>,
) -> (r: Result<AnthropicModelsResponse, TranslateError>)
    ensures
        match r {
            Ok(out) => {
                &&& g_models_err(resp.data@) is None
                &&& out.data@.len() == resp.data@.len()
                &&& forall|i: int|
                    0 <= i < resp.data@.len() ==> model_entry_matches(
                        #[trigger] out.data@[i],
                        resp.data@[i],
                        model_display_map@,
                    )
            },
            Err(e) => {
                &&& g_models_err(resp.data@) is Some
                &&& e.error_type@ == "invalid_request_error"@
                &&& e.message@ == "invalid created timestamp"@
            },
        },
{
    let ghost all = resp.data@;
    let n = resp.data.len();
    let mut out: Vec<AnthropicModel> = Vec::new();
    let mut i: usize = 0;
    while i < n
        invariant
            n == all.len(),
            resp.data@ == all,
            i <= n,
            out@.len() == i,
            g_models_err(all.take(i as int)) is None,
            forall|j: int|
                0 <= j < i ==> model_entry_matches(
                    #[trigger] out@[j],
                    all[j],
                    model_display_map@,
                ),
        decreases n - i,
    {
        let m = &resp.data[i];
        let display_name = match crate::config::lookup(model_display_map, m.id.as_str()) {
            Some(d) => d,
            None => titleize_model_id(m.id.as_str()),
        };
        let created_at = match m.created {
            Some(ts) => {
                match unix_to_iso8601(ts) {
                    Ok(s) => s,
                    Err(e) => {
                        proof {
                            lemma_models_err_at(all, i as int);
                        }
                        return Err(e);
                    },
                }
            },
            None => copy_str("1970-01-01T00:00:00Z"),
        };
        out.push(
            AnthropicModel {
                id: m.id.clone(),
                model_type: copy_str("model"),
                display_name,
                created_at,
            },
        );
        i = i + 1;
        proof {
            lemma_models_err_take(all, i as int);
        }
    }
    proof {
        assert(all.take(n as int) =~= all);
    }
    Ok(AnthropicModelsResponse { data: out })
}

proof fn lemma_models_err_at(data: Seq<OpenAIModel>, i: int)
    requires
        0 <= i < data.len(),
        g_models_err(data.take(i)) is None,
        data[i].created matches Some(ts) && ts < 0,
    ensures
        g_models_err(data) is Some,
    decreases i,
{
    if i == 0 {
    } else {
        assert(data.take(i).len() > 0);
        assert(data.take(i)[0] == data[0]);
        assert(!(data[0].created matches Some(ts) && ts < 0));
        assert(data.take(i).drop_first() =~= data.drop_first().take(i - 1));
        lemma_models_err_at(data.drop_first(), i - 1);
    }
}

// ---------------------------------------------------------------------------
// request translation
// ---------------------------------------------------------------------------

/// The buffered thinking text, or empty if none was buffered.
pub open spec fn thinking_or_empty(t: Option<Seq<char>>) -> Seq<char> {
    match t {
        Some(s) => s,
        None => Seq::empty(),
    }
}

/// Flushing the accumulated content parts: none leave the messages as they
/// are; exactly one text part collapses to a bare string; anything else
/// becomes a part list.  Assistant messages carry the buffered thinking text
/// when a reasoning effort is in force.
pub open spec fn g_flush(
    msgs: Seq<GMessage>,
    parts: Seq<GPart>,
    role: Seq<char>,
    thinking: Option<Seq<char>>,
    include_reasoning: bool,
) -> Seq<GMessage> {
    if parts.len() == 0 {
        msgs
    } else {
        let content = if parts.len() == 1 {
            match parts[0] {
                GPart::GPartText(t) => GContent::GText(t),
                GPart::GPartImage(_) => GContent::GParts(parts),
            }
        } else {
            GContent::GParts(parts)
        };
        let reasoning = if include_reasoning && role == "assistant"@ {
            Some(thinking_or_empty(thinking))
        } else {
            None
        };
        msgs.push(
            GMessage { role, content, tool_calls: None, tool_call_id: None, reasoning },
        )
    }
}

/// May a tool call be appended to this message?  Only to an assistant
/// message that already carries tool calls and no content.
pub open spec fn g_can_merge(last: GMessage) -> bool {
    last.role == "assistant"@ && last.tool_calls is Some && last.content is GNone
}

/// The last message with one more tool call appended; its reasoning is set
/// from the buffer only if it had none.
pub open spec fn g_merge_tool_call(last: GMessage, call: GToolCall, th: Option<Seq<char>>)
    -> GMessage {
    GMessage {
        role: last.role,
        content: last.content,
        tool_calls: match last.tool_calls {
            Some(cs) => Some(cs.push(call)),
            None => Some(seq![call]),
        },
        tool_call_id: last.tool_call_id,
        reasoning: match last.reasoning {
            None => th,
            Some(r0) => Some(r0),
        },
    }
}

/// The block-list conversion fold: accumulated messages, pending content
/// parts and the thinking buffer evolve block by block.
pub open spec fn g_convert_blocks(
    role: Seq<char>,
    blocks: Seq<AnthropicContentBlock>,
    policy: DocumentPolicy,
    allow_images: bool,
    include_reasoning: bool,
    msgs: Seq<GMessage>,
    parts: Seq<GPart>,
    thinking: Option<Seq<char>>,
) -> Result<Seq<GMessage>, GError>
    decreases blocks.len(),
{
    if blocks.len() == 0 {
        Ok(g_flush(msgs, parts, role, thinking, include_reasoning))
    } else {
        let rest = blocks.drop_first();
        match blocks[0] {
            AnthropicContentBlock::Text { text, .. } => g_convert_blocks(
                role,
                rest,
                policy,
                allow_images,
                include_reasoning,
                msgs,
                parts.push(GPart::GPartText(text@)),
                thinking,
            ),
            AnthropicContentBlock::Image { source } => {
                if !allow_images {
                    Err(g_invalid("image content not allowed"@))
                } else {
                    match source.media_type {
                        None => Err(g_invalid("image media_type missing"@)),
                        Some(mt) => match source.data {
                            None => Err(g_invalid("image data missing"@)),
                            Some(d) => g_convert_blocks(
                                role,
                                rest,
                                policy,
                                allow_images,
                                include_reasoning,
                                msgs,
                                parts.push(
                                    GPart::GPartImage("data:"@ + mt@ + ";base64,"@ + d@),
                                ),
                                thinking,
                            ),
                        },
                    }
                }
            },
            AnthropicContentBlock::Document { .. } => match policy {
                DocumentPolicy::Reject => Err(g_invalid("document content not supported"@)),
                DocumentPolicy::Strip => g_convert_blocks(
                    role,
                    rest,
                    policy,
                    allow_images,
                    include_reasoning,
                    msgs,
                    parts,
                    thinking,
                ),
                DocumentPolicy::TextOnly => g_convert_blocks(
                    role,
                    rest,
                    policy,
                    allow_images,
                    include_reasoning,
                    msgs,
                    parts.push(GPart::GPartText("[document omitted]"@)),
                    thinking,
                ),
            },
            AnthropicContentBlock::ToolResult { tool_use_id, content, .. } => {
                let flushed = g_flush(msgs, parts, role, thinking, include_reasoning);
                let text = match content {
                    ToolResultContent::Text(s) => s@,
                    ToolResultContent::Json(j) => j@,
                };
                g_convert_blocks(
                    role,
                    rest,
                    policy,
                    allow_images,
                    include_reasoning,
                    flushed.push(
                        GMessage {
                            role: "tool"@,
                            content: GContent::GText(text),
                            tool_calls: None,
                            tool_call_id: Some(tool_use_id@),
                            reasoning: None,
                        },
                    ),
                    Seq::empty(),
                    thinking,
                )
            },
            AnthropicContentBlock::ToolUse { id, name, input } => {
                let flushed = g_flush(msgs, parts, role, thinking, include_reasoning);
                if role != "assistant"@ {
                    Err(g_invalid("tool_use must be in assistant role"@))
                } else {
                    let call = GToolCall {
                        id: id@,
                        call_type: "function"@,
                        name: name@,
                        arguments: input@,
                    };
                    let th = Some(thinking_or_empty(thinking));
                    if flushed.len() > 0 && g_can_merge(flushed.last()) {
                        g_convert_blocks(
                            role,
                            rest,
                            policy,
                            allow_images,
                            include_reasoning,
                            flushed.update(
                                flushed.len() - 1,
                                g_merge_tool_call(flushed.last(), call, th),
                            ),
                            Seq::empty(),
                            thinking,
                        )
                    } else {
                        g_convert_blocks(
                            role,
                            rest,
                            policy,
                            allow_images,
                            include_reasoning,
                            flushed.push(
                                GMessage {
                                    role: "assistant"@,
                                    content: GContent::GNone,
                                    tool_calls: Some(seq![call]),
                                    tool_call_id: None,
                                    reasoning: th,
                                },
                            ),
                            Seq::empty(),
                            thinking,
                        )
                    }
                }
            },
            AnthropicContentBlock::Thinking { thinking: t, .. } => g_convert_blocks(
                role,
                rest,
                policy,
                allow_images,
                include_reasoning,
                msgs,
                parts,
                Some(t@),
            ),
            AnthropicContentBlock::RedactedThinking { .. } => g_convert_blocks(
                role,
                rest,
                policy,
                allow_images,
                include_reasoning,
                msgs,
                parts,
                Some(Seq::empty()),
            ),
        }
    }
}

/// The OpenAI messages one Anthropic message converts to.
pub open spec fn g_convert_message(
    role: Seq<char>,
    content: AnthropicContent,
    policy_name: Seq<char>,
    allow_images: bool,
    include_reasoning: bool,
) -> Result<Seq<GMessage>, GError> {
    match content {
        AnthropicContent::Text(s) => Ok(
            seq![
                GMessage {
                    role,
                    content: GContent::GText(s@),
                    tool_calls: None,
                    tool_call_id: None,
                    reasoning: if include_reasoning && role == "assistant"@ {
                        Some(Seq::empty())
                    } else {
                        None
                    },
                },
            ],
        ),
        AnthropicContent::Blocks(bs) => match policy_of(policy_name) {
            None => Err(g_invalid("DOCUMENT_POLICY invalid: "@ + policy_name)),
            Some(p) => g_convert_blocks(
                role,
                bs@,
                p,
                allow_images,
                include_reasoning,
                Seq::empty(),
                Seq::empty(),
                None,
            ),
        },
    }
}

/// The OpenAI messages a whole message list converts to; a role other than
/// `user` or `assistant` is rejected.
pub open spec fn g_request_messages(
    msgs: Seq<AnthropicMessage>,
    policy_name: Seq<char>,
    allow_images: bool,
    include_reasoning: bool,
) -> Result<Seq<GMessage>, GError>
    decreases msgs.len(),
{
    if msgs.len() == 0 {
        Ok(Seq::empty())
    } else if msgs[0].role@ != "user"@ && msgs[0].role@ != "assistant"@ {
        Err(g_invalid("messages: Unexpected role \""@ + msgs[0].role@ + "\""@))
    } else {
        match g_convert_message(
            msgs[0].role@,
            msgs[0].content,
            policy_name,
            allow_images,
            include_reasoning,
        ) {
            Err(e) => Err(e),
            Ok(ms) => match g_request_messages(
                msgs.drop_first(),
                policy_name,
                allow_images,
                include_reasoning,
            ) {
                Err(e) => Err(e),
                Ok(rest) => Ok(ms + rest),
            },
        }
    }
}

/// The full OpenAI message list of a request: a system message (when the
/// system prompt is non-empty) followed by the converted messages.
pub open spec fn g_all_messages(req: AnthropicRequest, cfg: Config) -> Result<
    Seq<GMessage>,
    GError,
> {
    let reasoning_on = g_include_reasoning(req.thinking, cfg.models.thinking_map@);
    let sys = match req.system {
        None => Ok(Seq::<GMessage>::empty()),
        Some(s) => match g_system_text(s) {
            Err(e) => Err(e),
            Ok(t) => Ok(
                if t.len() == 0 {
                    Seq::<GMessage>::empty()
                } else {
                    seq![
                        GMessage {
                            role: "system"@,
                            content: GContent::GText(t),
                            tool_calls: None,
                            tool_call_id: None,
                            reasoning: None,
                        },
                    ]
                },
            ),
        },
    };
    match sys {
        Err(e) => Err(e),
        Ok(sm) => match g_request_messages(
            req.messages@,
            cfg.models.document_policy@,
            cfg.models.allow_images,
            reasoning_on,
        ) {
            Err(e) => Err(e),
            Ok(ms) => Ok(sm + ms),
        },
    }
}

/// Flushes the accumulated content parts into one message, as
/// [`g_flush`] describes.
fn flush_parts(
    messages: &mut Vec<OpenAIMessage>,
    parts: Vec<OpenAIContentPart>,
    role: &str,
    thinking: &Option<String>,
    include_reasoning: bool,
)
    ensures
        msgs_view(final(messages)@) == g_flush(
            msgs_view(old(messages)@),
            parts_view(parts@),
            role@,
            opt_view(*thinking),
            include_reasoning,
        ),
{
    let ghost old_view = msgs_view(messages@);
    let ghost gparts = parts_view(parts@);
    if parts.len() == 0 {
        return ;
    }
    let mut parts = parts;
    let content = if parts.len() == 1 {
        let p = parts.pop().unwrap();
        match p {
            OpenAIContentPart::Text { text } => {
                proof {
                    assert(gparts[0] == GPart::GPartText(text@));
                }
                OpenAIMessageContent::Text(text)
            },
            other => {
                let mut v: Vec<OpenAIContentPart> = Vec::new();
                v.push(other);
                proof {
                    assert(parts_view(v@) =~= gparts);
                }
                OpenAIMessageContent::Parts(v)
            },
        }
    } else {
        OpenAIMessageContent::Parts(parts)
    };
    let reasoning_content = if include_reasoning && str_eq(role, "assistant") {
        Some(
            match thinking {
                Some(t) => t.clone(),
                None => String::new(),
            },
        )
    } else {
        None
    };
    messages.push(
        OpenAIMessage {
            role: copy_str(role),
            content: Some(content),
            tool_calls: None,
            tool_call_id: None,
            reasoning_content,
        },
    );
    proof {
        assert(msgs_view(messages@) =~= old_view.push(view_msg(messages@.last())));
        assert(msgs_view(messages@) =~= g_flush(
            old_view,
            gparts,
            role@,
            opt_view(*thinking),
            include_reasoning,
        ));
    }
}

/// Converts one Anthropic message to its OpenAI messages, as
/// [`g_convert_message`] describes.
fn convert_message(
    role: String,
    content: AnthropicContent,
    config: &Config,
    include_reasoning: bool,
) -> (r: Result<Vec<OpenAIMessage>, TranslateError>)
    ensures
        match r {
            Ok(ms) => g_convert_message(
                role@,
                content,
                config.models.document_policy@,
                config.models.allow_images,
                include_reasoning,
            ) matches Ok(gm) && gm == msgs_view(ms@),
            Err(e) => g_convert_message(
                role@,
                content,
                config.models.document_policy@,
                config.models.allow_images,
                include_reasoning,
            ) matches Err(ge) && ge.kind == e.error_type@ && ge.message == e.message@,
        },
{
    let ghost pol_name = config.models.document_policy@;
    let ghost allow = config.models.allow_images;
    match content {
        AnthropicContent::Text(s) => {
            let reasoning_content = if include_reasoning && str_eq(role.as_str(), "assistant") {
                Some(String::new())
            } else {
                None
            };
            let mut ms: Vec<OpenAIMessage> = Vec::new();
            ms.push(
                OpenAIMessage {
                    role,
                    content: Some(OpenAIMessageContent::Text(s)),
                    tool_calls: None,
                    tool_call_id: None,
                    reasoning_content,
                },
            );
            proof {
                assert(msgs_view(ms@) =~= seq![view_msg(ms@[0])]);
            }
            Ok(ms)
        },
        AnthropicContent::Blocks(blocks) => {
            let policy = match config.document_policy() {
                Ok(p) => p,
                Err(m) => {
                    return Err(TranslateError::invalid_request(m.as_str()));
                },
            };
            let ghost all = blocks@;
            let ghost whole = g_convert_blocks(
                role@,
                all,
                policy,
                allow,
                include_reasoning,
                Seq::empty(),
                Seq::empty(),
                None,
            );
            proof {
                assert(all.skip(0) =~= all);
                assert(msgs_view(Seq::empty()) =~= Seq::<GMessage>::empty());
                assert(parts_view(Seq::empty()) =~= Seq::<GPart>::empty());
            }
            let n = blocks.len();
            let mut messages: Vec<OpenAIMessage> = Vec::new();
            let mut parts: Vec<OpenAIContentPart> = Vec::new();
            let mut thinking: Option<String> = None;
            let mut i: usize = 0;
            while i < n
                invariant
                    n == all.len(),
                    blocks@ == all,
                    i <= n,
                    config.models.allow_images == allow,
                    config.models.document_policy@ == pol_name,
                    policy_of(pol_name) == Some(policy),
                    g_convert_message(role@, content, pol_name, allow, include_reasoning)
                        == whole,
                    whole == g_convert_blocks(
                        role@,
                        all.skip(i as int),
                        policy,
                        allow,
                        include_reasoning,
                        msgs_view(messages@),
                        parts_view(parts@),
                        opt_view(thinking),
                    ),
                decreases n - i,
            {
                proof {
                    assert(all.skip(i as int)[0] == all[i as int]);
                    assert(all.skip(i as int).drop_first() =~= all.skip(i + 1));
                }
                let ghost pre_msgs = msgs_view(messages@);
                let ghost pre_parts = parts_view(parts@);
                let ghost pre_th = opt_view(thinking);
                let b = &blocks[i];
                match b {
                    AnthropicContentBlock::Text { text, .. } => {
                        parts.push(OpenAIContentPart::Text { text: text.clone() });
                        proof {
                            assert(parts_view(parts@) =~= pre_parts.push(
                                GPart::GPartText(text@),
                            ));
                        }
                    },
                    AnthropicContentBlock::Image { source } => {
                        if !config.models.allow_images {
                            return Err(
                                TranslateError::invalid_request("image content not allowed"),
                            );
                        }
                        let media_type = match &source.media_type {
                            Some(mt) => mt,
                            None => {
                                return Err(
                                    TranslateError::invalid_request("image media_type missing"),
                                );
                            },
                        };
                        let data = match &source.data {
                            Some(d) => d,
                            None => {
                                return Err(
                                    TranslateError::invalid_request("image data missing"),
                                );
                            },
                        };
                        let url = crate::text::concat4(
                            "data:",
                            media_type.as_str(),
                            ";base64,",
                            data.as_str(),
                        );
                        parts.push(
                            OpenAIContentPart::ImageUrl {
                                image_url: OpenAIImageUrl { url, detail: None },
                            },
                        );
                        proof {
                            assert(parts_view(parts@) =~= pre_parts.push(
                                GPart::GPartImage(
                                    "data:"@ + media_type@ + ";base64,"@ + data@,
                                ),
                            ));
                        }
                    },
                    AnthropicContentBlock::Document { .. } => {
                        match policy {
                            DocumentPolicy::Reject => {
                                return Err(
                                    TranslateError::invalid_request(
                                        "document content not supported",
                                    ),
                                );
                            },
                            DocumentPolicy::Strip => {},
                            DocumentPolicy::TextOnly => {
                                parts.push(
                                    OpenAIContentPart::Text {
                                        text: copy_str("[document omitted]"),
                                    },
                                );
                                proof {
                                    assert(parts_view(parts@) =~= pre_parts.push(
                                        GPart::GPartText("[document omitted]"@),
                                    ));
                                }
                            },
                        }
                    },
                    AnthropicContentBlock::ToolResult { tool_use_id, content: tr, .. } => {
                        let taken = parts;
                        parts = Vec::new();
                        flush_parts(&mut messages, taken, role.as_str(), &thinking,
                            include_reasoning);
                        let text = match tr {
                            ToolResultContent::Text(s) => s.clone(),
                            ToolResultContent::Json(j) => j.clone(),
                        };
                        messages.push(
                            OpenAIMessage {
                                role: copy_str("tool"),
                                content: Some(OpenAIMessageContent::Text(text)),
                                tool_calls: None,
                                tool_call_id: Some(tool_use_id.clone()),
                                reasoning_content: None,
                            },
                        );
                        proof {
                            let flushed = g_flush(
                                pre_msgs,
                                pre_parts,
                                role@,
                                pre_th,
                                include_reasoning,
                            );
                            assert(msgs_view(messages@) =~= flushed.push(
                                view_msg(messages@.last()),
                            ));
                            assert(parts_view(parts@) =~= Seq::<GPart>::empty());
                        }
                    },
                    AnthropicContentBlock::ToolUse { id, name, input } => {
                        let taken = parts;
                        parts = Vec::new();
                        flush_parts(&mut messages, taken, role.as_str(), &thinking,
                            include_reasoning);
                        if !str_eq(role.as_str(), "assistant") {
                            return Err(
                                TranslateError::invalid_request(
                                    "tool_use must be in assistant role",
                                ),
                            );
                        }
                        let call = OpenAIToolCall {
                            id: id.clone(),
                            call_type: copy_str("function"),
                            function: OpenAIToolCallFunction {
                                name: name.clone(),
                                arguments: input.clone(),
                            },
                        };
                        let th_text = match &thinking {
                            Some(t) => t.clone(),
                            None => String::new(),
                        };
                        let ghost gcall = view_tool_call(call);
                        let ghost flushed = g_flush(
                            pre_msgs,
                            pre_parts,
                            role@,
                            pre_th,
                            include_reasoning,
                        );
                        let n_msgs = messages.len();
                        let can_merge = if n_msgs > 0 {
                            let last_ref = &messages[n_msgs - 1];
                            str_eq(last_ref.role.as_str(), "assistant")
                                && last_ref.tool_calls.is_some() && last_ref.content.is_none()
                        } else {
                            false
                        };
                        proof {
                            assert(can_merge == (flushed.len() > 0 && g_can_merge(
                                flushed.last(),
                            )));
                        }
                        if can_merge {
                            let mut last = messages.pop().unwrap();
                            let ghost lastg = view_msg(last);
                            let mut tc = last.tool_calls.take().unwrap();
                            let ghost old_tc = tc@;
                            tc.push(call);
                            last.tool_calls = Some(tc);
                            if last.reasoning_content.is_none() {
                                last.reasoning_content = Some(th_text);
                            }
                            messages.push(last);
                            proof {
                                let merged = g_merge_tool_call(
                                    lastg,
                                    gcall,
                                    Some(thinking_or_empty(pre_th)),
                                );
                                assert(calls_view(old_tc.push(call)) =~= calls_view(
                                    old_tc,
                                ).push(gcall));
                                assert(view_msg(messages@.last()) == merged);
                                assert(lastg == flushed.last());
                                assert(msgs_view(messages@) =~= flushed.update(
                                    flushed.len() - 1,
                                    merged,
                                ));
                            }
                        } else {
                            let mut tcs: Vec<OpenAIToolCall> = Vec::new();
                            tcs.push(call);
                            proof {
                                assert(calls_view(tcs@) =~= seq![gcall]);
                            }
                            messages.push(
                                OpenAIMessage {
                                    role: copy_str("assistant"),
                                    content: None,
                                    tool_calls: Some(tcs),
                                    tool_call_id: None,
                                    reasoning_content: Some(th_text),
                                },
                            );
                            proof {
                                assert(view_msg(messages@.last()) == GMessage {
                                    role: "assistant"@,
                                    content: GContent::GNone,
                                    tool_calls: Some(seq![gcall]),
                                    tool_call_id: None,
                                    reasoning: Some(thinking_or_empty(pre_th)),
                                });
                                assert(msgs_view(messages@) =~= flushed.push(
                                    view_msg(messages@.last()),
                                ));
                            }
                        }
                        proof {
                            assert(parts_view(parts@) =~= Seq::<GPart>::empty());
                        }
                    },
                    AnthropicContentBlock::Thinking { thinking: t, .. } => {
                        thinking = Some(t.clone());
                    },
                    AnthropicContentBlock::RedactedThinking { .. } => {
                        thinking = Some(String::new());
                    },
                }
                i = i + 1;
            }
            proof {
                assert(all.skip(n as int) =~= Seq::<AnthropicContentBlock>::empty());
            }
            let taken = parts;
            flush_parts(&mut messages, taken, role.as_str(), &thinking, include_reasoning);
            Ok(messages)
        },
    }
}

/// Translates an Anthropic request to an OpenAI request.  Messages convert
/// as [`g_all_messages`] describes; model, token limit, sampling controls
/// and the stream flag pass through; tools, tool choice and output format
/// map structurally; the reasoning effort follows the thinking budget.
pub fn anthropic_to_openai(req: AnthropicRequest, config: &Config) -> (r: Result<
    OpenAIRequest,
    TranslateError,
>)
    ensures
        match r {
            Ok(out) => {
                &&& g_all_messages(req, *config) matches Ok(gm) && msgs_view(out.messages@)
                    == gm
                &&& out.model == req.model
                &&& out.max_completion_tokens == req.max_tokens
                &&& out.temperature == req.temperature
                &&& out.top_p == req.top_p
                &&& out.stop == req.stop_sequences
                &&& out.stream == req.stream
                &&& match req.tools {
                    None => out.tools is None,
                    Some(ts) => out.tools matches Some(os) && os@.len() == ts@.len() && (
                    forall|i: int|
                        0 <= i < ts@.len() ==> tool_matches(#[trigger] os@[i], ts@[i])),
                }
                &&& match req.tool_choice {
                    None => out.tool_choice is None,
                    Some(c) => out.tool_choice matches Some(oc) && tool_choice_matches(oc, c),
                }
                &&& match req.output_format {
                    None => out.response_format is None,
                    Some(f) => out.response_format matches Some(of) && output_format_matches(
                        of,
                        f,
                        config.models.output_strict,
                    ),
                }
                &&& match req.thinking {
                    None => out.reasoning_effort is None,
                    Some(t) => match t.budget_tokens {
                        None => out.reasoning_effort is None,
                        Some(b) => match out.reasoning_effort {
                            Some(e) => effort_chosen(config.models.thinking_map@, b, e@)
                                && some_threshold_le(config.models.thinking_map@, b),
                            None => !some_threshold_le(config.models.thinking_map@, b),
                        },
                    },
                }
                &&& match req.stream {
                    None => out.stream_options is None,
                    Some(b) => out.stream_options matches Some(so) && so.include_usage == b,
                }
            },
            Err(e) => g_all_messages(req, *config) matches Err(ge) && ge.kind == e.error_type@
                && ge.message == e.message@,
        },
{
    let AnthropicRequest {
        model,
        max_tokens,
        messages: in_messages,
        system,
        temperature,
        top_p,
        top_k: _,
        stop_sequences,
        stream,
        tools: in_tools,
        tool_choice: in_tool_choice,
        output_format,
        thinking,
    } = req;
    let reasoning_effort = match &thinking {
        Some(t) => map_reasoning_effort(t, config),
        None => None,
    };
    let include_reasoning = reasoning_effort.is_some();
    proof {
        assert(include_reasoning == g_include_reasoning(
            req.thinking,
            config.models.thinking_map@,
        ));
    }
    let mut messages: Vec<OpenAIMessage> = Vec::new();
    match system {
        Some(sys) => {
            let ghost gsys = sys;
            let system_text = match extract_system_text(sys) {
                Ok(t) => t,
                Err(e) => {
                    return Err(e);
                },
            };
            if system_text.unicode_len() > 0 {
                messages.push(
                    OpenAIMessage {
                        role: copy_str("system"),
                        content: Some(OpenAIMessageContent::Text(system_text)),
                        tool_calls: None,
                        tool_call_id: None,
                        reasoning_content: None,
                    },
                );
                proof {
                    assert(msgs_view(messages@) =~= seq![view_msg(messages@[0])]);
                }
            } else {
                proof {
                    assert(msgs_view(messages@) =~= Seq::<GMessage>::empty());
                }
            }
        },
        None => {
            proof {
                assert(msgs_view(messages@) =~= Seq::<GMessage>::empty());
            }
        },
    }
    let ghost sys_view = msgs_view(messages@);
    let ghost all = in_messages@;
    let ghost pol_name = config.models.document_policy@;
    let ghost allow = config.models.allow_images;
    proof {
        assert(all.skip(0) =~= all);
        assert(msgs_view(messages@).skip(sys_view.len() as int) =~= Seq::<GMessage>::empty());
        assert(msgs_view(messages@).take(sys_view.len() as int) =~= sys_view);
        assert(g_all_messages(req, *config) == (match g_request_messages(
            all,
            pol_name,
            allow,
            include_reasoning,
        ) {
            Err(e) => Err::<Seq<GMessage>, GError>(e),
            Ok(ms) => Ok::<Seq<GMessage>, GError>(sys_view + ms),
        }));
    }
    let n = in_messages.len();
    let mut rest = in_messages;
    let mut i: usize = 0;
    while i < n
        invariant
            n == all.len(),
            rest@ =~= all.skip(i as int),
            i <= n,
            config.models.document_policy@ == pol_name,
            config.models.allow_images == allow,
            g_all_messages(req, *config) == (match g_request_messages(
                all,
                pol_name,
                allow,
                include_reasoning,
            ) {
                Err(e) => Err::<Seq<GMessage>, GError>(e),
                Ok(ms) => Ok::<Seq<GMessage>, GError>(sys_view + ms),
            }),
            msgs_view(messages@).len() >= sys_view.len(),
            msgs_view(messages@).take(sys_view.len() as int) == sys_view,
            g_request_messages(all, pol_name, allow, include_reasoning) matches Ok(t)
                ==> g_request_messages(all.skip(i as int), pol_name, allow, include_reasoning)
                matches Ok(t2) && t == msgs_view(messages@).skip(sys_view.len() as int) + t2,
            g_request_messages(all, pol_name, allow, include_reasoning) matches Err(e)
                ==> g_request_messages(all.skip(i as int), pol_name, allow, include_reasoning)
                matches Err(e2) && e == e2,
        decreases n - i,
    {
        proof {
            assert(all.skip(i as int)[0] == all[i as int]);
            assert(all.skip(i as int).drop_first() =~= all.skip(i + 1));
        }
        let ghost pre = msgs_view(messages@);
        let m = rest.remove(0);
        proof {
            assert(m == all[i as int]);
            assert(rest@ =~= all.skip(i + 1));
        }
        let AnthropicMessage { role: mrole, content: mcontent } = m;
        if !(str_eq(mrole.as_str(), "user") || str_eq(mrole.as_str(), "assistant")) {
            let quoted = crate::text::concat3(
                "messages: Unexpected role \"",
                mrole.as_str(),
                "\"",
            );
            proof {
                let w = g_request_messages(all, pol_name, allow, include_reasoning);
                if w is Ok {
                    assert(false);
                }
            }
            return Err(TranslateError::invalid_request(quoted.as_str()));
        }
        let converted = match convert_message(mrole, mcontent, config, include_reasoning) {
            Ok(ms) => ms,
            Err(e) => {
                proof {
                    let w = g_request_messages(all, pol_name, allow, include_reasoning);
                    if w is Ok {
                        assert(false);
                    }
                }
                return Err(e);
            },
        };
        let ghost conv_view = msgs_view(converted@);
        let mut converted = converted;
        messages.append(&mut converted);
        i = i + 1;
        proof {
            assert(msgs_view(messages@) =~= pre + conv_view);
            assert(msgs_view(messages@).take(sys_view.len() as int) =~= pre.take(
                sys_view.len() as int,
            ));
            assert(msgs_view(messages@).skip(sys_view.len() as int) =~= pre.skip(
                sys_view.len() as int,
            ) + conv_view);
        }
    }
    proof {
        assert(all.skip(n as int) =~= Seq::<AnthropicMessage>::empty());
    }
    let tools = match in_tools {
        Some(ts) => Some(anthropic_tools_to_openai_tools(ts)),
        None => None,
    };
    let tool_choice = match in_tool_choice {
        Some(c) => Some(anthropic_tool_choice_to_openai(c)),
        None => None,
    };
    let response_format = match output_format {
        Some(f) => Some(anthropic_output_format_to_openai(f, config.models.output_strict)),
        None => None,
    };
    let stream_options = match stream {
        Some(s) => Some(OpenAIStreamOptions { include_usage: s }),
        None => None,
    };
    proof {
        let w2 = g_request_messages(all, pol_name, allow, include_reasoning);
        if w2 is Err {
            assert(false);
        }
        assert(w2 matches Ok(t) && t =~= msgs_view(messages@).skip(sys_view.len() as int));
        assert(sys_view + msgs_view(messages@).skip(sys_view.len() as int) =~= msgs_view(
            messages@,
        ));
        let w = g_all_messages(req, *config);
        assert(w matches Ok(gm) && gm =~= msgs_view(messages@));
    }
    Ok(
        OpenAIRequest {
            model,
            messages,
            max_completion_tokens: max_tokens,
            temperature,
            top_p,
            stop: stop_sequences,
            stream,
            tools,
            tool_choice,
            response_format,
            reasoning_effort,
            stream_options,
        },
    )
}

// ---------------------------------------------------------------------------
// response translation
// ---------------------------------------------------------------------------

/// The `tool_use` blocks of a response's tool calls; arguments that do not
/// parse as JSON are an error.
pub open spec fn g_tool_blocks(calls: Seq<OpenAIToolCall>) -> Result<Seq<GBlock>, GError>
    decreases calls.len(),
{
    if calls.len() == 0 {
        Ok(Seq::empty())
    } else if !parses_as_json(calls[0].function.arguments@) {
        Err(g_api("invalid tool call arguments"@))
    } else {
        match g_tool_blocks(calls.drop_first()) {
            Err(e) => Err(e),
            Ok(rest) => Ok(
                seq![
                    GBlock::GToolUse {
                        id: calls[0].id@,
                        name: calls[0].function.name@,
                        input: calls[0].function.arguments@,
                    },
                ] + rest,
            ),
        }
    }
}

/// The thinking block of a response's reasoning content, if any: an object
/// of the expected shape yields its fields, a bare string yields an `auto`
/// signature, everything else yields nothing.
pub open spec fn g_reasoning_blocks(rc: Option<OpenAIReasoning>) -> Seq<GBlock> {
    match rc {
        None => Seq::empty(),
        Some(OpenAIReasoning::Structured(s)) => seq![
            GBlock::GThinking { thinking: s.thinking@, signature: s.signature@ },
        ],
        Some(OpenAIReasoning::Plain(t)) => seq![
            GBlock::GThinking { thinking: t@, signature: "auto"@ },
        ],
        Some(OpenAIReasoning::Opaque) => Seq::empty(),
    }
}

/// The content blocks of a translated response, in fixed order: reasoning,
/// tool uses, then the text; an empty result is an error.
pub open spec fn g_response_blocks(msg: OpenAIChoiceMessage) -> Result<Seq<GBlock>, GError> {
    let rb = g_reasoning_blocks(msg.reasoning_content);
    let tb = match msg.tool_calls {
        None => Ok(Seq::<GBlock>::empty()),
        Some(cs) => g_tool_blocks(cs@),
    };
    match tb {
        Err(e) => Err(e),
        Ok(t) => {
            let cb = match msg.content {
                None => Seq::<GBlock>::empty(),
                Some(c) => seq![GBlock::GText { text: c@, cache_control: None }],
            };
            if rb.len() + t.len() + cb.len() == 0 {
                Err(g_api("missing assistant content"@))
            } else {
                Ok(rb + t + cb)
            }
        },
    }
}

/// Does the Anthropic usage reflect the optional OpenAI usage?  Cache fields
/// are always zero; an absent usage maps to all zeros.
pub open spec fn usage_matches(u: AnthropicUsage, o: Option<OpenAIUsage>) -> bool {
    match o {
        Some(x) => u.input_tokens == x.prompt_tokens && u.output_tokens == x.completion_tokens
            && u.cache_creation_input_tokens == 0 && u.cache_read_input_tokens == 0,
        None => u.input_tokens == 0 && u.output_tokens == 0 && u.cache_creation_input_tokens
            == 0 && u.cache_read_input_tokens == 0,
    }
}

/// Returns all-zero usage.
pub fn usage_zero() -> (r: AnthropicUsage)
    ensures
        r.input_tokens == 0,
        r.output_tokens == 0,
        r.cache_creation_input_tokens == 0,
        r.cache_read_input_tokens == 0,
{
    AnthropicUsage {
        input_tokens: 0,
        output_tokens: 0,
        cache_creation_input_tokens: 0,
        cache_read_input_tokens: 0,
    }
}

/// Translates an OpenAI response to an Anthropic response.  The first
/// choice's blocks come out as [`g_response_blocks`] describes; the stop
/// reason follows the finish-reason mapping; usage is copied with zero cache
/// fields.
pub fn openai_to_anthropic(resp: OpenAIResponse) -> (r: Result<
    AnthropicResponse,
    TranslateError,
>)
    ensures
        match r {
            Ok(out) => {
                &&& resp.choices@.len() > 0
                &&& g_response_blocks(resp.choices@[0].message) matches Ok(gb) && blocks_view(
                    out.content@,
                ) == gb
                &&& out.id == resp.id
                &&& out.response_type@ == "message"@
                &&& out.role@ == "assistant"@
                &&& out.model == resp.model
                &&& out.stop_reason@ == finish_opt_to_stop(
                    opt_view(resp.choices@[0].finish_reason),
                )
                &&& out.stop_sequence is None
                &&& usage_matches(out.usage, resp.usage)
            },
            Err(e) => {
                &&& e.error_type@ == "api_error"@
                &&& resp.choices@.len() == 0 ==> e.message@ == "missing choices in response"@
                &&& resp.choices@.len() > 0 ==> (g_response_blocks(resp.choices@[0].message)
                    matches Err(ge) && ge.kind == e.error_type@ && ge.message == e.message@)
            },
        },
{
    let OpenAIResponse { id, model, choices, usage } = resp;
    if choices.len() == 0 {
        return Err(TranslateError::api_error("missing choices in response"));
    }
    let mut choices = choices;
    let choice = choices.remove(0);
    let ghost gmsg = resp.choices@[0].message;
    let OpenAIChoice { message, finish_reason } = choice;
    let OpenAIChoiceMessage { role: _, content, tool_calls, reasoning_content } = message;
    let mut blocks: Vec<AnthropicContentBlock> = Vec::new();
    match reasoning_content {
        Some(OpenAIReasoning::Structured(s)) => {
            blocks.push(
                AnthropicContentBlock::Thinking {
                    thinking: s.thinking,
                    signature: s.signature,
                },
            );
        },
        Some(OpenAIReasoning::Plain(t)) => {
            blocks.push(
                AnthropicContentBlock::Thinking { thinking: t, signature: copy_str("auto") },
            );
        },
        Some(OpenAIReasoning::Opaque) => {},
        None => {},
    }
    let ghost rb = g_reasoning_blocks(gmsg.reasoning_content);
    let ghost mut done: Seq<GBlock> = Seq::empty();
    proof {
        assert(blocks_view(blocks@) =~= rb);
        assert(blocks_view(blocks@) =~= rb + done);
    }
    match tool_calls {
        Some(calls) => {
            let ghost cs = calls@;
            proof {
                assert(cs.skip(0) =~= cs);
            }
            let n = calls.len();
            let mut i: usize = 0;
            while i < n
                invariant
                    n == cs.len(),
                    calls@ == cs,
                    i <= n,
                    resp.choices@.len() > 0,
                    gmsg == resp.choices@[0].message,
                    gmsg.tool_calls matches Some(cv) && cv@ == cs,
                    rb == g_reasoning_blocks(gmsg.reasoning_content),
                    blocks_view(blocks@) == rb + done,
                    g_tool_blocks(cs) matches Ok(t) ==> g_tool_blocks(cs.skip(i as int))
                        matches Ok(t2) && t == done + t2,
                    g_tool_blocks(cs) matches Err(e) ==> g_tool_blocks(cs.skip(i as int))
                        matches Err(e2) && e == e2,
                decreases n - i,
            {
                proof {
                    assert(cs.skip(i as int)[0] == cs[i as int]);
                    assert(cs.skip(i as int).drop_first() =~= cs.skip(i + 1));
                }
                let c = &calls[i];
                if !crate::dialect::json_is_valid(c.function.arguments.as_str()) {
                    proof {
                        let w = g_tool_blocks(cs);
                        if w is Ok {
                            assert(false);
                        }
                        assert(g_response_blocks(gmsg) matches Err(ge) && ge.kind
                            == "api_error"@ && ge.message == "invalid tool call arguments"@);
                    }
                    return Err(TranslateError::api_error("invalid tool call arguments"));
                }
                let ghost pre_blocks = blocks@;
                blocks.push(
                    AnthropicContentBlock::ToolUse {
                        id: c.id.clone(),
                        name: c.function.name.clone(),
                        input: c.function.arguments.clone(),
                    },
                );
                proof {
                    let gb = GBlock::GToolUse {
                        id: cs[i as int].id@,
                        name: cs[i as int].function.name@,
                        input: cs[i as int].function.arguments@,
                    };
                    assert(blocks_view(blocks@) =~= blocks_view(pre_blocks).push(gb));
                    assert(rb + done.push(gb) =~= (rb + done).push(gb));
                    done = done.push(gb);
                }
                i = i + 1;
                proof {
                    let w = g_tool_blocks(cs);
                    if w is Ok {
                        let t = w->Ok_0;
                        let t2 = g_tool_blocks(cs.skip(i - 1))->Ok_0;
                        assert(g_tool_blocks(cs.skip(i as int)) is Ok);
                        let t3 = g_tool_blocks(cs.skip(i as int))->Ok_0;
                        assert(t2 =~= seq![done.last()] + t3);
                        assert(t =~= done + t3);
                    }
                }
            }
            proof {
                assert(cs.skip(n as int) =~= Seq::<OpenAIToolCall>::empty());
                let w = g_tool_blocks(cs);
                if w is Err {
                    assert(false);
                }
                assert(w matches Ok(t) && t =~= done);
            }
        },
        None => {},
    }
    let ghost pre_content = blocks@;
    match content {
        Some(c) => {
            blocks.push(AnthropicContentBlock::Text { text: c, cache_control: None });
            proof {
                assert(blocks_view(blocks@) =~= blocks_view(pre_content).push(
                    view_block(blocks@.last()),
                ));
            }
        },
        None => {},
    }
    proof {
        let w = g_response_blocks(gmsg);
        if blocks@.len() == 0 {
            assert(w matches Err(ge) && ge.message == "missing assistant content"@);
        } else {
            assert(w matches Ok(gb) && gb =~= blocks_view(blocks@));
        }
    }
    if blocks.len() == 0 {
        return Err(TranslateError::api_error("missing assistant content"));
    }
    let stop_reason = match &finish_reason {
        Some(f) => copy_str(map_finish_reason(f.as_str())),
        None => copy_str("end_turn"),
    };
    let out_usage = match usage {
        Some(u) => AnthropicUsage {
            input_tokens: u.prompt_tokens,
            output_tokens: u.completion_tokens,
            cache_creation_input_tokens: 0,
            cache_read_input_tokens: 0,
        },
        None => usage_zero(),
    };
    Ok(
        AnthropicResponse {
            id,
            response_type: copy_str("message"),
            role: copy_str("assistant"),
            model,
            content: blocks,
            stop_reason,
            stop_sequence: None,
            usage: out_usage,
        },
    )
}

// ---------------------------------------------------------------------------
// laws
// ---------------------------------------------------------------------------

/// A produced OpenAI message has a role the OpenAI dialect admits, and a
/// `tool` message carries a tool-call id.
pub open spec fn role_ok(g: GMessage) -> bool {
    &&& (g.role == "system"@ || g.role == "user"@ || g.role == "assistant"@ || g.role
        == "tool"@)
    &&& (g.role == "tool"@ ==> g.tool_call_id is Some)
}

/// Every message of the list satisfies [`role_ok`].
pub open spec fn all_roles_ok(gs: Seq<GMessage>) -> bool {
    forall|i: int| 0 <= i < gs.len() ==> role_ok(#[trigger] gs[i])
}

proof fn lemma_role_literals()
    ensures
        "user"@ != "tool"@,
        "assistant"@ != "tool"@,
        "system"@ != "tool"@,
{
    reveal_strlit("user");
    reveal_strlit("assistant");
    reveal_strlit("system");
    reveal_strlit("tool");
    assert("user"@[0] != "tool"@[0]);
    assert("assistant"@.len() != "tool"@.len());
    assert("system"@.len() != "tool"@.len());
}

proof fn lemma_flush_roles(
    msgs: Seq<GMessage>,
    parts: Seq<GPart>,
    role: Seq<char>,
    thinking: Option<Seq<char>>,
    include_reasoning: bool,
)
    requires
        all_roles_ok(msgs),
        role == "user"@ || role == "assistant"@,
    ensures
        all_roles_ok(g_flush(msgs, parts, role, thinking, include_reasoning)),
{
    lemma_role_literals();
    let r = g_flush(msgs, parts, role, thinking, include_reasoning);
    assert forall|i: int| 0 <= i < r.len() implies role_ok(r[i]) by {
        if i < msgs.len() {
            assert(r[i] == msgs[i]);
        }
    }
}

proof fn lemma_convert_blocks_roles(
    role: Seq<char>,
    blocks: Seq<AnthropicContentBlock>,
    policy: DocumentPolicy,
    allow_images: bool,
    include_reasoning: bool,
    msgs: Seq<GMessage>,
    parts: Seq<GPart>,
    thinking: Option<Seq<char>>,
)
    requires
        role == "user"@ || role == "assistant"@,
        all_roles_ok(msgs),
    ensures
        g_convert_blocks(
            role,
            blocks,
            policy,
            allow_images,
            include_reasoning,
            msgs,
            parts,
            thinking,
        ) matches Ok(gm) ==> all_roles_ok(gm),
    decreases blocks.len(),
{
    lemma_role_literals();
    if blocks.len() == 0 {
        lemma_flush_roles(msgs, parts, role, thinking, include_reasoning);
    } else {
        let rest = blocks.drop_first();
        match blocks[0] {
            AnthropicContentBlock::Text { text, .. } => {
                lemma_convert_blocks_roles(
                    role,
                    rest,
                    policy,
                    allow_images,
                    include_reasoning,
                    msgs,
                    parts.push(GPart::GPartText(text@)),
                    thinking,
                );
            },
            AnthropicContentBlock::Image { source } => {
                if allow_images && source.media_type is Some && source.data is Some {
                    lemma_convert_blocks_roles(
                        role,
                        rest,
                        policy,
                        allow_images,
                        include_reasoning,
                        msgs,
                        parts.push(
                            GPart::GPartImage(
                                "data:"@ + (match source.media_type {
                                    Some(mt) => mt@,
                                    None => Seq::empty(),
                                }) + ";base64,"@ + (match source.data {
                                    Some(d) => d@,
                                    None => Seq::empty(),
                                }),
                            ),
                        ),
                        thinking,
                    );
                }
            },
            AnthropicContentBlock::Document { .. } => {
                match policy {
                    DocumentPolicy::Reject => {},
                    DocumentPolicy::Strip => {
                        lemma_convert_blocks_roles(
                            role,
                            rest,
                            policy,
                            allow_images,
                            include_reasoning,
                            msgs,
                            parts,
                            thinking,
                        );
                    },
                    DocumentPolicy::TextOnly => {
                        lemma_convert_blocks_roles(
                            role,
                            rest,
                            policy,
                            allow_images,
                            include_reasoning,
                            msgs,
                            parts.push(GPart::GPartText("[document omitted]"@)),
                            thinking,
                        );
                    },
                }
            },
            AnthropicContentBlock::ToolResult { tool_use_id, content, .. } => {
                let flushed = g_flush(msgs, parts, role, thinking, include_reasoning);
                lemma_flush_roles(msgs, parts, role, thinking, include_reasoning);
                let text = match content {
                    ToolResultContent::Text(s) => s@,
                    ToolResultContent::Json(j) => j@,
                };
                let next = flushed.push(
                    GMessage {
                        role: "tool"@,
                        content: GContent::GText(text),
                        tool_calls: None,
                        tool_call_id: Some(tool_use_id@),
                        reasoning: None,
                    },
                );
                assert(all_roles_ok(next)) by {
                    assert forall|i: int| 0 <= i < next.len() implies role_ok(next[i]) by {
                        if i < flushed.len() {
                            assert(next[i] == flushed[i]);
                        }
                    }
                }
                lemma_convert_blocks_roles(
                    role,
                    rest,
                    policy,
                    allow_images,
                    include_reasoning,
                    next,
                    Seq::empty(),
                    thinking,
                );
            },
            AnthropicContentBlock::ToolUse { id, name, input } => {
                let flushed = g_flush(msgs, parts, role, thinking, include_reasoning);
                lemma_flush_roles(msgs, parts, role, thinking, include_reasoning);
                if role == "assistant"@ {
                    let call = GToolCall {
                        id: id@,
                        call_type: "function"@,
                        name: name@,
                        arguments: input@,
                    };
                    let th = Some(thinking_or_empty(thinking));
                    if flushed.len() > 0 && g_can_merge(flushed.last()) {
                        let next = flushed.update(
                            flushed.len() - 1,
                            g_merge_tool_call(flushed.last(), call, th),
                        );
                        assert(all_roles_ok(next)) by {
                            assert forall|i: int| 0 <= i < next.len() implies role_ok(
                                next[i],
                            ) by {
                                if i < next.len() - 1 {
                                    assert(next[i] == flushed[i]);
                                } else {
                                    assert(flushed.last().role == "assistant"@);
                                }
                            }
                        }
                        lemma_convert_blocks_roles(
                            role,
                            rest,
                            policy,
                            allow_images,
                            include_reasoning,
                            next,
                            Seq::empty(),
                            thinking,
                        );
                    } else {
                        let next = flushed.push(
                            GMessage {
                                role: "assistant"@,
                                content: GContent::GNone,
                                tool_calls: Some(seq![call]),
                                tool_call_id: None,
                                reasoning: th,
                            },
                        );
                        assert(all_roles_ok(next)) by {
                            assert forall|i: int| 0 <= i < next.len() implies role_ok(
                                next[i],
                            ) by {
                                if i < flushed.len() {
                                    assert(next[i] == flushed[i]);
                                }
                            }
                        }
                        lemma_convert_blocks_roles(
                            role,
                            rest,
                            policy,
                            allow_images,
                            include_reasoning,
                            next,
                            Seq::empty(),
                            thinking,
                        );
                    }
                }
            },
            AnthropicContentBlock::Thinking { thinking: t, .. } => {
                lemma_convert_blocks_roles(
                    role,
                    rest,
                    policy,
                    allow_images,
                    include_reasoning,
                    msgs,
                    parts,
                    Some(t@),
                );
            },
            AnthropicContentBlock::RedactedThinking { .. } => {
                lemma_convert_blocks_roles(
                    role,
                    rest,
                    policy,
                    allow_images,
                    include_reasoning,
                    msgs,
                    parts,
                    Some(Seq::empty()),
                );
            },
        }
    }
}

proof fn lemma_request_messages_roles(
    msgs: Seq<AnthropicMessage>,
    policy_name: Seq<char>,
    allow_images: bool,
    include_reasoning: bool,
)
    ensures
        g_request_messages(msgs, policy_name, allow_images, include_reasoning) matches Ok(gm)
            ==> all_roles_ok(gm),
    decreases msgs.len(),
{
    lemma_role_literals();
    if msgs.len() == 0 {
    } else if msgs[0].role@ != "user"@ && msgs[0].role@ != "assistant"@ {
    } else {
        let head = g_convert_message(
            msgs[0].role@,
            msgs[0].content,
            policy_name,
            allow_images,
            include_reasoning,
        );
        match msgs[0].content {
            AnthropicContent::Text(_) => {},
            AnthropicContent::Blocks(bs) => {
                if policy_of(policy_name) is Some {
                    lemma_convert_blocks_roles(
                        msgs[0].role@,
                        bs@,
                        match policy_of(policy_name) {
                            Some(p) => p,
                            None => DocumentPolicy::Reject,
                        },
                        allow_images,
                        include_reasoning,
                        Seq::empty(),
                        Seq::empty(),
                        None,
                    );
                }
            },
        }
        lemma_request_messages_roles(
            msgs.drop_first(),
            policy_name,
            allow_images,
            include_reasoning,
        );
        let whole = g_request_messages(msgs, policy_name, allow_images, include_reasoning);
        if whole is Ok {
            let gm = whole->Ok_0;
            let ms = head->Ok_0;
            let tail = g_request_messages(
                msgs.drop_first(),
                policy_name,
                allow_images,
                include_reasoning,
            )->Ok_0;
            assert forall|i: int| 0 <= i < gm.len() implies role_ok(gm[i]) by {
                if i < ms.len() {
                    assert(gm[i] == ms[i]);
                } else {
                    assert(gm[i] == tail[i - ms.len()]);
                }
            }
        }
    }
}

/// Law: every OpenAI message a request translation produces has a role in
/// `{system, user, assistant, tool}`, and every `tool` message carries a
/// tool-call id.
pub proof fn lemma_request_roles(req: AnthropicRequest, cfg: Config)
    ensures
        g_all_messages(req, cfg) matches Ok(gm) ==> all_roles_ok(gm),
{
    lemma_role_literals();
    let reasoning_on = g_include_reasoning(req.thinking, cfg.models.thinking_map@);
    lemma_request_messages_roles(
        req.messages@,
        cfg.models.document_policy@,
        cfg.models.allow_images,
        reasoning_on,
    );
    let whole = g_all_messages(req, cfg);
    if whole is Ok {
        let gm = whole->Ok_0;
        let ms = g_request_messages(
            req.messages@,
            cfg.models.document_policy@,
            cfg.models.allow_images,
            reasoning_on,
        )->Ok_0;
        assert forall|i: int| 0 <= i < gm.len() implies role_ok(gm[i]) by {
            if i >= gm.len() - ms.len() {
                assert(gm[i] == ms[i - (gm.len() - ms.len())]);
            }
        }
    }
}

proof fn lemma_tool_blocks_shape(calls: Seq<OpenAIToolCall>)
    ensures
        g_tool_blocks(calls) matches Ok(t) ==> t.len() == calls.len() && (forall|i: int|
            0 <= i < t.len() ==> (#[trigger] t[i]) is GToolUse),
    decreases calls.len(),
{
    if calls.len() == 0 {
    } else if !parses_as_json(calls[0].function.arguments@) {
    } else {
        lemma_tool_blocks_shape(calls.drop_first());
    }
}

/// The blocks come in fixed order: `nthink` thinking blocks, then `ntool`
/// tool-use blocks, then at most one text block.
pub open spec fn response_order(bs: Seq<GBlock>, nthink: int, ntool: int) -> bool {
    &&& 0 <= nthink
    &&& 0 <= ntool
    &&& nthink + ntool <= bs.len()
    &&& bs.len() - (nthink + ntool) <= 1
    &&& forall|i: int| 0 <= i < nthink ==> (#[trigger] bs[i]) is GThinking
    &&& forall|i: int| nthink <= i < nthink + ntool ==> (#[trigger] bs[i]) is GToolUse
    &&& forall|i: int| nthink + ntool <= i < bs.len() ==> (#[trigger] bs[i]) is GText
}

/// Law: a translated response's blocks come in the order thinking, tool
/// uses, then at most one text block.
pub proof fn lemma_response_block_order(msg: OpenAIChoiceMessage)
    ensures
        g_response_blocks(msg) matches Ok(gb) ==> response_order(
            gb,
            g_reasoning_blocks(msg.reasoning_content).len() as int,
            match msg.tool_calls {
                Some(cs) => cs@.len() as int,
                None => 0,
            },
        ),
{
    match msg.tool_calls {
        Some(cs) => {
            lemma_tool_blocks_shape(cs@);
        },
        None => {},
    }
}

/// Law: a minimal text-only request keeps its single user message and text
/// through the request translation, and a text-only response comes back as a
/// single text block.  Together with the translators' contracts (model,
/// stop-reason mapping and usage are pinned there), a minimal round trip
/// preserves model, role, text, finish-reason mapping and token counts.
pub proof fn lemma_minimal_round_trip(req: AnthropicRequest, cfg: Config, resp: OpenAIResponse)
    requires
        req.system is None,
        req.thinking is None,
        req.messages@.len() == 1,
        req.messages@[0].role@ == "user"@,
        req.messages@[0].content is Text,
        resp.choices@.len() >= 1,
        resp.choices@[0].message.tool_calls is None,
        resp.choices@[0].message.reasoning_content is None,
        resp.choices@[0].message.content is Some,
    ensures
        g_all_messages(req, cfg) matches Ok(gm) && gm.len() == 1 && gm[0].role == "user"@
            && gm[0].content == GContent::GText(
            match req.messages@[0].content {
                AnthropicContent::Text(s) => s@,
                _ => Seq::empty(),
            },
        ),
        g_response_blocks(resp.choices@[0].message) matches Ok(gb) && gb == seq![
            GBlock::GText {
                text: match resp.choices@[0].message.content {
                    Some(c) => c@,
                    None => Seq::empty(),
                },
                cache_control: None,
            },
        ],
{
    let reasoning_on = g_include_reasoning(req.thinking, cfg.models.thinking_map@);
    assert(!reasoning_on);
    let msgs = req.messages@;
    assert(msgs.drop_first() =~= Seq::<AnthropicMessage>::empty());
    let head = g_convert_message(
        msgs[0].role@,
        msgs[0].content,
        cfg.models.document_policy@,
        cfg.models.allow_images,
        reasoning_on,
    );
    assert(head is Ok);
    assert(g_request_messages(
        msgs.drop_first(),
        cfg.models.document_policy@,
        cfg.models.allow_images,
        reasoning_on,
    ) == Ok::<Seq<GMessage>, GError>(Seq::empty()));
    let w = g_request_messages(
        msgs,
        cfg.models.document_policy@,
        cfg.models.allow_images,
        reasoning_on,
    );
    assert(w matches Ok(t) && t =~= head->Ok_0);
    assert(g_all_messages(req, cfg) matches Ok(gm) && gm =~= head->Ok_0);
    let gmsg = resp.choices@[0].message;
    let gb = g_response_blocks(gmsg);
    assert(g_reasoning_blocks(gmsg.reasoning_content) =~= Seq::<GBlock>::empty());
    assert(gb matches Ok(bs) && bs =~= seq![
        GBlock::GText {
            text: match gmsg.content {
                Some(c) => c@,
                None => Seq::empty(),
            },
            cache_control: None,
        },
    ]);
}

proof fn lemma_models_err_take(data: Seq<OpenAIModel>, i: int)
    requires
        0 < i <= data.len(),
        g_models_err(data.take(i - 1)) is None,
        !(data[i - 1].created matches Some(ts) && ts < 0),
    ensures
        g_models_err(data.take(i)) is None,
    decreases i,
{
    if i == 1 {
        assert(data.take(1).len() == 1);
        assert(data.take(1)[0] == data[0]);
        assert(data.take(1).drop_first() =~= data.take(0));
    } else {
        assert(data.take(i)[0] == data[0]);
        assert(data.take(i - 1)[0] == data[0]);
        assert(!(data[0].created matches Some(ts) && ts < 0));
        assert(data.take(i).drop_first() =~= data.drop_first().take(i - 1));
        assert(data.take(i - 1).drop_first() =~= data.drop_first().take(i - 2));
        lemma_models_err_take(data.drop_first(), i - 1);
    }
}

} // verus!
