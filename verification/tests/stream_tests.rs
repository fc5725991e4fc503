use llm_gateway::dialect::{
    OpenAIReasoningContentDelta, OpenAIReasoningDelta, OpenAIStreamChoice, OpenAIStreamChunk,
    OpenAIStreamDelta, OpenAIToolCallDelta, OpenAIToolCallFunctionDelta,
};
use llm_gateway::sse::{error_event, render_event};
use llm_gateway::transcoder::{parse_sse_line, pop_line, AnthropicStreamEvent, SseLine, StreamState};

fn text_chunk(id: &str, model: &str, text: Option<&str>, finish: Option<&str>) -> OpenAIStreamChunk {
    OpenAIStreamChunk {
        id: Some(id.to_string()),
        model: Some(model.to_string()),
        choices: vec![OpenAIStreamChoice {
            index: 0,
            delta: OpenAIStreamDelta {
                role: Some("assistant".to_string()),
                content: text.map(|t| t.to_string()),
                tool_calls: None,
                reasoning_content: None,
            },
            finish_reason: finish.map(|f| f.to_string()),
        }],
    }
}

fn tool_chunk(arguments: &str) -> OpenAIStreamChunk {
    OpenAIStreamChunk {
        id: Some("chatcmpl-tool".to_string()),
        model: Some("gpt-4o-mini".to_string()),
        choices: vec![OpenAIStreamChoice {
            index: 0,
            delta: OpenAIStreamDelta {
                role: Some("assistant".to_string()),
                content: None,
                tool_calls: Some(vec![OpenAIToolCallDelta {
                    index: 0,
                    id: Some("call_1".to_string()),
                    call_type: Some("function".to_string()),
                    function: Some(OpenAIToolCallFunctionDelta {
                        name: Some("get_weather".to_string()),
                        arguments: Some(arguments.to_string()),
                    }),
                }]),
                reasoning_content: None,
            },
            finish_reason: Some("tool_calls".to_string()),
        }],
    }
}

fn rendered(events: &[AnthropicStreamEvent]) -> String {
    let mut out = String::new();
    for e in events {
        out.push_str(&render_event(e));
    }
    out
}

#[test]
fn stream_chunk_emits_message_and_text_delta() {
    let mut state = StreamState::new();
    let chunk = text_chunk("chatcmpl-test", "gpt-4o-mini", Some("Hi"), None);
    let (events, err) = state.handle_chunk(chunk);
    assert!(err.is_none());
    let output = rendered(&events);
    assert!(output.contains("message_start"));
    assert!(output.contains("text_delta"));
}

#[test]
fn stream_chunk_emits_tool_use_with_input_json() {
    let mut state = StreamState::new();
    let chunk = tool_chunk("{\"location\":\"北京\"}");
    let (events, err) = state.handle_chunk(chunk);
    assert!(err.is_none());
    let output = rendered(&events);
    assert!(output.contains("tool_use"));
    assert!(output.contains("input_json_delta"));
    assert!(output.contains("message_delta"));
}

#[test]
fn stream_invalid_tool_use_arguments_emits_error() {
    let mut state = StreamState::new();
    let chunk = tool_chunk("{\"location\":");
    let (events, err) = state.handle_chunk(chunk);
    let err = err.expect("should fail");
    let mut output = rendered(&events);
    output.push_str(&error_event(&err));
    assert!(output.contains("invalid_request_error"));
    assert!(!output.contains("message_delta"));
}

#[test]
fn stream_output_messages_includes_tool_calls() {
    let mut state = StreamState::new();
    let chunk = tool_chunk("{\"location\":\"Beijing\"}");
    let (_events, err) = state.handle_chunk(chunk);
    assert!(err.is_none());
    let output = llm_gateway::transcoder::stream_output_messages(&state).expect("output");
    assert_eq!(output.role, "assistant");
    assert_eq!(output.tool_calls.len(), 1);
    assert_eq!(output.tool_calls[0].id, "call_1");
    assert_eq!(output.tool_calls[0].name, "get_weather");
    assert_eq!(output.tool_calls[0].arguments, "{\"location\":\"Beijing\"}");
}

#[test]
fn stream_text_delta_event_sequence() {
    let mut state = StreamState::new();
    let chunk = text_chunk("c", "m", Some("Hi"), None);
    let (events, err) = state.handle_chunk(chunk);
    assert!(err.is_none());
    assert_eq!(events.len(), 3);
    assert!(matches!(&events[0], AnthropicStreamEvent::MessageStart { message_id } if message_id == "c"));
    assert!(matches!(&events[1], AnthropicStreamEvent::TextBlockStart { index: 0 }));
    assert!(
        matches!(&events[2], AnthropicStreamEvent::TextDelta { index: 0, text } if text == "Hi")
    );
    let (done_events, done_err) = state.finish();
    assert!(done_err.is_none());
    assert_eq!(done_events.len(), 2);
    assert!(matches!(&done_events[0], AnthropicStreamEvent::BlockStop { index: 0 }));
    assert!(matches!(&done_events[1], AnthropicStreamEvent::MessageStop));
}

#[test]
fn stream_tool_call_event_sequence() {
    let mut state = StreamState::new();
    let chunk = tool_chunk("{\"location\":\"北京\"}");
    let (events, err) = state.handle_chunk(chunk);
    assert!(err.is_none());
    assert_eq!(events.len(), 5);
    assert!(matches!(&events[0], AnthropicStreamEvent::MessageStart { .. }));
    assert!(matches!(
        &events[1],
        AnthropicStreamEvent::ToolUseBlockStart { index: 0, id, name }
            if id == "call_1" && name == "get_weather"
    ));
    assert!(matches!(
        &events[2],
        AnthropicStreamEvent::InputJsonDelta { index: 0, partial_json }
            if partial_json == "{\"location\":\"北京\"}"
    ));
    assert!(matches!(&events[3], AnthropicStreamEvent::BlockStop { index: 0 }));
    assert!(matches!(
        &events[4],
        AnthropicStreamEvent::MessageDelta { stop_reason } if stop_reason == "tool_use"
    ));
}

#[test]
fn stream_buffers_tool_arguments_until_started() {
    let mut state = StreamState::new();
    let first = OpenAIStreamChunk {
        id: Some("c".to_string()),
        model: None,
        choices: vec![OpenAIStreamChoice {
            index: 0,
            delta: OpenAIStreamDelta {
                role: None,
                content: None,
                tool_calls: Some(vec![OpenAIToolCallDelta {
                    index: 0,
                    id: None,
                    call_type: None,
                    function: Some(OpenAIToolCallFunctionDelta {
                        name: None,
                        arguments: Some("{\"a\":".to_string()),
                    }),
                }]),
                reasoning_content: None,
            },
            finish_reason: None,
        }],
    };
    let (events, err) = state.handle_chunk(first);
    assert!(err.is_none());
    assert_eq!(events.len(), 1);
    assert!(matches!(&events[0], AnthropicStreamEvent::MessageStart { .. }));

    let second = OpenAIStreamChunk {
        id: None,
        model: None,
        choices: vec![OpenAIStreamChoice {
            index: 0,
            delta: OpenAIStreamDelta {
                role: None,
                content: None,
                tool_calls: Some(vec![OpenAIToolCallDelta {
                    index: 0,
                    id: Some("call_9".to_string()),
                    call_type: None,
                    function: Some(OpenAIToolCallFunctionDelta {
                        name: Some("f".to_string()),
                        arguments: Some("1}".to_string()),
                    }),
                }]),
                reasoning_content: None,
            },
            finish_reason: None,
        }],
    };
    let (events2, err2) = state.handle_chunk(second);
    assert!(err2.is_none());
    assert_eq!(events2.len(), 2);
    assert!(matches!(
        &events2[0],
        AnthropicStreamEvent::ToolUseBlockStart { index: 0, id, name }
            if id == "call_9" && name == "f"
    ));
    assert!(matches!(
        &events2[1],
        AnthropicStreamEvent::InputJsonDelta { index: 0, partial_json }
            if partial_json == "{\"a\":1}"
    ));
}

#[test]
fn stream_reasoning_deltas_open_thinking_block() {
    let mut state = StreamState::new();
    let chunk = OpenAIStreamChunk {
        id: Some("c".to_string()),
        model: None,
        choices: vec![OpenAIStreamChoice {
            index: 0,
            delta: OpenAIStreamDelta {
                role: None,
                content: None,
                tool_calls: None,
                reasoning_content: Some(OpenAIReasoningDelta::Structured(
                    OpenAIReasoningContentDelta {
                        thinking: Some("step".to_string()),
                        signature: Some("sig".to_string()),
                    },
                )),
            },
            finish_reason: None,
        }],
    };
    let (events, err) = state.handle_chunk(chunk);
    assert!(err.is_none());
    assert_eq!(events.len(), 4);
    assert!(matches!(&events[1], AnthropicStreamEvent::ThinkingBlockStart { index: 0 }));
    assert!(matches!(
        &events[2],
        AnthropicStreamEvent::ThinkingDelta { index: 0, thinking } if thinking == "step"
    ));
    assert!(matches!(
        &events[3],
        AnthropicStreamEvent::SignatureDelta { index: 0, signature } if signature == "sig"
    ));
}

#[test]
fn stream_empty_arguments_flush_is_error() {
    let mut state = StreamState::new();
    let chunk = tool_chunk("");
    let first = OpenAIStreamChunk {
        choices: vec![OpenAIStreamChoice {
            finish_reason: None,
            ..chunk.choices[0].clone()
        }],
        ..chunk
    };
    let (_events, err) = state.handle_chunk(first);
    assert!(err.is_none());
    let (_done, done_err) = state.finish();
    let e = done_err.expect("flush should fail");
    assert_eq!(e.error_type, "invalid_request_error");
    assert_eq!(e.message, "tool_use arguments empty");
}

#[test]
fn sse_line_classification() {
    assert!(matches!(parse_sse_line("event: message_start"), SseLine::Skip));
    assert!(matches!(parse_sse_line(""), SseLine::Skip));
    assert!(matches!(parse_sse_line("data: [DONE]\r"), SseLine::Done));
    match parse_sse_line("data: {\"id\":\"c\"} ") {
        SseLine::Chunk(p) => assert_eq!(p, "{\"id\":\"c\"}"),
        _ => panic!("expected a chunk"),
    }
    match parse_sse_line("data:data: x") {
        SseLine::Chunk(p) => assert_eq!(p, "x"),
        _ => panic!("expected a chunk"),
    }
}

#[test]
fn sse_buffer_line_splitting() {
    let mut buffer = String::from("data: a\ndata: b\npartial");
    let first = pop_line(&mut buffer).expect("line");
    assert_eq!(first, "data: a");
    let second = pop_line(&mut buffer).expect("line");
    assert_eq!(second, "data: b");
    assert!(pop_line(&mut buffer).is_none());
    assert_eq!(buffer, "partial");
}

#[test]
fn rendered_text_delta_wire_format() {
    let e = AnthropicStreamEvent::TextDelta { index: 0, text: "Hi \"there\"\n".to_string() };
    let s = render_event(&e);
    assert_eq!(
        s,
        "event: content_block_delta\ndata: {\"type\":\"content_block_delta\",\"index\":0,\"delta\":{\"type\":\"text_delta\",\"text\":\"Hi \\\"there\\\"\\n\"}}\n\n"
    );
    let parsed: serde_json::Value =
        serde_json::from_str(s.lines().nth(1).unwrap().strip_prefix("data: ").unwrap()).unwrap();
    assert_eq!(parsed["delta"]["text"], "Hi \"there\"\n");
}

#[test]
fn rendered_error_event_wire_format() {
    let err = llm_gateway::error::AppError::invalid_request("bad");
    let s = error_event(&err);
    assert_eq!(
        s,
        "event: error\ndata: {\"type\":\"error\",\"error\":{\"type\":\"invalid_request_error\",\"message\":\"bad\"}}\n\n"
    );
}

#[test]
fn upstream_response_trace_collects_blocks() {
    let mut state = StreamState::new();
    let (_e1, err1) = state.handle_chunk(text_chunk("c", "m", Some("Hello"), None));
    assert!(err1.is_none());
    let (_e2, err2) = state.handle_chunk(tool_chunk("{\"q\":1}"));
    assert!(err2.is_none());
    let trace = llm_gateway::transcoder::stream_upstream_response(&state).expect("trace");
    assert_eq!(trace.response_type, "message");
    assert_eq!(trace.role, "assistant");
    assert_eq!(trace.content.len(), 2);
}
