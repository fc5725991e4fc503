use llm_gateway::config::{
    AnthropicConfig, AuditLogConfig, Config, DownstreamConfig, ExportersConfig, LimitsConfig,
    LoggingConfig, ModelsConfig, ObservabilityConfig, OtlpGrpcConfig, OtlpHttpConfig,
    ServerConfig,
};
use llm_gateway::dialect::{
    AnthropicContent, AnthropicContentBlock, AnthropicMessage, AnthropicOutputFormat,
    AnthropicRequest, AnthropicSource, AnthropicSystem, AnthropicSystemBlock, AnthropicThinking,
    AnthropicTool, AnthropicToolChoice, OpenAIChoice, OpenAIChoiceMessage, OpenAIMessageContent,
    OpenAIModel, OpenAIModelsResponse, OpenAIReasoning, OpenAIReasoningContent, OpenAIResponse,
    OpenAIToolCall, OpenAIToolCallFunction, OpenAIToolChoice, OpenAIUsage,
};
use llm_gateway::translate::{anthropic_to_openai, openai_models_to_anthropic, openai_to_anthropic};

fn base_config() -> Config {
    Config {
        server: ServerConfig { bind_addr: "127.0.0.1:0".to_string() },
        downstream: DownstreamConfig {
            base_url: "https://api.openai.com".to_string(),
            api_key: Some("sk-test".to_string()),
            anthropic_version: Some("2023-06-01".to_string()),
            anthropic_beta: None,
            connect_timeout_ms: 5000,
            read_timeout_ms: 30000,
            pool_max_idle_per_host: 64,
        },
        anthropic: AnthropicConfig { forward_mode: "passthrough".to_string() },
        models: ModelsConfig {
            model_map: Vec::new(),
            display_map: Vec::new(),
            allowlist: Vec::new(),
            blocklist: Vec::new(),
            thinking_map: vec![(4000, "medium".to_string()), (8000, "high".to_string())],
            output_strict: true,
            allow_images: true,
            document_policy: "reject".to_string(),
            models_override: None,
        },
        limits: LimitsConfig { max_inflight: 64 },
        observability: ObservabilityConfig {
            service_name: "llm-gateway".to_string(),
            dump_downstream: false,
            audit_log: AuditLogConfig {
                enabled: false,
                path: None,
                max_body_bytes: 1048576,
                max_file_bytes: 1048576,
            },
            logging: LoggingConfig {
                level: "info".to_string(),
                format: "text".to_string(),
                stdout: false,
                file: None,
            },
            otlp_grpc: OtlpGrpcConfig {
                endpoint: "http://localhost:4317".to_string(),
                timeout_ms: 3000,
            },
            otlp_http: OtlpHttpConfig {
                base_url: "https://cloud.langfuse.com/api/public/otel".to_string(),
                public_key: String::new(),
                secret_key: String::new(),
                timeout_ms: 5000,
            },
            exporters: ExportersConfig {
                tracing: "otlp_grpc".to_string(),
                metrics: "otlp_grpc".to_string(),
            },
        },
    }
}

fn text_request(model: &str, max_tokens: u32, content: &str) -> AnthropicRequest {
    AnthropicRequest {
        model: model.to_string(),
        max_tokens,
        messages: vec![AnthropicMessage {
            role: "user".to_string(),
            content: AnthropicContent::Text(content.to_string()),
        }],
        system: None,
        temperature: None,
        top_p: None,
        top_k: None,
        stop_sequences: None,
        stream: Some(false),
        tools: None,
        tool_choice: None,
        output_format: None,
        thinking: None,
    }
}

#[test]
fn anthropic_to_openai_text_only() {
    let mut req = text_request("gpt-4o-mini", 64, "Hello");
    req.system = Some(AnthropicSystem::Text("You are helpful".to_string()));
    req.temperature = Some("0.7".to_string());
    req.top_p = Some("0.9".to_string());
    req.stop_sequences = Some(vec!["STOP".to_string()]);

    let out = anthropic_to_openai(req, &base_config()).expect("translate ok");
    assert_eq!(out.model, "gpt-4o-mini");
    assert_eq!(out.max_completion_tokens, 64);
    assert_eq!(out.messages.len(), 2);
    assert_eq!(out.messages[0].role, "system");
    assert_eq!(out.messages[1].role, "user");
    assert_eq!(out.temperature, Some("0.7".to_string()));
    assert_eq!(out.top_p, Some("0.9".to_string()));
    assert_eq!(out.stop, Some(vec!["STOP".to_string()]));
    assert_eq!(out.stream, Some(false));
}

#[test]
fn anthropic_to_openai_rejects_non_text_block() {
    let mut req = text_request("gpt-4o-mini", 64, "Hello");
    req.messages = vec![AnthropicMessage {
        role: "user".to_string(),
        content: AnthropicContent::Blocks(vec![AnthropicContentBlock::Document {
            source: AnthropicSource {
                source_type: "base64".to_string(),
                media_type: Some("application/pdf".to_string()),
                data: Some("AAA".to_string()),
                cache_control: None,
            },
        }]),
    }];

    let err = anthropic_to_openai(req, &base_config()).expect_err("should reject");
    assert_eq!(err.error_type, "invalid_request_error");
}

#[test]
fn openai_to_anthropic_text_response() {
    let resp = OpenAIResponse {
        id: "chatcmpl-123".to_string(),
        model: "gpt-4o-mini".to_string(),
        choices: vec![OpenAIChoice {
            message: OpenAIChoiceMessage {
                role: "assistant".to_string(),
                content: Some("Hi".to_string()),
                tool_calls: None,
                reasoning_content: None,
            },
            finish_reason: Some("stop".to_string()),
        }],
        usage: Some(OpenAIUsage { prompt_tokens: 5, completion_tokens: 7, total_tokens: 12 }),
    };

    let out = openai_to_anthropic(resp).expect("translate ok");
    assert_eq!(out.id, "chatcmpl-123");
    assert_eq!(out.model, "gpt-4o-mini");
    assert_eq!(out.role, "assistant");
    assert_eq!(out.stop_reason, "end_turn");
    assert_eq!(out.content.len(), 1);
    match &out.content[0] {
        AnthropicContentBlock::Text { text, .. } => assert_eq!(text, "Hi"),
        _ => panic!("unexpected block"),
    }
    assert_eq!(out.usage.input_tokens, 5);
    assert_eq!(out.usage.output_tokens, 7);
}

#[test]
fn anthropic_system_blocks_concat() {
    let mut req = text_request("gpt-4o-mini", 8, "Ping");
    req.system = Some(AnthropicSystem::Blocks(vec![
        AnthropicSystemBlock { block_type: "text".to_string(), text: Some("A".to_string()) },
        AnthropicSystemBlock { block_type: "text".to_string(), text: Some("B".to_string()) },
    ]));

    let out = anthropic_to_openai(req, &base_config()).expect("translate ok");
    assert_eq!(out.messages.len(), 2);
    assert_eq!(out.messages[0].role, "system");
    match &out.messages[0].content {
        Some(OpenAIMessageContent::Text(text)) => assert_eq!(text, "AB"),
        _ => panic!("unexpected system content"),
    }
}

#[test]
fn openai_to_anthropic_finish_reason_mappings() {
    let resp = OpenAIResponse {
        id: "chatcmpl-456".to_string(),
        model: "gpt-4o-mini".to_string(),
        choices: vec![OpenAIChoice {
            message: OpenAIChoiceMessage {
                role: "assistant".to_string(),
                content: Some("Hi".to_string()),
                tool_calls: None,
                reasoning_content: None,
            },
            finish_reason: Some("length".to_string()),
        }],
        usage: None,
    };

    let out = openai_to_anthropic(resp).expect("translate ok");
    assert_eq!(out.stop_reason, "max_tokens");

    let resp_tool = OpenAIResponse {
        id: "chatcmpl-789".to_string(),
        model: "gpt-4o-mini".to_string(),
        choices: vec![OpenAIChoice {
            message: OpenAIChoiceMessage {
                role: "assistant".to_string(),
                content: Some("".to_string()),
                tool_calls: None,
                reasoning_content: None,
            },
            finish_reason: Some("tool_calls".to_string()),
        }],
        usage: None,
    };

    let out_tool = openai_to_anthropic(resp_tool).expect("translate ok");
    assert_eq!(out_tool.stop_reason, "tool_use");
}

#[test]
fn openai_to_anthropic_missing_choices() {
    let resp = OpenAIResponse {
        id: "chatcmpl-empty".to_string(),
        model: "gpt-4o-mini".to_string(),
        choices: vec![],
        usage: None,
    };

    let err = openai_to_anthropic(resp).expect_err("should fail");
    assert_eq!(err.error_type, "api_error");
}

#[test]
fn openai_to_anthropic_missing_content() {
    let resp = OpenAIResponse {
        id: "chatcmpl-missing".to_string(),
        model: "gpt-4o-mini".to_string(),
        choices: vec![OpenAIChoice {
            message: OpenAIChoiceMessage {
                role: "assistant".to_string(),
                content: None,
                tool_calls: None,
                reasoning_content: None,
            },
            finish_reason: Some("stop".to_string()),
        }],
        usage: None,
    };

    let err = openai_to_anthropic(resp).expect_err("should fail");
    assert_eq!(err.error_type, "api_error");
}

#[test]
fn anthropic_system_blocks_rejects_non_text() {
    let mut req = text_request("gpt-4o-mini", 8, "Ping");
    req.system = Some(AnthropicSystem::Blocks(vec![AnthropicSystemBlock {
        block_type: "image".to_string(),
        text: None,
    }]));

    let err = anthropic_to_openai(req, &base_config()).expect_err("should reject");
    assert_eq!(err.error_type, "invalid_request_error");
}

#[test]
fn anthropic_to_openai_allows_streaming() {
    let mut req = text_request("gpt-4o-mini", 8, "Ping");
    req.stream = Some(true);

    let out = anthropic_to_openai(req, &base_config()).expect("translate ok");
    assert_eq!(out.stream, Some(true));
}

#[test]
fn anthropic_to_openai_rejects_tool_use_role() {
    let mut req = text_request("gpt-4o-mini", 8, "Ping");
    req.messages = vec![AnthropicMessage {
        role: "user".to_string(),
        content: AnthropicContent::Blocks(vec![AnthropicContentBlock::ToolUse {
            id: "toolu_1".to_string(),
            name: "get_weather".to_string(),
            input: "{\"location\":\"beijing\"}".to_string(),
        }]),
    }];

    let err = anthropic_to_openai(req, &base_config()).expect_err("should reject");
    assert_eq!(err.error_type, "invalid_request_error");
}

#[test]
fn anthropic_tools_and_choice_mapping() {
    let mut req = text_request("gpt-4o-mini", 16, "Ping");
    req.tools = Some(vec![AnthropicTool {
        name: "get_weather".to_string(),
        description: Some("Get weather".to_string()),
        input_schema: "{\"type\":\"object\",\"properties\":{\"location\":{\"type\":\"string\"}}}"
            .to_string(),
    }]);
    req.tool_choice = Some(AnthropicToolChoice {
        choice_type: "tool".to_string(),
        name: Some("get_weather".to_string()),
    });

    let out = anthropic_to_openai(req, &base_config()).expect("translate ok");
    let tools = out.tools.expect("tools");
    assert_eq!(tools.len(), 1);
    assert_eq!(tools[0].function.name, "get_weather");
    match out.tool_choice.expect("tool_choice") {
        OpenAIToolChoice::Tool(choice) => assert_eq!(choice.function.name, "get_weather"),
        _ => panic!("unexpected tool choice"),
    }
}

#[test]
fn anthropic_output_format_mapping() {
    let mut req = text_request("gpt-4o-mini", 16, "Ping");
    req.output_format = Some(AnthropicOutputFormat {
        format_type: "json".to_string(),
        schema: "{\"type\":\"object\"}".to_string(),
    });

    let out = anthropic_to_openai(req, &base_config()).expect("translate ok");
    let response_format = out.response_format.expect("response_format");
    assert_eq!(response_format.format_type, "json_schema");
    assert_eq!(response_format.json_schema.unwrap().schema, "{\"type\":\"object\"}");
}

#[test]
fn openai_tool_calls_to_anthropic_tool_use() {
    let resp = OpenAIResponse {
        id: "chatcmpl-tool".to_string(),
        model: "gpt-4o-mini".to_string(),
        choices: vec![OpenAIChoice {
            message: OpenAIChoiceMessage {
                role: "assistant".to_string(),
                content: None,
                tool_calls: Some(vec![OpenAIToolCall {
                    id: "call_1".to_string(),
                    call_type: "function".to_string(),
                    function: OpenAIToolCallFunction {
                        name: "get_weather".to_string(),
                        arguments: "{\"location\":\"Beijing\"}".to_string(),
                    },
                }]),
                reasoning_content: None,
            },
            finish_reason: Some("tool_calls".to_string()),
        }],
        usage: None,
    };

    let out = openai_to_anthropic(resp).expect("translate ok");
    assert_eq!(out.stop_reason, "tool_use");
    match &out.content[0] {
        AnthropicContentBlock::ToolUse { name, .. } => assert_eq!(name, "get_weather"),
        _ => panic!("expected tool_use block"),
    }
}

#[test]
fn anthropic_tool_uses_aggregate_into_single_openai_message() {
    let req = AnthropicRequest {
        model: "sonnet-relay-3".to_string(),
        max_tokens: 10,
        system: None,
        messages: vec![AnthropicMessage {
            role: "assistant".to_string(),
            content: AnthropicContent::Blocks(vec![
                AnthropicContentBlock::ToolUse {
                    id: "tool_1".to_string(),
                    name: "get_weather".to_string(),
                    input: "{\"location\":\"Beijing\"}".to_string(),
                },
                AnthropicContentBlock::ToolUse {
                    id: "tool_2".to_string(),
                    name: "get_time".to_string(),
                    input: "{\"tz\":\"Asia/Shanghai\"}".to_string(),
                },
            ]),
        }],
        stream: None,
        temperature: None,
        top_p: None,
        top_k: None,
        stop_sequences: None,
        tools: None,
        tool_choice: None,
        output_format: None,
        thinking: None,
    };

    let out = anthropic_to_openai(req, &base_config()).expect("ok");
    assert_eq!(out.messages.len(), 1);
    let msg = &out.messages[0];
    assert_eq!(msg.role, "assistant");
    let tool_calls = msg.tool_calls.as_ref().expect("tool_calls");
    assert_eq!(tool_calls.len(), 2);
    assert_eq!(tool_calls[0].function.name, "get_weather");
    assert_eq!(tool_calls[1].function.name, "get_time");
}

#[test]
fn openai_reasoning_to_anthropic_thinking() {
    let resp = OpenAIResponse {
        id: "chatcmpl-think".to_string(),
        model: "gpt-4o-mini".to_string(),
        choices: vec![OpenAIChoice {
            message: OpenAIChoiceMessage {
                role: "assistant".to_string(),
                content: Some("Hi".to_string()),
                tool_calls: None,
                reasoning_content: Some(OpenAIReasoning::Structured(OpenAIReasoningContent {
                    kind: "thinking".to_string(),
                    thinking: "Step".to_string(),
                    signature: "sig".to_string(),
                })),
            },
            finish_reason: Some("stop".to_string()),
        }],
        usage: None,
    };

    let out = openai_to_anthropic(resp).expect("translate ok");
    match &out.content[0] {
        AnthropicContentBlock::Thinking { thinking, .. } => assert_eq!(thinking, "Step"),
        _ => panic!("expected thinking block"),
    }
}

#[test]
fn openai_reasoning_string_to_anthropic_thinking() {
    let resp = OpenAIResponse {
        id: "chatcmpl-think-str".to_string(),
        model: "gpt-4o-mini".to_string(),
        choices: vec![OpenAIChoice {
            message: OpenAIChoiceMessage {
                role: "assistant".to_string(),
                content: Some("Hi".to_string()),
                tool_calls: None,
                reasoning_content: Some(OpenAIReasoning::Plain("Trace".to_string())),
            },
            finish_reason: Some("stop".to_string()),
        }],
        usage: None,
    };

    let out = openai_to_anthropic(resp).expect("translate ok");
    assert_eq!(out.content.len(), 2);
    match &out.content[0] {
        AnthropicContentBlock::Thinking { thinking, signature } => {
            assert_eq!(thinking, "Trace");
            assert_eq!(signature, "auto");
        }
        _ => panic!("expected thinking block"),
    }
}

#[test]
fn openai_models_to_anthropic_mapping() {
    let resp = OpenAIModelsResponse {
        data: vec![OpenAIModel {
            id: "gpt-4o-mini".to_string(),
            object: Some("model".to_string()),
            created: Some(1_700_000_000),
            owned_by: Some("openai".to_string()),
        }],
    };
    let map = vec![("gpt-4o-mini".to_string(), "GPT-4o Mini".to_string())];
    let out = openai_models_to_anthropic(resp, &map).expect("ok");
    assert_eq!(out.data.len(), 1);
    assert_eq!(out.data[0].id, "gpt-4o-mini");
    assert_eq!(out.data[0].model_type, "model");
    assert_eq!(out.data[0].display_name, "GPT-4o Mini");
    assert!(out.data[0].created_at.ends_with('Z'));
}

#[test]
fn model_display_name_titleized_without_map_entry() {
    let resp = OpenAIModelsResponse {
        data: vec![OpenAIModel {
            id: "gpt-4o-mini".to_string(),
            object: None,
            created: None,
            owned_by: None,
        }],
    };
    let out = openai_models_to_anthropic(resp, &Vec::new()).expect("ok");
    assert_eq!(out.data[0].display_name, "GPT 4O Mini");
    assert_eq!(out.data[0].created_at, "1970-01-01T00:00:00Z");
}

#[test]
fn model_created_renders_iso8601() {
    let resp = OpenAIModelsResponse {
        data: vec![OpenAIModel {
            id: "m".to_string(),
            object: None,
            created: Some(1_700_000_000),
            owned_by: None,
        }],
    };
    let out = openai_models_to_anthropic(resp, &Vec::new()).expect("ok");
    assert_eq!(out.data[0].created_at, "2023-11-14T22:13:20Z");
}

#[test]
fn model_negative_created_rejected() {
    let resp = OpenAIModelsResponse {
        data: vec![OpenAIModel {
            id: "m".to_string(),
            object: None,
            created: Some(-5),
            owned_by: None,
        }],
    };
    let err = openai_models_to_anthropic(resp, &Vec::new()).expect_err("should fail");
    assert_eq!(err.error_type, "invalid_request_error");
    assert_eq!(err.message, "invalid created timestamp");
}

#[test]
fn reasoning_effort_follows_thinking_budget() {
    let mut req = text_request("gpt-4o-mini", 8, "Ping");
    req.thinking = Some(AnthropicThinking {
        thinking_type: "enabled".to_string(),
        budget_tokens: Some(5000),
    });
    let out = anthropic_to_openai(req, &base_config()).expect("translate ok");
    assert_eq!(out.reasoning_effort, Some("medium".to_string()));

    let mut req_high = text_request("gpt-4o-mini", 8, "Ping");
    req_high.thinking = Some(AnthropicThinking {
        thinking_type: "enabled".to_string(),
        budget_tokens: Some(9000),
    });
    let out_high = anthropic_to_openai(req_high, &base_config()).expect("translate ok");
    assert_eq!(out_high.reasoning_effort, Some("high".to_string()));

    let mut req_low = text_request("gpt-4o-mini", 8, "Ping");
    req_low.thinking = Some(AnthropicThinking {
        thinking_type: "enabled".to_string(),
        budget_tokens: Some(100),
    });
    let out_low = anthropic_to_openai(req_low, &base_config()).expect("translate ok");
    assert_eq!(out_low.reasoning_effort, None);
}

#[test]
fn assistant_thinking_attached_as_reasoning_content() {
    let mut req = text_request("gpt-4o-mini", 8, "Ping");
    req.thinking = Some(AnthropicThinking {
        thinking_type: "enabled".to_string(),
        budget_tokens: Some(5000),
    });
    req.messages = vec![AnthropicMessage {
        role: "assistant".to_string(),
        content: AnthropicContent::Blocks(vec![
            AnthropicContentBlock::Thinking {
                thinking: "step one".to_string(),
                signature: "sig".to_string(),
            },
            AnthropicContentBlock::Text { text: "answer".to_string(), cache_control: None },
        ]),
    }];
    let out = anthropic_to_openai(req, &base_config()).expect("translate ok");
    assert_eq!(out.messages.len(), 1);
    assert_eq!(out.messages[0].reasoning_content, Some("step one".to_string()));
}

#[test]
fn tool_result_becomes_tool_message() {
    let mut req = text_request("gpt-4o-mini", 8, "Ping");
    req.messages = vec![AnthropicMessage {
        role: "user".to_string(),
        content: AnthropicContent::Blocks(vec![AnthropicContentBlock::ToolResult {
            tool_use_id: "toolu_9".to_string(),
            content: llm_gateway::dialect::ToolResultContent::Text("sunny".to_string()),
            is_error: None,
        }]),
    }];
    let out = anthropic_to_openai(req, &base_config()).expect("translate ok");
    assert_eq!(out.messages.len(), 1);
    assert_eq!(out.messages[0].role, "tool");
    assert_eq!(out.messages[0].tool_call_id, Some("toolu_9".to_string()));
}

#[test]
fn unexpected_role_is_rejected() {
    let mut req = text_request("gpt-4o-mini", 8, "Ping");
    req.messages = vec![AnthropicMessage {
        role: "narrator".to_string(),
        content: AnthropicContent::Text("Ping".to_string()),
    }];
    let err = anthropic_to_openai(req, &base_config()).expect_err("should reject");
    assert_eq!(err.error_type, "invalid_request_error");
    assert_eq!(err.message, "messages: Unexpected role \"narrator\"");
}

#[test]
fn invalid_tool_arguments_in_response_rejected() {
    let resp = OpenAIResponse {
        id: "chatcmpl-bad".to_string(),
        model: "gpt-4o-mini".to_string(),
        choices: vec![OpenAIChoice {
            message: OpenAIChoiceMessage {
                role: "assistant".to_string(),
                content: None,
                tool_calls: Some(vec![OpenAIToolCall {
                    id: "call_1".to_string(),
                    call_type: "function".to_string(),
                    function: OpenAIToolCallFunction {
                        name: "get_weather".to_string(),
                        arguments: "{\"location\":".to_string(),
                    },
                }]),
                reasoning_content: None,
            },
            finish_reason: Some("tool_calls".to_string()),
        }],
        usage: None,
    };
    let err = openai_to_anthropic(resp).expect_err("should fail");
    assert_eq!(err.error_type, "api_error");
}
