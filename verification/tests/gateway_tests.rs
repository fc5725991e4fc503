use llm_gateway::audit::{build_audit_context, build_log_path, headers_to_map, parse_body_value};
use llm_gateway::config::{
    AnthropicConfig, AuditLogConfig, Config, DownstreamConfig, ExportersConfig, LimitsConfig,
    LoggingConfig, ModelsConfig, ObservabilityConfig, OtlpGrpcConfig, OtlpHttpConfig,
    ServerConfig,
};
use llm_gateway::error::map_downstream_error;
use llm_gateway::pipeline::{
    build_passthrough_headers, next_request_id, plan_request, InflightCounter,
};

fn config_with(mode: &str, base_url: &str) -> Config {
    Config {
        server: ServerConfig { bind_addr: "127.0.0.1:0".to_string() },
        downstream: DownstreamConfig {
            base_url: base_url.to_string(),
            api_key: Some("sk-test".to_string()),
            anthropic_version: None,
            anthropic_beta: None,
            connect_timeout_ms: 5000,
            read_timeout_ms: 30000,
            pool_max_idle_per_host: 8,
        },
        anthropic: AnthropicConfig { forward_mode: mode.to_string() },
        models: ModelsConfig {
            model_map: vec![("opus-relay".to_string(), "mapped-model".to_string())],
            display_map: Vec::new(),
            allowlist: Vec::new(),
            blocklist: Vec::new(),
            thinking_map: Vec::new(),
            output_strict: true,
            allow_images: true,
            document_policy: "reject".to_string(),
            models_override: None,
        },
        limits: LimitsConfig { max_inflight: 8 },
        observability: ObservabilityConfig {
            service_name: "llm-gateway".to_string(),
            dump_downstream: false,
            audit_log: AuditLogConfig {
                enabled: true,
                path: Some("/tmp/audit.jsonl".to_string()),
                max_body_bytes: 1048576,
                max_file_bytes: 1048576,
            },
            logging: LoggingConfig {
                level: "info".to_string(),
                format: "text".to_string(),
                stdout: true,
                file: None,
            },
            otlp_grpc: OtlpGrpcConfig {
                endpoint: "http://localhost:4317".to_string(),
                timeout_ms: 3000,
            },
            otlp_http: OtlpHttpConfig {
                base_url: "https://cloud.langfuse.com/api/public/otel".to_string(),
                public_key: String::new(),
                secret_key: String::new(),
                timeout_ms: 5000,
            },
            exporters: ExportersConfig {
                tracing: "otlp_grpc".to_string(),
                metrics: "otlp_grpc".to_string(),
            },
        },
    }
}

#[test]
fn urls_insert_v1_segment() {
    let cfg = config_with("translate", "https://api.openai.com");
    assert_eq!(cfg.chat_completions_url(), "https://api.openai.com/v1/chat/completions");
    assert_eq!(cfg.anthropic_messages_url(), "https://api.openai.com/v1/messages");
    assert_eq!(cfg.models_url(), "https://api.openai.com/v1/models");
    assert_eq!(cfg.anthropic_models_url(), "https://api.openai.com/v1/models");
}

#[test]
fn urls_keep_existing_v1_and_trim_slashes() {
    let cfg = config_with("translate", "https://api.openai.com/v1/");
    assert_eq!(cfg.chat_completions_url(), "https://api.openai.com/v1/chat/completions");
    assert_eq!(cfg.anthropic_messages_url(), "https://api.openai.com/v1/messages");
}

#[test]
fn otlp_http_endpoints_derive_from_base() {
    let cfg = config_with("translate", "https://api.openai.com");
    assert_eq!(
        cfg.observability.otlp_http.traces_endpoint(),
        "https://cloud.langfuse.com/api/public/otel/v1/traces"
    );
    assert_eq!(
        cfg.observability.otlp_http.metrics_endpoint(),
        "https://cloud.langfuse.com/api/public/otel/v1/metrics"
    );
}

#[test]
fn normalize_lowercases_and_clears_blanks() {
    let mut cfg = config_with("Translate", "https://api.openai.com");
    cfg.downstream.anthropic_version = Some("  ".to_string());
    cfg.observability.logging.level = "INFO".to_string();
    cfg.normalize().expect("valid config");
    assert_eq!(cfg.anthropic.forward_mode, "translate");
    assert_eq!(cfg.downstream.anthropic_version, None);
    assert_eq!(cfg.observability.logging.level, "info");
}

#[test]
fn normalize_rejects_bad_mode() {
    let mut cfg = config_with("proxy", "https://api.openai.com");
    let err = cfg.normalize().expect_err("invalid mode");
    assert_eq!(err, "anthropic.forward_mode invalid: proxy");
}

#[test]
fn normalize_requires_api_key_for_translate() {
    let mut cfg = config_with("translate", "https://api.openai.com");
    cfg.downstream.api_key = None;
    let err = cfg.normalize().expect_err("missing key");
    assert_eq!(err, "downstream.api_key is required");
}

#[test]
fn normalize_checks_audit_knobs() {
    let mut cfg = config_with("passthrough", "https://api.openai.com");
    cfg.observability.audit_log.max_body_bytes = 0;
    let err = cfg.normalize().expect_err("bad audit size");
    assert_eq!(err, "audit_log.max_body_bytes must be > 0");
}

#[test]
fn document_policy_parses_or_rejects() {
    let cfg = config_with("translate", "https://api.openai.com");
    assert!(cfg.document_policy().is_ok());
    let mut bad = config_with("translate", "https://api.openai.com");
    bad.models.document_policy = "shred".to_string();
    let err = bad.document_policy().expect_err("invalid policy");
    assert_eq!(err, "DOCUMENT_POLICY invalid: shred");
}

#[test]
fn thinking_map_pairs_sorted_ascending() {
    let mut cfg = config_with("translate", "https://api.openai.com");
    cfg.models.thinking_map = vec![
        (8000, "high".to_string()),
        (1000, "low".to_string()),
        (4000, "medium".to_string()),
    ];
    let pairs = cfg.thinking_map_pairs();
    assert_eq!(
        pairs,
        vec![
            (1000, "low".to_string()),
            (4000, "medium".to_string()),
            (8000, "high".to_string())
        ]
    );
}

#[test]
fn plan_requires_model() {
    let cfg = config_with("translate", "https://api.openai.com");
    let err = plan_request(None, &cfg).expect_err("missing model");
    assert_eq!(err.status, 400);
    assert_eq!(err.message, "model is required");
    let err_empty = plan_request(Some(String::new()), &cfg).expect_err("empty model");
    assert_eq!(err_empty.message, "model is required");
}

#[test]
fn plan_enforces_allowlist_and_blocklist() {
    let mut cfg = config_with("translate", "https://api.openai.com");
    cfg.models.allowlist = vec!["gpt-4o".to_string()];
    let err = plan_request(Some("opus-relay".to_string()), &cfg).expect_err("not allowed");
    assert_eq!(err.message, "model not in allowlist");

    let mut cfg2 = config_with("translate", "https://api.openai.com");
    cfg2.models.blocklist = vec!["opus-relay".to_string()];
    let err2 = plan_request(Some("opus-relay".to_string()), &cfg2).expect_err("blocked");
    assert_eq!(err2.message, "model is blocked");
}

#[test]
fn plan_applies_model_map_only_in_translate_mode() {
    let cfg = config_with("translate", "https://api.openai.com");
    let plan = plan_request(Some("opus-relay".to_string()), &cfg).expect("admitted");
    assert!(!plan.passthrough);
    assert_eq!(plan.model, "mapped-model");

    let cfg_pass = config_with("passthrough", "https://api.openai.com");
    let plan_pass = plan_request(Some("opus-relay".to_string()), &cfg_pass).expect("admitted");
    assert!(plan_pass.passthrough);
    assert_eq!(plan_pass.model, "opus-relay");
}

#[test]
fn request_id_format() {
    assert_eq!(next_request_id(1700000000123, 1), "req-1700000000123-1");
    assert_eq!(next_request_id(0, 42), "req-0-42");
}

#[test]
fn inflight_counter_round_trip() {
    let mut gauge = InflightCounter::new(2);
    assert!(gauge.try_acquire());
    assert!(gauge.try_acquire());
    assert!(!gauge.try_acquire());
    assert_eq!(gauge.count, 2);
    gauge.release();
    gauge.release();
    assert_eq!(gauge.count, 0);
}

#[test]
fn passthrough_headers_drop_and_rewrite_host() {
    let incoming = vec![
        ("host".to_string(), "gateway.local".to_string()),
        ("content-length".to_string(), "42".to_string()),
        ("x-api-key".to_string(), "sk-upstream".to_string()),
        ("anthropic-version".to_string(), "2023-06-01".to_string()),
    ];
    let out = build_passthrough_headers(&incoming, "http://upstream.example:8080/base");
    assert_eq!(
        out,
        vec![
            ("x-api-key".to_string(), "sk-upstream".to_string()),
            ("anthropic-version".to_string(), "2023-06-01".to_string()),
            ("host".to_string(), "upstream.example:8080".to_string()),
        ]
    );

    let out_no_port = build_passthrough_headers(&incoming, "https://upstream.example/base");
    assert_eq!(out_no_port.last().unwrap(), &("host".to_string(), "upstream.example".to_string()));

    let out_bad = build_passthrough_headers(&incoming, "not a url");
    assert_eq!(out_bad.len(), 2);
}

#[test]
fn headers_map_redacts_authorization() {
    let headers = vec![
        ("Authorization".to_string(), "Bearer sk-secret".to_string()),
        ("content-type".to_string(), "application/json".to_string()),
    ];
    let out = headers_to_map(&headers);
    assert_eq!(out[0], ("Authorization".to_string(), "[redacted]".to_string()));
    assert_eq!(out[1], ("content-type".to_string(), "application/json".to_string()));
}

#[test]
fn log_path_rotation_names() {
    assert_eq!(build_log_path("audit.jsonl", 17), "audit.17.jsonl");
    assert_eq!(build_log_path("audit.log", 17), "audit.log.17");
}

#[test]
fn body_values_parse_or_null() {
    let (ok_body, ok_err) = parse_body_value("{\"a\":1}");
    assert_eq!(ok_body, "{\"a\":1}");
    assert!(!ok_err);
    let (bad_body, bad_err) = parse_body_value("not json");
    assert_eq!(bad_body, "null");
    assert!(bad_err);
}

#[test]
fn audit_context_finish_builds_record() {
    let headers = vec![("authorization".to_string(), "Bearer sk".to_string())];
    let ctx = build_audit_context(
        true,
        true,
        100,
        "req-1-1",
        "/v1/messages",
        "passthrough",
        "POST",
        &headers,
        "{\"model\":\"m\"}",
        Some("m".to_string()),
        Some(false),
    )
    .expect("context");
    assert_eq!(ctx.request_headers[0].1, "[redacted]");
    let record = ctx.finish(
        200,
        vec![("content-type".to_string(), "application/json".to_string())],
        "{\"ok\":true}".to_string(),
        false,
        false,
        250,
    );
    assert_eq!(record.ts_start_ms, 100);
    assert_eq!(record.ts_end_ms, 250);
    assert_eq!(record.request_id, "req-1-1");
    assert_eq!(record.mode, "passthrough");
    assert_eq!(record.response.status, 200);
    assert_eq!(record.meta.model, Some("m".to_string()));
    assert!(!record.meta.body_truncated);

    let none = build_audit_context(
        false,
        true,
        100,
        "req-1-2",
        "/v1/messages",
        "passthrough",
        "POST",
        &headers,
        "{}",
        None,
        None,
    );
    assert!(none.is_none());
}

#[test]
fn downstream_errors_map_to_kinds() {
    let auth = map_downstream_error(401, "bad key");
    assert_eq!(auth.status, 502);
    assert_eq!(auth.error_type, "authentication_error");
    assert_eq!(auth.message, "downstream error: bad key");

    assert_eq!(map_downstream_error(400, "x").error_type, "invalid_request_error");
    assert_eq!(map_downstream_error(403, "x").error_type, "permission_error");
    assert_eq!(map_downstream_error(404, "x").error_type, "not_found_error");
    assert_eq!(map_downstream_error(429, "x").error_type, "rate_limit_error");
    assert_eq!(map_downstream_error(500, "x").error_type, "api_error");
    assert_eq!(map_downstream_error(503, "x").error_type, "overloaded_error");
    assert_eq!(map_downstream_error(418, "x").error_type, "api_error");
    assert_eq!(map_downstream_error(500, "").message, "downstream error: 500");
}

#[test]
fn titleize_pins_display_rule() {
    assert_eq!(llm_gateway::translate::titleize_model_id("gpt-4o-mini"), "GPT 4O Mini");
    assert_eq!(llm_gateway::translate::titleize_model_id("nova-sonnet"), "Nova Sonnet");
    assert_eq!(llm_gateway::translate::titleize_model_id("o1"), "O1");
    assert_eq!(llm_gateway::translate::titleize_model_id(""), "");
}

#[test]
fn iso8601_rendering_pins_epoch_and_known_instant() {
    assert_eq!(llm_gateway::translate::unix_to_iso8601(0).expect("ok"), "1970-01-01T00:00:00Z");
    assert_eq!(
        llm_gateway::translate::unix_to_iso8601(1_700_000_000).expect("ok"),
        "2023-11-14T22:13:20Z"
    );
    let err = llm_gateway::translate::unix_to_iso8601(-1).expect_err("negative");
    assert_eq!(err.error_type, "invalid_request_error");
}

#[test]
fn civil_from_days_pins_known_dates() {
    assert_eq!(llm_gateway::translate::civil_from_days(0), (1970, 1, 1));
    assert_eq!(llm_gateway::translate::civil_from_days(19675), (2023, 11, 14));
    assert_eq!(llm_gateway::translate::civil_from_days(59), (1970, 3, 1));
    assert_eq!(llm_gateway::translate::civil_from_days(11016), (2000, 2, 29));
}

#[test]
fn rate_limit_error_shape() {
    let err = llm_gateway::error::AppError::rate_limited("too many in-flight requests");
    assert_eq!(err.status, 429);
    assert_eq!(err.error_type, "rate_limit_error");
}

#[test]
fn decimal_rendering_pads() {
    assert_eq!(llm_gateway::text::dec_u64(0), "0");
    assert_eq!(llm_gateway::text::dec_u64(90210), "90210");
    assert_eq!(llm_gateway::text::dec_u64_pad(7, 4), "0007");
    assert_eq!(llm_gateway::text::dec_u64_pad(12345, 4), "12345");
}

#[test]
fn translate_errors_keep_canonical_status() {
    let bad_req = llm_gateway::translate::TranslateError::invalid_request("nope");
    let e1 = llm_gateway::error::AppError::from_translate(bad_req);
    assert_eq!(e1.status, 400);
    assert_eq!(e1.error_type, "invalid_request_error");
    assert_eq!(e1.message, "nope");

    let bad_resp = llm_gateway::translate::TranslateError::api_error("missing assistant content");
    let e2 = llm_gateway::error::AppError::from_translate(bad_resp);
    assert_eq!(e2.status, 500);
    assert_eq!(e2.error_type, "api_error");
    assert_eq!(e2.message, "missing assistant content");
}

#[test]
fn audit_capture_bound_is_checked_before_appending() {
    assert!(llm_gateway::audit::audit_capture_allows(0, 10, 10));
    assert!(llm_gateway::audit::audit_capture_allows(5, 5, 10));
    assert!(!llm_gateway::audit::audit_capture_allows(5, 6, 10));
    assert!(!llm_gateway::audit::audit_capture_allows(0, 11, 10));
    assert!(llm_gateway::audit::audit_capture_allows(usize::MAX - 1, 1, usize::MAX));
    assert!(!llm_gateway::audit::audit_capture_allows(usize::MAX, 1, usize::MAX));
}
