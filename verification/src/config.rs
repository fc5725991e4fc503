//! The gateway's configuration model and its normalisation rules.
//!
//! Loading (environment, file, YAML) happens outside the library; the library
//! owns the shape of the configuration, its defaults, the URL derivation for
//! the downstream endpoints, and the validation in [`Config::normalize`].

use vstd::multiset::Multiset;
use vstd::prelude::*;

use crate::dialect::AnthropicModel;
use crate::text::{
    all_ws, char_is_ws, concat2, concat3, copy_str, is_blank, lower_ascii, lower_seq, str_ends_with,
    str_eq,
};

verus! {

broadcast use {
    vstd::multiset::group_multiset_axioms,
    vstd::seq_lib::group_to_multiset_ensures,
    vstd::string::group_string_axioms,
};

/// Top-level configuration.
#[derive(Debug, Clone)]
pub struct Config {
    pub server: ServerConfig,
    pub downstream: DownstreamConfig,
    pub anthropic: AnthropicConfig,
    pub models: ModelsConfig,
    pub limits: LimitsConfig,
    pub observability: ObservabilityConfig,
}

/// Listening address of the gateway itself.
#[derive(Debug, Clone)]
pub struct ServerConfig {
    pub bind_addr: String,
}

/// The upstream the gateway forwards to.
#[derive(Debug, Clone)]
pub struct DownstreamConfig {
    pub base_url: String,
    pub api_key: Option<String>,
    pub anthropic_version: Option<String>,
    pub anthropic_beta: Option<String>,
    pub connect_timeout_ms: u64,
    pub read_timeout_ms: u64,
    pub pool_max_idle_per_host: usize,
}

/// How Anthropic requests are served.
#[derive(Debug, Clone)]
pub struct AnthropicConfig {
    pub forward_mode: String,
}

/// Model naming, filtering and translation knobs.  The maps are association
/// lists looked up by first match.
#[derive(Debug, Clone)]
pub struct ModelsConfig {
    pub model_map: Vec<(String, String)>,
    pub display_map: Vec<(String, String)>,
    pub allowlist: Vec<String>,
    pub blocklist: Vec<String>,
    /// Thinking-budget thresholds mapped to reasoning efforts.
    pub thinking_map: Vec<(u32, String)>,
    pub output_strict: bool,
    pub allow_images: bool,
    pub document_policy: String,
    pub models_override: Option<Vec<AnthropicModel>>,
}

/// Admission limits.
#[derive(Debug, Clone)]
pub struct LimitsConfig {
    pub max_inflight: usize,
}

/// Telemetry and audit knobs.
#[derive(Debug, Clone)]
pub struct ObservabilityConfig {
    pub service_name: String,
    pub dump_downstream: bool,
    pub audit_log: AuditLogConfig,
    pub logging: LoggingConfig,
    pub otlp_grpc: OtlpGrpcConfig,
    pub otlp_http: OtlpHttpConfig,
    pub exporters: ExportersConfig,
}

/// An OTLP/gRPC exporter endpoint.
#[derive(Debug, Clone)]
pub struct OtlpGrpcConfig {
    pub endpoint: String,
    pub timeout_ms: u64,
}

/// An OTLP/HTTP exporter endpoint with basic-auth keys.
#[derive(Debug, Clone)]
pub struct OtlpHttpConfig {
    pub base_url: String,
    pub public_key: String,
    pub secret_key: String,
    pub timeout_ms: u64,
}

/// Which exporter serves traces and which serves metrics.
#[derive(Debug, Clone)]
pub struct ExportersConfig {
    pub tracing: String,
    pub metrics: String,
}

/// Log output knobs.
#[derive(Debug, Clone)]
pub struct LoggingConfig {
    pub level: String,
    pub format: String,
    pub stdout: bool,
    pub file: Option<String>,
}

/// The audit recorder's knobs.
#[derive(Debug, Clone)]
pub struct AuditLogConfig {
    pub enabled: bool,
    pub path: Option<String>,
    pub max_body_bytes: usize,
    pub max_file_bytes: u64,
}

/// What to do with `document` content blocks.
#[derive(Debug, Clone, Copy)]
pub enum DocumentPolicy {
    Reject,
    Strip,
    TextOnly,
}

// ---------------------------------------------------------------------------
// defaults
// ---------------------------------------------------------------------------

pub fn default_bind_addr() -> (r: String)
    ensures
        r@ == "0.0.0.0:8080"@,
{
    copy_str("0.0.0.0:8080")
}

pub fn default_openai_base_url() -> (r: String)
    ensures
        r@ == "https://api.openai.com"@,
{
    copy_str("https://api.openai.com")
}

pub fn default_connect_timeout_ms() -> (r: u64)
    ensures
        r == 5000,
{
    5000
}

pub fn default_read_timeout_ms() -> (r: u64)
    ensures
        r == 60000,
{
    60000
}

pub fn default_pool_max_idle_per_host() -> (r: usize)
    ensures
        r == 64,
{
    64
}

pub fn default_max_inflight() -> (r: usize)
    ensures
        r == 512,
{
    512
}

pub fn default_otlp_endpoint() -> (r: String)
    ensures
        r@ == "http://localhost:4317"@,
{
    copy_str("http://localhost:4317")
}

pub fn default_service_name() -> (r: String)
    ensures
        r@ == "llm-gateway"@,
{
    copy_str("llm-gateway")
}

pub fn default_otlp_timeout_ms() -> (r: u64)
    ensures
        r == 3000,
{
    3000
}

pub fn default_tracing_exporter() -> (r: String)
    ensures
        r@ == "otlp_grpc"@,
{
    copy_str("otlp_grpc")
}

pub fn default_langfuse_http_base_url() -> (r: String)
    ensures
        r@ == "https://cloud.langfuse.com/api/public/otel"@,
{
    copy_str("https://cloud.langfuse.com/api/public/otel")
}

pub fn default_langfuse_timeout_ms() -> (r: u64)
    ensures
        r == 5000,
{
    5000
}

pub fn default_langfuse_metrics_endpoint() -> (r: String)
    ensures
        r@ == "https://cloud.langfuse.com/api/public/otel/v1/metrics"@,
{
    copy_str("https://cloud.langfuse.com/api/public/otel/v1/metrics")
}

pub fn default_exporter_kind() -> (r: String)
    ensures
        r@ == "otlp_grpc"@,
{
    copy_str("otlp_grpc")
}

pub fn default_log_level() -> (r: String)
    ensures
        r@ == "info"@,
{
    copy_str("info")
}

pub fn default_log_format() -> (r: String)
    ensures
        r@ == "text"@,
{
    copy_str("text")
}

pub fn default_log_stdout() -> (r: bool)
    ensures
        r == true,
{
    true
}

pub fn default_allow_images() -> (r: bool)
    ensures
        r == true,
{
    true
}

pub fn default_document_policy() -> (r: String)
    ensures
        r@ == "reject"@,
{
    copy_str("reject")
}

pub fn default_output_strict() -> (r: bool)
    ensures
        r == true,
{
    true
}

pub fn default_forward_mode() -> (r: String)
    ensures
        r@ == "passthrough"@,
{
    copy_str("passthrough")
}

pub fn default_audit_max_body_bytes() -> (r: usize)
    ensures
        r == 1048576,
{
    1048576
}

pub fn default_audit_max_file_bytes() -> (r: u64)
    ensures
        r == 1048576,
{
    1048576
}

impl Default for AnthropicConfig {
    fn default() -> (r: Self)
        ensures
            r.forward_mode@ == "passthrough"@,
    {
        AnthropicConfig { forward_mode: default_forward_mode() }
    }
}

impl Default for OtlpGrpcConfig {
    fn default() -> (r: Self)
        ensures
            r.endpoint@ == "http://localhost:4317"@,
            r.timeout_ms == 3000,
    {
        OtlpGrpcConfig { endpoint: default_otlp_endpoint(), timeout_ms: default_otlp_timeout_ms() }
    }
}

impl Default for OtlpHttpConfig {
    fn default() -> (r: Self)
        ensures
            r.base_url@ == "https://cloud.langfuse.com/api/public/otel"@,
            r.public_key@ == Seq::<char>::empty(),
            r.secret_key@ == Seq::<char>::empty(),
            r.timeout_ms == 5000,
    {
        OtlpHttpConfig {
            base_url: default_langfuse_http_base_url(),
            public_key: String::new(),
            secret_key: String::new(),
            timeout_ms: default_langfuse_timeout_ms(),
        }
    }
}

impl Default for ExportersConfig {
    fn default() -> (r: Self)
        ensures
            r.tracing@ == "otlp_grpc"@,
            r.metrics@ == "otlp_grpc"@,
    {
        ExportersConfig { tracing: default_exporter_kind(), metrics: default_exporter_kind() }
    }
}

impl Default for LoggingConfig {
    fn default() -> (r: Self)
        ensures
            r.level@ == "info"@,
            r.format@ == "text"@,
            r.stdout == true,
            r.file is None,
    {
        LoggingConfig {
            level: default_log_level(),
            format: default_log_format(),
            stdout: default_log_stdout(),
            file: None,
        }
    }
}

impl Default for AuditLogConfig {
    fn default() -> (r: Self)
        ensures
            r.enabled == false,
            r.path is None,
            r.max_body_bytes == 1048576,
            r.max_file_bytes == 1048576,
    {
        AuditLogConfig {
            enabled: false,
            path: None,
            max_body_bytes: default_audit_max_body_bytes(),
            max_file_bytes: default_audit_max_file_bytes(),
        }
    }
}

// ---------------------------------------------------------------------------
// association lists
// ---------------------------------------------------------------------------

/// First-match lookup in an association list.
pub open spec fn assoc_lookup(m: Seq<(String, String)>, k: Seq<char>) -> Option<Seq<char>>
    decreases m.len(),
{
    if m.len() == 0 {
        None
    } else if m[0].0@ == k {
        Some(m[0].1@)
    } else {
        assoc_lookup(m.drop_first(), k)
    }
}

/// Looks a key up in an association list; first match wins.
pub fn lookup(m: &Vec<(String, String)>, key: &str) -> (r: Option<String>)
    ensures
        match r {
            Some(v) => assoc_lookup(m@, key@) == Some(v@),
            None => assoc_lookup(m@, key@) is None,
        },
{
    let n = m.len();
    let mut i: usize = 0;
    proof {
        assert(m@.skip(0) =~= m@);
    }
    while i < n
        invariant
            n == m@.len(),
            i <= n,
            assoc_lookup(m@, key@) == assoc_lookup(m@.skip(i as int), key@),
        decreases n - i,
    {
        proof {
            assert(m@.skip(i as int).drop_first() =~= m@.skip(i + 1));
            assert(m@.skip(i as int)[0] == m@[i as int]);
        }
        if str_eq(m[i].0.as_str(), key) {
            return Some(m[i].1.clone());
        }
        i = i + 1;
    }
    proof {
        assert(m@.skip(n as int) =~= Seq::<(String, String)>::empty());
    }
    None
}

/// Does the list hold this string?
pub fn list_contains(v: &Vec<String>, s: &str) -> (r: bool)
    ensures
        r == (exists|i: int| 0 <= i < v@.len() && v@[i]@ == s@),
{
    let n = v.len();
    let mut i: usize = 0;
    while i < n
        invariant
            n == v@.len(),
            i <= n,
            forall|j: int| 0 <= j < i ==> v@[j]@ != s@,
        decreases n - i,
    {
        if str_eq(v[i].as_str(), s) {
            return true;
        }
        i = i + 1;
    }
    false
}

// ---------------------------------------------------------------------------
// URL derivation
// ---------------------------------------------------------------------------

/// `s` with all trailing `'/'` removed.
pub open spec fn trim_trailing_slashes(s: Seq<char>) -> Seq<char>
    decreases s.len(),
{
    if s.len() > 0 && s[s.len() - 1] == '/' {
        trim_trailing_slashes(s.drop_last())
    } else {
        s
    }
}

/// `s` ends with `suffix`.
pub open spec fn ends_with_seq(s: Seq<char>, suffix: Seq<char>) -> bool {
    s.len() >= suffix.len() && s.subrange(s.len() - suffix.len(), s.len() as int) == suffix
}

/// The base URL with one API path appended; an existing `/v1` segment at the
/// end of the base is not doubled.
pub open spec fn url_with(base: Seq<char>, tail: Seq<char>) -> Seq<char> {
    let b = trim_trailing_slashes(base);
    if ends_with_seq(b, "/v1"@) {
        b + tail
    } else {
        b + "/v1"@ + tail
    }
}

proof fn lemma_trim_trailing(s: Seq<char>, e: int)
    requires
        0 <= e <= s.len(),
        forall|j: int| e <= j < s.len() ==> s[j] == '/',
        e > 0 ==> s[e - 1] != '/',
    ensures
        trim_trailing_slashes(s) == s.take(e),
    decreases s.len(),
{
    if s.len() > 0 && s[s.len() - 1] == '/' {
        assert(e < s.len());
        lemma_trim_trailing(s.drop_last(), e);
        assert(s.drop_last().take(e) =~= s.take(e));
    } else {
        assert(e == s.len());
        assert(s.take(e) =~= s);
    }
}

/// The base with trailing slashes removed.
fn trim_base(s: &str) -> (r: &str)
    ensures
        r@ == trim_trailing_slashes(s@),
{
    let n = s.unicode_len();
    let mut e: usize = n;
    while e > 0 && s.get_char(e - 1) == '/'
        invariant
            n == s@.len(),
            e <= n,
            forall|j: int| e <= j < n ==> s@[j] == '/',
        decreases e,
    {
        e = e - 1;
    }
    proof {
        lemma_trim_trailing(s@, e as int);
    }
    s.substring_char(0, e)
}

/// Joins the trimmed base and the given path, inserting `/v1` unless the
/// base already ends with it.
fn join_url(base: &str, tail: &str) -> (r: String)
    ensures
        r@ == url_with(base@, tail@),
{
    let b = trim_base(base);
    if str_ends_with(b, "/v1") {
        concat2(b, tail)
    } else {
        concat3(b, "/v1", tail)
    }
}

// ---------------------------------------------------------------------------
// option views
// ---------------------------------------------------------------------------

/// The character sequences behind an optional string.
pub open spec fn opt_view(o: Option<String>) -> Option<Seq<char>> {
    match o {
        Some(s) => Some(s@),
        None => None,
    }
}

/// A blank optional string collapses to `None`.
pub open spec fn clear_blank(o: Option<Seq<char>>) -> Option<Seq<char>> {
    match o {
        Some(s) => if all_ws(s) {
            None
        } else {
            Some(s)
        },
        None => None,
    }
}

/// Does the option hold a string with a visible character?
pub open spec fn opt_nonblank(o: Option<String>) -> bool {
    match o {
        Some(s) => !all_ws(s@),
        None => false,
    }
}

// ---------------------------------------------------------------------------
// document policy and normalisation
// ---------------------------------------------------------------------------

/// The policy a `document_policy` string denotes, if any.
pub open spec fn policy_of(s: Seq<char>) -> Option<DocumentPolicy> {
    if s == "reject"@ {
        Some(DocumentPolicy::Reject)
    } else if s == "strip"@ {
        Some(DocumentPolicy::Strip)
    } else if s == "text_only"@ {
        Some(DocumentPolicy::TextOnly)
    } else {
        None
    }
}

/// The first normalisation failure of a configuration, if any, as its error
/// message.
pub open spec fn normalize_err(c: Config) -> Option<Seq<char>> {
    let mode = lower_seq(c.anthropic.forward_mode@);
    let fmt = lower_seq(c.observability.logging.format@);
    let lvl = lower_seq(c.observability.logging.level@);
    if mode != "passthrough"@ && mode != "translate"@ {
        Some("anthropic.forward_mode invalid: "@ + mode)
    } else if mode != "passthrough"@ && !opt_nonblank(c.downstream.api_key) {
        Some("downstream.api_key is required"@)
    } else if c.observability.audit_log.enabled && c.observability.audit_log.max_body_bytes == 0 {
        Some("audit_log.max_body_bytes must be > 0"@)
    } else if c.observability.audit_log.enabled && c.observability.audit_log.max_file_bytes == 0 {
        Some("audit_log.max_file_bytes must be > 0"@)
    } else if c.observability.audit_log.enabled && !opt_nonblank(c.observability.audit_log.path) {
        Some("audit_log.path is required when dump_downstream=true"@)
    } else if fmt != "text"@ && fmt != "json"@ {
        Some("logging.format invalid: "@ + fmt)
    } else if lvl != "trace"@ && lvl != "debug"@ && lvl != "info"@ && lvl != "warn"@ && lvl
        != "error"@ {
        Some("logging.level invalid: "@ + lvl)
    } else {
        None
    }
}

impl Config {
    /// URL of the OpenAI chat-completions endpoint.
    pub fn chat_completions_url(&self) -> (r: String)
        ensures
            r@ == url_with(self.downstream.base_url@, "/chat/completions"@),
    {
        join_url(self.downstream.base_url.as_str(), "/chat/completions")
    }

    /// URL of the Anthropic messages endpoint.
    pub fn anthropic_messages_url(&self) -> (r: String)
        ensures
            r@ == url_with(self.downstream.base_url@, "/messages"@),
    {
        join_url(self.downstream.base_url.as_str(), "/messages")
    }

    /// URL of the OpenAI model-list endpoint.
    pub fn models_url(&self) -> (r: String)
        ensures
            r@ == url_with(self.downstream.base_url@, "/models"@),
    {
        join_url(self.downstream.base_url.as_str(), "/models")
    }

    /// URL of the Anthropic model-list endpoint.
    pub fn anthropic_models_url(&self) -> (r: String)
        ensures
            r@ == url_with(self.downstream.base_url@, "/models"@),
    {
        join_url(self.downstream.base_url.as_str(), "/models")
    }

    /// The configured forward mode.
    pub fn forward_mode(&self) -> (r: &str)
        ensures
            r@ == self.anthropic.forward_mode@,
    {
        self.anthropic.forward_mode.as_str()
    }

    /// Connect timeout for the downstream client, in milliseconds.
    pub fn connect_timeout(&self) -> (r: u64)
        ensures
            r == self.downstream.connect_timeout_ms,
    {
        self.downstream.connect_timeout_ms
    }

    /// Read timeout for the downstream client, in milliseconds.
    pub fn read_timeout(&self) -> (r: u64)
        ensures
            r == self.downstream.read_timeout_ms,
    {
        self.downstream.read_timeout_ms
    }

    /// The document policy the configuration names, or the error message for
    /// an unknown name.
    pub fn document_policy(&self) -> (r: Result<DocumentPolicy, String>)
        ensures
            match r {
                Ok(p) => policy_of(self.models.document_policy@) == Some(p),
                Err(m) => policy_of(self.models.document_policy@) is None && m@
                    == "DOCUMENT_POLICY invalid: "@ + self.models.document_policy@,
            },
    {
        let s = self.models.document_policy.as_str();
        if str_eq(s, "reject") {
            Ok(DocumentPolicy::Reject)
        } else if str_eq(s, "strip") {
            Ok(DocumentPolicy::Strip)
        } else if str_eq(s, "text_only") {
            Ok(DocumentPolicy::TextOnly)
        } else {
            Err(concat2("DOCUMENT_POLICY invalid: ", s))
        }
    }

    /// The thinking map as threshold/effort pairs, sorted by ascending
    /// threshold.
    pub fn thinking_map_pairs(&self) -> (r: Vec<(u32, String)>)
        ensures
            r@.to_multiset() == self.models.thinking_map@.to_multiset(),
            forall|i: int, j: int| 0 <= i < j < r@.len() ==> r@[i].0 <= r@[j].0,
    {
        let src = &self.models.thinking_map;
        let n = src.len();
        let mut work: Vec<(u32, String)> = Vec::new();
        let mut i: usize = 0;
        while i < n
            invariant
                n == src@.len(),
                i <= n,
                work@ =~= src@.take(i as int),
            decreases n - i,
        {
            let key = src[i].0;
            let val = src[i].1.clone();
            work.push((key, val));
            i = i + 1;
            proof {
                assert(src@.take(i as int) =~= src@.take(i - 1).push(src@[i - 1]));
            }
        }
        proof {
            assert(work@ =~= src@);
        }
        let ghost input = src@;
        let mut out: Vec<(u32, String)> = Vec::new();
        while work.len() > 0
            invariant
                out@.to_multiset().add(work@.to_multiset()) =~= input.to_multiset(),
                forall|a: int, b: int| 0 <= a < b < out@.len() ==> out@[a].0 <= out@[b].0,
                forall|a: int, b: int|
                    0 <= a < out@.len() && 0 <= b < work@.len() ==> out@[a].0 <= work@[b].0,
            decreases work@.len(),
        {
            let mut min_i: usize = 0;
            let mut j: usize = 1;
            while j < work.len()
                invariant
                    work@.len() > 0,
                    min_i < work@.len(),
                    j <= work@.len(),
                    forall|k: int| 0 <= k < j ==> work@[min_i as int].0 <= work@[k].0,
                decreases work@.len() - j,
            {
                if work[j].0 < work[min_i].0 {
                    min_i = j;
                }
                j = j + 1;
            }
            let ghost old_work = work@;
            let ghost old_out = out@;
            let p = work.remove(min_i);
            out.push(p);
            proof {
                assert(old_work.to_multiset().count(p) > 0) by {
                    assert(old_work.contains(p));
                }
                assert(out@.to_multiset() =~= old_out.to_multiset().insert(p));
                assert(work@.to_multiset() =~= old_work.to_multiset().remove(p));
                assert(out@.to_multiset().add(work@.to_multiset()) =~= old_out.to_multiset().add(
                    old_work.to_multiset(),
                ));
                assert forall|b: int| 0 <= b < work@.len() implies p.0 <= work@[b].0 by {
                    if b < min_i {
                        assert(work@[b] == old_work[b]);
                    } else {
                        assert(work@[b] == old_work[b + 1]);
                    }
                }
            }
        }
        proof {
            assert(work@.to_multiset() =~= Multiset::<(u32, String)>::empty());
            assert(out@.to_multiset() =~= out@.to_multiset().add(work@.to_multiset()));
        }
        out
    }

    /// Validates the configuration and canonicalises its string knobs.
    ///
    /// On success the forward mode and logging knobs are lower-cased, blank
    /// optional strings collapse to `None`, and everything else is unchanged.
    /// On failure the configuration is left as it was.
    pub fn normalize(&mut self) -> (r: Result<(), String>)
        ensures
            match r {
                Ok(()) => {
                    &&& normalize_err(*old(self)) is None
                    &&& final(self).anthropic.forward_mode@ == lower_seq(
                        old(self).anthropic.forward_mode@,
                    )
                    &&& opt_view(final(self).downstream.api_key) == clear_blank(
                        opt_view(old(self).downstream.api_key),
                    )
                    &&& opt_view(final(self).downstream.anthropic_version) == clear_blank(
                        opt_view(old(self).downstream.anthropic_version),
                    )
                    &&& opt_view(final(self).downstream.anthropic_beta) == clear_blank(
                        opt_view(old(self).downstream.anthropic_beta),
                    )
                    &&& final(self).observability.logging.format@ == lower_seq(
                        old(self).observability.logging.format@,
                    )
                    &&& final(self).observability.logging.level@ == lower_seq(
                        old(self).observability.logging.level@,
                    )
                    &&& final(self).observability.logging.stdout == old(
                        self,
                    ).observability.logging.stdout
                    &&& final(self).observability.logging.file == old(
                        self,
                    ).observability.logging.file
                    &&& final(self).server == old(self).server
                    &&& final(self).models == old(self).models
                    &&& final(self).limits == old(self).limits
                    &&& final(self).downstream.base_url == old(self).downstream.base_url
                    &&& final(self).downstream.connect_timeout_ms == old(
                        self,
                    ).downstream.connect_timeout_ms
                    &&& final(self).downstream.read_timeout_ms == old(
                        self,
                    ).downstream.read_timeout_ms
                    &&& final(self).downstream.pool_max_idle_per_host == old(
                        self,
                    ).downstream.pool_max_idle_per_host
                    &&& final(self).observability.service_name == old(
                        self,
                    ).observability.service_name
                    &&& final(self).observability.dump_downstream == old(
                        self,
                    ).observability.dump_downstream
                    &&& final(self).observability.audit_log == old(self).observability.audit_log
                    &&& final(self).observability.otlp_grpc == old(self).observability.otlp_grpc
                    &&& final(self).observability.otlp_http == old(self).observability.otlp_http
                    &&& final(self).observability.exporters == old(self).observability.exporters
                },
                Err(m) => {
                    &&& normalize_err(*old(self)) == Some(m@)
                    &&& *final(self) == *old(self)
                },
            },
    {
        let mode = lower_ascii(self.anthropic.forward_mode.as_str());
        if !(str_eq(mode.as_str(), "passthrough") || str_eq(mode.as_str(), "translate")) {
            return Err(concat2("anthropic.forward_mode invalid: ", mode.as_str()));
        }
        if !str_eq(mode.as_str(), "passthrough") {
            let key_ok = match &self.downstream.api_key {
                Some(k) => !is_blank(k.as_str()),
                None => false,
            };
            if !key_ok {
                return Err(copy_str("downstream.api_key is required"));
            }
        }
        if self.observability.audit_log.enabled {
            if self.observability.audit_log.max_body_bytes == 0 {
                return Err(copy_str("audit_log.max_body_bytes must be > 0"));
            }
            if self.observability.audit_log.max_file_bytes == 0 {
                return Err(copy_str("audit_log.max_file_bytes must be > 0"));
            }
            let path_ok = match &self.observability.audit_log.path {
                Some(p) => !is_blank(p.as_str()),
                None => false,
            };
            if !path_ok {
                return Err(copy_str("audit_log.path is required when dump_downstream=true"));
            }
        }
        let fmt = lower_ascii(self.observability.logging.format.as_str());
        if !(str_eq(fmt.as_str(), "text") || str_eq(fmt.as_str(), "json")) {
            return Err(concat2("logging.format invalid: ", fmt.as_str()));
        }
        let lvl = lower_ascii(self.observability.logging.level.as_str());
        if !(str_eq(lvl.as_str(), "trace") || str_eq(lvl.as_str(), "debug") || str_eq(
            lvl.as_str(),
            "info",
        ) || str_eq(lvl.as_str(), "warn") || str_eq(lvl.as_str(), "error")) {
            return Err(concat2("logging.level invalid: ", lvl.as_str()));
        }
        self.anthropic.forward_mode = mode;
        let clear_key = match &self.downstream.api_key {
            Some(k) => is_blank(k.as_str()),
            None => false,
        };
        if clear_key {
            self.downstream.api_key = None;
        }
        let clear_version = match &self.downstream.anthropic_version {
            Some(v) => is_blank(v.as_str()),
            None => false,
        };
        if clear_version {
            self.downstream.anthropic_version = None;
        }
        let clear_beta = match &self.downstream.anthropic_beta {
            Some(b) => is_blank(b.as_str()),
            None => false,
        };
        if clear_beta {
            self.downstream.anthropic_beta = None;
        }
        self.observability.logging.format = fmt;
        self.observability.logging.level = lvl;
        Ok(())
    }
}

impl OtlpHttpConfig {
    /// URL of the OTLP/HTTP trace endpoint.
    pub fn traces_endpoint(&self) -> (r: String)
        ensures
            r@ == trim_trailing_slashes(self.base_url@) + "/v1/traces"@,
    {
        let b = trim_base(self.base_url.as_str());
        concat2(b, "/v1/traces")
    }

    /// URL of the OTLP/HTTP metric endpoint.
    pub fn metrics_endpoint(&self) -> (r: String)
        ensures
            r@ == trim_trailing_slashes(self.base_url@) + "/v1/metrics"@,
    {
        let b = trim_base(self.base_url.as_str());
        concat2(b, "/v1/metrics")
    }
}

} // verus!
