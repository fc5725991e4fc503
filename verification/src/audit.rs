//! The audit recorder's data model and rules.
//!
//! A request's context is opened at admission and finished into one record;
//! records are serialised and appended outside the library.  The library owns
//! the record shape, header redaction, the rotation rule and the log-path
//! derivation.  Header lists stand in for wire header maps; bodies are held
//! as JSON text.

use vstd::prelude::*;

use crate::dialect::parses_as_json;
use crate::text::{copy_str, dec_str, dec_u64, lower_seq, str_ends_with, str_eq};

verus! {

broadcast use vstd::string::group_string_axioms;

/// Request metadata of a record.
#[derive(Debug, Clone)]
pub struct AuditMeta {
    pub model: Option<String>,
    pub stream: Option<bool>,
    pub body_truncated: bool,
    pub body_parse_error: bool,
}

/// The request half of a record.
#[derive(Debug, Clone)]
pub struct AuditMessage {
    pub headers: Vec<(String, String)>,
    /// JSON text of the request body.
    pub body: String,
}

/// The response half of a record.
#[derive(Debug, Clone)]
pub struct AuditResponse {
    pub status: u16,
    pub headers: Vec<(String, String)>,
    /// JSON text of the response body.
    pub body: String,
}

/// One finished audit record.
#[derive(Debug, Clone)]
pub struct AuditLogRecord {
    pub ts_start_ms: u64,
    pub ts_end_ms: u64,
    pub request_id: String,
    pub route: String,
    pub mode: String,
    pub method: String,
    pub request: AuditMessage,
    pub response: AuditResponse,
    pub meta: AuditMeta,
}

/// The open context of a request being audited.
#[derive(Debug, Clone)]
pub struct AuditContext {
    pub ts_start_ms: u64,
    pub request_id: String,
    pub route: String,
    pub mode: String,
    pub method: String,
    pub request_headers: Vec<(String, String)>,
    pub request_body: String,
    pub meta: AuditMeta,
}

impl AuditContext {
    /// Closes the context into a record with the response's data.
    pub fn finish(
        self,
        status: u16,
        response_headers: Vec<(String, String)>,
        response_body: String,
        body_parse_error: bool,
        body_truncated: bool,
        ts_end_ms: u64,
    ) -> (r: AuditLogRecord)
        ensures
            r.ts_start_ms == self.ts_start_ms,
            r.ts_end_ms == ts_end_ms,
            r.request_id == self.request_id,
            r.route == self.route,
            r.mode == self.mode,
            r.method == self.method,
            r.request.headers == self.request_headers,
            r.request.body == self.request_body,
            r.response.status == status,
            r.response.headers == response_headers,
            r.response.body == response_body,
            r.meta.model == self.meta.model,
            r.meta.stream == self.meta.stream,
            r.meta.body_truncated == body_truncated,
            r.meta.body_parse_error == body_parse_error,
    {
        AuditLogRecord {
            ts_start_ms: self.ts_start_ms,
            ts_end_ms,
            request_id: self.request_id,
            route: self.route,
            mode: self.mode,
            method: self.method,
            request: AuditMessage { headers: self.request_headers, body: self.request_body },
            response: AuditResponse {
                status,
                headers: response_headers,
                body: response_body,
            },
            meta: AuditMeta {
                model: self.meta.model,
                stream: self.meta.stream,
                body_truncated,
                body_parse_error,
            },
        }
    }
}

/// The redacted value of one header.
pub open spec fn redacted_value(name: Seq<char>, value: Seq<char>) -> Seq<char> {
    if lower_seq(name) == "authorization"@ {
        "[redacted]"@
    } else {
        value
    }
}

/// Copies a header list with every `Authorization` value replaced by the
/// literal `[redacted]`, case-insensitively.
pub fn headers_to_map(headers: &Vec<(String, String)>) -> (r: Vec<(String, String)>)
    ensures
        r@.len() == headers@.len(),
        forall|i: int|
            0 <= i < headers@.len() ==> {
                &&& (#[trigger] r@[i]).0@ == headers@[i].0@
                &&& r@[i].1@ == redacted_value(headers@[i].0@, headers@[i].1@)
            },
{
    let n = headers.len();
    let mut out: Vec<(String, String)> = Vec::new();
    let mut i: usize = 0;
    while i < n
        invariant
            n == headers@.len(),
            i <= n,
            out@.len() == i,
            forall|j: int|
                0 <= j < i ==> {
                    &&& (#[trigger] out@[j]).0@ == headers@[j].0@
                    &&& out@[j].1@ == redacted_value(headers@[j].0@, headers@[j].1@)
                },
        decreases n - i,
    {
        let name = headers[i].0.clone();
        let lowered = crate::text::lower_ascii(name.as_str());
        let value = if str_eq(lowered.as_str(), "authorization") {
            copy_str("[redacted]")
        } else {
            headers[i].1.clone()
        };
        out.push((name, value));
        i = i + 1;
    }
    out
}

/// Reads the clock: milliseconds since the Unix epoch.  Relies on
/// `std::time::SystemTime::now`; a clock before the epoch reads as zero.
#[verifier::external_body]
pub fn now_ms() -> u64 {
    match std::time::SystemTime::now().duration_since(std::time::UNIX_EPOCH) {
        Ok(d) => d.as_millis() as u64,
        Err(_) => 0,
    }
}

/// The log path for a rotation instant: the `.jsonl` suffix becomes
/// `.<ts>.jsonl`; a base without that suffix gets `.<ts>` appended.
pub open spec fn log_path_spec(base: Seq<char>, ts: nat) -> Seq<char> {
    if base.len() >= 6 && base.subrange(base.len() - 6, base.len() as int) == ".jsonl"@ {
        base.take(base.len() - 6) + "."@ + dec_str(ts) + ".jsonl"@
    } else {
        base + "."@ + dec_str(ts)
    }
}

/// Derives the file name for a rotation at time `ts`.
pub fn build_log_path(base: &str, ts: u64) -> (r: String)
    ensures
        r@ == log_path_spec(base@, ts as nat),
{
    let rendered = dec_u64(ts);
    proof {
        reveal_strlit(".jsonl");
    }
    if str_ends_with(base, ".jsonl") {
        let n = base.unicode_len();
        let stem = base.substring_char(0, n - 6);
        let mut r = String::new();
        r.append(stem);
        r.append(".");
        r.append(rendered.as_str());
        r.append(".jsonl");
        proof {
            assert(stem@ =~= base@.take(base@.len() - 6));
            assert(r@ =~= log_path_spec(base@, ts as nat));
        }
        r
    } else {
        let mut r = String::new();
        r.append(base);
        r.append(".");
        r.append(rendered.as_str());
        proof {
            assert(r@ =~= log_path_spec(base@, ts as nat));
        }
        r
    }
}

/// Must the recorder rotate before appending a record of `line_len` bytes?
/// The projected size counts the record and its newline.
pub fn audit_rotation_needed(current_size: u64, line_len: u64, max_file_bytes: u64) -> (r:
    bool)
    requires
        current_size < 0x4000_0000_0000_0000,
        line_len < 0x4000_0000_0000_0000,
    ensures
        r == (current_size + line_len + 1 > max_file_bytes),
{
    current_size + line_len + 1 > max_file_bytes
}

/// May this chunk still be copied into the audit capture?  The copy is
/// bounded: once the buffer would exceed `max_body_bytes` the capture stops
/// and the record is marked truncated, while the downstream stream goes on.
pub fn audit_capture_allows(captured: usize, chunk_len: usize, max_body_bytes: usize) -> (r:
    bool)
    ensures
        r == (captured + chunk_len <= max_body_bytes),
{
    if chunk_len > max_body_bytes {
        false
    } else {
        captured <= max_body_bytes - chunk_len
    }
}

/// Interprets captured body bytes as JSON text: text that parses is kept
/// with no error flag; anything else records `null` and the flag.
pub fn parse_body_value(body: &str) -> (r: (String, bool))
    ensures
        parses_as_json(body@) ==> r.0@ == body@ && r.1 == false,
        !parses_as_json(body@) ==> r.0@ == "null"@ && r.1 == true,
{
    if crate::dialect::json_is_valid(body) {
        (copy_str(body), false)
    } else {
        (copy_str("null"), true)
    }
}

/// Opens an audit context for a request, or nothing when auditing is off or
/// no recorder is running.  Headers are redacted here, so no credential
/// reaches a record.
pub fn build_audit_context(
    enabled: bool,
    logger_present: bool,
    ts_start_ms: u64,
    request_id: &str,
    route: &str,
    mode: &str,
    method: &str,
    headers: &Vec<(String, String)>,
    body: &str,
    model: Option<String>,
    stream: Option<bool>,
) -> (r: Option<AuditContext>)
    ensures
        match r {
            None => !(enabled && logger_present),
            Some(c) => {
                &&& enabled && logger_present
                &&& c.ts_start_ms == ts_start_ms
                &&& c.request_id@ == request_id@
                &&& c.route@ == route@
                &&& c.mode@ == mode@
                &&& c.method@ == method@
                &&& c.request_headers@.len() == headers@.len()
                &&& forall|i: int|
                    0 <= i < headers@.len() ==> {
                        &&& (#[trigger] c.request_headers@[i]).0@ == headers@[i].0@
                        &&& c.request_headers@[i].1@ == redacted_value(
                            headers@[i].0@,
                            headers@[i].1@,
                        )
                    }
                &&& c.request_body@ == body@
                &&& c.meta.model == model
                &&& c.meta.stream == stream
                &&& c.meta.body_truncated == false
                &&& c.meta.body_parse_error == false
            },
        },
{
    if !enabled || !logger_present {
        return None;
    }
    Some(
        AuditContext {
            ts_start_ms,
            request_id: copy_str(request_id),
            route: copy_str(route),
            mode: copy_str(mode),
            method: copy_str(method),
            request_headers: headers_to_map(headers),
            request_body: copy_str(body),
            meta: AuditMeta { model, stream, body_truncated: false, body_parse_error: false },
        },
    )
}

} // verus!
