//! Requests for cloud runtime coverage: validation, the request URL, and how
//! a failed response is reported. The network exchange itself is done by the
//! caller, which hands the status, error code and body back to
//! [`error_for_response`].
use vstd::prelude::*;

use crate::text::{
    join_char_vecs, joined_seq, vec_views, utf8_bytes, utf8_bytes_of, chars_eq_str, chars_of, decimal, decimal_chars, is_alnum, push_chars, push_str,
    string_from_chars, string_of, trim, trim_chars,
};

verus! {

/// Exit code for a failure to reach the service.
pub const NETWORK_EXIT_CODE: u8 = 7;

/// Base URL of the service when a request names no endpoint.
pub open spec fn api_base() -> Seq<char> {
    "https://api.plow.cloud"@
}

/// Format tag of the runtime context the client asks for.
pub open spec fn runtime_context_format() -> Seq<char> {
    "plow-cloud-runtime-v1"@
}

/// A request for a repository's runtime context. Its debug text, with the
/// API key masked as `***`, is [`CloudRequest::debug_string`].
#[derive(Clone)]
pub struct CloudRequest {
    pub api_key: String,
    pub api_endpoint: Option<String>,
    pub repo: String,
    pub project_id: Option<String>,
    pub period_days: u16,
    pub environment: Option<String>,
    pub commit_sha: Option<String>,
}

/// Why a cloud request failed, with the message for the user.
#[derive(Debug)]
pub enum CloudError {
    Validation(String),
    Auth(String),
    TierRequired(String),
    NotFound(String),
    Network(String),
    Server(String),
}

pub ghost enum CloudErrorView {
    Validation(Seq<char>),
    Auth(Seq<char>),
    TierRequired(Seq<char>),
    NotFound(Seq<char>),
    Network(Seq<char>),
    Server(Seq<char>),
}

impl View for CloudError {
    type V = CloudErrorView;

    open spec fn view(&self) -> CloudErrorView {
        match self {
            CloudError::Validation(m) => CloudErrorView::Validation(m@),
            CloudError::Auth(m) => CloudErrorView::Auth(m@),
            CloudError::TierRequired(m) => CloudErrorView::TierRequired(m@),
            CloudError::NotFound(m) => CloudErrorView::NotFound(m@),
            CloudError::Network(m) => CloudErrorView::Network(m@),
            CloudError::Server(m) => CloudErrorView::Server(m@),
        }
    }
}

/// The message an error carries.
pub open spec fn error_message(e: CloudErrorView) -> Seq<char> {
    match e {
        CloudErrorView::Validation(m) => m,
        CloudErrorView::Auth(m) => m,
        CloudErrorView::TierRequired(m) => m,
        CloudErrorView::NotFound(m) => m,
        CloudErrorView::Network(m) => m,
        CloudErrorView::Server(m) => m,
    }
}

/// The process exit code for an error: 2 for a rejected request, 3 for
/// authorization and lookup failures, the network code otherwise.
pub open spec fn error_exit_code(e: CloudErrorView) -> u8 {
    match e {
        CloudErrorView::Validation(_) => 2,
        CloudErrorView::Auth(_) => 3,
        CloudErrorView::TierRequired(_) => 3,
        CloudErrorView::NotFound(_) => 3,
        CloudErrorView::Network(_) => NETWORK_EXIT_CODE,
        CloudErrorView::Server(_) => NETWORK_EXIT_CODE,
    }
}

impl CloudError {
    /// The process exit code for this error.
    pub fn exit_code(&self) -> (code: u8)
        ensures
            code == error_exit_code(self@),
    {
        match self {
            CloudError::Validation(_) => 2,
            CloudError::Auth(_) | CloudError::TierRequired(_) | CloudError::NotFound(_) => 3,
            CloudError::Network(_) | CloudError::Server(_) => NETWORK_EXIT_CODE,
        }
    }

    /// The message for the user.
    pub fn message(&self) -> (m: &str)
        ensures
            m@ == error_message(self@),
    {
        match self {
            CloudError::Validation(message)
            | CloudError::Auth(message)
            | CloudError::TierRequired(message)
            | CloudError::NotFound(message)
            | CloudError::Network(message)
            | CloudError::Server(message) => message.as_str(),
        }
    }
}

/// Requested observation window of a runtime context.
#[derive(Clone, Debug)]
pub struct CloudRuntimeWindow {
    pub period_days: u32,
}

impl Default for CloudRuntimeWindow {
    fn default() -> (w: Self)
        ensures
            w.period_days == 0,
    {
        CloudRuntimeWindow { period_days: 0 }
    }
}

/// Whether a function was seen running.
#[derive(Clone, Copy, Debug, PartialEq, Eq, Structural)]
pub enum CloudTrackingState {
    Called,
    NeverCalled,
    Untracked,
    Unknown,
}

impl Default for CloudTrackingState {
    fn default() -> (s: Self)
        ensures
            s == CloudTrackingState::Unknown,
    {
        CloudTrackingState::Unknown
    }
}

/// How risky a change to a function is, by its callers.
#[derive(Clone, Copy, Debug, PartialEq, Eq, Structural)]
pub enum CloudRuntimeRiskBand {
    Low,
    Medium,
    High,
    Unknown,
}

impl Default for CloudRuntimeRiskBand {
    fn default() -> (b: Self)
        ensures
            b == CloudRuntimeRiskBand::Unknown,
    {
        CloudRuntimeRiskBand::Unknown
    }
}

/// Runtime facts about one function.
#[derive(Clone, Debug)]
pub struct CloudRuntimeFunction {
    pub file_path: String,
    pub function_name: String,
    pub stable_id: Option<String>,
    pub line_number: Option<u32>,
    pub start_line: Option<u32>,
    pub end_line: Option<u32>,
    pub hit_count: Option<u64>,
    pub tracking_state: CloudTrackingState,
    pub deployments_observed: u32,
    pub untracked_reason: Option<String>,
}

/// Callers of a function, and the traffic behind them.
#[derive(Clone, Debug)]
pub struct CloudRuntimeBlastRadiusEntry {
    pub id: String,
    pub stable_id: Option<String>,
    pub file: String,
    pub function: String,
    pub line: u32,
    pub caller_count: u32,
    pub caller_count_weighted_by_traffic: u64,
    pub deploys_touched: Option<u32>,
    pub risk_band: CloudRuntimeRiskBand,
}

/// A warning attached to a runtime context: a bare message or a coded one.
#[derive(Clone, Debug)]
pub enum CloudRuntimeWarning {
    Message(String),
    Object { code: Option<String>, message: Option<String> },
}

// ---------------------------------------------------------------------------
// Percent-encoding
// ---------------------------------------------------------------------------

/// Characters a URL carries unescaped.
pub open spec fn is_unreserved(c: char) -> bool {
    is_alnum(c) || c == '-' || c == '.' || c == '_' || c == '~'
}

/// The upper-case hex digit of `d` (`0 <= d < 16`).
pub open spec fn hex_upper(d: int) -> char {
    if d < 10 {
        (48 + d) as char
    } else {
        (55 + d) as char
    }
}

/// `%XX` for each byte, with upper-case hex digits.
pub open spec fn percent_bytes(bs: Seq<u8>) -> Seq<char>
    decreases bs.len(),
{
    if bs.len() == 0 {
        Seq::<char>::empty()
    } else {
        percent_bytes(bs.drop_last()) + seq![
            '%',
            hex_upper(bs.last() as int / 16),
            hex_upper(bs.last() as int % 16),
        ]
    }
}

/// An unreserved character stands for itself; any other character becomes
/// the `%XX` escapes of its UTF-8 bytes.
pub open spec fn encode_char(c: char) -> Seq<char> {
    if is_unreserved(c) {
        seq![c]
    } else {
        percent_bytes(utf8_bytes(c))
    }
}

/// The percent-encoding of `s`, character by character.
pub open spec fn url_encoded(s: Seq<char>) -> Seq<char>
    decreases s.len(),
{
    if s.len() == 0 {
        Seq::<char>::empty()
    } else {
        url_encoded(s.drop_last()) + encode_char(s.last())
    }
}

fn hex_digit_upper(d: u8) -> (c: char)
    requires
        d < 16,
    ensures
        c == hex_upper(d as int),
{
    match d {
        0 => '0',
        1 => '1',
        2 => '2',
        3 => '3',
        4 => '4',
        5 => '5',
        6 => '6',
        7 => '7',
        8 => '8',
        9 => '9',
        10 => 'A',
        11 => 'B',
        12 => 'C',
        13 => 'D',
        14 => 'E',
        _ => 'F',
    }
}

fn push_encoded_char(out: &mut Vec<char>, c: char)
    ensures
        final(out)@ == old(out)@ + encode_char(c),
{
    if is_alnum_exec(c) || c == '-' || c == '.' || c == '_' || c == '~' {
        out.push(c);
        return;
    }
    let bs = utf8_bytes_of(c);
    let ghost start = out@;
    let mut k: usize = 0;
    while k < bs.len()
        invariant
            k <= bs@.len(),
            out@ == start + percent_bytes(bs@.take(k as int)),
        decreases bs@.len() - k,
    {
        let b = bs[k];
        out.push('%');
        out.push(hex_digit_upper(b / 16));
        out.push(hex_digit_upper(b % 16));
        k = k + 1;
        assert(bs@.take(k as int).drop_last() =~= bs@.take(k - 1));
        assert(out@ =~= start + percent_bytes(bs@.take(k as int)));
    }
    assert(bs@.take(k as int) =~= bs@);
}

fn is_alnum_exec(c: char) -> (b: bool)
    ensures
        b == is_alnum(c),
{
    ('A' <= c && c <= 'Z') || ('a' <= c && c <= 'z') || ('0' <= c && c <= '9')
}

fn url_encode_chars(s: &Vec<char>) -> (r: Vec<char>)
    ensures
        r@ == url_encoded(s@),
{
    let mut out: Vec<char> = Vec::new();
    let mut i: usize = 0;
    while i < s.len()
        invariant
            i <= s@.len(),
            out@ == url_encoded(s@.take(i as int)),
        decreases s@.len() - i,
    {
        push_encoded_char(&mut out, s[i]);
        i = i + 1;
        assert(s@.take(i as int).drop_last() =~= s@.take(i - 1));
    }
    assert(s@.take(i as int) =~= s@);
    out
}

/// Percent-encodes `value` for use as one URL path segment: unreserved
/// characters stay, every other byte becomes `%XX`.
pub fn url_encode_path_segment(value: &str) -> (r: String)
    ensures
        r@ == url_encoded(value@),
{
    let chars = chars_of(value);
    let enc = url_encode_chars(&chars);
    string_from_chars(&enc)
}

/// Percent-encodes a query parameter value, as a path segment is.
pub fn url_encode_query_value(value: &str) -> (r: String)
    ensures
        r@ == url_encoded(value@),
{
    url_encode_path_segment(value)
}

// ---------------------------------------------------------------------------
// The request URL
// ---------------------------------------------------------------------------

pub open spec fn opt_view(o: Option<String>) -> Option<Seq<char>> {
    match o {
        Some(s) => Some(s@),
        None => None,
    }
}

/// `s` without any trailing `/`.
pub open spec fn strip_trailing_slashes(s: Seq<char>) -> Seq<char>
    decreases s.len(),
{
    if s.len() > 0 && s.last() == '/' {
        strip_trailing_slashes(s.drop_last())
    } else {
        s
    }
}

/// The URL of `path` on the default service.
pub open spec fn api_url_of(path: Seq<char>) -> Seq<char> {
    api_base() + path
}

/// The runtime-context path of a repository, which goes in as one segment.
pub open spec fn runtime_context_path(repo: Seq<char>) -> Seq<char> {
    "/v1/coverage/"@ + url_encoded(trim(repo)) + "/runtime-context"@
}

/// A `key=value` parameter for an optional value that is present and not blank.
pub open spec fn optional_param(key: Seq<char>, value: Option<Seq<char>>) -> Seq<Seq<char>> {
    match value {
        Some(v) => if trim(v).len() > 0 {
            seq![key + seq!['='] + url_encoded(trim(v))]
        } else {
            Seq::<Seq<char>>::empty()
        },
        None => Seq::<Seq<char>>::empty(),
    }
}

/// The query parameters of a runtime-context request, in order.
pub open spec fn query_params(r: CloudRequest) -> Seq<Seq<char>> {
    seq!["periodDays="@ + decimal(r.period_days as nat), "format="@ + runtime_context_format()]
        + optional_param("projectId"@, opt_view(r.project_id)) + optional_param(
        "environment"@,
        opt_view(r.environment),
    ) + optional_param("commitSha"@, opt_view(r.commit_sha))
}

/// The full runtime-context URL of a request: the request's endpoint (trimmed,
/// without trailing slashes) or the default service, the path, and the query.
pub open spec fn runtime_context_url_of(r: CloudRequest) -> Seq<char> {
    let path = runtime_context_path(r.repo@);
    let base = match opt_view(r.api_endpoint) {
        Some(b) => strip_trailing_slashes(trim(b)) + path,
        None => api_url_of(path),
    };
    base + seq!['?'] + joined_seq(query_params(r), '&')
}

/// The URL of `path` on the default service.
pub fn api_url(path: &str) -> (r: String)
    ensures
        r@ == api_url_of(path@),
{
    let mut out = chars_of("https://api.plow.cloud");
    push_str(&mut out, path);
    string_from_chars(&out)
}

fn strip_slashes(input: Vec<char>) -> (r: Vec<char>)
    ensures
        r@ == strip_trailing_slashes(input@),
{
    let mut s = input;
    while s.len() > 0 && s[s.len() - 1] == '/'
        invariant
            strip_trailing_slashes(s@) == strip_trailing_slashes(input@),
        decreases s@.len(),
    {
        let ghost before = s@;
        s.pop();
        assert(s@ =~= before.drop_last());
    }
    s
}

fn push_optional_param(params: &mut Vec<Vec<char>>, key: &str, value: &Option<String>)
    ensures
        vec_views(final(params)@) == vec_views(old(params)@)
            + optional_param(key@, opt_view(*value)),
{
    let ghost before = vec_views(params@);
    match value {
        Some(v) => {
            let t = trim_chars(&chars_of(v.as_str()));
            if t.len() > 0 {
                let mut p = chars_of(key);
                p.push('=');
                let enc = url_encode_chars(&t);
                push_chars(&mut p, &enc);
                assert(p@ =~= key@ + seq!['='] + url_encoded(trim(v@)));
                let ghost pv = p@;
                params.push(p);
                assert(vec_views(params@) =~= before.push(pv));
                assert(vec_views(params@) =~= before + optional_param(
                    key@,
                    opt_view(*value),
                ));
            } else {
                assert(before + Seq::<Seq<char>>::empty() =~= before);
            }
        },
        None => {
            assert(before + Seq::<Seq<char>>::empty() =~= before);
        },
    }
}

/// The runtime-context URL of a request.
pub fn runtime_context_url(request: &CloudRequest) -> (url: String)
    ensures
        url@ == runtime_context_url_of(*request),
{
    let repo = trim_chars(&chars_of(request.repo.as_str()));
    let mut path = chars_of("/v1/coverage/");
    let enc = url_encode_chars(&repo);
    push_chars(&mut path, &enc);
    push_str(&mut path, "/runtime-context");
    let mut url = match &request.api_endpoint {
        Some(b) => {
            let t = trim_chars(&chars_of(b.as_str()));
            let mut u = strip_slashes(t);
            push_chars(&mut u, &path);
            u
        },
        None => {
            let mut u = chars_of("https://api.plow.cloud");
            push_chars(&mut u, &path);
            u
        },
    };
    url.push('?');
    let mut params: Vec<Vec<char>> = Vec::new();
    let mut period = chars_of("periodDays=");
    let digits = decimal_chars(request.period_days as u64);
    push_chars(&mut period, &digits);
    params.push(period);
    let mut format = chars_of("format=");
    push_str(&mut format, "plow-cloud-runtime-v1");
    params.push(format);
    push_optional_param(&mut params, "projectId", &request.project_id);
    push_optional_param(&mut params, "environment", &request.environment);
    push_optional_param(&mut params, "commitSha", &request.commit_sha);
    let query = join_char_vecs(&params, '&');
    push_chars(&mut url, &query);
    assert(vec_views(params@) =~= query_params(*request));
    string_from_chars(&url)
}

// ---------------------------------------------------------------------------
// Validation and error reporting
// ---------------------------------------------------------------------------

pub open spec fn missing_key_message() -> Seq<char> {
    "Cloud runtime coverage requires an API key.\n\nSet PLOW_API_KEY or pass --api-key:\n\n  PLOW_API_KEY=plow_live_... plow coverage analyze --cloud --repo owner/repo"@
}

pub open spec fn empty_repo_message() -> Seq<char> {
    "repository is empty; pass --repo owner/repo"@
}

pub open spec fn bad_period_message() -> Seq<char> {
    "--coverage-period must be between 1 and 90 days"@
}

/// What validation answers a request: a blank key, then a blank repository,
/// then a period outside 1..=90 days is refused.
pub open spec fn validation_of(r: CloudRequest) -> Option<CloudErrorView> {
    if trim(r.api_key@).len() == 0 {
        Some(CloudErrorView::Auth(missing_key_message()))
    } else if trim(r.repo@).len() == 0 {
        Some(CloudErrorView::Validation(empty_repo_message()))
    } else if r.period_days == 0 || r.period_days > 90 {
        Some(CloudErrorView::Validation(bad_period_message()))
    } else {
        None
    }
}

/// Checks a request before anything is sent.
pub fn validate_request(request: &CloudRequest) -> (r: Result<(), CloudError>)
    ensures
        match r {
            Ok(()) => validation_of(*request) is None,
            Err(e) => validation_of(*request) == Some(e@),
        },
{
    let key = trim_chars(&chars_of(request.api_key.as_str()));
    if key.len() == 0 {
        return Err(
            CloudError::Auth(
                string_of(
                    "Cloud runtime coverage requires an API key.\n\nSet PLOW_API_KEY or pass --api-key:\n\n  PLOW_API_KEY=plow_live_... plow coverage analyze --cloud --repo owner/repo",
                ),
            ),
        );
    }
    let repo = trim_chars(&chars_of(request.repo.as_str()));
    if repo.len() == 0 {
        return Err(CloudError::Validation(string_of("repository is empty; pass --repo owner/repo")));
    }
    if request.period_days == 0 || request.period_days > 90 {
        return Err(
            CloudError::Validation(string_of("--coverage-period must be between 1 and 90 days")),
        );
    }
    Ok(())
}

/// The message for a failure to reach the service, with the detail (trimmed)
/// in parentheses when there is one.
pub open spec fn network_message_of(detail: Seq<char>) -> Seq<char> {
    "Could not reach plow.cloud for cloud runtime coverage"@ + if trim(detail).len() == 0 {
        Seq::<char>::empty()
    } else {
        " ("@ + trim(detail) + ")"@
    } + ".\n\nCloud mode is explicitly network-backed. Local runtime coverage still works:\n\n  plow coverage analyze --runtime-coverage ./coverage"@
}

/// The message for a failure to reach the service.
pub fn network_message(detail: &str) -> (m: String)
    ensures
        m@ == network_message_of(detail@),
{
    let t = trim_chars(&chars_of(detail));
    let mut out = chars_of("Could not reach plow.cloud for cloud runtime coverage");
    if t.len() > 0 {
        push_str(&mut out, " (");
        push_chars(&mut out, &t);
        push_str(&mut out, ")");
    }
    push_str(
        &mut out,
        ".\n\nCloud mode is explicitly network-backed. Local runtime coverage still works:\n\n  plow coverage analyze --runtime-coverage ./coverage",
    );
    string_from_chars(&out)
}

pub open spec fn tier_required_message() -> Seq<char> {
    "cloud-pull is a Team-tier feature. Start a free trial:\n\n  plow license activate --trial --email <addr>"@
}

pub open spec fn invalid_key_message() -> Seq<char> {
    "Plow API key is invalid or revoked."@
}

/// The message shown for a failed response: the error envelope's message
/// when it has one that is not blank, else the trimmed body.
pub open spec fn response_message_of(envelope_message: Option<Seq<char>>, body: Seq<char>) -> Seq<char> {
    match envelope_message {
        Some(m) => if trim(m).len() > 0 {
            m
        } else {
            trim(body)
        },
        None => trim(body),
    }
}

/// The message shown for a failed response.
pub fn response_message(envelope_message: Option<&str>, body: &str) -> (m: String)
    ensures
        m@ == response_message_of(
            match envelope_message {
                Some(x) => Some(x@),
                None => None,
            },
            body@,
        ),
{
    if let Some(m) = envelope_message {
        let t = trim_chars(&chars_of(m));
        if t.len() > 0 {
            return string_of(m);
        }
    }
    let b = trim_chars(&chars_of(body));
    string_from_chars(&b)
}

/// The error a failed response is reported as, from its HTTP status, the
/// error code of its envelope and its message.
pub open spec fn error_for_response_of(
    status: u16,
    code: Option<Seq<char>>,
    message: Seq<char>,
    repo: Seq<char>,
) -> CloudErrorView {
    if status == 401 {
        CloudErrorView::Auth(invalid_key_message())
    } else if status == 403 && code == Some("tier_required"@) {
        CloudErrorView::TierRequired(tier_required_message())
    } else if status == 404 && code == Some("repo_not_found"@) {
        CloudErrorView::NotFound("Repo not accessible to your org: "@ + repo)
    } else if status == 400 && code == Some("validation_error"@) {
        CloudErrorView::Validation("Cloud rejected the request: "@ + message)
    } else if 500 <= status <= 599 {
        CloudErrorView::Network(network_message_of(message))
    } else {
        CloudErrorView::Server(
            "runtime-context request failed with HTTP "@ + decimal(status as nat) + ": "@ + message,
        )
    }
}

fn code_is(code: Option<&str>, expected: &str) -> (b: bool)
    ensures
        b == (match code {
            Some(c) => Some(c@),
            None => None,
        } == Some(expected@)),
{
    match code {
        Some(c) => chars_eq_str(&chars_of(expected), c),
        None => false,
    }
}

/// The error a failed runtime-context response is reported as.
pub fn error_for_response(status: u16, code: Option<&str>, message: &str, repo: &str) -> (e:
    CloudError)
    ensures
        e@ == error_for_response_of(
            status,
            match code {
                Some(c) => Some(c@),
                None => None,
            },
            message@,
            repo@,
        ),
{
    if status == 401 {
        return CloudError::Auth(string_of("Plow API key is invalid or revoked."));
    }
    if status == 403 && code_is(code, "tier_required") {
        return CloudError::TierRequired(
            string_of(
                "cloud-pull is a Team-tier feature. Start a free trial:\n\n  plow license activate --trial --email <addr>",
            ),
        );
    }
    if status == 404 && code_is(code, "repo_not_found") {
        let mut m = chars_of("Repo not accessible to your org: ");
        push_str(&mut m, repo);
        return CloudError::NotFound(string_from_chars(&m));
    }
    if status == 400 && code_is(code, "validation_error") {
        let mut m = chars_of("Cloud rejected the request: ");
        push_str(&mut m, message);
        return CloudError::Validation(string_from_chars(&m));
    }
    if 500 <= status && status <= 599 {
        return CloudError::Network(network_message(message));
    }
    let mut m = chars_of("runtime-context request failed with HTTP ");
    let digits = decimal_chars(status as u64);
    push_chars(&mut m, &digits);
    push_str(&mut m, ": ");
    push_str(&mut m, message);
    CloudError::Server(string_from_chars(&m))
}

// ---------------------------------------------------------------------------
// Debug rendering with the key masked
// ---------------------------------------------------------------------------

/// What `char::escape_debug` gives for `c`.
pub uninterp spec fn char_escape_debug_of(c: char) -> Seq<char>;

/// Calls `char::escape_debug` and collects it into a `String`. Beyond ASCII
/// its result comes from std's Unicode tables (which characters print as
/// they are, which are grapheme extenders), so it is left to the named
/// result.
#[verifier::external_body]
fn char_escape_debug(c: char) -> (s: String)
    ensures
        s@ == char_escape_debug_of(c),
{
    c.escape_debug().to_string()
}

/// The lower-case hex digit of `d` (`0 <= d < 16`).
pub open spec fn hex_digit_lower(d: int) -> char {
    if d < 10 {
        (48 + d) as char
    } else {
        (87 + d) as char
    }
}

/// `\u{..}` with the code of `c` in lower-case hex, without leading zeros,
/// for an ASCII control character.
pub open spec fn unicode_escape(c: char) -> Seq<char> {
    let v = c as u32 as int;
    "\\u{"@ + (if v < 16 {
        seq![hex_digit_lower(v)]
    } else {
        seq![hex_digit_lower(v / 16), hex_digit_lower(v % 16)]
    }) + "}"@
}

/// The escaped form of `c` inside a quoted debug string, as `str`'s
/// `Debug` writes it: the usual backslash escapes, other ASCII control
/// characters as `\u{..}`, other ASCII as it is, and beyond ASCII what
/// `char::escape_debug` gives (which `str` shares for every non-ASCII
/// character).
pub open spec fn debug_escape(c: char) -> Seq<char> {
    if c == '"' {
        "\\\""@
    } else if c == '\\' {
        "\\\\"@
    } else if c == '\n' {
        "\\n"@
    } else if c == '\r' {
        "\\r"@
    } else if c == '\t' {
        "\\t"@
    } else if c == '\0' {
        "\\0"@
    } else if (c as u32) < 0x20 || (c as u32) == 0x7f {
        unicode_escape(c)
    } else if (c as u32) < 0x80 {
        seq![c]
    } else {
        char_escape_debug_of(c)
    }
}

pub open spec fn debug_escaped(s: Seq<char>) -> Seq<char>
    decreases s.len(),
{
    if s.len() == 0 {
        Seq::<char>::empty()
    } else {
        debug_escaped(s.drop_last()) + debug_escape(s.last())
    }
}

pub open spec fn debug_quoted(s: Seq<char>) -> Seq<char> {
    seq!['"'] + debug_escaped(s) + seq!['"']
}

pub open spec fn debug_option(o: Option<Seq<char>>) -> Seq<char> {
    match o {
        Some(s) => "Some("@ + debug_quoted(s) + ")"@,
        None => "None"@,
    }
}

/// The debug rendering of a request; the key shows as `***`.
pub open spec fn request_debug_of(r: CloudRequest) -> Seq<char> {
    "CloudRequest { api_key: \"***\", api_endpoint: "@ + debug_option(opt_view(r.api_endpoint))
        + ", repo: "@ + debug_quoted(r.repo@) + ", project_id: "@ + debug_option(
        opt_view(r.project_id),
    ) + ", period_days: "@ + decimal(r.period_days as nat) + ", environment: "@ + debug_option(
        opt_view(r.environment),
    ) + ", commit_sha: "@ + debug_option(opt_view(r.commit_sha)) + " }"@
}

fn hex_char(d: u32) -> (c: char)
    requires
        d < 16,
    ensures
        c == hex_digit_lower(d as int),
{
    if d < 10 {
        (48 + d as u8) as char
    } else {
        (87 + d as u8) as char
    }
}

fn push_debug_quoted(out: &mut Vec<char>, s: &str)
    ensures
        final(out)@ == old(out)@ + debug_quoted(s@),
{
    let ghost start = old(out)@;
    let c = chars_of(s);
    out.push('"');
    let mut i: usize = 0;
    while i < c.len()
        invariant
            i <= c@.len(),
            c@ == s@,
            out@ == start + seq!['"'] + debug_escaped(c@.take(i as int)),
        decreases c@.len() - i,
    {
        let ch = c[i];
        let ghost before = out@;
        if ch == '"' {
            push_str(out, "\\\"");
        } else if ch == '\\' {
            push_str(out, "\\\\");
        } else if ch == '\n' {
            push_str(out, "\\n");
        } else if ch == '\r' {
            push_str(out, "\\r");
        } else if ch == '\t' {
            push_str(out, "\\t");
        } else if ch == '\0' {
            push_str(out, "\\0");
        } else if (ch as u32) < 0x20 || (ch as u32) == 0x7f {
            let v = ch as u32;
            push_str(out, "\\u{");
            if v >= 16 {
                out.push(hex_char(v / 16));
            }
            out.push(hex_char(v % 16));
            push_str(out, "}");
            proof {
                reveal_strlit("\\u{");
                reveal_strlit("}");
            }
            assert(out@ =~= before + unicode_escape(ch));
        } else if (ch as u32) < 0x80 {
            out.push(ch);
            assert(out@ =~= before + seq![ch]);
        } else {
            let e = char_escape_debug(ch);
            push_str(out, e.as_str());
        }
        i = i + 1;
        assert(c@.take(i as int).drop_last() =~= c@.take(i - 1));
        assert(out@ =~= start + seq!['"'] + debug_escaped(c@.take(i as int)));
    }
    assert(c@.take(i as int) =~= c@);
    out.push('"');
}

fn push_debug_option(out: &mut Vec<char>, o: &Option<String>)
    ensures
        final(out)@ == old(out)@ + debug_option(opt_view(*o)),
{
    match o {
        Some(s) => {
            let ghost start = out@;
            push_str(out, "Some(");
            push_debug_quoted(out, s.as_str());
            push_str(out, ")");
            assert(out@ =~= start + debug_option(opt_view(*o)));
        },
        None => {
            push_str(out, "None");
        },
    }
}

impl CloudRequest {
    /// The debug rendering of the request, with the API key masked.
    pub fn debug_string(&self) -> (s: String)
        ensures
            s@ == request_debug_of(*self),
    {
        let mut out = chars_of("CloudRequest { api_key: \"***\", api_endpoint: ");
        push_debug_option(&mut out, &self.api_endpoint);
        push_str(&mut out, ", repo: ");
        push_debug_quoted(&mut out, self.repo.as_str());
        push_str(&mut out, ", project_id: ");
        push_debug_option(&mut out, &self.project_id);
        push_str(&mut out, ", period_days: ");
        let digits = decimal_chars(self.period_days as u64);
        push_chars(&mut out, &digits);
        push_str(&mut out, ", environment: ");
        push_debug_option(&mut out, &self.environment);
        push_str(&mut out, ", commit_sha: ");
        push_debug_option(&mut out, &self.commit_sha);
        push_str(&mut out, " }");
        string_from_chars(&out)
    }
}


/// The headers of a runtime-context request: the API key as a bearer token,
/// JSON accepted, and no content encoding.
pub open spec fn request_headers_of(r: CloudRequest) -> Seq<(Seq<char>, Seq<char>)> {
    seq![
        ("Authorization"@, "Bearer "@ + r.api_key@),
        ("Accept"@, "application/json"@),
        ("Accept-Encoding"@, "identity"@),
    ]
}

/// The headers to send with a runtime-context request.
pub fn request_headers(request: &CloudRequest) -> (h: Vec<(String, String)>)
    ensures
        h@.map_values(|p: (String, String)| (p.0@, p.1@)) == request_headers_of(*request),
{
    let mut bearer = chars_of("Bearer ");
    push_str(&mut bearer, request.api_key.as_str());
    let auth = string_from_chars(&bearer);
    proof {
        reveal_strlit("Bearer ");
    }
    let h = vec![
        (string_of("Authorization"), auth),
        (string_of("Accept"), string_of("application/json")),
        (string_of("Accept-Encoding"), string_of("identity")),
    ];
    assert(h@.map_values(|p: (String, String)| (p.0@, p.1@)) =~= request_headers_of(*request));
    h
}

} // verus!
