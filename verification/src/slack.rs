//! Inbound Slack webhook handling: request authentication and extraction of
//! structured build events from bot-posted status lines.

use vstd::prelude::*;

use crate::build_info_manager::AcceptBuildInfo;
use crate::json::{
    json_as_array, json_as_object, json_as_str, json_as_u64, json_obj_get, parse_json_object,
    parses_as_json_object,
};
use crate::text::{
    digit_run_end, digit_run_end_exec, hex_decode, hex_digit_value, i64_dec_digits, i64_to_dec,
    is_prefix_of, lemma_hex_encode_digits, lemma_hex_roundtrip, lemma_i64_dec_digits_len,
    lemma_i64_dec_digits_roundtrip, parse_i64, parse_u64, spec_hex_decode, spec_hex_encode,
    spec_parse_i64, spec_parse_u64, starts_with, str_eq, word_run_end, word_run_end_exec,
};

verus! {

/// Why an inbound request was rejected before any event processing.
#[derive(Clone, Copy, Debug, PartialEq, Eq, Structural)]
pub enum AuthenticationError {
    /// The signature or timestamp header is missing or unreadable.
    MissingHeaders,
    /// The timestamp differs from the current time by more than the
    /// tolerance, in either direction.
    StaleRequest,
    /// The provided signature does not match the recomputed one.
    BadSignature,
}

/// Why a request could not be turned into a verified JSON body.
#[derive(Debug)]
pub enum RequestError {
    /// The request is not authentic.
    Authentication(AuthenticationError),
    /// The body is not a JSON object.
    MalformedBody,
}

/// Process-wide Slack configuration, read-only after start.
pub struct SlackParams {
    pub verification_token: String,
    pub app_id: String,
    pub client_id: String,
    pub client_secret: String,
    /// The shared signing secret that request signatures are checked with.
    pub signing_secret: Vec<u8>,
    /// The sender identity of the CI bot whose messages carry status lines.
    pub gocd_bod_id: String,
    pub instance_token: String,
}

// ---------------------------------------------------------------------------
// Signature verification
// ---------------------------------------------------------------------------

/// The HMAC-SHA256 tag of a message under a key. The tag is a fixed
/// function of the key bytes and the message characters alone.
pub uninterp spec fn hmac_sha256_of(key: Seq<u8>, msg: Seq<char>) -> Seq<u8>;

/// Relies on ring::hmac::sign with HMAC_SHA256: the 32-byte tag depends on
/// the key and the message alone.
#[verifier::external_body]
fn hmac_sign(key: &[u8], msg: &str) -> (r: Vec<u8>)
    requires
        msg@.len() < 0x0800_0000_0000_0000,
    ensures
        r@ == hmac_sha256_of(key@, msg@),
        r@.len() == 32,
{
    let k = ring::hmac::Key::new(ring::hmac::HMAC_SHA256, key);
    ring::hmac::sign(&k, msg.as_bytes()).as_ref().to_vec()
}

/// Relies on ring::hmac::verify with HMAC_SHA256: it accepts exactly when
/// `tag` equals the HMAC-SHA256 tag of the message under the key, and the
/// comparison is done in constant time.
#[verifier::external_body]
fn hmac_verify(key: &[u8], msg: &str, tag: &[u8]) -> (r: bool)
    requires
        msg@.len() < 0x0800_0000_0000_0000,
    ensures
        r == (tag@ == hmac_sha256_of(key@, msg@)),
{
    let k = ring::hmac::Key::new(ring::hmac::HMAC_SHA256, key);
    ring::hmac::verify(&k, msg.as_bytes(), tag).is_ok()
}

/// The canonical string that is signed: `"v0:" + timestamp + ":" + body`,
/// with the timestamp in canonical decimal.
pub open spec fn signing_string(ts_digits: Seq<char>, body: Seq<char>) -> Seq<char> {
    "v0:"@ + ts_digits + ":"@ + body
}

fn make_signing_string(ts: i64, body: &str) -> (r: String)
    ensures
        r@ == signing_string(i64_dec_digits(ts), body@),
{
    let mut s = String::from_str("v0:");
    let num = i64_to_dec(ts);
    s.append(num.as_str());
    s.append(":");
    s.append(body);
    proof {
        assert(s@ == "v0:"@ + i64_dec_digits(ts) + ":"@ + body@);
    }
    s
}

/// The signature that an authentic sender computes for a request: the
/// HMAC-SHA256 tag of the canonical signing string under the secret.
pub fn compute_signature(signing_secret: &[u8], timestamp: i64, body: &str) -> (r: Vec<u8>)
    requires
        body@.len() < 0x0780_0000_0000_0000,
    ensures
        r@ == hmac_sha256_of(
            signing_secret@,
            signing_string(i64_dec_digits(timestamp), body@),
        ),
        r@.len() == 32,
{
    let s = make_signing_string(timestamp, body);
    proof {
        lemma_i64_dec_digits_len(timestamp);
        reveal_strlit("v0:");
        reveal_strlit(":");
    }
    hmac_sign(signing_secret, s.as_str())
}

/// The smallest index at or after `from` where `c` stands in `s`.
pub open spec fn find_char(s: Seq<char>, c: char, from: int) -> Option<int>
    decreases s.len() - from,
{
    if from < 0 || from >= s.len() {
        None
    } else if s[from] == c {
        Some(from)
    } else {
        find_char(s, c, from + 1)
    }
}

proof fn lemma_find_char_skip(s: Seq<char>, c: char, from: int, i: int)
    requires
        0 <= from <= i <= s.len(),
        forall|j: int| from <= j < i ==> s[j] != c,
    ensures
        find_char(s, c, from) == find_char(s, c, i),
    decreases i - from,
{
    if from < i {
        lemma_find_char_skip(s, c, from + 1, i);
    }
}

fn find_char_from(s: &str, c: char, from: usize) -> (r: Option<usize>)
    requires
        from <= s@.len(),
    ensures
        match r {
            Some(i) => find_char(s@, c, from as int) == Some(i as int) && from <= i < s@.len()
                && s@[i as int] == c,
            None => find_char(s@, c, from as int) is None,
        },
{
    let n = s.unicode_len();
    let mut i = from;
    while i < n
        invariant
            from <= i <= n == s@.len(),
            forall|j: int| from <= j < i ==> s@[j] != c,
        decreases n - i,
    {
        if s.get_char(i) == c {
            proof {
                lemma_find_char_skip(s@, c, from as int, i as int);
            }
            return Some(i);
        }
        i = i + 1;
    }
    proof {
        lemma_find_char_skip(s@, c, from as int, i as int);
    }
    None
}

/// The hexadecimal field of a signature header: the characters between the
/// first `=` and the next `=` or the end. The header format is
/// `v0=<hex-hmac>`; a header with no `=` has no field.
pub open spec fn sig_hex_part(s: Seq<char>) -> Option<Seq<char>> {
    match find_char(s, '=', 0) {
        None => None,
        Some(i) => match find_char(s, '=', i + 1) {
            None => Some(s.subrange(i + 1, s.len() as int)),
            Some(j) => Some(s.subrange(i + 1, j)),
        },
    }
}

fn extract_signature_field(h: &str) -> (r: Option<&str>)
    ensures
        match (r, sig_hex_part(h@)) {
            (Some(f), Some(sf)) => f@ == sf,
            (None, None) => true,
            _ => false,
        },
{
    match find_char_from(h, '=', 0) {
        None => None,
        Some(i) => {
            let n = h.unicode_len();
            match find_char_from(h, '=', i + 1) {
                None => Some(h.substring_char(i + 1, n)),
                Some(j) => Some(h.substring_char(i + 1, j)),
            }
        },
    }
}

/// Whether a request timestamp differs from the current time by more than
/// the sixty-second tolerance, in either direction.
pub open spec fn timestamp_stale(ts: i64, now: i64) -> bool {
    ts as int - now as int > 60 || now as int - ts as int > 60
}

fn timestamp_is_stale(ts: i64, now: i64) -> (r: bool)
    ensures
        r == timestamp_stale(ts, now),
{
    let t: i128 = ts as i128;
    let n: i128 = now as i128;
    t - n > 60 || n - t > 60
}

/// The view of an optional header value.
pub open spec fn header_view(h: Option<&str>) -> Option<Seq<char>> {
    match h {
        Some(s) => Some(s@),
        None => None,
    }
}

/// The bytes of the signature a request provided, where the signature
/// header is present, carries a hexadecimal field, and that field decodes.
pub open spec fn provided_signature(sig_header: Option<Seq<char>>) -> Option<Seq<u8>> {
    match sig_header {
        Some(h) => match sig_hex_part(h) {
            Some(hx) => spec_hex_decode(hx),
            None => None,
        },
        None => None,
    }
}

/// The timestamp a request provided, where the timestamp header is present
/// and is a signed decimal string.
pub open spec fn provided_timestamp(ts_header: Option<Seq<char>>) -> Option<i64> {
    match ts_header {
        Some(h) => spec_parse_i64(h),
        None => None,
    }
}

/// The outcome of authenticating a request: missing or unreadable headers
/// are rejected first, then a stale timestamp, then a signature that does
/// not equal the HMAC-SHA256 tag of the canonical signing string under the
/// secret. An authentic, fresh request passes.
pub open spec fn auth_outcome(
    sig_header: Option<Seq<char>>,
    ts_header: Option<Seq<char>>,
    body: Seq<char>,
    now: i64,
    secret: Seq<u8>,
) -> Result<(), AuthenticationError> {
    match (provided_signature(sig_header), provided_timestamp(ts_header)) {
        (Some(sig), Some(ts)) => if timestamp_stale(ts, now) {
            Err(AuthenticationError::StaleRequest)
        } else if sig == hmac_sha256_of(secret, signing_string(i64_dec_digits(ts), body)) {
            Ok(())
        } else {
            Err(AuthenticationError::BadSignature)
        },
        _ => Err(AuthenticationError::MissingHeaders),
    }
}

/// Authenticates an inbound request: recomputes the HMAC-SHA256 signature
/// of `"v0:" + timestamp + ":" + body` under the signing secret and holds
/// the provided signature to it, after checking that the timestamp is
/// within sixty seconds of `now`.
pub fn verify_request_signature(
    sig_header: Option<&str>,
    ts_header: Option<&str>,
    body: &str,
    now: i64,
    signing_secret: &[u8],
) -> (r: Result<(), AuthenticationError>)
    requires
        body@.len() < 0x0780_0000_0000_0000,
    ensures
        r == auth_outcome(header_view(sig_header), header_view(ts_header), body@, now, signing_secret@),
{
    let sig_bytes: Option<Vec<u8>> = match sig_header {
        None => None,
        Some(h) => match extract_signature_field(h) {
            None => None,
            Some(hx) => hex_decode(hx),
        },
    };
    let ts: Option<i64> = match ts_header {
        None => None,
        Some(h) => parse_i64(h),
    };
    match (sig_bytes, ts) {
        (Some(sig), Some(t)) => {
            if timestamp_is_stale(t, now) {
                Err(AuthenticationError::StaleRequest)
            } else {
                let sts = make_signing_string(t, body);
                proof {
                    lemma_i64_dec_digits_len(t);
                    reveal_strlit("v0:");
                    reveal_strlit(":");
                }
                if hmac_verify(signing_secret, sts.as_str(), sig.as_slice()) {
                    Ok(())
                } else {
                    Err(AuthenticationError::BadSignature)
                }
            }
        },
        _ => Err(AuthenticationError::MissingHeaders),
    }
}

// ---------------------------------------------------------------------------
// Status line extraction
// ---------------------------------------------------------------------------

/// The outcome a status line reports.
#[derive(Clone, Copy, Debug, PartialEq, Eq, Structural)]
pub enum PassFail {
    Passed,
    Failed,
}

/// The word for an outcome, as a status line writes it.
pub open spec fn pass_fail_str(pf: PassFail) -> Seq<char> {
    match pf {
        PassFail::Passed => "passed"@,
        PassFail::Failed => "failed"@,
    }
}

impl PassFail {
    /// The word for the outcome, as the status line writes it.
    pub fn as_str(&self) -> (r: &'static str)
        ensures
            r@ == pass_fail_str(*self),
    {
        match self {
            PassFail::Passed => "passed",
            PassFail::Failed => "failed",
        }
    }
}

/// A structured build event extracted from one status line.
pub struct BuildEvent {
    /// The pipeline stage name, the first bracketed field.
    pub stage_name: String,
    /// The build counter, the second bracketed field.
    pub build_num: u64,
    /// The step name, the third bracketed field.
    pub step_name: String,
    /// Whether the stage passed or failed.
    pub pass_fail: PassFail,
}

/// The literal a status line must start with.
pub open spec fn status_line_prefix() -> Seq<char> {
    "Go pipeline stage ["@
}

/// Parses a status line of the form
/// `Go pipeline stage [<stage>/<counter>/<step>/<attempt>] passed|failed`,
/// where `<stage>` and `<step>` are nonempty runs of word characters,
/// `<counter>` and `<attempt>` are nonempty digit runs, the counter fits in
/// a `u64`, and anything may follow the outcome word. Yields the stage
/// name, the counter, the step name and the outcome.
pub open spec fn spec_parse_status_line(s: Seq<char>) -> Option<(Seq<char>, u64, Seq<char>, PassFail)> {
    let p = status_line_prefix();
    if !is_prefix_of(p, s) {
        None
    } else {
        let i0 = p.len() as int;
        let i1 = word_run_end(s, i0);
        let i2 = digit_run_end(s, i1 + 1);
        let i3 = word_run_end(s, i2 + 1);
        let i4 = digit_run_end(s, i3 + 1);
        if i1 == i0 || i1 >= s.len() || s[i1] != '/' || i2 == i1 + 1 || i2 >= s.len() || s[i2]
            != '/' || i3 == i2 + 1 || i3 >= s.len() || s[i3] != '/' || i4 == i3 + 1 || i4
            >= s.len() || s[i4] != ']' || i4 + 1 >= s.len() || s[i4 + 1] != ' ' {
            None
        } else {
            let rest = s.subrange(i4 + 2, s.len() as int);
            let pf = if is_prefix_of("passed"@, rest) {
                Some(PassFail::Passed)
            } else if is_prefix_of("failed"@, rest) {
                Some(PassFail::Failed)
            } else {
                None
            };
            match (pf, spec_parse_u64(s.subrange(i1 + 1, i2))) {
                (Some(pf), Some(n)) => Some((s.subrange(i0, i1), n, s.subrange(i2 + 1, i3), pf)),
                _ => None,
            }
        }
    }
}

/// Parses a bot-posted status line into a structured build event.
/// Unmatched text yields nothing; a counter that does not fit in a `u64`
/// also yields nothing.
pub fn process_message(message_text: &str) -> (r: Option<BuildEvent>)
    ensures
        match (r, spec_parse_status_line(message_text@)) {
            (Some(ev), Some(t)) => ev.stage_name@ == t.0 && ev.build_num == t.1 && ev.step_name@
                == t.2 && ev.pass_fail == t.3,
            (None, None) => true,
            _ => false,
        },
{
    let s = message_text;
    let n = s.unicode_len();
    proof {
        reveal_strlit("Go pipeline stage [");
    }
    if !starts_with(s, "Go pipeline stage [") {
        return None;
    }
    assert(status_line_prefix().len() == 19);
    let i0: usize = 19;
    let i1 = word_run_end_exec(s, i0);
    if i1 == i0 || i1 == n {
        return None;
    }
    if s.get_char(i1) != '/' {
        return None;
    }
    let i2 = digit_run_end_exec(s, i1 + 1);
    if i2 == i1 + 1 || i2 == n {
        return None;
    }
    if s.get_char(i2) != '/' {
        return None;
    }
    let i3 = word_run_end_exec(s, i2 + 1);
    if i3 == i2 + 1 || i3 == n {
        return None;
    }
    if s.get_char(i3) != '/' {
        return None;
    }
    let i4 = digit_run_end_exec(s, i3 + 1);
    if i4 == i3 + 1 || i4 == n {
        return None;
    }
    if s.get_char(i4) != ']' {
        return None;
    }
    if i4 + 1 == n {
        return None;
    }
    if s.get_char(i4 + 1) != ' ' {
        return None;
    }
    let rest = s.substring_char(i4 + 2, n);
    proof {
        reveal_strlit("passed");
        reveal_strlit("failed");
    }
    let pf: PassFail = if starts_with(rest, "passed") {
        PassFail::Passed
    } else if starts_with(rest, "failed") {
        PassFail::Failed
    } else {
        return None;
    };
    let digits = s.substring_char(i1 + 1, i2);
    let num: u64 = match parse_u64(digits) {
        Some(v) => v,
        None => {
            return None;
        },
    };
    Some(
        BuildEvent {
            stage_name: String::from_str(s.substring_char(i0, i1)),
            build_num: num,
            step_name: String::from_str(s.substring_char(i2 + 1, i3)),
            pass_fail: pf,
        },
    )
}

/// What a message yields: a build event exactly when the sender is the
/// configured CI bot, an attachment title is present, and the title
/// matches the status-line pattern.
pub open spec fn spec_extract_build_event(
    bot_id: Option<Seq<char>>,
    title: Option<Seq<char>>,
    gocd_bod_id: Seq<char>,
) -> Option<(Seq<char>, u64, Seq<char>, PassFail)> {
    match (bot_id, title) {
        (Some(b), Some(t)) => if b == gocd_bod_id {
            spec_parse_status_line(t)
        } else {
            None
        },
        _ => None,
    }
}

/// Extracts a build event from a message's sender identity and first
/// attachment title. Messages from any other sender, without a title, or
/// with an unmatched title yield nothing.
pub fn extract_build_event(
    bot_id: Option<&str>,
    attachment_title: Option<&str>,
    params: &SlackParams,
) -> (r: Option<BuildEvent>)
    ensures
        match (r, spec_extract_build_event(
            header_view(bot_id),
            header_view(attachment_title),
            params.gocd_bod_id@,
        )) {
            (Some(ev), Some(t)) => ev.stage_name@ == t.0 && ev.build_num == t.1 && ev.step_name@
                == t.2 && ev.pass_fail == t.3,
            (None, None) => true,
            _ => false,
        },
{
    match (bot_id, attachment_title) {
        (Some(b), Some(t)) => {
            if str_eq(b, params.gocd_bod_id.as_str()) {
                process_message(t)
            } else {
                None
            }
        },
        _ => None,
    }
}

/// The capture pattern a status line must match, written as a regular
/// expression. The parser implements exactly this pattern, with word
/// characters read as ASCII.
pub fn get_regex_string() -> (r: String)
    ensures
        r@
            == r"^Go pipeline stage \[(?P<stage_name>[\w_]+)/(?P<build_num>\d+)/(?P<step_name>\w+)/\d+\] (?P<pass_fail>passed|failed)"@,
{
    String::from_str(
        r"^Go pipeline stage \[(?P<stage_name>[\w_]+)/(?P<build_num>\d+)/(?P<step_name>\w+)/\d+\] (?P<pass_fail>passed|failed)",
    )
}

/// A webhook body that passed signature verification and parsed as a JSON
/// object.
pub struct VerifiedSlackJson {
    json_obj: serde_json::Map<String, serde_json::Value>,
}

impl VerifiedSlackJson {
    /// The parsed JSON object of the request body.
    pub fn json_obj(&self) -> &serde_json::Map<String, serde_json::Value> {
        &self.json_obj
    }

    /// Authenticates a raw request and parses its body. Every
    /// authentication failure is reported exactly as `auth_outcome` says;
    /// an authentic request succeeds exactly when its body parses as a
    /// JSON object, and is rejected as malformed exactly when it does not.
    pub fn from_data(
        sig_header: Option<&str>,
        ts_header: Option<&str>,
        body: &str,
        now: i64,
        params: &SlackParams,
    ) -> (r: Result<VerifiedSlackJson, RequestError>)
        requires
            body@.len() < 0x0780_0000_0000_0000,
        ensures
            ({
                let auth = auth_outcome(
                    header_view(sig_header),
                    header_view(ts_header),
                    body@,
                    now,
                    params.signing_secret@,
                );
                match r {
                    Ok(_) => auth is Ok && parses_as_json_object(body@),
                    Err(RequestError::Authentication(e)) => auth == Err::<(), AuthenticationError>(e),
                    Err(RequestError::MalformedBody) => auth is Ok && !parses_as_json_object(body@),
                }
            }),
    {
        match verify_request_signature(sig_header, ts_header, body, now, params.signing_secret.as_slice()) {
            Err(e) => Err(RequestError::Authentication(e)),
            Ok(()) => match parse_json_object(body) {
                Some(m) => Ok(VerifiedSlackJson { json_obj: m }),
                None => Err(RequestError::MalformedBody),
            },
        }
    }
}

// ---------------------------------------------------------------------------
// Event object handling
// ---------------------------------------------------------------------------

fn required_string_member<'a>(
    m: &'a serde_json::Map<String, serde_json::Value>,
    key: &str,
) -> Result<&'a str, ()> {
    match json_obj_get(m, key) {
        None => Err(()),
        Some(v) => match json_as_str(v) {
            Some(s) => Ok(s),
            None => Err(()),
        },
    }
}

fn optional_string_member<'a>(
    m: &'a serde_json::Map<String, serde_json::Value>,
    key: &str,
) -> Result<Option<&'a str>, ()> {
    match json_obj_get(m, key) {
        None => Ok(None),
        Some(v) => match json_as_str(v) {
            Some(s) => Ok(Some(s)),
            None => Err(()),
        },
    }
}

/// Checks one attachment's shape — optional string members and an optional
/// numeric identifier — and hands back its title where it has one.
fn check_attachment<'a>(v: &'a serde_json::Value) -> Result<Option<&'a str>, ()> {
    let obj = match json_as_object(v) {
        Some(m) => m,
        None => {
            return Err(());
        },
    };
    let _ = optional_string_member(obj, "color")?;
    let title = optional_string_member(obj, "title")?;
    let _ = optional_string_member(obj, "text")?;
    let _ = optional_string_member(obj, "fallback")?;
    match json_obj_get(obj, "id") {
        None => (),
        Some(idv) => match json_as_u64(idv) {
            Some(n) => {
                if n > 0xFFFF_FFFF {
                    return Err(());
                }
            },
            None => {
                return Err(());
            },
        },
    }
    Ok(title)
}

/// Checks that a message event has the expected shape — the members a
/// message carries, with their expected types — and hands back the sender
/// identity and the first attachment's title, where they are present.
fn parse_message_fields<'a>(event: &'a serde_json::Map<String, serde_json::Value>) -> (r: Result<
    (Option<&'a str>, Option<&'a str>),
    (),
>) {
    let _ = required_string_member(event, "channel_type")?;
    let _ = required_string_member(event, "channel")?;
    let _ = required_string_member(event, "ts")?;
    let _ = optional_string_member(event, "user")?;
    let _ = optional_string_member(event, "text")?;
    let _ = optional_string_member(event, "event_ts")?;
    let _ = optional_string_member(event, "subtype")?;
    let bot_id = optional_string_member(event, "bot_id")?;
    let _ = optional_string_member(event, "client_msg_id")?;
    let _ = optional_string_member(event, "parent_user_id")?;
    let mut title: Option<&'a str> = None;
    match json_obj_get(event, "attachments") {
        None => (),
        Some(v) => {
            let arr = match json_as_array(v) {
                Some(a) => a,
                None => {
                    return Err(());
                },
            };
            let n = arr.len();
            let mut i: usize = 0;
            while i < n
                invariant
                    0 <= i <= n == arr@.len(),
                decreases n - i,
            {
                let t = check_attachment(&arr[i])?;
                if i == 0 {
                    title = t;
                }
                i = i + 1;
            }
        },
    }
    Ok((bot_id, title))
}

/// Handles one event object of an event callback. A `message` event from
/// the configured CI bot whose first attachment title matches the
/// status-line pattern hands the extracted build event to the collector;
/// any other well-formed message is accepted and dropped. An event of
/// another type, or a message shaped otherwise than the provider
/// documents, is an error.
pub fn handle_event_object<T: AcceptBuildInfo>(
    event: &serde_json::Map<String, serde_json::Value>,
    params: &SlackParams,
    collector: &T,
) -> Result<(), String> {
    let type_str = match json_obj_get(event, "type") {
        Some(v) => json_as_str(v),
        None => None,
    };
    match type_str {
        None => Err(String::from_str("Got no event type")),
        Some(t) => {
            if !str_eq(t, "message") {
                return Err(String::from_str("Got unknown event type"));
            }
            match parse_message_fields(event) {
                Err(_) => Err(String::from_str("Failed to parse message into expected struct")),
                Ok((bot_id, title)) => {
                    match extract_build_event(bot_id, title, params) {
                        Some(ev) => {
                            collector.new_build_message(
                                ev.stage_name.as_str(),
                                ev.build_num,
                                ev.step_name.as_str(),
                                ev.pass_fail.as_str(),
                            );
                        },
                        None => (),
                    }
                    Ok(())
                },
            }
        },
    }
}

// ---------------------------------------------------------------------------
// Authentication laws
// ---------------------------------------------------------------------------

/// A signature computed with the documented scheme verifies: for every
/// timestamp, body and secret, the header `v0=` followed by the lowercase
/// hexadecimal of the HMAC-SHA256 tag of `"v0:" + timestamp + ":" + body`
/// under the secret passes authentication, as long as the timestamp is
/// within tolerance of the current time.
pub proof fn lemma_computed_signature_verifies(ts: i64, body: Seq<char>, now: i64, secret: Seq<u8>)
    requires
        !timestamp_stale(ts, now),
    ensures
        ({
            let tag = hmac_sha256_of(secret, signing_string(i64_dec_digits(ts), body));
            auth_outcome(
                Some("v0="@ + spec_hex_encode(tag)),
                Some(i64_dec_digits(ts)),
                body,
                now,
                secret,
            ) == Ok::<(), AuthenticationError>(())
        }),
{
    let tag = hmac_sha256_of(secret, signing_string(i64_dec_digits(ts), body));
    let hex = spec_hex_encode(tag);
    let h = "v0="@ + hex;
    reveal_strlit("v0=");
    assert(h[0] == 'v' && h[1] == '0' && h[2] == '=');
    lemma_hex_encode_digits(tag);
    assert forall|j: int| 3 <= j < h.len() implies h[j] != '=' by {
        assert(h[j] == hex[j - 3]);
        if h[j] == '=' {
            assert(hex_digit_value('=') is None);
            assert(false);
        }
    }
    assert(find_char(h, '=', 0) == Some(2int)) by {
        reveal_with_fuel(find_char, 4);
        assert(h[0] != '=' && h[1] != '=' && h[2] == '=');
    }
    lemma_find_char_skip(h, '=', 3, h.len() as int);
    assert(find_char(h, '=', 3) is None);
    assert(sig_hex_part(h) == Some(h.subrange(3, h.len() as int)));
    assert(h.subrange(3, h.len() as int) =~= hex);
    lemma_hex_roundtrip(tag);
    lemma_i64_dec_digits_roundtrip(ts);
    assert(provided_signature(Some(h)) == Some(tag));
    assert(provided_timestamp(Some(i64_dec_digits(ts))) == Some(ts));
}

/// A timestamp more than sixty seconds from the current time, in either
/// direction, is rejected as stale whenever both headers are readable —
/// whatever signature was provided.
pub proof fn lemma_stale_timestamp_rejected(
    sig_header: Seq<char>,
    ts_header: Seq<char>,
    body: Seq<char>,
    now: i64,
    secret: Seq<u8>,
    ts: i64,
)
    requires
        provided_signature(Some(sig_header)) is Some,
        provided_timestamp(Some(ts_header)) == Some(ts),
        timestamp_stale(ts, now),
    ensures
        auth_outcome(Some(sig_header), Some(ts_header), body, now, secret) == Err::<
            (),
            AuthenticationError,
        >(AuthenticationError::StaleRequest),
{
}

/// A provided signature whose bytes are not the HMAC-SHA256 tag of the
/// canonical signing string is rejected. A mutation of the signature, the
/// timestamp or the body fails authentication whenever it changes the
/// compared bytes on either side.
pub proof fn lemma_wrong_signature_rejected(
    sig_header: Seq<char>,
    ts_header: Seq<char>,
    body: Seq<char>,
    now: i64,
    secret: Seq<u8>,
    sig: Seq<u8>,
    ts: i64,
)
    requires
        provided_signature(Some(sig_header)) == Some(sig),
        provided_timestamp(Some(ts_header)) == Some(ts),
        !timestamp_stale(ts, now),
        sig != hmac_sha256_of(secret, signing_string(i64_dec_digits(ts), body)),
    ensures
        auth_outcome(Some(sig_header), Some(ts_header), body, now, secret) == Err::<
            (),
            AuthenticationError,
        >(AuthenticationError::BadSignature),
{
}

} // verus!
