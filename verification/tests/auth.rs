//! Signature verification against real HMAC-SHA256 computations.

use gocd_notify::slack::{
    compute_signature, verify_request_signature, AuthenticationError, SlackParams,
    VerifiedSlackJson,
};

fn secret() -> Vec<u8> {
    b"8f742231b10e8888abcd99yyyzzz85a5".to_vec()
}

fn signed_header(secret: &[u8], ts: i64, body: &str) -> String {
    let sig = compute_signature(secret, ts, body);
    format!("v0={}", hex::encode(&sig))
}

#[test]
fn computed_signature_verifies() {
    let body = r#"{"type":"event_callback","event":{"type":"message"}}"#;
    let ts: i64 = 1531420618;
    let now: i64 = 1531420618;
    let sec = secret();
    let header = signed_header(&sec, ts, body);
    let r = verify_request_signature(Some(&header), Some("1531420618"), body, now, &sec);
    assert!(r.is_ok());
}

#[test]
fn computed_signature_verifies_at_tolerance_edge() {
    let body = "hello";
    let sec = secret();
    let header = signed_header(&sec, 1000000, body);
    assert!(verify_request_signature(Some(&header), Some("1000000"), body, 1000060, &sec).is_ok());
    assert!(verify_request_signature(Some(&header), Some("1000000"), body, 999940, &sec).is_ok());
}

#[test]
fn mutated_body_fails() {
    let body = "payload-one";
    let sec = secret();
    let header = signed_header(&sec, 1000000, body);
    // one character of the body changed: the recomputed tag differs
    let r = verify_request_signature(Some(&header), Some("1000000"), "payload-onf", 1000000, &sec);
    assert_eq!(r, Err(AuthenticationError::BadSignature));
}

#[test]
fn mutated_timestamp_fails() {
    let body = "payload";
    let sec = secret();
    let header = signed_header(&sec, 1000000, body);
    // last digit changed: still fresh, but signed over another string
    let r = verify_request_signature(Some(&header), Some("1000001"), body, 1000000, &sec);
    assert_eq!(r, Err(AuthenticationError::BadSignature));
    // higher digit changed: rejected as stale before any comparison
    let r = verify_request_signature(Some(&header), Some("1001000"), body, 1000000, &sec);
    assert_eq!(r, Err(AuthenticationError::StaleRequest));
}

#[test]
fn mutated_signature_fails() {
    let body = "payload";
    let sec = secret();
    let header = signed_header(&sec, 1000000, body);
    // flip one hexadecimal digit of the signature
    let mut chars: Vec<char> = header.chars().collect();
    let last = chars.len() - 1;
    chars[last] = if chars[last] == '0' { '1' } else { '0' };
    let mutated: String = chars.iter().collect();
    let r = verify_request_signature(Some(&mutated), Some("1000000"), body, 1000000, &sec);
    assert_eq!(r, Err(AuthenticationError::BadSignature));
    // replace one digit with a non-hex character: the header is unreadable
    chars[last] = 'x';
    let unreadable: String = chars.iter().collect();
    let r = verify_request_signature(Some(&unreadable), Some("1000000"), body, 1000000, &sec);
    assert_eq!(r, Err(AuthenticationError::MissingHeaders));
}

#[test]
fn wrong_secret_fails() {
    let body = "payload";
    let header = signed_header(&secret(), 1000000, body);
    let other = b"another-signing-secret".to_vec();
    let r = verify_request_signature(Some(&header), Some("1000000"), body, 1000000, &other);
    assert_eq!(r, Err(AuthenticationError::BadSignature));
}

#[test]
fn stale_timestamp_rejected_both_directions() {
    let body = "payload";
    let sec = secret();
    let header = signed_header(&sec, 1000000, body);
    // 61 seconds in the past
    let r = verify_request_signature(Some(&header), Some("1000000"), body, 1000061, &sec);
    assert_eq!(r, Err(AuthenticationError::StaleRequest));
    // 61 seconds in the future
    let r = verify_request_signature(Some(&header), Some("1000000"), body, 999939, &sec);
    assert_eq!(r, Err(AuthenticationError::StaleRequest));
}

#[test]
fn missing_headers_rejected() {
    let body = "payload";
    let sec = secret();
    let header = signed_header(&sec, 1000000, body);
    let r = verify_request_signature(None, Some("1000000"), body, 1000000, &sec);
    assert_eq!(r, Err(AuthenticationError::MissingHeaders));
    let r = verify_request_signature(Some(&header), None, body, 1000000, &sec);
    assert_eq!(r, Err(AuthenticationError::MissingHeaders));
    // a timestamp that is not a plain decimal string is unreadable
    let r = verify_request_signature(Some(&header), Some("10a0000"), body, 1000000, &sec);
    assert_eq!(r, Err(AuthenticationError::MissingHeaders));
    // a signature header without any `=` has no hexadecimal field
    let r = verify_request_signature(Some("v0"), Some("1000000"), body, 1000000, &sec);
    assert_eq!(r, Err(AuthenticationError::MissingHeaders));
}

#[test]
fn zero_padded_timestamp_header_verifies() {
    // the signing string uses the canonical decimal of the parsed value,
    // so a zero-padded header carries the same signature
    let body = "payload";
    let sec = secret();
    let header = signed_header(&sec, 1000000, body);
    let r = verify_request_signature(Some(&header), Some("0001000000"), body, 1000000, &sec);
    assert!(r.is_ok());
}

#[test]
fn out_of_range_timestamps() {
    let body = "payload";
    let sec = secret();
    let header = signed_header(&sec, 1000000, body);
    // the largest signed value: readable, but far in the future
    let r = verify_request_signature(
        Some(&header),
        Some("9223372036854775807"),
        body,
        1000000,
        &sec,
    );
    assert_eq!(r, Err(AuthenticationError::StaleRequest));
    // beyond the signed range: the header is unreadable
    let r = verify_request_signature(
        Some(&header),
        Some("9223372036854775808"),
        body,
        1000000,
        &sec,
    );
    assert_eq!(r, Err(AuthenticationError::MissingHeaders));
}

#[test]
fn signed_timestamp_headers() {
    let body = "payload";
    let sec = secret();
    // a negative timestamp parses; far from `now` it is stale
    let header = signed_header(&sec, 1000000, body);
    let r = verify_request_signature(Some(&header), Some("-100"), body, 1000000, &sec);
    assert_eq!(r, Err(AuthenticationError::StaleRequest));
    // a fresh negative timestamp verifies against its canonical signature
    let header = signed_header(&sec, -5, body);
    let r = verify_request_signature(Some(&header), Some("-5"), body, 0, &sec);
    assert!(r.is_ok());
    // a plus-signed header is canonicalized before signing
    let header = signed_header(&sec, 1000000, body);
    let r = verify_request_signature(Some(&header), Some("+1000000"), body, 1000000, &sec);
    assert!(r.is_ok());
}

fn params_with_secret(sec: Vec<u8>) -> SlackParams {
    SlackParams {
        verification_token: "test".to_string(),
        app_id: "test".to_string(),
        client_id: "test".to_string(),
        client_secret: "test".to_string(),
        signing_secret: sec,
        gocd_bod_id: "test".to_string(),
        instance_token: "test".to_string(),
    }
}

#[test]
fn from_data_parses_authentic_object() {
    let body = r#"{"type":"url_verification","challenge":"abc"}"#;
    let sec = secret();
    let header = signed_header(&sec, 1000000, body);
    let params = params_with_secret(sec);
    let r = VerifiedSlackJson::from_data(Some(&header), Some("1000000"), body, 1000000, &params);
    let json = r.expect("authentic object body should parse");
    assert_eq!(
        json.json_obj().get("challenge").and_then(|v| v.as_str()),
        Some("abc")
    );
}

#[test]
fn from_data_rejects_non_object_body() {
    let body = "[1,2,3]";
    let sec = secret();
    let header = signed_header(&sec, 1000000, body);
    let params = params_with_secret(sec);
    let r = VerifiedSlackJson::from_data(Some(&header), Some("1000000"), body, 1000000, &params);
    assert!(matches!(
        r,
        Err(gocd_notify::slack::RequestError::MalformedBody)
    ));
}

#[test]
fn from_data_reports_authentication_errors() {
    let params = params_with_secret(secret());
    let r = VerifiedSlackJson::from_data(None, None, "{}", 1000000, &params);
    assert!(matches!(
        r,
        Err(gocd_notify::slack::RequestError::Authentication(
            AuthenticationError::MissingHeaders
        ))
    ));
}
