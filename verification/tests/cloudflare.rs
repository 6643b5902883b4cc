use base64::engine::general_purpose::STANDARD;
use base64::Engine;
use smtp2cf::cloudflare::{
    build_send_raw_request, decide_api_response, decide_delivery, describe_http_failure,
    format_api_errors, sendable_message, truncate_body, ApiError, ApiResponse, CloudflareClient,
    DeliveryDecision, DeliveryError, SendOutcome,
};
use smtp2cf::mime::MimeError;
use smtp2cf::queue::QueueEnvelope;

fn envelope(raw_mime_b64: String) -> QueueEnvelope {
    QueueEnvelope {
        id: "1".into(),
        envelope_from: "sender@example.com".into(),
        recipients: vec!["to@example.net".into()],
        raw_mime_b64,
        attempt_count: 0,
        next_attempt_at: 0,
        last_error: None,
        created_at: 0,
    }
}

fn replied(status: u16, body: &str, parsed: Option<ApiResponse>) -> SendOutcome {
    SendOutcome::Replied {
        status,
        body: body.into(),
        parsed,
    }
}

fn api_error(code: u32, message: &str) -> ApiError {
    ApiError {
        code,
        message: message.into(),
    }
}

#[test]
fn request_body_uses_raw_mime() {
    let envelope = envelope(
        STANDARD.encode(b"From: sender@example.com\r\nTo: to@example.net\r\n\r\nHello"),
    );

    let request = build_send_raw_request(&envelope).unwrap();
    assert_eq!(request.from, "sender@example.com");
    assert_eq!(request.recipients, vec!["to@example.net"]);
    assert!(request.mime_message.contains("From: sender@example.com"));
}

#[test]
fn requests_go_to_the_account() {
    let client = CloudflareClient::new("acct".into(), "token".into());
    let raw = b"From: sender@example.com\r\nBcc: x@example.net\r\n\r\nHello";
    let request = client
        .prepare_delivery(&envelope(STANDARD.encode(raw)))
        .unwrap();
    assert_eq!(
        request.url,
        "https://api.cloudflare.com/client/v4/accounts/acct/email/sending/send_raw"
    );
    assert_eq!(request.bearer_token, "token");
    assert_eq!(request.body.from, "sender@example.com");
    assert_eq!(request.body.recipients, vec!["to@example.net"]);
    assert_eq!(
        request.body.mime_message,
        "From: sender@example.com\r\n\r\nHello"
    );
}

#[test]
fn messages_that_cannot_be_sent() {
    let error = build_send_raw_request(&envelope("not base64!".into())).unwrap_err();
    assert!(matches!(error, DeliveryError::Undecodable));
    assert_eq!(error.message(), "failed to decode spooled raw MIME message");

    let error = build_send_raw_request(&envelope(STANDARD.encode(b"no separator"))).unwrap_err();
    assert!(matches!(
        error,
        DeliveryError::Mime(MimeError::MissingSeparator)
    ));
    assert_eq!(
        error.message(),
        "raw MIME message is missing header/body separator"
    );

    let client = CloudflareClient::new("acct".into(), "token".into());
    let error = client
        .prepare_delivery(&envelope(STANDARD.encode(b"A: 1\r\n\r\n\xff")))
        .unwrap_err();
    assert!(matches!(
        error,
        DeliveryError::Mime(MimeError::MessageNotUtf8)
    ));
    assert_eq!(error.message(), "raw MIME message is not valid UTF-8");
}

#[test]
fn a_stripped_header_need_not_be_utf8() {
    assert_eq!(
        sendable_message(b"Bcc: \xff\r\nA: gr\xc3\xbcn\r\n\r\nbody"),
        Ok("A: gr\u{fc}n\r\n\r\nbody".to_string())
    );
}

#[test]
fn api_errors_are_listed() {
    assert_eq!(
        format_api_errors(&[]),
        "Cloudflare returned success=false without error details"
    );
    assert_eq!(format_api_errors(&[api_error(7, "seven")]), "7: seven");
    assert_eq!(
        format_api_errors(&[
            api_error(10001, "first"),
            api_error(0, ""),
            api_error(4294967295, "last")
        ]),
        "10001: first; 0: ; 4294967295: last"
    );
}

#[test]
fn long_bodies_are_cut() {
    let whole = "x".repeat(240);
    assert_eq!(truncate_body(&whole), whole);
    let long = "x".repeat(241);
    assert_eq!(truncate_body(&long), format!("{whole}..."));
    let between = format!("{}\u{fc}", "x".repeat(239));
    assert_eq!(
        truncate_body(&between),
        format!("{}...", "x".repeat(239))
    );
    let fits = format!("{}\u{fc}yy", "x".repeat(238));
    assert_eq!(
        truncate_body(&fits),
        format!("{}\u{fc}...", "x".repeat(238))
    );
    assert_eq!(truncate_body(""), "");
}

#[test]
fn http_failures_are_described() {
    assert_eq!(
        describe_http_failure("500 Internal Server Error", "oops"),
        "Cloudflare HTTP 500 Internal Server Error: oops"
    );
}

#[test]
fn transient_failures_are_retried() {
    assert_eq!(
        decide_delivery(SendOutcome::Failed("connection reset".into())).unwrap(),
        DeliveryDecision::Retry("connection reset".into())
    );
    assert_eq!(
        decide_delivery(replied(429, "slow down", None)).unwrap(),
        DeliveryDecision::Retry("Cloudflare HTTP 429 Too Many Requests: slow down".into())
    );
    assert_eq!(
        decide_delivery(replied(503, "", None)).unwrap(),
        DeliveryDecision::Retry("Cloudflare HTTP 503 Service Unavailable: ".into())
    );
    for status in [500u16, 599] {
        assert!(matches!(
            decide_delivery(replied(status, "", None)),
            Ok(DeliveryDecision::Retry(_))
        ));
    }
}

#[test]
fn other_refusals_are_permanent() {
    assert_eq!(
        decide_delivery(replied(403, "no", None)).unwrap(),
        DeliveryDecision::Dead("Cloudflare HTTP 403 Forbidden: no".into())
    );
    assert_eq!(
        decide_delivery(replied(299 + 1, "", None)).unwrap(),
        DeliveryDecision::Dead("Cloudflare HTTP 300 Multiple Choices: ".into())
    );
    assert_eq!(
        decide_delivery(replied(799, "", None)).unwrap(),
        DeliveryDecision::Dead("Cloudflare HTTP 799 <unknown status code>: ".into())
    );
    for status in [100u16, 199, 428, 430, 499, 600, 999] {
        assert!(matches!(
            decide_delivery(replied(status, "", None)),
            Ok(DeliveryDecision::Dead(_))
        ));
    }
}

#[test]
fn a_success_is_read() {
    let delivered = ApiResponse {
        success: true,
        errors: vec![api_error(10004, "ignored")],
    };
    assert_eq!(
        decide_delivery(replied(200, "{}", Some(delivered))).unwrap(),
        DeliveryDecision::Delivered
    );
    let throttled = ApiResponse {
        success: false,
        errors: vec![api_error(1, "a"), api_error(10004, "b")],
    };
    assert_eq!(
        decide_delivery(replied(299, "{}", Some(throttled))).unwrap(),
        DeliveryDecision::Retry("1: a; 10004: b".into())
    );
    let refused = ApiResponse {
        success: false,
        errors: vec![api_error(10003, "a"), api_error(10005, "b")],
    };
    assert_eq!(
        decide_api_response(&refused),
        DeliveryDecision::Dead("10003: a; 10005: b".into())
    );
    let silent = ApiResponse {
        success: false,
        errors: vec![],
    };
    assert_eq!(
        decide_api_response(&silent),
        DeliveryDecision::Dead("Cloudflare returned success=false without error details".into())
    );
    let error = decide_delivery(replied(200, "<html>", None)).unwrap_err();
    assert!(matches!(error, DeliveryError::UnreadableReply(_)));
    assert_eq!(
        error.message(),
        "failed to parse Cloudflare response body: <html>"
    );
}
