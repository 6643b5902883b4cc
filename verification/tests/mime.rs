use smtp2cf::mime::{
    header_name, parse_header_blocks, sanitize_raw_mime_for_cloudflare, should_strip_header,
    split_header_lines, split_headers_and_body, MimeError,
};

#[test]
fn sanitizes_folded_transport_headers_without_touching_body() {
    let raw = [
        "Received: by mail-lj1-f178.google.com with SMTP id abc\r\n",
        "        for <to@example.net>; Sat, 18 Apr 2026 19:49:14 -0700 (PDT)\r\n",
        "X-Gm-Message-State: AOJu0Ywg+MlHIHpr4MNBgUQFai0/7mYelgJzkuhyS13gzHMof12XwuwL\r\n",
        "\tWLJfU/V1dFob7vG4+mQ1hjcXELn49hoHf2y8QKkEuwbf5vm+MyEpVaYnSLyFNA2CzQoawEB1bqU\r\n",
        "From: Sender Example <sender@example.com>\r\n",
        "To: recipient@example.net\r\n",
        "Subject: test 123\r\n",
        "MIME-Version: 1.0\r\n",
        "Content-Type: multipart/alternative; boundary=\"b\"\r\n",
        "\r\n",
        "--b\r\n",
        "Content-Type: text/plain; charset=\"UTF-8\"\r\n",
        "\r\n",
        "\r\n",
        "--b\r\n",
        "Content-Type: text/html; charset=\"UTF-8\"\r\n",
        "\r\n",
        "<div dir=\"ltr\"><br></div>\r\n",
        "--b--\r\n",
    ]
    .concat();

    let sanitized =
        String::from_utf8(sanitize_raw_mime_for_cloudflare(raw.as_bytes()).unwrap()).unwrap();
    assert!(!sanitized.contains("Received: by mail-lj1-f178.google.com"));
    assert!(!sanitized.contains("X-Gm-Message-State:"));
    assert!(sanitized.contains("From: Sender Example <sender@example.com>"));
    assert!(sanitized.contains("<div dir=\"ltr\"><br></div>"));
    let from = raw.find("From: Sender").unwrap();
    assert_eq!(sanitized, raw[from..]);
}

#[test]
fn strips_bcc_before_forwarding() {
    let raw = [
        "From: sender@example.com\r\n",
        "To: visible@example.net\r\n",
        "Bcc: hidden@example.net\r\n",
        "Subject: hi\r\n",
        "\r\n",
        "hello\r\n",
    ]
    .concat();

    let sanitized =
        String::from_utf8(sanitize_raw_mime_for_cloudflare(raw.as_bytes()).unwrap()).unwrap();
    assert!(!sanitized.contains("Bcc: hidden@example.net"));
    assert!(sanitized.contains("To: visible@example.net"));
    assert!(sanitized.ends_with("\r\n\r\nhello\r\n"));
}

#[test]
fn a_message_is_split_at_its_first_blank_line() {
    let crlf: &[u8] = b"A: 1\r\n\r\nbody\r\n\r\nmore";
    let lf: &[u8] = b"A: 1\n\nbody\n\nmore";
    let mixed: &[u8] = b"A: 1\n\nbody\r\n\r\nmore";
    assert_eq!(
        split_headers_and_body(crlf),
        Some((b"A: 1".as_slice(), b"body\r\n\r\nmore".as_slice()))
    );
    assert_eq!(
        split_headers_and_body(lf),
        Some((b"A: 1".as_slice(), b"body\n\nmore".as_slice()))
    );
    assert_eq!(
        split_headers_and_body(mixed),
        Some((b"A: 1\n\nbody".as_slice(), b"more".as_slice()))
    );
    assert_eq!(split_headers_and_body(b"A: 1\r\nbody"), None);
    assert_eq!(split_headers_and_body(b""), None);
}

#[test]
fn lines_end_with_lf_or_crlf() {
    let lines = split_header_lines(b"a\r\nb\nc\rd\r\n\r\ne");
    let expected: Vec<&[u8]> = vec![b"a", b"b", b"c\rd", b"", b"e"];
    assert_eq!(lines, expected);
    assert!(split_header_lines(b"").is_empty());
    let ended: Vec<&[u8]> = vec![b"a"];
    assert_eq!(split_header_lines(b"a\n"), ended);
}

#[test]
fn folded_lines_belong_to_their_header() {
    let blocks = parse_header_blocks(b"A: 1\r\n 2\r\n\r\n\t3\r\nB: 4").unwrap();
    let first: Vec<Vec<u8>> = vec![b"A: 1".to_vec(), b" 2".to_vec(), b"\t3".to_vec()];
    let second: Vec<Vec<u8>> = vec![b"B: 4".to_vec()];
    assert_eq!(blocks, vec![first, second]);
    assert_eq!(
        parse_header_blocks(b" folded\r\nA: 1"),
        Err(MimeError::FoldWithoutHeader)
    );
    assert_eq!(parse_header_blocks(b""), Ok(vec![]));
}

#[test]
fn a_header_is_named_before_its_colon() {
    assert_eq!(header_name(&[b" Subject : a:b".to_vec()]), Ok("Subject"));
    assert_eq!(header_name(&[b"\xc2\xa0X\xe3\x80\x80:".to_vec()]), Ok("X"));
    assert_eq!(header_name(&[]), Err(MimeError::EmptyBlock));
    assert_eq!(
        header_name(&[b"no colon".to_vec(), b" b: c".to_vec()]),
        Err(MimeError::MissingColon)
    );
    assert_eq!(
        header_name(&[b"\xff: c".to_vec()]),
        Err(MimeError::NameNotUtf8)
    );
    assert_eq!(header_name(&[b"A: \xff".to_vec()]), Ok("A"));
}

#[test]
fn transport_headers_are_stripped_in_any_case() {
    for name in [
        "arc-authentication-results",
        "arc-message-signature",
        "arc-seal",
        "authentication-results",
        "bcc",
        "delivered-to",
        "dkim-signature",
        "received",
        "return-path",
        "x-gm-features",
        "x-gm-message-state",
        "x-gmail-original-message-id",
        "x-received",
        "ARC-Seal",
        "BCC",
        "X-Gm-Features",
    ] {
        assert!(should_strip_header(name), "{name}");
    }
    for name in ["from", "to", "cc", "subject", "received-spf", "bcc ", ""] {
        assert!(!should_strip_header(name), "{name}");
    }
}

#[test]
fn kept_headers_get_crlf_and_keep_their_order() {
    let raw = b"Z: 1\n folded\nBCC: x\n y\nA: 2\nZ: 3\n\nbody\nline";
    let sanitized = sanitize_raw_mime_for_cloudflare(raw).unwrap();
    assert_eq!(
        sanitized,
        b"Z: 1\r\n folded\r\nA: 2\r\nZ: 3\r\n\r\nbody\nline"
    );
    assert_eq!(
        sanitize_raw_mime_for_cloudflare(&sanitized),
        Ok(sanitized.clone())
    );
}

#[test]
fn a_message_without_kept_headers_is_its_body() {
    let sanitized = sanitize_raw_mime_for_cloudflare(b"Bcc: x\r\n\r\nbody").unwrap();
    assert_eq!(sanitized, b"\r\nbody");
}

#[test]
fn a_body_need_not_be_utf8() {
    let sanitized = sanitize_raw_mime_for_cloudflare(b"A: 1\r\n\r\n\xff").unwrap();
    assert_eq!(sanitized, b"A: 1\r\n\r\n\xff");
}

#[test]
fn messages_that_cannot_be_forwarded() {
    let cases: [(&[u8], MimeError, &str); 4] = [
        (
            b"A: 1\r\nbody",
            MimeError::MissingSeparator,
            "raw MIME message is missing header/body separator",
        ),
        (
            b"\tfolded\r\n\r\nbody",
            MimeError::FoldWithoutHeader,
            "encountered folded header without a preceding header",
        ),
        (
            b"A: 1\r\nB\r\n\xff: 2\r\n\r\nbody",
            MimeError::MissingColon,
            "header is missing ':' separator",
        ),
        (
            b"A: 1\r\n\xff: 2\r\nB\r\n\r\nbody",
            MimeError::NameNotUtf8,
            "header name is not valid UTF-8",
        ),
    ];
    for (raw, error, words) in cases {
        assert_eq!(sanitize_raw_mime_for_cloudflare(raw), Err(error));
        assert_eq!(error.message(), words);
    }
    assert_eq!(
        MimeError::EmptyBlock.message(),
        "header block unexpectedly empty"
    );
}
