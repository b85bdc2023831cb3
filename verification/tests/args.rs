use lynceus::args::{Args, NonZeroCount, StabilizerArgs, WatcherArgs, WebhookArgs};
use lynceus::duration::HumanDuration;
use lynceus::header::{parse_header, Header, HeaderError};
use lynceus::json::{parse_json, JsonTemplate, DEFAULT_TEMPLATE};
use reqwest::header::{HeaderName, HeaderValue};
use std::str::FromStr;

#[test]
fn test_args_display() {
    let args = Args {
        watcher: WatcherArgs {
            path: "/tmp".to_string(),
            pattern: Some("**/*.rs".to_string()),
            ..Default::default()
        },
        stabilizer: StabilizerArgs {
            cooldown: HumanDuration::from_secs(10),
            ..Default::default()
        },
        webhook: WebhookArgs {
            webhook_url: Some("http://localhost".to_string()),
            webhook_template: parse_json("{\"path\": \"{{path}}\"}").unwrap(),
            ..Default::default()
        },
    };

    let formatted = args.to_text();
    assert_eq!(
        formatted,
        "watcher={path=\"/tmp\" interval=2s debounce=5s pattern=\"**/*.rs\"} stabilizer={cooldown=10s stable_count=3 error_count=5} webhook={url=\"http://localhost\" retries=3 template={\"path\":\"{{path}}\"}}"
    );
}

#[test]
fn test_args_default() {
    let args = Args::default();
    assert_eq!(args.watcher.path, "");
    assert_eq!(args.watcher.pattern, None);
    assert_eq!(args.watcher.interval.as_secs(), 2);
    assert_eq!(args.watcher.debounce.as_secs(), 5);
    assert_eq!(args.stabilizer.cooldown.as_secs(), 10);
    assert_eq!(args.stabilizer.stable_count.get(), 3);
    assert_eq!(args.stabilizer.error_count.get(), 5);
    assert_eq!(args.webhook.webhook_url, None);
    assert_eq!(args.webhook.webhook_retries, 3);
    assert!(args.webhook.webhook_headers.is_empty());
}

#[test]
fn test_webhook_args_display_with_headers() {
    let args = WebhookArgs {
        webhook_url: Some("http://localhost".to_string()),
        webhook_template: parse_json("{\"path\": \"{{path}}\"}").unwrap(),
        webhook_headers: vec![
            Header::new("authorization", "Bearer token123").unwrap(),
            Header::new("x-custom", "custom-value").unwrap(),
        ],
        ..Default::default()
    };

    let formatted = args.to_text();
    assert_eq!(
        formatted,
        "url=\"http://localhost\" retries=3 template={\"path\":\"{{path}}\"} headers=[authorization: \"Bearer token123\", x-custom: \"custom-value\"]"
    );
}

#[test]
fn test_parse_header_valid() {
    let header = parse_header("Authorization: Bearer my-secret-token").unwrap();
    assert_eq!(
        HeaderName::from_str(header.name()).unwrap(),
        HeaderName::from_static("authorization")
    );
    assert_eq!(
        HeaderValue::from_bytes(header.value()).unwrap(),
        HeaderValue::from_static("Bearer my-secret-token")
    );

    let header2 = parse_header("X-Custom:value_without_leading_space").unwrap();
    assert_eq!(
        HeaderName::from_str(header2.name()).unwrap(),
        HeaderName::from_static("x-custom")
    );
    assert_eq!(
        HeaderValue::from_bytes(header2.value()).unwrap(),
        HeaderValue::from_static("value_without_leading_space")
    );
}

#[test]
fn test_parse_header_invalid() {
    assert!(parse_header("NoColonHere").is_err());
    assert!(parse_header("Invalid Header Name: value").is_err());
}

#[test]
fn cli_header_values_parse_in_order() {
    let values = [
        "Authorization: Bearer token123",
        "Accept: text/html, application/xhtml+xml, application/xml;q=0.9",
    ];
    let headers: Vec<Header> = values.iter().map(|v| parse_header(v).unwrap()).collect();
    assert_eq!(headers.len(), 2);
    assert_eq!(headers[0].name(), HeaderName::from_static("authorization").as_str());
    assert_eq!(headers[0].value(), b"Bearer token123");
    assert_eq!(headers[1].name(), HeaderName::from_static("accept").as_str());
    assert_eq!(
        headers[1].value(),
        b"text/html, application/xhtml+xml, application/xml;q=0.9"
    );
}

#[test]
fn header_line_keeps_colons_of_the_value_and_trims_whitespace() {
    let header = parse_header("  X-Forwarded-Host \t:  example.com:8080  ").unwrap();
    assert_eq!(header.name(), "x-forwarded-host");
    assert_eq!(header.value(), b"example.com:8080");
}

#[test]
fn header_line_trims_unicode_whitespace() {
    let header = parse_header("\u{3000}X-A\u{a0}:\u{2003}v\u{85}").unwrap();
    assert_eq!(header.name(), "x-a");
    assert_eq!(header.value(), b"v");
}

#[test]
fn header_names_ignore_case() {
    let a = parse_header("CONTENT-type: json").unwrap();
    let b = parse_header("content-TYPE: json").unwrap();
    assert_eq!(a.name(), b.name());
    assert_eq!(a.name(), "content-type");
    assert_eq!(a.value(), b.value());
}

#[test]
fn header_written_back_reads_the_same() {
    let first = parse_header("  X-Token :  abc:def ghi ").unwrap();
    let line = format!("{}: {}", first.name(), std::str::from_utf8(first.value()).unwrap());
    let second = parse_header(&line).unwrap();
    assert_eq!(first.name(), second.name());
    assert_eq!(first.value(), second.value());
}

#[test]
fn header_without_colon_is_refused_with_the_input() {
    let err = parse_header("NoColonHere").unwrap_err();
    assert!(matches!(&err, HeaderError::MissingColon(s) if s == "NoColonHere"));
    assert_eq!(
        err.message(),
        "invalid header 'NoColonHere', expected 'Key: Value'"
    );
}

#[test]
fn header_with_bad_name_is_refused_with_the_trimmed_name() {
    let err = parse_header("Invalid Header Name: value").unwrap_err();
    assert_eq!(
        err.message(),
        "invalid header name 'Invalid Header Name': invalid HTTP header name"
    );
    let empty = parse_header("  : value").unwrap_err();
    assert_eq!(empty.message(), "invalid header name '': invalid HTTP header name");
}

#[test]
fn header_with_bad_value_is_refused_with_the_trimmed_value() {
    let err = parse_header("X-A:  a\u{7f}b ").unwrap_err();
    assert_eq!(
        err.message(),
        "invalid header value 'a\u{7f}b': failed to parse header value"
    );
}

#[test]
fn header_new_checks_name_before_value() {
    let err = Header::new("bad name", "a\u{7f}").unwrap_err();
    assert!(matches!(err, HeaderError::InvalidName(_, _)));
    let ok = Header::new("X-Ok", "").unwrap();
    assert_eq!(ok.name(), "x-ok");
    assert_eq!(ok.value(), b"");
}

#[test]
fn header_with_non_ascii_value_is_shown_as_binary() {
    let args = WebhookArgs {
        webhook_url: Some("http://h".to_string()),
        webhook_headers: vec![parse_header("X-Name: café").unwrap()],
        ..Default::default()
    };
    assert!(args.to_text().ends_with(" headers=[x-name: \"<binary>\"]"));
}

#[test]
fn header_value_with_quote_is_escaped() {
    let args = WebhookArgs {
        webhook_url: Some("u".to_string()),
        webhook_retries: 0,
        webhook_headers: vec![parse_header("a: say \"hi\"\t").unwrap(), parse_header("b:c").unwrap()],
        ..Default::default()
    };
    let text = args.to_text();
    assert!(text.starts_with("url=\"u\" retries=0 template="));
    assert!(text.ends_with(" headers=[a: \"say \\\"hi\\\"\", b: \"c\"]"));
}

#[test]
fn webhook_without_url_is_none() {
    let args = WebhookArgs {
        webhook_headers: vec![parse_header("a: b").unwrap()],
        ..Default::default()
    };
    assert_eq!(args.to_text(), "None");
}

#[test]
fn watcher_without_pattern_omits_it() {
    let watcher = WatcherArgs {
        path: "/data/in \"box\"".to_string(),
        interval: HumanDuration::from_millis(500),
        debounce: HumanDuration::from_secs(90),
        ..Default::default()
    };
    assert_eq!(
        watcher.to_text(),
        "path=\"/data/in \\\"box\\\"\" interval=500ms debounce=1m 30s"
    );
}

#[test]
fn stabilizer_counts_are_decimal() {
    let stabilizer = StabilizerArgs {
        cooldown: HumanDuration::new(0, 0),
        stable_count: NonZeroCount::new(12345).unwrap(),
        error_count: NonZeroCount::new(usize::MAX).unwrap(),
    };
    assert_eq!(
        stabilizer.to_text(),
        format!("cooldown=0s stable_count=12345 error_count={}", usize::MAX)
    );
}

#[test]
fn zero_count_is_refused() {
    assert!(NonZeroCount::new(0).is_none());
    assert_eq!(NonZeroCount::new(1).unwrap().get(), 1);
}

#[test]
fn durations_keep_their_parts() {
    let d = HumanDuration::from_millis(2_345);
    assert_eq!(d.as_secs(), 2);
    assert_eq!(d.subsec_nanos(), 345_000_000);
    assert_eq!(d.to_text(), "2s 345ms");
    assert_eq!(HumanDuration::new(3600, 1).to_text(), "1h 1ns");
}

#[test]
fn json_template_is_written_compactly_with_sorted_keys() {
    let template = parse_json("{ \"b\": [1, 2], \"a\": {\"x\": null} }").unwrap();
    assert_eq!(template.as_str(), "{\"a\":{\"x\":null},\"b\":[1,2]}");
}

#[test]
fn invalid_json_is_refused_with_the_reader_message() {
    let err = parse_json("{\"path\": ").unwrap_err();
    assert!(err.starts_with("invalid JSON: "));
    assert!(err.len() > "invalid JSON: ".len());
}

#[test]
fn default_template_is_already_compact() {
    let template = parse_json(DEFAULT_TEMPLATE).unwrap();
    assert_eq!(template.as_str(), DEFAULT_TEMPLATE);
    assert_eq!(JsonTemplate::default_template().as_str(), DEFAULT_TEMPLATE);
    assert_eq!(WebhookArgs::default().webhook_template.as_str(), DEFAULT_TEMPLATE);
}

#[test]
fn header_value_bytes_outside_utf8_are_shown_as_binary() {
    let args = WebhookArgs {
        webhook_url: Some("u".to_string()),
        webhook_template: parse_json("null").unwrap(),
        webhook_retries: 0,
        webhook_headers: vec![Header::from_bytes("x-bin", &[0xFF]).unwrap()],
    };
    assert_eq!(
        args.to_text(),
        "url=\"u\" retries=0 template=null headers=[x-bin: \"<binary>\"]"
    );
}

#[test]
fn header_from_bytes_checks_name_and_value() {
    let h = Header::from_bytes("X-Bin", &[0x80, 0xFF, b'\t', b' ']).unwrap();
    assert_eq!(h.name(), "x-bin");
    assert_eq!(h.value(), &[0x80, 0xFF, b'\t', b' ']);
    assert!(Header::from_bytes("x", &[0x7f]).is_none());
    assert!(Header::from_bytes("x y", b"v").is_none());
    assert!(Header::from_bytes("", b"v").is_none());
}

#[test]
fn outer_whitespace_does_not_change_a_header_line() {
    for s in ["Authorization: Bearer t", "X-A:b:c", "Bad Name: v", "X: a\u{7f}", "NoColon"] {
        let padded = format!(" {}\t", s);
        let plain = parse_header(s);
        let outer = parse_header(&padded);
        assert_eq!(plain.is_ok(), outer.is_ok());
        if let (Ok(a), Ok(b)) = (&plain, &outer) {
            assert_eq!(a.name(), b.name());
            assert_eq!(a.value(), b.value());
        }
        if let (Err(a), Err(b)) = (&plain, &outer) {
            if !matches!(a, HeaderError::MissingColon(_)) {
                assert_eq!(a.message(), b.message());
            }
        }
    }
}

#[test]
fn key_case_does_not_change_a_header_line() {
    let a = parse_header("x-Custom-Key: Value:With:CASE").unwrap();
    let b = parse_header("X-CUSTOM-key: Value:With:CASE").unwrap();
    assert_eq!(a.name(), b.name());
    assert_eq!(a.value(), b.value());
    assert_eq!(a.value(), b"Value:With:CASE");
    assert!(parse_header("Bad Name: v").is_err());
    assert!(parse_header("BAD NAME: v").is_err());
}
