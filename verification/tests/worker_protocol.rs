use price_scout::bridge::{classify_outcome, worker_args, BridgeError, WorkerOutcome};
use price_scout::models::{ScraperRequest, StoreMethod};
use price_scout::protocol::parse_worker_record;

#[test]
fn test_parse_full_record() {
    let raw = br#"{"store": "dns", "status": "ok", "price": 129900, "count": 5, "time": 1.5, "error": null, "method": "firefox"}"#;
    let resp = parse_worker_record(raw).unwrap();
    assert_eq!(resp.store, "dns");
    assert_eq!(resp.status, "ok");
    assert_eq!(resp.price, Some(129900));
    assert_eq!(resp.count, Some(5));
    assert_eq!(resp.time_text, "1.5");
    assert_eq!(resp.error, None);
    assert_eq!(resp.method, Some("firefox".to_string()));
}

#[test]
fn test_parse_key_order_irrelevant() {
    let raw = br#"{"time": 0.25, "price": 100, "status": "ok", "store": "ozon"}"#;
    let resp = parse_worker_record(raw).unwrap();
    assert_eq!(resp.store, "ozon");
    assert_eq!(resp.price, Some(100));
    assert_eq!(resp.count, None);
    assert_eq!(resp.method, None);
    assert_eq!(resp.time_text, "0.25");
}

#[test]
fn test_parse_missing_required_field() {
    // no time
    assert!(parse_worker_record(br#"{"store": "a", "status": "ok", "price": 1}"#).is_none());
    // no store
    assert!(parse_worker_record(br#"{"status": "ok", "time": 1.0}"#).is_none());
    // no status
    assert!(parse_worker_record(br#"{"store": "a", "time": 1.0}"#).is_none());
    // empty record
    assert!(parse_worker_record(b"{}").is_none());
}

#[test]
fn test_parse_duplicate_key_rejected() {
    let raw = br#"{"store": "a", "store": "b", "status": "ok", "time": 1.0}"#;
    assert!(parse_worker_record(raw).is_none());
}

#[test]
fn test_parse_unknown_key_rejected() {
    let raw = br#"{"store": "a", "status": "ok", "time": 1.0, "surprise": 1}"#;
    assert!(parse_worker_record(raw).is_none());
}

#[test]
fn test_parse_escapes() {
    let raw = r#"{"store": "a\"b\\c", "status": "ok", "time": 0.0, "error": "line\nbreak\tand слово"}"#
        .as_bytes();
    let resp = parse_worker_record(raw).unwrap();
    assert_eq!(resp.store, "a\"b\\c");
    assert_eq!(resp.error.as_deref(), Some("line\nbreak\tand слово"));
}

#[test]
fn test_parse_surrogate_pair() {
    let raw = r#"{"store": "x", "status": "ok", "time": 0.5, "error": "😀"}"#.as_bytes();
    let resp = parse_worker_record(raw).unwrap();
    assert_eq!(resp.error.as_deref(), Some("\u{1f600}"));
}

#[test]
fn test_parse_lone_surrogate_rejected() {
    let raw = br#"{"store": "x", "status": "ok", "time": 0.5, "error": "\ud83d"}"#;
    assert!(parse_worker_record(raw).is_none());
}

#[test]
fn test_parse_raw_utf8_passthrough() {
    let raw = "{\"store\": \"ситилинк\", \"status\": \"ok\", \"time\": 3.5}".as_bytes();
    let resp = parse_worker_record(raw).unwrap();
    assert_eq!(resp.store, "ситилинк");
}

#[test]
fn test_parse_price_range_and_sign() {
    let ok = parse_worker_record(
        br#"{"store": "a", "status": "ok", "time": 1.0, "price": -2147483648}"#,
    )
    .unwrap();
    assert_eq!(ok.price, Some(i32::MIN));
    let over = parse_worker_record(
        br#"{"store": "a", "status": "ok", "time": 1.0, "price": 2147483648}"#,
    );
    assert!(over.is_none());
    let float_price =
        parse_worker_record(br#"{"store": "a", "status": "ok", "time": 1.0, "price": 12.5}"#);
    assert!(float_price.is_none());
}

#[test]
fn test_parse_number_grammar() {
    let exp = parse_worker_record(br#"{"store": "a", "status": "ok", "time": 1.5e-3}"#).unwrap();
    assert_eq!(exp.time_text, "1.5e-3");
    let zero = parse_worker_record(br#"{"store": "a", "status": "ok", "time": 0.0}"#).unwrap();
    assert_eq!(zero.time_text, "0.0");
    // a superfluous leading zero is not a number
    assert!(parse_worker_record(br#"{"store": "a", "status": "ok", "time": 01}"#).is_none());
    // a bare dot is not a number
    assert!(parse_worker_record(br#"{"store": "a", "status": "ok", "time": .5}"#).is_none());
}

#[test]
fn test_parse_trailing_output_ignored() {
    let raw = b"  {\"store\": \"a\", \"status\": \"ok\", \"time\": 1.0}\nlog line after\n";
    let resp = parse_worker_record(raw).unwrap();
    assert_eq!(resp.store, "a");
}

#[test]
fn test_parse_garbage_rejected() {
    assert!(parse_worker_record(b"").is_none());
    assert!(parse_worker_record(b"Traceback (most recent call last):").is_none());
    assert!(parse_worker_record(b"[1, 2, 3]").is_none());
    assert!(parse_worker_record(b"{\"store\": \"a\"").is_none());
    // a raw control character inside a string
    assert!(parse_worker_record(b"{\"store\": \"a\x01b\", \"status\": \"ok\", \"time\": 1}").is_none());
    // invalid UTF-8 inside a string value
    assert!(parse_worker_record(b"{\"store\": \"a\xff\", \"status\": \"ok\", \"time\": 1}").is_none());
}

#[test]
fn test_malformed_output_classified() {
    // A clean exit with undecodable output is a value, not a crash.
    let outcome = WorkerOutcome::Exited {
        code: Some(0),
        stdout: b"not a record".to_vec(),
        stderr: Vec::new(),
    };
    match classify_outcome(outcome) {
        Err(BridgeError::MalformedOutput { raw }) => {
            assert_eq!(raw, b"not a record".to_vec());
            let text = BridgeError::MalformedOutput { raw }.error_text();
            assert_eq!(text, "malformed worker output: not a record");
        },
        _ => panic!("expected a malformed-output classification"),
    }
}

#[test]
fn test_timeout_discards_output() {
    // The timed-out outcome carries no output at all; it is always the
    // timeout error.
    match classify_outcome(WorkerOutcome::TimedOut) {
        Err(BridgeError::Timeout) => {},
        _ => panic!("expected the timeout classification"),
    }
}

#[test]
fn test_worker_args() {
    let req = ScraperRequest {
        store: "dns".to_string(),
        query: "MacBook Pro 16".to_string(),
        method: "firefox".to_string(),
    };
    let args = worker_args(&req);
    assert_eq!(
        args,
        vec![
            "--json".to_string(),
            "--store=dns".to_string(),
            "--method=firefox".to_string(),
        ]
    );
}

#[test]
fn test_store_method_tags() {
    assert_eq!(StoreMethod::Firefox.as_str(), "firefox");
    assert_eq!(StoreMethod::PlaywrightDirect.as_str(), "playwright_direct");
    assert_eq!(StoreMethod::PlaywrightStealth.as_str(), "playwright_stealth");
    assert_eq!(StoreMethod::OzonFirefox.as_str(), "ozon_firefox");
    assert_eq!(StoreMethod::CitilinkFirefox.as_str(), "citilink_firefox");
    assert_eq!(StoreMethod::AvitoFirefox.as_str(), "avito_firefox");
    assert_eq!(StoreMethod::YandexMarketSpecial.as_str(), "yandex_market_special");
}
