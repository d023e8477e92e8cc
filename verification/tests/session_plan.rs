use bybit_trader::session_::{
    clean_response_text, g_headers, g_hmac, is_header_value, request_, RequestError, Method, DOMEN, PLACE_ORDER, RECV_WINDOW,
    TICKERS, WALLET_BALANCE,
};

#[test]
fn endpoints_are_the_exchange_paths() {
    assert_eq!(DOMEN, "https://api");
    assert_eq!(TICKERS, ".bybit.com/v5/market/tickers?category=linear");
    assert_eq!(WALLET_BALANCE, ".bybit.com/v5/account/wallet-balance?");
    assert_eq!(PLACE_ORDER, ".bybit.com/v5/order/create?");
    assert_eq!(RECV_WINDOW, "5000");
}

#[test]
fn g_hmac_signs_timestamp_key_window_and_params() {
    let api = "key".to_string();
    let ts = "1700000000000".to_string();
    let sign = g_hmac(&(&api, &ts), "secret", "accountType=UNIFIED&coin=USDT");
    assert_eq!(sign, "7b2d9b304d6e1b381f41b2a79e673f20e9fc2c8d78f97c388d3f9d873731c9dc");
    assert_eq!(sign.len(), 64);
}

#[test]
fn g_headers_lists_the_five_headers() {
    let api = "key".to_string();
    let ts = "42".to_string();
    let hs = g_headers(&(&api, &ts), "abc");
    let pairs: Vec<(&str, &str)> = hs.iter().map(|h| (h.name.as_str(), h.value.as_str())).collect();
    assert_eq!(
        pairs,
        vec![
            ("X-BAPI-SIGN", "abc"),
            ("X-BAPI-API-KEY", "key"),
            ("X-BAPI-TIMESTAMP", "42"),
            ("X-BAPI-RECV-WINDOW", "5000"),
            ("Content-type", "application/json"),
        ]
    );
}

#[test]
fn request_without_credentials_is_a_plain_get() {
    let plan = request_("https://x/y", None, None, None, false, 5).unwrap();
    assert!(plan.method == Method::Get);
    assert_eq!(plan.url, "https://x/y");
    assert!(plan.headers.is_empty());
    assert!(plan.json_body.is_none());
    assert!(!plan.signed);
    let api = "k".to_string();
    let secret = "s".to_string();
    let partial = request_("u", Some(&api), Some(&secret), None, true, 5).unwrap();
    assert!(partial.method == Method::Get);
    assert!(!partial.signed);
}

#[test]
fn request_with_credentials_is_signed() {
    let api = "key".to_string();
    let secret = "secret".to_string();
    let plan = request_(
        "https://api.bybit.com/v5/account/wallet-balance?accountType=UNIFIED&coin=USDT",
        Some(&api),
        Some(&secret),
        Some("accountType=UNIFIED&coin=USDT"),
        false,
        1700000000000,
    ).unwrap();
    assert!(plan.method == Method::Get);
    assert!(plan.signed);
    assert!(plan.json_body.is_none());
    assert_eq!(plan.headers[0].value, "7b2d9b304d6e1b381f41b2a79e673f20e9fc2c8d78f97c388d3f9d873731c9dc");
    assert_eq!(plan.headers[2].value, "1700000000000");
    let post = request_("u", Some(&api), Some(&secret), Some("{}"), true, 1).unwrap();
    assert!(post.method == Method::Post);
    assert_eq!(post.json_body.as_deref(), Some("{}"));
}

#[test]
fn clean_response_text_drops_backslashes() {
    assert_eq!(clean_response_text("{\\\"retCode\\\":0}"), "{\"retCode\":0}");
    assert_eq!(clean_response_text("a\\\\b\\n"), "abn");
    assert_eq!(clean_response_text("plain"), "plain");
    let once = clean_response_text("x\\\"y\\z");
    assert_eq!(clean_response_text(&once), once);
}

#[test]
fn signature_depends_only_on_key_secret_time_and_params() {
    let api = "key".to_string();
    let secret = "secret".to_string();
    let get = request_("https://a/x", Some(&api), Some(&secret), Some("{\"p\":1}"), false, 99).unwrap();
    let post = request_("https://b/y", Some(&api), Some(&secret), Some("{\"p\":1}"), true, 99).unwrap();
    assert_eq!(get.headers[0].value, post.headers[0].value);
    assert_eq!(get.headers[0].value.len(), 64);
    assert!(get.headers[0].value.chars().all(|c| c.is_ascii_hexdigit() && !c.is_ascii_uppercase()));
    let later = request_("https://a/x", Some(&api), Some(&secret), Some("{\"p\":1}"), false, 100).unwrap();
    assert_ne!(get.headers[0].value, later.headers[0].value);
}

#[test]
fn header_values_follow_http() {
    assert!(is_header_value("abc 123"));
    assert!(is_header_value("a\tb"));
    assert!(is_header_value("caf\u{e9}"));
    assert!(!is_header_value("a\nb"));
    assert!(!is_header_value("a\u{7f}"));
    assert!(is_header_value(""));
}

#[test]
fn request_refuses_a_post_whose_params_are_not_json() {
    let api = "key".to_string();
    let secret = "secret".to_string();
    let res = request_("u", Some(&api), Some(&secret), Some("accountType=UNIFIED"), true, 1);
    assert!(matches!(res, Err(RequestError::InvalidJson)));
    let get = request_("u", Some(&api), Some(&secret), Some("accountType=UNIFIED"), false, 1);
    assert!(get.is_ok());
    let post = request_("u", Some(&api), Some(&secret), Some("{\"a\":1}"), true, 1);
    assert!(post.is_ok());
    let plain = request_("u", None, None, Some("not json"), true, 1);
    assert!(plain.is_ok());
}
