use bybit_trader::cycle::{order_precision, refresh_due};
use bybit_trader::get::{g_balance, g_percent_changes, instruments_info_url, response, tickers_url, HeaderError, MovementError};
use bybit_trader::symbols::SymbolArray;

fn arr(v: &[&str]) -> SymbolArray {
    SymbolArray::from_vec(v.iter().map(|s| s.to_string()).collect())
}
use bybit_trader::session_::Method;

#[test]
fn mode_urls() {
    assert_eq!(tickers_url(&"-testnet".to_string()), "https://api-testnet.bybit.com/v5/market/tickers?category=linear");
    assert_eq!(instruments_info_url("ETHUSDT"), ".bybit.com/v5/market/instruments-info?category=linear&symbol=ETHUSDT");
}

#[test]
fn mode_response_plans() {
    let plain = response("u", None, None, None, 1).unwrap();
    assert!(!plain.signed);
    let api = "key".to_string();
    let secret = "secret".to_string();
    let signed = response("u", Some(&api), Some(&secret), Some("accountType=UNIFIED&coin=USDT"), 1700000000000).unwrap();
    assert!(signed.signed);
    assert!(signed.method == Method::Get);
    assert_eq!(signed.headers[0].value, "7b2d9b304d6e1b381f41b2a79e673f20e9fc2c8d78f97c388d3f9d873731c9dc");
}

#[test]
fn mode_balance_url_has_two_question_marks() {
    let plan = g_balance(&"".to_string(), &"UNIFIED".to_string(), &"key".to_string(), &"secret".to_string(), 1).unwrap();
    assert_eq!(plan.url, "https://api.bybit.com/v5/account/wallet-balance??accountType=UNIFIED&coin=USDT");
}

#[test]
fn mode_reports_every_moved_symbol() {
    let old = arr(&["\"A\"", "\"B\"", "\"C\""]);
    let (symbols, positions) = g_percent_changes(&old, &arr(&["\"A\"", "\"B\"", "\"C\""]), &vec![true, false, true]).unwrap();
    assert_eq!(symbols.to_vec(), vec!["\"A\"".to_string(), "\"C\"".to_string()]);
    assert_eq!(positions, vec![0, 2]);
    let (none, none_positions) = g_percent_changes(&old, &arr(&["x"]), &vec![false, false, false]).unwrap();
    assert!(none.to_vec().is_empty());
    assert!(none_positions.is_empty());
    let new = arr(&["\"A\"", "\"B\"", "\"D\""]);
    assert!(matches!(g_percent_changes(&old, &new, &vec![false, false, true]), Err(MovementError::DataNotFound)));
}

#[test]
fn mode_refuses_invalid_header_values() {
    let secret = "secret".to_string();
    let bad = "ke\ny".to_string();
    assert!(matches!(response("u", Some(&bad), Some(&secret), Some("p"), 1), Err(HeaderError::InvalidHeaderValue)));
    let del = "key\u{7f}".to_string();
    assert!(matches!(response("u", Some(&del), Some(&secret), Some("p"), 1), Err(HeaderError::InvalidHeaderValue)));
    let tab_and_accent = "k\tcl\u{e9}".to_string();
    assert!(response("u", Some(&tab_and_accent), Some(&secret), Some("p"), 1).is_ok());
    assert!(matches!(
        g_balance(&"".to_string(), &"UNIFIED".to_string(), &bad, &secret, 1),
        Err(HeaderError::InvalidHeaderValue)
    ));
}

#[test]
fn main_loop_rules() {
    assert!(!refresh_due(59));
    assert!(refresh_due(60));
    assert_eq!(order_precision(&vec![3, 2]), 2);
}
