use bybit_trader::get_::{
    decimal_places, g_balance, g_last_prices, g_percent_changes, g_round_qty, instruments_info_url,
    listed_tickers, listed_usdt, tickers_url, ChangeError, LotSizeField, TickerRecord,
};
use bybit_trader::session_::Method;
use bybit_trader::symbols::SymbolArray;

fn arr(v: &[&str]) -> SymbolArray {
    SymbolArray::from_vec(v.iter().map(|s| s.to_string()).collect())
}

fn ticker(symbol: &str, phase: Option<&str>, price: Option<&str>) -> TickerRecord {
    TickerRecord {
        symbol: symbol.to_string(),
        pre_listing_phase: phase.map(|p| p.to_string()),
        last_price: price.map(|p| p.to_string()),
    }
}

#[test]
fn urls_of_market_data() {
    assert_eq!(tickers_url(), "https://api.bybit.com/v5/market/tickers?category=linear");
    assert_eq!(
        instruments_info_url("BTCUSDT"),
        "https://api.bybit.com/v5/market/instruments-info?category=linear&symbol=BTCUSDT"
    );
}

#[test]
fn listed_usdt_rules() {
    assert!(listed_usdt(&ticker("\"BTCUSDT\"", Some(""), Some("1"))));
    assert!(!listed_usdt(&ticker("\"BTCUSDT\"", Some("ContinuousTrading"), Some("1"))));
    assert!(!listed_usdt(&ticker("\"BTCUSDT\"", None, Some("1"))));
    assert!(!listed_usdt(&ticker("\"BTCPERP\"", Some(""), Some("1"))));
    assert!(!listed_usdt(&ticker("\"USDCUSDT\"", Some(""), Some("1"))));
}

#[test]
fn listed_tickers_keeps_traded_tickers_in_order() {
    let ts = vec![
        ticker("\"BTCUSDT\"", Some(""), Some("65000.5")),
        ticker("\"ETHPERP\"", Some(""), Some("3000")),
        ticker("\"NEWUSDT\"", Some("PreListing"), Some("1")),
        ticker("\"SOLUSDT\"", Some(""), None),
    ];
    let qs = listed_tickers(&ts);
    assert_eq!(qs.len(), 2);
    assert_eq!(qs[0].symbol, "\"BTCUSDT\"");
    assert_eq!(qs[0].last_price.as_deref(), Some("65000.5"));
    assert_eq!(qs[1].symbol, "\"SOLUSDT\"");
    assert_eq!(qs[1].last_price, None);
}

#[test]
fn g_last_prices_stops_at_a_price_that_is_not_text() {
    let ts = vec![
        ticker("\"BTCUSDT\"", Some(""), Some("65000.5")),
        ticker("\"ETHPERP\"", Some(""), None),
        ticker("\"SOLUSDT\"", Some(""), None),
        ticker("\"XRPUSDT\"", Some(""), Some("0.5")),
    ];
    let res = g_last_prices(&ts);
    assert!(res.price_missing);
    assert_eq!(res.quotes.len(), 1);
    assert_eq!(res.quotes[0].symbol, "\"BTCUSDT\"");
    assert_eq!(res.quotes[0].last_price, "65000.5");
}

#[test]
fn g_last_prices_reads_every_priced_ticker() {
    let ts = vec![
        ticker("\"BTCUSDT\"", Some(""), Some("65000.5")),
        ticker("\"ETHPERP\"", Some(""), None),
        ticker("\"XRPUSDT\"", Some(""), Some("0.5")),
    ];
    let res = g_last_prices(&ts);
    assert!(!res.price_missing);
    let pairs: Vec<(&str, &str)> = res.quotes.iter().map(|q| (q.symbol.as_str(), q.last_price.as_str())).collect();
    assert_eq!(pairs, vec![("\"BTCUSDT\"", "65000.5"), ("\"XRPUSDT\"", "0.5")]);
}

#[test]
fn g_percent_changes_reports_first_moved_symbol() {
    let old = arr(&["\"A\"", "\"B\"", "\"C\""]);
    let new = arr(&["\"A\"", "\"B\"", "\"C\""]);
    let res = g_percent_changes(&old, &new, &vec![false, true, true]);
    assert_eq!(res, Ok(("B".to_string(), 1)));
}

#[test]
fn g_percent_changes_refuses_shifted_lists() {
    let old = arr(&["\"A\"", "\"B\""]);
    let new = arr(&["\"A\"", "\"X\""]);
    assert_eq!(g_percent_changes(&old, &new, &vec![false, true]), Err(ChangeError::SymbolsDiffer));
    assert_eq!(g_percent_changes(&old, &new, &vec![true, false]), Ok(("A".to_string(), 0)));
}

#[test]
fn decimal_places_counts_bytes_after_dot() {
    assert_eq!(decimal_places("0.001"), 3);
    assert_eq!(decimal_places("100"), 0);
    assert_eq!(decimal_places("1."), 0);
    assert_eq!(decimal_places("1.5.25"), 4);
    assert_eq!(decimal_places("0.é"), 2);
}

#[test]
fn g_round_qty_reads_the_two_precision_fields() {
    let fields = vec![
        LotSizeField { key: "maxOrderQty".to_string(), value: Some("100.000".to_string()) },
        LotSizeField { key: "minOrderQty".to_string(), value: Some("0.001".to_string()) },
        LotSizeField { key: "qtyStep".to_string(), value: Some("0.01".to_string()) },
        LotSizeField { key: "qtyStep".to_string(), value: None },
    ];
    assert_eq!(g_round_qty(&fields), vec![3, 2]);
}

#[test]
fn g_balance_is_a_signed_get() {
    let mode = "-testnet".to_string();
    let acct = "UNIFIED".to_string();
    let api = "key".to_string();
    let secret = "secret".to_string();
    let plan = g_balance(&mode, &acct, &api, &secret, 1700000000000);
    assert!(plan.method == Method::Get);
    assert_eq!(
        plan.url,
        "https://api-testnet.bybit.com/v5/account/wallet-balance?accountType=UNIFIED&coin=USDT"
    );
    assert_eq!(plan.headers[0].value, "7b2d9b304d6e1b381f41b2a79e673f20e9fc2c8d78f97c388d3f9d873731c9dc");
}

#[test]
fn symbol_array_round_trips() {
    assert_eq!(arr(&["a", "b"]).to_vec(), vec!["a".to_string(), "b".to_string()]);
}
