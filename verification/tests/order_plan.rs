use bybit_trader::session_::Method;
use bybit_trader::set_::{order_json, s_place_order};

const PARAMS: &str = "{\"category\":\"linear\",\"orderType\":\"Market\",\"price\":\"1.5\",\"qty\":\"10\",\"side\":\"Buy\",\"symbol\":\"BTCUSDT\"}";

#[test]
fn order_json_is_serde_jsons_object_text() {
    assert_eq!(order_json("BTCUSDT", "Market", "1.5", "Buy", "10"), PARAMS);
    assert_eq!(
        order_json("A\"B", "Limit", "2", "Sell", "1"),
        "{\"category\":\"linear\",\"orderType\":\"Limit\",\"price\":\"2\",\"qty\":\"1\",\"side\":\"Sell\",\"symbol\":\"A\\\"B\"}"
    );
}

#[test]
fn s_place_order_is_a_signed_post() {
    let api = "k".to_string();
    let secret = "sec".to_string();
    let mode = "".to_string();
    let plan = s_place_order(&api, &secret, &mode, "BTCUSDT", "Market", "1.5", "Buy", "10", 42).unwrap();
    assert!(plan.method == Method::Post);
    assert!(plan.signed);
    assert_eq!(plan.url, format!("https://api.bybit.com/v5/order/create?{}", PARAMS));
    assert_eq!(plan.json_body.as_deref(), Some(PARAMS));
    assert_eq!(plan.headers[0].value, "4474eb49a9dbaf144e94cbee659a63928258731cc2bcb0b2e529492707d01976");
    assert_eq!(plan.headers[2].value, "42");
}
