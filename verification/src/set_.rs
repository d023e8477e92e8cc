//! Order placement: the order's JSON parameters and its signed request.

use crate::session_::{is_json_text, is_signed_plan, request_, RequestError, RequestPlan, DOMEN, PLACE_ORDER};
use vstd::prelude::*;

verus! {

/// The compact JSON text that `serde_json` writes for an object whose
/// members are the given names with string values.
pub uninterp spec fn json_string_object(members: Seq<(Seq<char>, Seq<char>)>) -> Seq<char>;

/// The view of a list of name/value pairs.
pub open spec fn members_view(members: Seq<(String, String)>) -> Seq<(Seq<char>, Seq<char>)> {
    members.map_values(|m: (String, String)| (m.0@, m.1@))
}

/// `serde_json::Value::Object` of string members, written by its
/// `to_string`. Trusted: the text is `json_string_object` of the members.
#[verifier::external_body]
fn json_object_text(members: &Vec<(String, String)>) -> (text: String)
    ensures
        text@ == json_string_object(members_view(members@)),
{
    let map: serde_json::Map<String, serde_json::Value> = members
        .iter()
        .map(|m| (m.0.clone(), serde_json::Value::String(m.1.clone())))
        .collect();
    serde_json::Value::Object(map).to_string()
}

/// The members of a linear-contract order.
pub open spec fn order_members(
    symbol: Seq<char>,
    side: Seq<char>,
    order_type: Seq<char>,
    price: Seq<char>,
    qty: Seq<char>,
) -> Seq<(Seq<char>, Seq<char>)> {
    seq![
        ("category"@, "linear"@),
        ("symbol"@, symbol),
        ("side"@, side),
        ("orderType"@, order_type),
        ("price"@, price),
        ("qty"@, qty),
    ]
}

/// The JSON parameters of a linear-contract order.
pub open spec fn order_params(
    symbol: Seq<char>,
    side: Seq<char>,
    order_type: Seq<char>,
    price: Seq<char>,
    qty: Seq<char>,
) -> Seq<char> {
    json_string_object(order_members(symbol, side, order_type, price, qty))
}

fn member(name: &str, value: &str) -> (m: (String, String))
    ensures
        m.0@ == name@,
        m.1@ == value@,
{
    (name.to_owned(), value.to_owned())
}

/// The JSON text of a linear-contract order's parameters.
pub fn order_json(symbol: &str, order_type: &str, price: &str, side: &str, qty: &str) -> (text: String)
    ensures
        text@ == order_params(symbol@, side@, order_type@, price@, qty@),
{
    let mut members: Vec<(String, String)> = Vec::new();
    members.push(member("category", "linear"));
    members.push(member("symbol", symbol));
    members.push(member("side", side));
    members.push(member("orderType", order_type));
    members.push(member("price", price));
    members.push(member("qty", qty));
    assert(members_view(members@) =~= order_members(symbol@, side@, order_type@, price@, qty@));
    json_object_text(&members)
}

/// The signed `Post` that places an order in `mode`; the order's JSON
/// parameters are both appended to the URL and sent as the body. It is
/// refused when `serde_json` does not read those parameters back as JSON.
pub fn s_place_order(
    api: &String,
    api_secret: &String,
    mode: &String,
    symbol: &str,
    order_type: &str,
    price: &str,
    side: &str,
    qty: &str,
    timestamp_ms: u128,
) -> (res: Result<RequestPlan, RequestError>)
    ensures
        if is_json_text(order_params(symbol@, side@, order_type@, price@, qty@)) {
            res matches Ok(plan) && is_signed_plan(
                plan,
                DOMEN@ + mode@ + PLACE_ORDER@ + order_params(symbol@, side@, order_type@, price@, qty@),
                api@,
                api_secret@,
                order_params(symbol@, side@, order_type@, price@, qty@),
                true,
                timestamp_ms,
            )
        } else {
            res == Err::<RequestPlan, RequestError>(RequestError::InvalidJson)
        },
{
    let prmtrs = order_json(symbol, order_type, price, side, qty);
    let mut url = DOMEN.to_owned();
    url.append(mode.as_str());
    url.append(PLACE_ORDER);
    url.append(prmtrs.as_str());
    request_(url.as_str(), Some(api), Some(api_secret), Some(prmtrs.as_str()), true, timestamp_ms)
}

/// An order's members are, in this order, the category `linear` and the
/// symbol, side, order type, price and quantity texts exactly as given.
pub proof fn lemma_order_members(
    symbol: Seq<char>,
    side: Seq<char>,
    order_type: Seq<char>,
    price: Seq<char>,
    qty: Seq<char>,
)
    ensures
        order_members(symbol, side, order_type, price, qty).len() == 6,
        order_members(symbol, side, order_type, price, qty)[0] == ("category"@, "linear"@),
        order_members(symbol, side, order_type, price, qty)[1] == ("symbol"@, symbol),
        order_members(symbol, side, order_type, price, qty)[2] == ("side"@, side),
        order_members(symbol, side, order_type, price, qty)[3] == ("orderType"@, order_type),
        order_members(symbol, side, order_type, price, qty)[4] == ("price"@, price),
        order_members(symbol, side, order_type, price, qty)[5] == ("qty"@, qty),
{
}

/// Two orders have the same members only when they were given the same
/// symbol, side, order type, price and quantity: no two quantity texts
/// (say `0.015` and `00.15`) become the same member.
pub proof fn lemma_order_members_injective(
    symbol: Seq<char>, side: Seq<char>, order_type: Seq<char>, price: Seq<char>, qty: Seq<char>,
    symbol2: Seq<char>, side2: Seq<char>, order_type2: Seq<char>, price2: Seq<char>, qty2: Seq<char>,
)
    requires
        order_members(symbol, side, order_type, price, qty) == order_members(symbol2, side2, order_type2, price2, qty2),
    ensures
        symbol == symbol2,
        side == side2,
        order_type == order_type2,
        price == price2,
        qty == qty2,
{
    lemma_order_members(symbol, side, order_type, price, qty);
    lemma_order_members(symbol2, side2, order_type2, price2, qty2);
}

} // verus!
