//! Endpoints of the exchange's REST API, request signing, and the plan of
//! one request: which method, URL, headers and body to send, and how the
//! reply is to be read.

use crate::crypto::{hex_encode, hex_lower, hmac_sha256, hmac_sha256_of, is_lower_hex};
use crate::text::{replace_escaped_quotes, remove_char, unescape_quotes, without_char};
use crate::text::{decimal, decimal_string};
use vstd::prelude::*;
use vstd::utf8::{
    encode_scalar, encode_utf8, last_continuation_byte, leading_byte_width_2, leading_byte_width_3,
    leading_byte_width_4, second_last_continuation_byte, third_last_continuation_byte,
};

verus! {

/// Scheme and host prefix; the account mode (such as `-testnet`) may follow.
pub const DOMEN: &'static str = "https://api";

/// Linear-contract tickers.
pub const TICKERS: &'static str = ".bybit.com/v5/market/tickers?category=linear";

/// Instrument information; the symbol follows.
pub const INSTRUMENTS_INFO: &'static str = ".bybit.com/v5/market/instruments-info?category=linear&symbol=";

/// Wallet balance; the query parameters follow.
pub const WALLET_BALANCE: &'static str = ".bybit.com/v5/account/wallet-balance?";

/// Order creation; the order parameters follow.
pub const PLACE_ORDER: &'static str = ".bybit.com/v5/order/create?";

/// The receive window, in milliseconds, that every signed request declares.
pub const RECV_WINDOW: &'static str = "5000";

/// One HTTP header.
pub struct Header {
    pub name: String,
    pub value: String,
}

/// HTTP method of a request.
#[derive(PartialEq, Eq, Structural)]
pub enum Method {
    Get,
    Post,
}

/// Everything needed to perform one request.
pub struct RequestPlan {
    pub method: Method,
    pub url: String,
    pub headers: Vec<Header>,
    /// JSON text of the body: parsed, then sent as the body of a `Post`.
    pub json_body: Option<String>,
    /// A signed request's reply is read as text, cleaned by
    /// [`clean_response_text`] and then parsed as JSON; an unsigned one is
    /// parsed as JSON directly.
    pub signed: bool,
}

/// The text that a signed request signs.
pub open spec fn sign_payload(timestamp: Seq<char>, api: Seq<char>, prmtrs: Seq<char>) -> Seq<char> {
    timestamp + api + RECV_WINDOW@ + prmtrs
}

/// The signature of a request: the lowercase hexadecimal HMAC-SHA256 tag of
/// the UTF-8 bytes of [`sign_payload`], keyed by the UTF-8 bytes of the secret.
pub open spec fn signature(api_secret: Seq<char>, timestamp: Seq<char>, api: Seq<char>, prmtrs: Seq<char>) -> Seq<char> {
    hex_lower(hmac_sha256_of(encode_utf8(api_secret), encode_utf8(sign_payload(timestamp, api, prmtrs))))
}

/// `h` is the header `name: value`.
pub open spec fn header_is(h: Header, name: Seq<char>, value: Seq<char>) -> bool {
    h.name@ == name && h.value@ == value
}

/// The five headers of a signed request, in this order.
pub open spec fn auth_headers_are(hs: Seq<Header>, sign: Seq<char>, api: Seq<char>, timestamp: Seq<char>) -> bool {
    &&& hs.len() == 5
    &&& header_is(hs[0], "X-BAPI-SIGN"@, sign)
    &&& header_is(hs[1], "X-BAPI-API-KEY"@, api)
    &&& header_is(hs[2], "X-BAPI-TIMESTAMP"@, timestamp)
    &&& header_is(hs[3], "X-BAPI-RECV-WINDOW"@, RECV_WINDOW@)
    &&& header_is(hs[4], "Content-type"@, "application/json"@)
}

/// A signed request to `url`, made at `timestamp_ms` milliseconds since the
/// Unix epoch; a `Post` carrying `prmtrs` as its JSON body when `set`, else a `Get`.
pub open spec fn is_signed_plan(
    plan: RequestPlan,
    url: Seq<char>,
    api: Seq<char>,
    api_secret: Seq<char>,
    prmtrs: Seq<char>,
    set: bool,
    timestamp_ms: u128,
) -> bool {
    let timestamp = decimal(timestamp_ms as nat);
    &&& plan.method == (if set { Method::Post } else { Method::Get })
    &&& plan.url@ == url
    &&& auth_headers_are(plan.headers@, signature(api_secret, timestamp, api, prmtrs), api, timestamp)
    &&& plan.headers@[0].value@.len() == 64
    &&& is_lower_hex(plan.headers@[0].value@)
    &&& match plan.json_body {
        Some(body) => set && body@ == prmtrs,
        None => !set,
    }
    &&& plan.signed
}

/// An unsigned `Get` of `url` with no headers and no body.
pub open spec fn is_plain_plan(plan: RequestPlan, url: Seq<char>) -> bool {
    &&& plan.method == Method::Get
    &&& plan.url@ == url
    &&& plan.headers@.len() == 0
    &&& plan.json_body is None
    &&& !plan.signed
}

/// The signature of a request; `args` is the API key and the timestamp text.
pub fn g_hmac(args: &(&String, &String), api_secret: &str, prmtrs: &str) -> (sign: String)
    ensures
        sign@ == signature(api_secret@, args.1@, args.0@, prmtrs@),
        sign@.len() == 64,
        is_lower_hex(sign@),
{
    let (api, timestamp) = *args;
    let mut payload = timestamp.as_str().to_owned();
    payload.append(api.as_str());
    payload.append(RECV_WINDOW);
    payload.append(prmtrs);
    let tag = hmac_sha256(api_secret.as_bytes(), payload.as_str().as_bytes());
    proof {
        crate::crypto::lemma_hex_lower_len(tag@);
        crate::crypto::lemma_hex_lower_digits(tag@);
    }
    hex_encode(tag.as_slice())
}

/// The headers of a signed request; `args` is the API key and the timestamp text.
pub fn g_headers(args: &(&String, &String), sign: &str) -> (headers: Vec<Header>)
    ensures
        auth_headers_are(headers@, sign@, args.0@, args.1@),
{
    let (api, timestamp) = *args;
    let mut headers: Vec<Header> = Vec::new();
    headers.push(Header { name: "X-BAPI-SIGN".to_owned(), value: sign.to_owned() });
    headers.push(Header { name: "X-BAPI-API-KEY".to_owned(), value: api.as_str().to_owned() });
    headers.push(Header { name: "X-BAPI-TIMESTAMP".to_owned(), value: timestamp.as_str().to_owned() });
    headers.push(Header { name: "X-BAPI-RECV-WINDOW".to_owned(), value: RECV_WINDOW.to_owned() });
    headers.push(Header { name: "Content-type".to_owned(), value: "application/json".to_owned() });
    headers
}

/// Whether `serde_json` reads `text` as a JSON value
/// (`serde_json::from_str::<Value>` succeeds on it).
pub uninterp spec fn is_json_text(text: Seq<char>) -> bool;

/// `serde_json::from_str::<serde_json::Value>`, telling success from the
/// error. Trusted: the answer is `is_json_text` of the text.
#[verifier::external_body]
fn parses_as_json(text: &str) -> (ok: bool)
    ensures
        ok == is_json_text(text@),
{
    serde_json::from_str::<serde_json::Value>(text).is_ok()
}

/// Why a request was not planned.
#[derive(PartialEq, Eq, Structural, Debug)]
pub enum RequestError {
    /// The parameters of a signed `Post` are not JSON text.
    InvalidJson,
}

/// The plan of a request to `url`. It is signed when the API key, the secret
/// and the parameters are all given, with `timestamp_ms` as its timestamp;
/// otherwise it is a plain `Get`. A signed `Post` (`set`) sends its
/// parameters as a JSON body, so parameters that are not JSON text are
/// refused and nothing is to be sent.
pub fn request_(
    url: &str,
    api: Option<&String>,
    api_secret: Option<&String>,
    prmtrs: Option<&str>,
    set: bool,
    timestamp_ms: u128,
) -> (res: Result<RequestPlan, RequestError>)
    ensures
        match (api, api_secret, prmtrs) {
            (Some(a), Some(s), Some(p)) => if set && !is_json_text(p@) {
                res == Err::<RequestPlan, RequestError>(RequestError::InvalidJson)
            } else {
                res matches Ok(plan) && is_signed_plan(plan, url@, a@, s@, p@, set, timestamp_ms)
            },
            _ => res matches Ok(plan) && is_plain_plan(plan, url@),
        },
{
    if let (Some(api), Some(api_secret), Some(prmtrs)) = (api, api_secret, prmtrs) {
        if set && !parses_as_json(prmtrs) {
            return Err(RequestError::InvalidJson);
        }
        Ok(signed_request(url, api, api_secret, prmtrs, set, timestamp_ms))
    } else {
        Ok(RequestPlan { method: Method::Get, url: url.to_owned(), headers: Vec::new(), json_body: None, signed: false })
    }
}

/// The plan of a signed request.
pub fn signed_request(
    url: &str,
    api: &String,
    api_secret: &String,
    prmtrs: &str,
    set: bool,
    timestamp_ms: u128,
) -> (plan: RequestPlan)
    ensures
        is_signed_plan(plan, url@, api@, api_secret@, prmtrs@, set, timestamp_ms),
{
    let timestamp = decimal_string(timestamp_ms);
    let args = (api, &timestamp);
    let hmac = g_hmac(&args, api_secret.as_str(), prmtrs);
    let headers = g_headers(&args, hmac.as_str());
    if set {
        RequestPlan { method: Method::Post, url: url.to_owned(), headers, json_body: Some(prmtrs.to_owned()), signed: true }
    } else {
        RequestPlan { method: Method::Get, url: url.to_owned(), headers, json_body: None, signed: true }
    }
}

/// The text of a signed reply made ready for JSON parsing: every `\"`
/// becomes `"`, then every remaining `\` is dropped.
pub fn clean_response_text(text: &str) -> (res: String)
    ensures
        res@ == without_char(unescape_quotes(text@), '\\'),
        res@ == without_char(text@, '\\'),
{
    let unquoted = replace_escaped_quotes(text);
    proof { lemma_unescape_then_strip(text@); }
    remove_char(unquoted.as_str(), '\\')
}

/// Cleaning a reply twice gives what cleaning it once gives.
pub proof fn lemma_clean_idempotent(text: Seq<char>)
    ensures
        without_char(without_char(text, '\\'), '\\') == without_char(text, '\\'),
{
    crate::text::lemma_without_char_idempotent(text, '\\');
}

/// Undoing escaped quotes and then dropping backslashes drops exactly the
/// backslashes: the two passes of the reply clean-up amount to removing every `\`.
pub proof fn lemma_unescape_then_strip(s: Seq<char>)
    ensures
        without_char(unescape_quotes(s), '\\') == without_char(s, '\\'),
    decreases s.len(),
{
    if s.len() == 0 {
    } else if s.len() >= 2 && s[0] == '\\' && s[1] == '"' {
        let rest = unescape_quotes(s.skip(2));
        lemma_unescape_then_strip(s.skip(2));
        let u = seq!['"'] + rest;
        assert(u.skip(1) =~= rest);
        assert(s.skip(1).skip(1) =~= s.skip(2));
        assert(without_char(s.skip(1), '\\') == seq!['"'] + without_char(s.skip(2), '\\'));
        assert(without_char(s, '\\') =~= Seq::<char>::empty() + without_char(s.skip(1), '\\'));
        assert(without_char(u, '\\') == seq!['"'] + without_char(rest, '\\'));
    } else {
        let rest = unescape_quotes(s.skip(1));
        lemma_unescape_then_strip(s.skip(1));
        let u = seq![s[0]] + rest;
        assert(u.skip(1) =~= rest);
        assert(u[0] == s[0]);
    }
}

/// Signing depends on the secret, the clock reading, the key and the
/// parameters alone: two signed plans made from the same four carry the same
/// signature, whatever their URLs and methods, and it is 64 lowercase
/// hexadecimal digits.
pub proof fn lemma_sign_determined(
    plan1: RequestPlan,
    url1: Seq<char>,
    set1: bool,
    plan2: RequestPlan,
    url2: Seq<char>,
    set2: bool,
    api: Seq<char>,
    api_secret: Seq<char>,
    prmtrs: Seq<char>,
    timestamp_ms: u128,
)
    requires
        is_signed_plan(plan1, url1, api, api_secret, prmtrs, set1, timestamp_ms),
        is_signed_plan(plan2, url2, api, api_secret, prmtrs, set2, timestamp_ms),
    ensures
        plan1.headers@[0].value@ == plan2.headers@[0].value@,
        plan1.headers@[0].value@ == signature(api_secret, decimal(timestamp_ms as nat), api, prmtrs),
        plan1.headers@[0].value@.len() == 64,
        is_lower_hex(plan1.headers@[0].value@),
{
}

/// A byte that a header value may hold, as `http`'s `HeaderValue::from_str`
/// accepts it: a tab, or any byte from 32 on but 127.
pub open spec fn header_byte_ok(b: u8) -> bool {
    (b >= 32 && b != 127) || b == 9
}

/// Every UTF-8 byte of `v` may stand in a header value.
pub open spec fn header_value_ok(v: Seq<char>) -> bool {
    forall|i: int| 0 <= i < encode_utf8(v).len() ==> #[trigger] header_byte_ok(encode_utf8(v)[i])
}

/// Whether `v` may stand as a header value.
pub fn is_header_value(v: &str) -> (ok: bool)
    ensures
        ok == header_value_ok(v@),
{
    let b = v.as_bytes();
    let mut i: usize = 0;
    while i < b.len()
        invariant
            i <= b@.len(),
            b@ == encode_utf8(v@),
            forall|j: int| 0 <= j < i ==> #[trigger] header_byte_ok(b@[j]),
        decreases b.len() - i,
    {
        if !((b[i] >= 32 && b[i] != 127) || b[i] == 9) {
            assert(!header_byte_ok(b@[i as int]));
            return false;
        }
        i = i + 1;
    }
    true
}

/// The header values of a signed request, in header order.
pub open spec fn signed_header_values(api_secret: Seq<char>, timestamp_ms: u128, api: Seq<char>, prmtrs: Seq<char>) -> Seq<Seq<char>> {
    let timestamp = decimal(timestamp_ms as nat);
    seq![signature(api_secret, timestamp, api, prmtrs), api, timestamp, RECV_WINDOW@, "application/json"@]
}

/// Every value may stand in a header.
pub open spec fn header_values_ok(values: Seq<Seq<char>>) -> bool {
    forall|i: int| 0 <= i < values.len() ==> #[trigger] header_value_ok(values[i])
}

/// Every byte of `b` may stand in a header value.
pub open spec fn header_bytes_ok(b: Seq<u8>) -> bool {
    forall|i: int| 0 <= i < b.len() ==> #[trigger] header_byte_ok(b[i])
}

proof fn lemma_header_bytes_concat(x: Seq<u8>, y: Seq<u8>)
    ensures
        header_bytes_ok(x + y) <==> header_bytes_ok(x) && header_bytes_ok(y),
{
    if header_bytes_ok(x + y) {
        assert forall|i: int| 0 <= i < x.len() implies #[trigger] header_byte_ok(x[i]) by {
            assert((x + y)[i] == x[i]);
        }
        assert forall|i: int| 0 <= i < y.len() implies #[trigger] header_byte_ok(y[i]) by {
            assert((x + y)[x.len() + i] == y[i]);
        }
    }
    if header_bytes_ok(x) && header_bytes_ok(y) {
        assert forall|i: int| 0 <= i < (x + y).len() implies #[trigger] header_byte_ok((x + y)[i]) by {
            if i < x.len() {
                assert((x + y)[i] == x[i]);
            } else {
                assert((x + y)[i] == y[i - x.len()]);
            }
        }
    }
}

/// The character may stand in a header value: a tab, or any character
/// from the space on but DEL.
spec fn header_char_ok(c: char) -> bool {
    c == '\t' || (c as u32 >= 32 && c as u32 != 127)
}

proof fn lemma_scalar_header_bytes(c: char)
    ensures
        header_bytes_ok(encode_scalar(c as u32)) <==> header_char_ok(c),
{
    let u = c as u32;
    vstd::utf8::char_is_scalar(c);
    let e = encode_scalar(u);
    if u <= 0x7F {
        let b = (u & 0x7F) as u8;
        assert(b as u32 == u) by (bit_vector)
            requires
                u <= 0x7F,
                b == (u & 0x7F) as u8;
        assert(e =~= seq![b]);
        if header_char_ok(c) {
            assert(header_byte_ok(e[0]));
        }
        if header_bytes_ok(e) {
            assert(header_byte_ok(e[0]));
            assert(c == '\t' ==> u == 9);
            assert(u == 9 ==> c == '\t');
        }
        assert(c == '\t' <==> u == 9);
    } else {
        assert(last_continuation_byte(u) >= 128) by (bit_vector);
        assert(second_last_continuation_byte(u) >= 128) by (bit_vector);
        assert(third_last_continuation_byte(u) >= 128) by (bit_vector);
        assert(leading_byte_width_2(u) >= 128) by (bit_vector);
        assert(leading_byte_width_3(u) >= 128) by (bit_vector);
        assert(leading_byte_width_4(u) >= 128) by (bit_vector);
        assert forall|i: int| 0 <= i < e.len() implies #[trigger] header_byte_ok(e[i]) by {
            assert(e[i] >= 128);
        }
    }
}

/// A header value is accepted exactly when each of its characters is a tab
/// or a character from the space on other than DEL: every printable ASCII
/// text, letters of both cases included, and every non-ASCII character.
pub proof fn lemma_header_value_chars(v: Seq<char>)
    ensures
        header_value_ok(v) <==> forall|i: int| #![trigger v[i]] 0 <= i < v.len() ==>
            v[i] == '\t' || (v[i] as u32 >= 32 && v[i] as u32 != 127),
        (forall|i: int| #![trigger v[i]] 0 <= i < v.len() ==> 32 <= v[i] as u32 <= 126) ==> header_value_ok(v),
{
    lemma_header_value_chars_ok(v);
    if header_value_ok(v) {
        assert forall|i: int| #![trigger v[i]] 0 <= i < v.len() implies
            v[i] == '\t' || (v[i] as u32 >= 32 && v[i] as u32 != 127) by {
            assert(header_char_ok(v[i]));
        }
    }
    if forall|i: int| #![trigger v[i]] 0 <= i < v.len() ==> v[i] == '\t' || (v[i] as u32 >= 32 && v[i] as u32 != 127) {
        assert forall|i: int| 0 <= i < v.len() implies #[trigger] header_char_ok(v[i]) by {
            assert(v[i] == '\t' || (v[i] as u32 >= 32 && v[i] as u32 != 127));
        }
    }
    if forall|i: int| #![trigger v[i]] 0 <= i < v.len() ==> 32 <= v[i] as u32 <= 126 {
        assert forall|i: int| 0 <= i < v.len() implies #[trigger] header_char_ok(v[i]) by {
            assert(32 <= v[i] as u32 <= 126);
        }
    }
}

proof fn lemma_header_value_chars_ok(v: Seq<char>)
    ensures
        header_value_ok(v) <==> forall|i: int| 0 <= i < v.len() ==> #[trigger] header_char_ok(v[i]),
    decreases v.len(),
{
    assert(header_value_ok(v) == header_bytes_ok(encode_utf8(v)));
    if v.len() > 0 {
        lemma_header_value_chars_ok(v.skip(1));
        lemma_scalar_header_bytes(v[0]);
        lemma_header_bytes_concat(encode_scalar(v[0] as u32), encode_utf8(v.skip(1)));
        assert(header_value_ok(v.skip(1)) == header_bytes_ok(encode_utf8(v.skip(1))));
        if forall|i: int| 0 <= i < v.len() ==> #[trigger] header_char_ok(v[i]) {
            assert forall|i: int| 0 <= i < v.skip(1).len() implies #[trigger] header_char_ok(v.skip(1)[i]) by {
                assert(v.skip(1)[i] == v[i + 1]);
            }
            assert(header_char_ok(v[0]));
        }
        if header_value_ok(v) {
            assert forall|i: int| 0 <= i < v.len() implies #[trigger] header_char_ok(v[i]) by {
                if i > 0 {
                    assert(v.skip(1)[i - 1] == v[i]);
                }
            }
        }
    } else {
        assert(encode_utf8(v) =~= Seq::<u8>::empty());
    }
}

} // verus!
