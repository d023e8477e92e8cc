//! Market-data requests with the account mode in every tickers URL, replies
//! fetched through [`response`], and a price-movement rule that reports
//! every moved symbol.

pub use crate::get_::{g_last_prices, g_round_qty};

use crate::get_::{balance_params, moved_indices, moved_positions, moved_symbols_agree};
use crate::symbols::{symbols_of, SymbolArray};
use crate::session_::{header_value_ok, header_values_ok, is_header_value, is_plain_plan, is_signed_plan, request_, signed_header_values, RequestPlan, DOMEN, INSTRUMENTS_INFO, TICKERS, WALLET_BALANCE};
use vstd::prelude::*;

verus! {

/// Why the moved symbols were not reported.
#[derive(PartialEq, Eq, Structural, Debug)]
pub enum MovementError {
    /// The old and the new tickers list disagree on a moved symbol.
    DataNotFound,
}

/// A header value that `http` refuses.
#[derive(PartialEq, Eq, Structural, Debug)]
pub enum HeaderError {
    InvalidHeaderValue,
}

/// The plan of a request to `url`: a signed `Get` of `prmtrs` when the API
/// key and the secret are given, else a plain `Get`. A signed request whose
/// header values are not all valid header values is refused.
pub fn response(
    url: &str,
    api: Option<&String>,
    api_secret: Option<&String>,
    prmtrs: Option<&str>,
    timestamp_ms: u64,
) -> (res: Result<RequestPlan, HeaderError>)
    requires
        api is Some && api_secret is Some ==> prmtrs is Some,
    ensures
        match (api, api_secret, prmtrs) {
            (Some(a), Some(s), Some(p)) => match res {
                Ok(plan) => is_signed_plan(plan, url@, a@, s@, p@, false, timestamp_ms as u128)
                    && header_values_ok(signed_header_values(s@, timestamp_ms as u128, a@, p@)),
                Err(e) => e == HeaderError::InvalidHeaderValue
                    && !header_values_ok(signed_header_values(s@, timestamp_ms as u128, a@, p@)),
            },
            _ => res matches Ok(plan) && is_plain_plan(plan, url@),
        },
{
    let plan = request_(url, api, api_secret, prmtrs, false, timestamp_ms as u128).unwrap();
    if plan.signed {
        assert(api is Some && api_secret is Some && prmtrs is Some);
        let ghost values = signed_header_values(api_secret.unwrap()@, timestamp_ms as u128, api.unwrap()@, prmtrs.unwrap()@);
        let mut i: usize = 0;
        while i < plan.headers.len()
            invariant
                api is Some && api_secret is Some && prmtrs is Some,
                values == signed_header_values(api_secret.unwrap()@, timestamp_ms as u128, api.unwrap()@, prmtrs.unwrap()@),
                plan.headers@.len() == 5,
                values.len() == 5,
                forall|j: int| 0 <= j < 5 ==> plan.headers@[j].value@ == values[j],
                i <= 5,
                forall|j: int| 0 <= j < i ==> #[trigger] header_value_ok(values[j]),
            decreases plan.headers.len() - i,
        {
            if !is_header_value(plan.headers[i].value.as_str()) {
                assert(!header_value_ok(values[i as int]));
                return Err(HeaderError::InvalidHeaderValue);
            }
            i = i + 1;
        }
    }
    Ok(plan)
}

/// The URL of the tickers list in `mode`.
pub fn tickers_url(mode: &String) -> (url: String)
    ensures
        url@ == DOMEN@ + mode@ + TICKERS@,
{
    let mut url = DOMEN.to_owned();
    url.append(mode.as_str());
    url.append(TICKERS);
    url
}

/// The URL of an instrument's information.
pub fn instruments_info_url(symbol: &str) -> (url: String)
    ensures
        url@ == INSTRUMENTS_INFO@ + symbol@,
{
    let mut url = INSTRUMENTS_INFO.to_owned();
    url.append(symbol);
    url
}

/// Every moved symbol and the moved positions. `in_band[i]` says that the
/// price of the `i`-th symbol moved by at least the threshold and less than
/// the limit. The moved symbols are selected from both arrays; they are
/// given when the two selections are equal.
pub fn g_percent_changes(
    symbols_old: &SymbolArray,
    symbols_new: &SymbolArray,
    in_band: &Vec<bool>,
) -> (res: Result<(SymbolArray, Vec<usize>), MovementError>)
    requires
        forall|i: int| 0 <= i < in_band@.len() && in_band@[i] ==>
            i < symbols_of(*symbols_old).len() && i < symbols_of(*symbols_new).len(),
    ensures
        match res {
            Ok((symbols, positions)) => {
                &&& moved_symbols_agree(symbols_of(*symbols_old), symbols_of(*symbols_new), in_band@)
                &&& positions@ == moved_positions(in_band@)
                &&& symbols_of(symbols) == positions@.map_values(|i: usize| symbols_of(*symbols_new)[i as int])
            },
            Err(e) => e == MovementError::DataNotFound
                && !moved_symbols_agree(symbols_of(*symbols_old), symbols_of(*symbols_new), in_band@),
        },
{
    let indices = moved_indices(in_band);
    let ghost old_s = symbols_of(*symbols_old);
    let ghost new_s = symbols_of(*symbols_new);
    let symbols_f = symbols_new.select(&indices);
    let old_f = symbols_old.select(&indices);
    let ghost sel_new = symbols_of(symbols_f);
    let ghost sel_old = symbols_of(old_f);
    if old_f.same_symbols(&symbols_f) {
        assert forall|i: int| 0 <= i < in_band@.len() && in_band@[i] implies old_s[i] == new_s[i] by {
            assert(i < in_band.len());
            assert(indices@.contains(i as usize));
            let j = choose|j: int| 0 <= j < indices@.len() && indices@[j] == i as usize;
            assert(indices@[j] as int == i);
            assert(sel_old[j] == old_s[i]);
            assert(sel_new[j] == new_s[i]);
        }
        Ok((symbols_f, indices))
    } else {
        assert(!moved_symbols_agree(old_s, new_s, in_band@)) by {
            if moved_symbols_agree(old_s, new_s, in_band@) {
                assert(sel_old =~= sel_new);
            }
        }
        Err(MovementError::DataNotFound)
    }
}

/// The signed `Get` of the USDT balance of `account_type` in `mode`,
/// refused when a header value is not a valid header value.
pub fn g_balance(
    mode: &String,
    account_type: &String,
    api: &String,
    api_secret: &String,
    timestamp_ms: u64,
) -> (res: Result<RequestPlan, HeaderError>)
    ensures
        match res {
            Ok(plan) => is_signed_plan(
                plan,
                DOMEN@ + mode@ + WALLET_BALANCE@ + "?"@ + balance_params(account_type@),
                api@,
                api_secret@,
                balance_params(account_type@),
                false,
                timestamp_ms as u128,
            ) && header_values_ok(signed_header_values(api_secret@, timestamp_ms as u128, api@, balance_params(account_type@))),
            Err(e) => e == HeaderError::InvalidHeaderValue
                && !header_values_ok(signed_header_values(api_secret@, timestamp_ms as u128, api@, balance_params(account_type@))),
        },
{
    let mut prmtrs = "accountType=".to_owned();
    prmtrs.append(account_type.as_str());
    prmtrs.append("&coin=USDT");
    let mut url = DOMEN.to_owned();
    url.append(mode.as_str());
    url.append(WALLET_BALANCE);
    url.append("?");
    url.append(prmtrs.as_str());
    response(url.as_str(), Some(api), Some(api_secret), Some(prmtrs.as_str()), timestamp_ms)
}

} // verus!
