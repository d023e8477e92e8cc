//! Market data rules: which tickers are traded, which symbol moved, how many
//! decimal places a quantity takes, and the wallet-balance request.

use crate::session_::{request_, is_signed_plan, RequestPlan, DOMEN, INSTRUMENTS_INFO, TICKERS, WALLET_BALANCE};
use crate::text::{contains_str, has_substring, remove_char, str_eq, without_char};
use crate::symbols::{symbols_of, SymbolArray};
use vstd::prelude::*;
use vstd::utf8::encode_utf8;

verus! {

/// One entry of the exchange's tickers list, as the rules read it.
pub struct TickerRecord {
    /// The JSON text of the entry's `symbol` (a string keeps its quotes).
    pub symbol: String,
    /// The entry's `curPreListingPhase`, when it is a JSON string.
    pub pre_listing_phase: Option<String>,
    /// The entry's `lastPrice`, when it is a JSON string.
    pub last_price: Option<String>,
}

/// A traded ticker: its symbol and, when it is a JSON string, its last price.
pub struct ListedTicker {
    pub symbol: String,
    pub last_price: Option<String>,
}

/// A traded symbol and the text of its last price.
pub struct PriceQuote {
    pub symbol: String,
    pub last_price: String,
}

/// The traded tickers up to the first one whose last price is not a JSON
/// string, and whether there is such a ticker.
pub struct LastPrices {
    pub quotes: Vec<PriceQuote>,
    pub price_missing: bool,
}

/// One field of an instrument's lot-size filter: its name and, when the
/// value is a JSON string, that string.
pub struct LotSizeField {
    pub key: String,
    pub value: Option<String>,
}

/// Why no moved symbol was found.
#[derive(PartialEq, Eq, Structural, Debug)]
pub enum ChangeError {
    /// The old and the new tickers list disagree on a symbol that moved.
    SymbolsDiffer,
}

/// The view of an optional string.
pub open spec fn opt_view(o: Option<String>) -> Option<Seq<char>> {
    match o {
        Some(s) => Some(s@),
        None => None,
    }
}

/// A ticker is traded when it is out of its pre-listing phase (the phase is
/// the empty string) and its symbol names USDT and not USDC.
pub open spec fn is_listed_usdt(t: TickerRecord) -> bool {
    &&& t.pre_listing_phase matches Some(p) && p@.len() == 0
    &&& has_substring(t.symbol@, "USDT"@)
    &&& !has_substring(t.symbol@, "USDC"@)
}

/// The symbols and price texts of the traded tickers, in list order.
pub open spec fn listed_quotes(ts: Seq<TickerRecord>) -> Seq<(Seq<char>, Option<Seq<char>>)>
    decreases ts.len(),
{
    if ts.len() == 0 {
        Seq::empty()
    } else {
        let t = ts.last();
        listed_quotes(ts.drop_last()) + (if is_listed_usdt(t) {
            seq![(t.symbol@, opt_view(t.last_price))]
        } else {
            Seq::empty()
        })
    }
}

/// The view of a list of traded tickers.
pub open spec fn listed_view(qs: Seq<ListedTicker>) -> Seq<(Seq<char>, Option<Seq<char>>)> {
    qs.map_values(|q: ListedTicker| (q.symbol@, opt_view(q.last_price)))
}

/// The view of a list of quotes.
pub open spec fn quotes_view(qs: Seq<PriceQuote>) -> Seq<(Seq<char>, Seq<char>)> {
    qs.map_values(|q: PriceQuote| (q.symbol@, q.last_price@))
}

/// The leading run of entries that have a price, with their prices.
pub open spec fn priced_prefix(kept: Seq<(Seq<char>, Option<Seq<char>>)>) -> Seq<(Seq<char>, Seq<char>)>
    decreases kept.len(),
{
    if kept.len() == 0 {
        Seq::empty()
    } else if kept[0].1 is None {
        Seq::empty()
    } else {
        seq![(kept[0].0, kept[0].1->Some_0)] + priced_prefix(kept.skip(1))
    }
}

/// Some entry has no price.
pub open spec fn has_unpriced(kept: Seq<(Seq<char>, Option<Seq<char>>)>) -> bool {
    exists|i: int| 0 <= i < kept.len() && (#[trigger] kept[i]).1 is None
}

/// The URL of the tickers list.
pub fn tickers_url() -> (url: String)
    ensures
        url@ == DOMEN@ + TICKERS@,
{
    let mut url = DOMEN.to_owned();
    url.append(TICKERS);
    url
}

/// The URL of an instrument's information.
pub fn instruments_info_url(symbol: &str) -> (url: String)
    ensures
        url@ == DOMEN@ + INSTRUMENTS_INFO@ + symbol@,
{
    let mut url = DOMEN.to_owned();
    url.append(INSTRUMENTS_INFO);
    url.append(symbol);
    url
}

fn clone_opt(o: &Option<String>) -> (res: Option<String>)
    ensures
        opt_view(res) == opt_view(*o),
{
    match o {
        Some(s) => Some(s.clone()),
        None => None,
    }
}

/// Whether a ticker is traded (see [`is_listed_usdt`]).
pub fn listed_usdt(t: &TickerRecord) -> (res: bool)
    ensures
        res == is_listed_usdt(*t),
{
    let phase_empty = match &t.pre_listing_phase {
        Some(p) => p.as_str().is_empty(),
        None => false,
    };
    phase_empty && contains_str(t.symbol.as_str(), "USDT") && !contains_str(t.symbol.as_str(), "USDC")
}

/// The traded tickers' symbols and price texts, in list order.
pub fn listed_tickers(tickers: &Vec<TickerRecord>) -> (quotes: Vec<ListedTicker>)
    ensures
        listed_view(quotes@) == listed_quotes(tickers@),
{
    let mut quotes: Vec<ListedTicker> = Vec::new();
    let mut i: usize = 0;
    while i < tickers.len()
        invariant
            i <= tickers.len(),
            listed_view(quotes@) == listed_quotes(tickers@.take(i as int)),
        decreases tickers.len() - i,
    {
        let ghost before = quotes@;
        let t = &tickers[i];
        assert(tickers@.take(i + 1).drop_last() =~= tickers@.take(i as int));
        assert(tickers@.take(i + 1).last() == *t);
        if listed_usdt(t) {
            quotes.push(ListedTicker { symbol: t.symbol.clone(), last_price: clone_opt(&t.last_price) });
            assert(listed_view(quotes@) =~= listed_view(before).push((t.symbol@, opt_view(t.last_price))));
        } else {
            assert(quotes@ == before);
        }
        assert(listed_quotes(tickers@.take(i + 1)) =~= listed_quotes(tickers@.take(i as int)) + (if is_listed_usdt(*t) {
            seq![(t.symbol@, opt_view(t.last_price))]
        } else {
            Seq::empty()
        }));
        i = i + 1;
    }
    assert(tickers@.take(tickers.len() as int) =~= tickers@);
    quotes
}

/// The traded tickers' symbols and price texts, in list order, up to the
/// first traded ticker whose last price is not a JSON string; `price_missing`
/// says whether there is one (reading its price as text would fail).
pub fn g_last_prices(tickers: &Vec<TickerRecord>) -> (res: LastPrices)
    ensures
        quotes_view(res.quotes@) == priced_prefix(listed_quotes(tickers@)),
        res.price_missing == has_unpriced(listed_quotes(tickers@)),
{
    let kept = listed_tickers(tickers);
    let ghost kv = listed_view(kept@);
    let mut quotes: Vec<PriceQuote> = Vec::new();
    let mut i: usize = 0;
    assert(kv.skip(0) =~= kv);
    while i < kept.len()
        invariant
            i <= kept.len(),
            kv == listed_view(kept@),
            kv == listed_quotes(tickers@),
            priced_prefix(kv) == quotes_view(quotes@) + priced_prefix(kv.skip(i as int)),
            forall|j: int| 0 <= j < i ==> (#[trigger] kv[j]).1 is Some,
        decreases kept.len() - i,
    {
        let ghost before = quotes@;
        let ghost rest = kv.skip(i as int);
        assert(rest[0] == kv[i as int]);
        assert(kv[i as int] == (kept@[i as int].symbol@, opt_view(kept@[i as int].last_price)));
        match &kept[i].last_price {
            Some(price) => {
                quotes.push(PriceQuote { symbol: kept[i].symbol.clone(), last_price: price.clone() });
                assert(rest.skip(1) =~= kv.skip(i + 1));
                assert(quotes_view(quotes@) =~= quotes_view(before).push((kv[i as int].0, kv[i as int].1->Some_0)));
                assert(quotes_view(quotes@) + priced_prefix(kv.skip(i + 1)) =~= quotes_view(before) + (seq![(rest[0].0, rest[0].1->Some_0)] + priced_prefix(rest.skip(1))));
            },
            None => {
                assert(priced_prefix(rest) =~= Seq::<(Seq<char>, Seq<char>)>::empty());
                assert(quotes_view(quotes@) + Seq::<(Seq<char>, Seq<char>)>::empty() =~= quotes_view(quotes@));
                assert(kv[i as int].1 is None);
                return LastPrices { quotes, price_missing: true };
            },
        }
        i = i + 1;
    }
    assert(kv.skip(kept.len() as int) =~= Seq::<(Seq<char>, Option<Seq<char>>)>::empty());
    assert(quotes_view(quotes@) + Seq::<(Seq<char>, Seq<char>)>::empty() =~= quotes_view(quotes@));
    LastPrices { quotes, price_missing: false }
}

/// Every moved symbol (flagged in `in_band`) reads the same in both lists.
pub open spec fn moved_symbols_agree(old: Seq<Seq<char>>, new: Seq<Seq<char>>, in_band: Seq<bool>) -> bool {
    forall|i: int| 0 <= i < in_band.len() && in_band[i] ==> old[i] == new[i]
}

/// `k` is the first flagged position.
pub open spec fn is_first_moved(in_band: Seq<bool>, k: int) -> bool {
    &&& 0 <= k < in_band.len()
    &&& in_band[k]
    &&& forall|j: int| 0 <= j < k ==> !in_band[j]
}

/// The positions flagged in `in_band`, in increasing order.
pub open spec fn moved_positions(in_band: Seq<bool>) -> Seq<usize>
    decreases in_band.len(),
{
    if in_band.len() == 0 {
        Seq::empty()
    } else {
        moved_positions(in_band.drop_last()) + (if in_band.last() {
            seq![(in_band.len() - 1) as usize]
        } else {
            Seq::empty()
        })
    }
}

/// The positions flagged in `in_band`, in increasing order: every flagged
/// position occurs, and nothing else.
pub fn moved_indices(in_band: &Vec<bool>) -> (indices: Vec<usize>)
    ensures
        indices@ == moved_positions(in_band@),
        forall|j: int| 0 <= j < indices@.len() ==> indices@[j] < in_band@.len() && in_band@[indices@[j] as int],
        forall|j: int, k: int| 0 <= j < k < indices@.len() ==> indices@[j] < indices@[k],
        forall|i: int| 0 <= i < in_band@.len() && in_band@[i] ==> indices@.contains(i as usize),
{
    let mut indices: Vec<usize> = Vec::new();
    let mut i: usize = 0;
    while i < in_band.len()
        invariant
            i <= in_band.len(),
            indices@ == moved_positions(in_band@.take(i as int)),
            forall|j: int| 0 <= j < indices@.len() ==> indices@[j] < i && in_band@[indices@[j] as int],
            forall|j: int, k: int| 0 <= j < k < indices@.len() ==> indices@[j] < indices@[k],
            forall|m: int| 0 <= m < i && in_band@[m] ==> indices@.contains(m as usize),
        decreases in_band.len() - i,
    {
        assert(in_band@.take(i + 1).drop_last() =~= in_band@.take(i as int));
        let ghost before = indices@;
        if in_band[i] {
            indices.push(i);
            assert forall|m: int| 0 <= m < i + 1 && in_band@[m] implies indices@.contains(m as usize) by {
                if m == i {
                    assert(indices@[indices@.len() - 1] == i);
                } else {
                    let j = choose|j: int| 0 <= j < before.len() && before[j] == m as usize;
                    assert(indices@[j] == m as usize);
                }
            }
        }
        i = i + 1;
    }
    assert(in_band@.take(in_band.len() as int) =~= in_band@);
    indices
}

/// The first moved symbol, without its quotes, and its position.
/// `in_band[i]` says that the price of the `i`-th symbol moved by at least
/// the threshold and less than the limit. The moved symbols are selected
/// from both arrays; the symbol is given when the two selections are equal.
pub fn g_percent_changes(
    symbols_old: &SymbolArray,
    symbols_new: &SymbolArray,
    in_band: &Vec<bool>,
) -> (res: Result<(String, usize), ChangeError>)
    requires
        exists|i: int| 0 <= i < in_band@.len() && in_band@[i],
        forall|i: int| 0 <= i < in_band@.len() && in_band@[i] ==>
            i < symbols_of(*symbols_old).len() && i < symbols_of(*symbols_new).len(),
    ensures
        match res {
            Ok((symbol, k)) => {
                &&& moved_symbols_agree(symbols_of(*symbols_old), symbols_of(*symbols_new), in_band@)
                &&& is_first_moved(in_band@, k as int)
                &&& symbol@ == without_char(symbols_of(*symbols_new)[k as int], '"')
                &&& !symbol@.contains('"')
            },
            Err(e) => e == ChangeError::SymbolsDiffer
                && !moved_symbols_agree(symbols_of(*symbols_old), symbols_of(*symbols_new), in_band@),
        },
{
    let indices = moved_indices(in_band);
    let ghost old_s = symbols_of(*symbols_old);
    let ghost new_s = symbols_of(*symbols_new);
    let symbols_f = symbols_new.select(&indices);
    let old_f = symbols_old.select(&indices);
    let ghost sel_new = symbols_of(symbols_f);
    let ghost sel_old = symbols_of(old_f);
    if old_f.same_symbols(&symbols_f) {
        assert forall|i: int| 0 <= i < in_band@.len() && in_band@[i] implies old_s[i] == new_s[i] by {
            assert(i < in_band.len());
            assert(indices@.contains(i as usize));
            let j = choose|j: int| 0 <= j < indices@.len() && indices@[j] == i as usize;
            assert(indices@[j] as int == i);
            assert(sel_old[j] == old_s[i]);
            assert(sel_new[j] == new_s[i]);
        }
        let ghost w = choose|w: int| 0 <= w < in_band@.len() && in_band@[w];
        assert(indices@.contains(w as usize));
        let k: usize = indices[0];
        assert forall|m: int| 0 <= m < k implies !in_band@[m] by {
            if in_band@[m] {
                let j = choose|j: int| 0 <= j < indices@.len() && indices@[j] == m as usize;
                if j > 0 {
                    assert(indices@[0] < indices@[j]);
                }
            }
        }
        let first = symbols_f.get(0);
        proof { crate::text::lemma_without_char_absent(new_s[k as int], '"'); }
        Ok((remove_char(first.as_str(), '"'), k))
    } else {
        assert(!moved_symbols_agree(old_s, new_s, in_band@)) by {
            if moved_symbols_agree(old_s, new_s, in_band@) {
                assert(sel_old =~= sel_new);
            }
        }
        Err(ChangeError::SymbolsDiffer)
    }
}

/// Number of bytes after the first `.` of `b`, or 0 when `b` has none.
pub open spec fn digits_after_dot(b: Seq<u8>) -> nat
    decreases b.len(),
{
    if b.len() == 0 {
        0
    } else if b[0] == 46u8 {
        (b.len() - 1) as nat
    } else {
        digits_after_dot(b.skip(1))
    }
}

/// Number of decimal places that a quantity's text shows: the bytes after
/// its first `.`, or 0 when it has none.
pub fn decimal_places(v: &str) -> (n: usize)
    ensures
        n == digits_after_dot(encode_utf8(v@)),
{
    let b = v.as_bytes();
    let mut i: usize = 0;
    assert(b@.skip(0) =~= b@);
    while i < b.len()
        invariant
            i <= b@.len(),
            b@ == encode_utf8(v@),
            digits_after_dot(b@) == digits_after_dot(b@.skip(i as int)),
        decreases b.len() - i,
    {
        if b[i] == 46u8 {
            return b.len() - i - 1;
        }
        assert(b@.skip(i as int).skip(1) =~= b@.skip(i + 1));
        i = i + 1;
    }
    0
}

/// The lot-size fields that give a quantity's precision.
pub open spec fn is_precision_field(f: LotSizeField) -> bool {
    (f.key@ == "minOrderQty"@ || f.key@ == "qtyStep"@) && f.value is Some
}

/// The decimal places of the precision fields, in field order.
pub open spec fn precision_digits(fs: Seq<LotSizeField>) -> Seq<usize>
    decreases fs.len(),
{
    if fs.len() == 0 {
        Seq::empty()
    } else {
        let f = fs.last();
        precision_digits(fs.drop_last()) + (if is_precision_field(f) {
            seq![digits_after_dot(encode_utf8(f.value->Some_0@)) as usize]
        } else {
            Seq::empty()
        })
    }
}

/// Whether a lot-size field gives a quantity's precision.
pub fn precision_field(f: &LotSizeField) -> (res: bool)
    ensures
        res == is_precision_field(*f),
{
    (str_eq(f.key.as_str(), "minOrderQty") || str_eq(f.key.as_str(), "qtyStep")) && f.value.is_some()
}

/// The decimal places of `minOrderQty` and `qtyStep`, in the order in which
/// the instrument's lot-size filter lists its fields; a field whose value is
/// not a string is passed over.
pub fn g_round_qty(fields: &Vec<LotSizeField>) -> (digits: Vec<usize>)
    ensures
        digits@ == precision_digits(fields@),
{
    let mut digits: Vec<usize> = Vec::new();
    let mut i: usize = 0;
    while i < fields.len()
        invariant
            i <= fields.len(),
            digits@ == precision_digits(fields@.take(i as int)),
        decreases fields.len() - i,
    {
        let f = &fields[i];
        assert(fields@.take(i + 1).drop_last() =~= fields@.take(i as int));
        assert(fields@.take(i + 1).last() == *f);
        if precision_field(f) {
            match &f.value {
                Some(v) => {
                    let n: usize = decimal_places(v.as_str());
                    digits.push(n);
                },
                None => {},
            }
        }
        i = i + 1;
    }
    assert(fields@.take(fields.len() as int) =~= fields@);
    digits
}

/// The query parameters of a wallet-balance request.
pub open spec fn balance_params(account_type: Seq<char>) -> Seq<char> {
    "accountType="@ + account_type + "&coin=USDT"@
}

/// The signed `Get` of the USDT balance of `account_type` in `mode`.
pub fn g_balance(
    mode: &String,
    account_type: &String,
    api: &String,
    api_secret: &String,
    timestamp_ms: u128,
) -> (plan: RequestPlan)
    ensures
        is_signed_plan(
            plan,
            DOMEN@ + mode@ + WALLET_BALANCE@ + balance_params(account_type@),
            api@,
            api_secret@,
            balance_params(account_type@),
            false,
            timestamp_ms,
        ),
{
    let mut prmtrs = "accountType=".to_owned();
    prmtrs.append(account_type.as_str());
    prmtrs.append("&coin=USDT");
    let mut url = DOMEN.to_owned();
    url.append(mode.as_str());
    url.append(WALLET_BALANCE);
    url.append(prmtrs.as_str());
    request_(url.as_str(), Some(api), Some(api_secret), Some(prmtrs.as_str()), false, timestamp_ms).unwrap()
}

/// A ticker is traded exactly when its pre-listing phase is the empty string
/// and its symbol has `USDT` somewhere in it and `USDC` nowhere in it;
/// nothing else about the symbol, such as its length, matters.
pub proof fn lemma_listed_usdt_iff(t: TickerRecord)
    ensures
        is_listed_usdt(t) <==> {
            &&& t.pre_listing_phase is Some
            &&& t.pre_listing_phase->Some_0@ == Seq::<char>::empty()
            &&& exists|a: Seq<char>, b: Seq<char>| #[trigger] (a + "USDT"@ + b) == t.symbol@
            &&& !exists|a: Seq<char>, b: Seq<char>| #[trigger] (a + "USDC"@ + b) == t.symbol@
        },
{
    crate::text::lemma_has_substring_iff(t.symbol@, "USDT"@);
    crate::text::lemma_has_substring_iff(t.symbol@, "USDC"@);
    if t.pre_listing_phase is Some {
        if t.pre_listing_phase->Some_0@.len() == 0 {
            assert(t.pre_listing_phase->Some_0@ =~= Seq::<char>::empty());
        }
    }
}

/// Appending a ticker to the list appends its symbol and price to the
/// traded quotes when it is traded, and leaves them as they were otherwise;
/// an empty list has no traded quotes.
pub proof fn lemma_listed_quotes_push(ts: Seq<TickerRecord>, t: TickerRecord)
    ensures
        listed_quotes(Seq::<TickerRecord>::empty()) == Seq::<(Seq<char>, Option<Seq<char>>)>::empty(),
        listed_quotes(ts.push(t)) == if is_listed_usdt(t) {
            listed_quotes(ts).push((t.symbol@, opt_view(t.last_price)))
        } else {
            listed_quotes(ts)
        },
{
    assert(ts.push(t).drop_last() =~= ts);
    assert(listed_quotes(ts) + seq![(t.symbol@, opt_view(t.last_price))] =~= listed_quotes(ts).push((t.symbol@, opt_view(t.last_price))));
    assert(listed_quotes(ts) + Seq::<(Seq<char>, Option<Seq<char>>)>::empty() =~= listed_quotes(ts));
}

/// Appending a lot-size field appends one precision, the decimal places of
/// its value, exactly when its key is `minOrderQty` or `qtyStep` and its
/// value is a string, whatever the precisions before it; otherwise the
/// precisions stay as they were. No fields give no precisions.
pub proof fn lemma_precision_digits_push(fs: Seq<LotSizeField>, f: LotSizeField)
    ensures
        precision_digits(Seq::<LotSizeField>::empty()) == Seq::<usize>::empty(),
        precision_digits(fs.push(f)) == if (f.key@ == "minOrderQty"@ || f.key@ == "qtyStep"@) && f.value is Some {
            precision_digits(fs).push(digits_after_dot(encode_utf8(f.value->Some_0@)) as usize)
        } else {
            precision_digits(fs)
        },
        precision_digits(fs.push(f)).len() == precision_digits(fs).len()
            + (if (f.key@ == "minOrderQty"@ || f.key@ == "qtyStep"@) && f.value is Some { 1int } else { 0int }),
{
    assert(fs.push(f).drop_last() =~= fs);
    let d = digits_after_dot(encode_utf8(f.value->Some_0@)) as usize;
    assert(precision_digits(fs) + seq![d] =~= precision_digits(fs).push(d));
    assert(precision_digits(fs) + Seq::<usize>::empty() =~= precision_digits(fs));
}

/// The decimal places of a text: 0 when it has no `.`, and otherwise the
/// number of bytes after its first `.`, whatever comes before it.
pub proof fn lemma_digits_after_dot(before: Seq<u8>, after: Seq<u8>)
    ensures
        (forall|i: int| 0 <= i < before.len() ==> before[i] != 46u8) ==> {
            &&& digits_after_dot(before) == 0
            &&& digits_after_dot(before + seq![46u8] + after) == after.len()
        },
    decreases before.len(),
{
    if forall|i: int| 0 <= i < before.len() ==> before[i] != 46u8 {
        if before.len() == 0 {
            assert(before + seq![46u8] + after =~= seq![46u8] + after);
        } else {
            lemma_digits_after_dot(before.skip(1), after);
            assert((before + seq![46u8] + after).skip(1) =~= before.skip(1) + seq![46u8] + after);
            assert(forall|i: int| 0 <= i < before.skip(1).len() ==> before.skip(1)[i] == before[i + 1]);
        }
    }
}

/// The priced prefix is the longest leading run of entries that have a
/// price: each of its entries is the entry at the same place with its price,
/// and it stops only at the end or at an entry without a price.
pub proof fn lemma_priced_prefix(kept: Seq<(Seq<char>, Option<Seq<char>>)>)
    ensures
        priced_prefix(kept).len() <= kept.len(),
        forall|j: int| #![trigger priced_prefix(kept)[j]] 0 <= j < priced_prefix(kept).len() ==>
            priced_prefix(kept)[j].0 == kept[j].0 && kept[j].1 == Some(priced_prefix(kept)[j].1),
        priced_prefix(kept).len() < kept.len() ==> kept[priced_prefix(kept).len() as int].1 is None,
        has_unpriced(kept) <==> priced_prefix(kept).len() < kept.len(),
    decreases kept.len(),
{
    if kept.len() > 0 && kept[0].1 is Some {
        let rest = kept.skip(1);
        lemma_priced_prefix(rest);
        assert(priced_prefix(kept) == seq![(kept[0].0, kept[0].1->Some_0)] + priced_prefix(rest));
        assert forall|j: int| #![trigger priced_prefix(kept)[j]] 0 <= j < priced_prefix(kept).len() implies
            (priced_prefix(kept)[j].0 == kept[j].0 && kept[j].1 == Some(priced_prefix(kept)[j].1)) by {
            if j > 0 {
                assert(priced_prefix(kept)[j] == priced_prefix(rest)[j - 1]);
                assert(rest[j - 1] == kept[j]);
                assert(rest[j - 1].1 is Some);
            } else {
                assert(priced_prefix(kept)[0] == (kept[0].0, kept[0].1->Some_0));
            }
        }
        if priced_prefix(kept).len() < kept.len() {
            assert(rest[priced_prefix(rest).len() as int] == kept[priced_prefix(kept).len() as int]);
        }
        if has_unpriced(kept) {
            let i = choose|i: int| 0 <= i < kept.len() && (#[trigger] kept[i]).1 is None;
            assert(rest[i - 1] == kept[i]);
            assert(has_unpriced(rest));
        }
        if has_unpriced(rest) {
            let i = choose|i: int| 0 <= i < rest.len() && (#[trigger] rest[i]).1 is None;
            assert(kept[i + 1] == rest[i]);
        }
    } else if kept.len() > 0 {
        assert(priced_prefix(kept).len() == 0);
        assert(has_unpriced(kept)) by {
            assert(kept[0].1 is None);
        }
    } else {
        assert(priced_prefix(kept).len() == 0);
    }
}

} // verus!
