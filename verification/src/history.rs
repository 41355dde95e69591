//! Transaction history exports (`Transaction History`): the statement and
//! summary tables, and the buys and sells that feed the FIFO lists.
//!
//! Rows are generic over the number type `N` of their amounts, rates over
//! the type `V` of a reference rate; the caller chooses both.

use vstd::prelude::*;

use crate::date::{
    chrono_parsed_day_number, convert_date, has_ten_byte_prefix, has_ten_byte_start,
    ten_byte_prefix, unix_epoch_day,
};
use crate::error::Error;
use crate::fx::{rate_for, FxQuote, FxRates};
use crate::groups::{cell_of, data_rows, field_rows, selected, texts, Groups, RowFilter};
use crate::statement::{cell_string, key_value_rows_spec};
use crate::text::{opt_str, spec_opt_str, str_eq};

verus! {

/// `Statement` – report metadata (key → value pairs).
pub struct StatementRow {
    pub feldname: String,
    pub feldwert: String,
}

/// `Summary` – account cash summary (key → value pairs).
pub struct SummaryRow {
    pub feldname: String,
    pub feldwert: String,
}

/// `Statement` rows of a transaction history.
pub fn statement_rows(groups: &Groups) -> (r: Vec<StatementRow>)
    ensures
        key_value_rows_spec(
            selected(groups.rows("Statement"@), RowFilter::All),
            r@.map_values(|x: StatementRow| x.feldname@),
            r@.map_values(|x: StatementRow| x.feldwert@),
        ),
{
    let rows = data_rows(groups, "Statement");
    let mut r: Vec<StatementRow> = Vec::new();
    let mut i: usize = 0;
    while i < rows.len()
        invariant
            i <= rows.len(),
            r@.len() == i,
            forall|k: int|
                0 <= k < i ==> (#[trigger] r@[k]).feldname@ == cell_of(texts(rows@[k]@), 0)
                    && r@[k].feldwert@ == cell_of(texts(rows@[k]@), 1),
        decreases rows.len() - i,
    {
        r.push(StatementRow { feldname: cell_string(rows[i], 0), feldwert: cell_string(rows[i], 1) });
        i = i + 1;
    }
    proof {
        assert forall|k: int| 0 <= k < r@.len() implies field_rows(rows@)[k] == texts(
            rows@[k]@,
        ) by {}
    }
    r
}

/// `Summary` rows of a transaction history.
pub fn summary_rows(groups: &Groups) -> (r: Vec<SummaryRow>)
    ensures
        key_value_rows_spec(
            selected(groups.rows("Summary"@), RowFilter::All),
            r@.map_values(|x: SummaryRow| x.feldname@),
            r@.map_values(|x: SummaryRow| x.feldwert@),
        ),
{
    let rows = data_rows(groups, "Summary");
    let mut r: Vec<SummaryRow> = Vec::new();
    let mut i: usize = 0;
    while i < rows.len()
        invariant
            i <= rows.len(),
            r@.len() == i,
            forall|k: int|
                0 <= k < i ==> (#[trigger] r@[k]).feldname@ == cell_of(texts(rows@[k]@), 0)
                    && r@[k].feldwert@ == cell_of(texts(rows@[k]@), 1),
        decreases rows.len() - i,
    {
        r.push(SummaryRow { feldname: cell_string(rows[i], 0), feldwert: cell_string(rows[i], 1) });
        i = i + 1;
    }
    proof {
        assert forall|k: int| 0 <= k < r@.len() implies field_rows(rows@)[k] == texts(
            rows@[k]@,
        ) by {}
    }
    r
}

/// Direction of a trade.
#[derive(Debug, Clone, Copy, PartialEq, Eq, Structural)]
pub enum BuySell {
    Sell,
    Buy,
}

/// `Transaction History` – one row per transaction event. Cells that do not
/// apply (`-`) are `None`.
#[derive(Clone)]
pub struct TransactionHistoryRow<N> {
    pub date: String,
    pub account: String,
    pub description: String,
    pub transaction_type: String,
    pub symbol: Option<String>,
    pub quantity: Option<N>,
    pub price: Option<N>,
    pub price_currency: Option<String>,
    pub gross_amount: Option<N>,
    pub commission: Option<N>,
    pub net_amount: N,
}

/// The tables of a transaction history export.
pub struct TransactionHistoryData<N> {
    pub statement: Vec<StatementRow>,
    pub summary: Vec<SummaryRow>,
    pub transactions: Vec<TransactionHistoryRow<N>>,
}

/// The characters of an optional text.
pub open spec fn opt_chars(s: Option<String>) -> Option<Seq<char>> {
    match s {
        Some(t) => Some(t@),
        None => None,
    }
}

impl<N> TransactionHistoryRow<N> {
    /// A transaction row from its cells: date, account, description, type,
    /// symbol, quantity, price, price currency, gross amount, commission and
    /// net amount. Symbol and currency are `None` where the cell is `-` or
    /// empty; the numbers are those the caller read from cells 5, 6, 8, 9
    /// and 10.
    pub fn from_fields(
        f: &Vec<String>,
        quantity: Option<N>,
        price: Option<N>,
        gross_amount: Option<N>,
        commission: Option<N>,
        net_amount: N,
    ) -> (r: Self)
        ensures
            r.date@ == cell_of(texts(f@), 0),
            r.account@ == cell_of(texts(f@), 1),
            r.description@ == cell_of(texts(f@), 2),
            r.transaction_type@ == cell_of(texts(f@), 3),
            opt_chars(r.symbol) == spec_opt_str(cell_of(texts(f@), 4)),
            opt_chars(r.price_currency) == spec_opt_str(cell_of(texts(f@), 7)),
            r.quantity == quantity,
            r.price == price,
            r.gross_amount == gross_amount,
            r.commission == commission,
            r.net_amount == net_amount,
    {
        TransactionHistoryRow {
            date: cell_string(f, 0),
            account: cell_string(f, 1),
            description: cell_string(f, 2),
            transaction_type: cell_string(f, 3),
            symbol: opt_str(crate::text::c(f.as_slice(), 4)),
            quantity,
            price,
            price_currency: opt_str(crate::text::c(f.as_slice(), 7)),
            gross_amount,
            commission,
            net_amount,
        }
    }
}

/// The tables of a transaction history export; the transaction rows as
/// their cells, for the caller to read their numbers.
pub struct TransactionHistoryTables<'a> {
    pub statement: Vec<StatementRow>,
    pub summary: Vec<SummaryRow>,
    pub transactions: Vec<&'a Vec<String>>,
}

/// Reads the tables of a transaction history from its grouped records.
pub fn parse_transaction_history<'a>(groups: &'a Groups) -> (r: TransactionHistoryTables<'a>)
    ensures
        key_value_rows_spec(
            selected(groups.rows("Statement"@), RowFilter::All),
            r.statement@.map_values(|x: StatementRow| x.feldname@),
            r.statement@.map_values(|x: StatementRow| x.feldwert@),
        ),
        key_value_rows_spec(
            selected(groups.rows("Summary"@), RowFilter::All),
            r.summary@.map_values(|x: SummaryRow| x.feldname@),
            r.summary@.map_values(|x: SummaryRow| x.feldwert@),
        ),
        field_rows(r.transactions@) == selected(groups.rows("Transaction History"@), RowFilter::All),
{
    TransactionHistoryTables {
        statement: statement_rows(groups),
        summary: summary_rows(groups),
        transactions: data_rows(groups, "Transaction History"),
    }
}

/// The parts of a buy or sell that the FIFO lists need: when, what, how
/// many at what price, and the rate of the price's currency on that day.
pub struct TradeParts<'a, N, V> {
    pub timestamp: i64,
    pub symbol: String,
    pub quantity: N,
    pub price: N,
    pub fx: FxQuote<'a, V>,
    pub buy_sell: BuySell,
}

/// The direction of a transaction type, if it is a trade.
pub open spec fn trade_kind(t: Seq<char>) -> Option<BuySell> {
    if t == "Sell"@ {
        Some(BuySell::Sell)
    } else if t == "Buy"@ {
        Some(BuySell::Buy)
    } else {
        None
    }
}

/// Whether a row is a buy or a sell.
pub open spec fn is_trade<N>(r: TransactionHistoryRow<N>) -> bool {
    trade_kind(r.transaction_type@) is Some
}

/// Whether a trade row has symbol, quantity, price and currency.
pub open spec fn trade_complete<N>(r: TransactionHistoryRow<N>) -> bool {
    r.symbol is Some && r.quantity is Some && r.price is Some && r.price_currency is Some
}

/// The day of a row: days since 1970 of its date.
pub open spec fn trade_day<N>(r: TransactionHistoryRow<N>) -> Option<int> {
    match chrono_parsed_day_number(ten_byte_prefix(r.date@)) {
        Some(n) => Some(n - unix_epoch_day()),
        None => None,
    }
}

/// Whether a rate of currency `cur` on day `day` is known.
pub open spec fn quote_known<V>(rates: FxRates<V>, cur: Seq<char>, day: int) -> bool {
    cur == "EUR"@ || (rates.has_currency(cur) && rate_for(rates.table(cur), day) is Some)
}

/// Whether a row stops the extraction.
pub open spec fn row_fails<N, V>(r: TransactionHistoryRow<N>, rates: FxRates<V>) -> bool {
    is_trade(r) && (!trade_complete(r) || trade_day(r) is None || !quote_known(
        rates,
        r.price_currency->0@,
        trade_day(r)->0,
    ))
}

/// The error a failing row gives.
pub open spec fn error_of<N, V>(e: Error, r: TransactionHistoryRow<N>, rates: FxRates<V>) -> bool {
    if !trade_complete(r) {
        if trade_kind(r.transaction_type@) == Some(BuySell::Sell) {
            e == Error::InvalidSellTransaction
        } else {
            e == Error::InvalidBuyTransaction
        }
    } else if trade_day(r) is None {
        e == Error::FailedToParseDate
    } else {
        e matches Error::CurrencyNotFound(c) && c@ == r.price_currency->0@
    }
}

/// Whether trade parts `p` are those of row `r`.
pub open spec fn parts_of<N, V>(p: TradeParts<N, V>, r: TransactionHistoryRow<N>, rates: FxRates<V>) -> bool {
    &&& Some(p.buy_sell) == trade_kind(r.transaction_type@)
    &&& Some(p.timestamp as int) == trade_day(r)
    &&& p.symbol@ == r.symbol->0@
    &&& p.quantity == r.quantity->0
    &&& p.price == r.price->0
    &&& (r.price_currency->0@ == "EUR"@ ==> p.fx matches FxQuote::Euro)
    &&& (r.price_currency->0@ != "EUR"@ ==> (p.fx matches FxQuote::PerEuro(v) && Some(*v)
        == rate_for(rates.table(r.price_currency->0@), p.timestamp as int)))
}

/// Whether a row's date is sliced: a complete buy or sell.
pub open spec fn date_sliced<N>(r: TransactionHistoryRow<N>) -> bool {
    is_trade(r) && trade_complete(r)
}

/// Whether every row whose date the extraction reads, up to the first row
/// that stops it, has a date whose first ten bytes are whole characters.
pub open spec fn trade_dates_reached<N, V>(rows: Seq<TransactionHistoryRow<N>>, rates: FxRates<V>) -> bool {
    forall|k: int|
        0 <= k < rows.len() && date_sliced(#[trigger] rows[k]) && (forall|j: int|
            0 <= j < k ==> !row_fails(#[trigger] rows[j], rates)) ==> has_ten_byte_prefix(rows[k].date@)
}

/// The trade rows among `rows`, in order.
pub open spec fn trade_rows<N>(rows: Seq<TransactionHistoryRow<N>>) -> Seq<TransactionHistoryRow<N>>
    decreases rows.len(),
{
    if rows.len() == 0 {
        Seq::empty()
    } else if is_trade(rows.last()) {
        trade_rows(rows.drop_last()).push(rows.last())
    } else {
        trade_rows(rows.drop_last())
    }
}

impl<N> TransactionHistoryData<N> {
    /// The position of the first complete buy or sell whose date does not
    /// have ten bytes of whole characters, if there is one.
    pub fn first_unsliceable_trade(&self) -> (r: Option<usize>)
        ensures
            r matches Some(k) ==> k < self.transactions@.len() && date_sliced(self.transactions@[k as int])
                && !has_ten_byte_prefix(self.transactions@[k as int].date@),
            forall|j: int|
                0 <= j < (match r {
                    Some(k) => k as int,
                    None => self.transactions@.len() as int,
                }) && date_sliced(#[trigger] self.transactions@[j]) ==> has_ten_byte_prefix(
                    self.transactions@[j].date@,
                ),
    {
        let rows = &self.transactions;
        let mut i: usize = 0;
        while i < rows.len()
            invariant
                i <= rows.len(),
                rows == &self.transactions,
                forall|k: int|
                    0 <= k < i && date_sliced(#[trigger] rows@[k]) ==> has_ten_byte_prefix(rows@[k].date@),
            decreases rows.len() - i,
        {
            let row = &rows[i];
            proof {
                reveal_strlit("Sell");
                reveal_strlit("Buy");
            }
            let trade = str_eq(row.transaction_type.as_str(), "Sell") || str_eq(
                row.transaction_type.as_str(),
                "Buy",
            );
            let complete = row.symbol.is_some() && row.quantity.is_some() && row.price.is_some()
                && row.price_currency.is_some();
            if trade && complete && !has_ten_byte_start(row.date.as_str()) {
                return Some(i);
            }
            i = i + 1;
        }
        None
    }
}

impl<N: Copy> TransactionHistoryData<N> {
    /// The buys and sells of the history, in order, with the day of each and
    /// the rate of its price currency. The first trade that lacks a cell, has
    /// an unreadable date or a currency without a rate stops it.
    pub fn extract_purchase_infos<'a, V>(&self, fx_rates: &'a FxRates<V>) -> (r: Result<
        Vec<TradeParts<'a, N, V>>,
        Error,
    >)
        requires
            trade_dates_reached(self.transactions@, *fx_rates),
        ensures
            r is Ok <==> forall|k: int|
                0 <= k < self.transactions@.len() ==> !row_fails(
                    #[trigger] self.transactions@[k],
                    *fx_rates,
                ),
            r matches Err(e) ==> exists|k: int|
                0 <= k < self.transactions@.len() && row_fails(
                    #[trigger] self.transactions@[k],
                    *fx_rates,
                ) && error_of(e, self.transactions@[k], *fx_rates) && forall|j: int|
                    0 <= j < k ==> !row_fails(#[trigger] self.transactions@[j], *fx_rates),
            r matches Ok(v) ==> v@.len() == trade_rows(self.transactions@).len() && forall|k: int|
                0 <= k < v@.len() ==> parts_of(
                    #[trigger] v@[k],
                    trade_rows(self.transactions@)[k],
                    *fx_rates,
                ),
    {
        let rows = &self.transactions;
        let mut out: Vec<TradeParts<'a, N, V>> = Vec::new();
        let mut i: usize = 0;
        while i < rows.len()
            invariant
                i <= rows.len(),
                rows == &self.transactions,
                trade_dates_reached(rows@, *fx_rates),
                forall|k: int| 0 <= k < i ==> !row_fails(#[trigger] rows@[k], *fx_rates),
                out@.len() == trade_rows(rows@.take(i as int)).len(),
                forall|k: int|
                    0 <= k < out@.len() ==> parts_of(
                        #[trigger] out@[k],
                        trade_rows(rows@.take(i as int))[k],
                        *fx_rates,
                    ),
            decreases rows.len() - i,
        {
            let row = &rows[i];
            proof {
                reveal_strlit("EUR");
                assert(rows@.take(i + 1).drop_last() =~= rows@.take(i as int));
                assert(rows@.take(i + 1).last() == rows@[i as int]);
            }
            let is_sell = str_eq(row.transaction_type.as_str(), "Sell");
            let is_buy = !is_sell && str_eq(row.transaction_type.as_str(), "Buy");
            if is_sell || is_buy {
                let kind = if is_sell {
                    BuySell::Sell
                } else {
                    BuySell::Buy
                };
                match (&row.symbol, row.quantity, row.price, &row.price_currency) {
                    (Some(symbol), Some(quantity), Some(price), Some(curr)) => {
                        let timestamp = match convert_date(row.date.as_str()) {
                            Ok(t) => t,
                            Err(e) => {
                                return Err(e);
                            },
                        };
                        let fx = match fx_rates.get_fx_rate(timestamp, curr.as_str()) {
                            Ok(q) => q,
                            Err(e) => {
                                return Err(e);
                            },
                        };
                        out.push(
                            TradeParts {
                                timestamp,
                                symbol: symbol.clone(),
                                quantity,
                                price,
                                fx,
                                buy_sell: kind,
                            },
                        );
                    },
                    _ => {
                        if is_sell {
                            return Err(Error::InvalidSellTransaction);
                        } else {
                            return Err(Error::InvalidBuyTransaction);
                        }
                    },
                }
            }
            i = i + 1;
        }
        assert(rows@.take(rows@.len() as int) =~= rows@);
        Ok(out)
    }
}

/// The trade rows are rows of the history, each a buy or a sell.
proof fn lemma_trade_rows_in<N>(rows: Seq<TransactionHistoryRow<N>>)
    ensures
        forall|k: int|
            0 <= k < trade_rows(rows).len() ==> is_trade(#[trigger] trade_rows(rows)[k])
                && exists|i: int| 0 <= i < rows.len() && rows[i] == trade_rows(rows)[k],
    decreases rows.len(),
{
    if rows.len() > 0 {
        let p = rows.drop_last();
        lemma_trade_rows_in(p);
        let t = trade_rows(rows);
        let tp = trade_rows(p);
        assert forall|k: int| 0 <= k < t.len() implies is_trade(#[trigger] t[k]) && exists|i: int|
            0 <= i < rows.len() && rows[i] == t[k] by {
            if k < tp.len() {
                assert(t[k] == tp[k]);
                let i = choose|i: int| 0 <= i < p.len() && p[i] == tp[k];
                assert(rows[i] == p[i]);
            } else {
                assert(t[k] == rows[rows.len() - 1]);
            }
        }
    }
}

/// Law: every buy or sell handed out for the FIFO lists is a trade row of
/// the history with that row's direction, symbol, quantity and price (the
/// price per unit, not the row's net amount).
pub proof fn law_trades_keep_their_rows<N, V>(
    rows: Seq<TransactionHistoryRow<N>>,
    rates: FxRates<V>,
    v: Seq<TradeParts<N, V>>,
)
    requires
        forall|k: int| 0 <= k < rows.len() ==> !row_fails(#[trigger] rows[k], rates),
        v.len() == trade_rows(rows).len(),
        forall|k: int| 0 <= k < v.len() ==> parts_of(#[trigger] v[k], trade_rows(rows)[k], rates),
    ensures
        forall|k: int|
            #![trigger v[k]]
            0 <= k < v.len() ==> exists|i: int|
                #![trigger rows[i]]
                0 <= i < rows.len() && trade_kind(rows[i].transaction_type@) == Some(v[k].buy_sell)
                    && rows[i].price == Some(v[k].price) && rows[i].quantity == Some(v[k].quantity)
                    && (rows[i].symbol matches Some(s) && s@ == v[k].symbol@)
                    && trade_day(rows[i]) == Some(v[k].timestamp as int) && (rows[i].price_currency matches Some(
                    c,
                ) && (v[k].fx is Euro) == (c@ == "EUR"@)),
{
    lemma_trade_rows_in(rows);
    assert forall|k: int|
        #![trigger v[k]]
        0 <= k < v.len() implies exists|i: int|
        #![trigger rows[i]]
        0 <= i < rows.len() && trade_kind(rows[i].transaction_type@) == Some(v[k].buy_sell)
            && rows[i].price == Some(v[k].price) && rows[i].quantity == Some(v[k].quantity)
            && (rows[i].symbol matches Some(s) && s@ == v[k].symbol@)
                    && trade_day(rows[i]) == Some(v[k].timestamp as int) && (rows[i].price_currency matches Some(
                    c,
                ) && (v[k].fx is Euro) == (c@ == "EUR"@)) by {
        let t = trade_rows(rows);
        assert(parts_of(v[k], t[k], rates));
        assert(is_trade(t[k]));
        let i = choose|i: int| 0 <= i < rows.len() && rows[i] == t[k];
        assert(rows[i] == t[k]);
        assert(!row_fails(rows[i], rates));
    }
}

} // verus!
