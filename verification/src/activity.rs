//! The list of all activity: which rows it has, in what order, and what they say.

use vstd::prelude::*;
use crate::accounts;
use crate::calendar;
use crate::ledger;
use crate::ledger::ActivityKind;
use crate::model::{Account, AmountSign, CashEntry, Transaction};
use crate::order;
use crate::order::SortKey;
use crate::text;

verus! {

/// What the list is narrowed down to.
pub struct TransactionsFilterState {
    pub query: String,
    pub kind: u32,
    pub account_id: Option<i64>,
}

/// Movements of cash that are rows of their own. The cash side of a trade is not.
pub open spec fn listed_cash(entry: CashEntry) -> bool {
    entry.kind@ == "DEPOSIT"@ || entry.kind@ == "DIVIDEND"@ || entry.kind@ == "TRANSFER"@
}

pub open spec fn at_least_zero(sign: AmountSign) -> bool {
    sign == AmountSign::Zero || sign == AmountSign::Positive
}

/// The trades that an entry of the kind selector stands for.
pub open spec fn trade_matches_kind(t: Transaction, kind: int) -> bool {
    if kind == 1 {
        t.transaction_type@ == "BUY"@
    } else if kind == 2 {
        t.transaction_type@ == "SELL"@
    } else if kind == 3 || kind == 4 || kind == 6 {
        false
    } else if kind == 5 {
        t.transaction_type@ == "TRANSFER_IN"@ || t.transaction_type@ == "TRANSFER_OUT"@
    } else {
        true
    }
}

/// The movements of cash that an entry of the kind selector stands for.
pub open spec fn cash_matches_kind(entry: CashEntry, kind: int) -> bool {
    if kind == 1 || kind == 2 {
        false
    } else if kind == 3 {
        entry.kind@ == "DEPOSIT"@ && at_least_zero(entry.sign)
    } else if kind == 4 {
        entry.kind@ == "DEPOSIT"@ && entry.sign == AmountSign::Negative
    } else if kind == 5 {
        entry.kind@ == "TRANSFER"@
    } else if kind == 6 {
        entry.kind@ == "DIVIDEND"@
    } else {
        true
    }
}

/// No row belongs to two different entries of the kind selector, the first aside, which
/// stands for all rows.
pub proof fn kinds_are_exclusive(t: Transaction, entry: CashEntry, a: int, b: int)
    requires
        1 <= a <= 6,
        1 <= b <= 6,
        a != b,
    ensures
        !(trade_matches_kind(t, a) && trade_matches_kind(t, b)),
        !(cash_matches_kind(entry, a) && cash_matches_kind(entry, b)),
{
    reveal_strlit("BUY");
    reveal_strlit("SELL");
    reveal_strlit("TRANSFER_IN");
    reveal_strlit("TRANSFER_OUT");
    reveal_strlit("DEPOSIT");
    reveal_strlit("TRANSFER");
    reveal_strlit("DIVIDEND");
    assert("BUY"@[0] == 'B' && "SELL"@[0] == 'S' && "TRANSFER_IN"@[0] == 'T' && "TRANSFER_OUT"@[0]
        == 'T');
    assert("DEPOSIT"@[1] == 'E' && "TRANSFER"@[1] == 'R' && "DIVIDEND"@[1] == 'I');
}

/// The words under which a trade is found.
pub open spec fn trade_search_text(t: Transaction) -> Seq<char> {
    text::lowercase(
        t.code@ + " "@ + t.name@ + " "@ + t.account_name@ + " "@ + t.trade_date@ + " "@
            + t.transaction_type@ + " "@ + t.currency@,
    )
}

pub open spec fn cash_search_words(entry: CashEntry) -> Seq<char> {
    if entry.kind@ == "DIVIDEND"@ {
        "dividend distribution income"@
    } else if entry.kind@ == "TRANSFER"@ {
        "transfer move cash account"@
    } else if entry.sign == AmountSign::Negative {
        "withdrawal withdraw cash"@
    } else {
        "deposit add cash"@
    }
}

/// The words under which a movement of cash is found.
pub open spec fn cash_search_text(entry: CashEntry, account: Seq<char>) -> Seq<char> {
    text::lowercase(
        cash_search_words(entry) + " "@ + entry.description@ + " "@ + account + " "@
            + calendar::distribution_date_text(entry.occurred_at as int) + " "@ + entry.currency@,
    )
}

/// Every word of the query stands somewhere in the text, the case of ASCII letters aside.
pub open spec fn finds(query: Seq<char>, searched: Seq<char>) -> bool {
    forall|w: int|
        0 <= w < text::words(query).len() ==> text::holds_part(
            searched,
            text::lowercase(#[trigger] text::words(query)[w]),
        )
}

/// The rows that a filter leaves. The trades are counted first, then the movements of
/// cash.
pub open spec fn shown(
    trades: Seq<Transaction>,
    cash: Seq<CashEntry>,
    accounts: Seq<Account>,
    query: Seq<char>,
    kind: int,
    account_id: Option<i64>,
) -> spec_fn(int) -> bool {
    |e: int|
        if e < trades.len() {
            let t = trades[e];
            &&& account_id matches Some(id) ==> t.account_id == id
            &&& trade_matches_kind(t, kind)
            &&& finds(query, trade_search_text(t))
        } else {
            let entry = cash[e - trades.len()];
            &&& listed_cash(entry)
            &&& account_id matches Some(id) ==> entry.account_id == id
            &&& cash_matches_kind(entry, kind)
            &&& finds(
                query,
                cash_search_text(
                    entry,
                    accounts::account_name(accounts, entry.account_id as int),
                ),
            )
        }
}

/// The newest row first; of the same time, the one with the larger id.
pub open spec fn row_keys(trades: Seq<Transaction>, cash: Seq<CashEntry>) -> spec_fn(int) -> SortKey {
    |e: int|
        if e < trades.len() {
            SortKey {
                first: -(trades[e].timestamp as int) as i128,
                second: -(trades[e].id as int) as i128,
                third: 0,
            }
        } else {
            SortKey {
                first: -(cash[e - trades.len()].occurred_at as int) as i128,
                second: -(cash[e - trades.len()].id as int) as i128,
                third: 0,
            }
        }
}

/// Without a filter every trade and every movement of cash that has a row is shown.
pub proof fn no_filter_shows_all(
    trades: Seq<Transaction>,
    cash: Seq<CashEntry>,
    accounts: Seq<Account>,
    query: Seq<char>,
    e: int,
)
    requires
        0 <= e < trades.len() + cash.len(),
        text::nothing_but_blanks(query),
    ensures
        shown(trades, cash, accounts, query, 0, None)(e) <==> e < trades.len() || listed_cash(
            cash[e - trades.len()],
        ),
{
    text::no_words_in_blanks(query);
}

fn trade_text(t: &Transaction) -> (r: String)
    ensures
        r@ == trade_search_text(*t),
{
    let mut r = t.code.clone();
    r.append(" ");
    r.append(t.name.as_str());
    r.append(" ");
    r.append(t.account_name.as_str());
    r.append(" ");
    r.append(t.trade_date.as_str());
    r.append(" ");
    r.append(t.transaction_type.as_str());
    r.append(" ");
    r.append(t.currency.as_str());
    text::to_lower(r.as_str())
}

fn cash_text(entry: &CashEntry, account: &str) -> (r: String)
    ensures
        r@ == cash_search_text(*entry, account@),
{
    let words = if text::same_text(entry.kind.as_str(), "DIVIDEND") {
        "dividend distribution income"
    } else if text::same_text(entry.kind.as_str(), "TRANSFER") {
        "transfer move cash account"
    } else if entry.sign == AmountSign::Negative {
        "withdrawal withdraw cash"
    } else {
        "deposit add cash"
    };
    let mut r = words.to_owned();
    r.append(" ");
    r.append(entry.description.as_str());
    r.append(" ");
    r.append(account);
    r.append(" ");
    r.append(calendar::format_distribution_date(entry.occurred_at).as_str());
    r.append(" ");
    r.append(entry.currency.as_str());
    text::to_lower(r.as_str())
}

fn matches_trade(t: &Transaction, kind: u32) -> (r: bool)
    ensures
        r == trade_matches_kind(*t, kind as int),
{
    match kind {
        1 => text::same_text(t.transaction_type.as_str(), "BUY"),
        2 => text::same_text(t.transaction_type.as_str(), "SELL"),
        3 | 4 | 6 => false,
        5 => text::same_text(t.transaction_type.as_str(), "TRANSFER_IN") || text::same_text(
            t.transaction_type.as_str(),
            "TRANSFER_OUT",
        ),
        _ => true,
    }
}

fn matches_cash(entry: &CashEntry, kind: u32) -> (r: bool)
    ensures
        r == cash_matches_kind(*entry, kind as int),
{
    match kind {
        1 | 2 => false,
        3 => text::same_text(entry.kind.as_str(), "DEPOSIT") && (entry.sign == AmountSign::Zero
            || entry.sign == AmountSign::Positive),
        4 => text::same_text(entry.kind.as_str(), "DEPOSIT") && entry.sign == AmountSign::Negative,
        5 => text::same_text(entry.kind.as_str(), "TRANSFER"),
        6 => text::same_text(entry.kind.as_str(), "DIVIDEND"),
        _ => true,
    }
}

#[verifier::loop_isolation(false)]
fn all_found(words: &Vec<String>, Ghost(query): Ghost<Seq<char>>, searched: &str) -> (r: bool)
    requires
        text::views(words@) == text::words(query),
    ensures
        r == finds(query, searched@),
{
    let mut w: usize = 0;
    while w < words.len()
        invariant
            w <= words@.len(),
            forall|k: int|
                0 <= k < w ==> text::holds_part(
                    searched@,
                    text::lowercase(#[trigger] text::words(query)[k]),
                ),
        decreases words@.len() - w,
    {
        assert(text::views(words@)[w as int] == words@[w as int]@);
        if !text::contains_part(searched, text::to_lower(words[w].as_str()).as_str()) {
            return false;
        }
        w += 1;
    }
    assert(text::views(words@).len() == words@.len());
    true
}

/// The rows of the list in their order.
#[verifier::loop_isolation(false)]
pub fn rebuild_transactions_list(
    transactions: &[Transaction],
    cash_entries: &[CashEntry],
    accounts: &[Account],
    filter: &TransactionsFilterState,
) -> (r: Vec<usize>)
    ensures
        r@ == order::arrangement(
            (transactions@.len() + cash_entries@.len()) as int,
            shown(
                transactions@,
                cash_entries@,
                accounts@,
                filter.query@,
                filter.kind as int,
                filter.account_id,
            ),
            row_keys(transactions@, cash_entries@),
        ),
{
    let ghost trades = transactions@;
    let ghost cash = cash_entries@;
    let ghost wanted = shown(
        trades,
        cash,
        accounts@,
        filter.query@,
        filter.kind as int,
        filter.account_id,
    );
    let ghost wanted_keys = row_keys(trades, cash);
    let words = text::split_words(filter.query.as_str());
    let mut keep: Vec<bool> = Vec::new();
    let mut keys: Vec<SortKey> = Vec::new();
    let mut i: usize = 0;
    while i < transactions.len()
        invariant
            i <= trades.len(),
            keep@.len() == i,
            keys@.len() == i,
            forall|e: int| 0 <= e < i ==> #[trigger] keep@[e] == wanted(e),
            forall|e: int| 0 <= e < i ==> #[trigger] keys@[e] == wanted_keys(e),
        decreases trades.len() - i,
    {
        let t = &transactions[i];
        let of_account = match filter.account_id {
            Some(id) => t.account_id == id,
            None => true,
        };
        let kept = of_account && matches_trade(t, filter.kind) && all_found(
            &words,
            Ghost(filter.query@),
            trade_text(t).as_str(),
        );
        assert(kept == wanted(i as int));
        keep.push(kept);
        keys.push(SortKey { first: -(t.timestamp as i128), second: -(t.id as i128), third: 0 });
        i += 1;
    }
    let mut j: usize = 0;
    while j < cash_entries.len()
        invariant
            j <= cash.len(),
            keep@.len() == trades.len() + j,
            keys@.len() == trades.len() + j,
            forall|e: int| 0 <= e < keep@.len() ==> #[trigger] keep@[e] == wanted(e),
            forall|e: int| 0 <= e < keys@.len() ==> #[trigger] keys@[e] == wanted_keys(e),
        decreases cash.len() - j,
    {
        let entry = &cash_entries[j];
        let listed = text::same_text(entry.kind.as_str(), "DEPOSIT") || text::same_text(
            entry.kind.as_str(),
            "DIVIDEND",
        ) || text::same_text(entry.kind.as_str(), "TRANSFER");
        let of_account = match filter.account_id {
            Some(id) => entry.account_id == id,
            None => true,
        };
        let name = accounts::name_of_account(accounts, entry.account_id);
        let kept = listed && of_account && matches_cash(entry, filter.kind) && all_found(
            &words,
            Ghost(filter.query@),
            cash_text(entry, name.as_str()).as_str(),
        );
        assert(kept == wanted(trades.len() + j));
        keep.push(kept);
        keys.push(
            SortKey { first: -(entry.occurred_at as i128), second: -(entry.id as i128), third: 0 },
        );
        j += 1;
    }
    let r = order::arrange(&keep, &keys);
    proof {
        order::is_arrangement(
            r@,
            keep@.len() as int,
            |i: int| keep@[i],
            |i: int| keys@[i],
            wanted,
            wanted_keys,
        );
    }
    r
}

/// A row with another date than the row above it begins a section.
pub open spec fn begins_section(times: Seq<i64>) -> spec_fn(int) -> bool {
    |k: int|
        k == 0 || calendar::distribution_date_text(times[k] as int)
            != calendar::distribution_date_text(times[k - 1] as int)
}

/// The rows with which the sections of the list begin. Each section is headed by the
/// date of its rows.
#[verifier::loop_isolation(false)]
pub fn section_starts(times: &Vec<i64>) -> (r: Vec<usize>)
    ensures
        r@ == order::selection(times@.len() as int, begins_section(times@)),
{
    let mut keep: Vec<bool> = Vec::new();
    let mut k: usize = 0;
    while k < times.len()
        invariant
            k <= times@.len(),
            keep@.len() == k,
            forall|q: int| 0 <= q < k ==> #[trigger] keep@[q] == begins_section(times@)(q),
        decreases times@.len() - k,
    {
        let starts = k == 0 || !text::same_text(
            calendar::format_distribution_date(times[k]).as_str(),
            calendar::format_distribution_date(times[k - 1]).as_str(),
        );
        keep.push(starts);
        k += 1;
    }
    let r = order::select(&keep);
    proof {
        order::is_selection(
            r@,
            times@.len() as int,
            |i: int| keep@[i],
            begins_section(times@),
        );
    }
    r
}

pub open spec fn is_withdrawal(entry: CashEntry) -> bool {
    entry.kind@ == "DEPOSIT"@ && entry.sign == AmountSign::Negative
}

/// The title of a movement of cash.
pub open spec fn cash_title(entry: CashEntry) -> Seq<char> {
    let unnamed = text::nothing_but_blanks(entry.description@);
    if entry.kind@ == "DIVIDEND"@ {
        if unnamed {
            "Dividend"@
        } else {
            entry.description@
        }
    } else if entry.kind@ == "TRANSFER"@ {
        if unnamed {
            "Transfer"@
        } else {
            entry.description@
        }
    } else if is_withdrawal(entry) {
        "Withdrawal"@
    } else {
        "Deposit"@
    }
}

pub fn cash_row_title(entry: &CashEntry) -> (r: String)
    ensures
        r@ == cash_title(*entry),
{
    let unnamed = text::is_only_blank(entry.description.as_str());
    if text::same_text(entry.kind.as_str(), "DIVIDEND") {
        if unnamed {
            "Dividend".to_owned()
        } else {
            entry.description.clone()
        }
    } else if text::same_text(entry.kind.as_str(), "TRANSFER") {
        if unnamed {
            "Transfer".to_owned()
        } else {
            entry.description.clone()
        }
    } else if text::same_text(entry.kind.as_str(), "DEPOSIT") && entry.sign
        == AmountSign::Negative {
        "Withdrawal".to_owned()
    } else {
        "Deposit".to_owned()
    }
}

pub open spec fn cash_subtitle(entry: CashEntry, account: Seq<char>) -> Seq<char> {
    if entry.kind@ == "DIVIDEND"@ || entry.kind@ == "TRANSFER"@ {
        account + " · "@ + entry.currency@
    } else {
        account
    }
}

pub fn cash_row_subtitle(entry: &CashEntry, account: &str) -> (r: String)
    ensures
        r@ == cash_subtitle(*entry, account@),
{
    let mut r = account.to_owned();
    if text::same_text(entry.kind.as_str(), "DIVIDEND") || text::same_text(
        entry.kind.as_str(),
        "TRANSFER",
    ) {
        r.append(" · ");
        r.append(entry.currency.as_str());
    }
    r
}

/// Only what was entered by hand can be changed by hand.
pub fn cash_row_is_editable(entry: &CashEntry) -> (r: bool)
    ensures
        r == (entry.kind@ == "DEPOSIT"@),
{
    text::same_text(entry.kind.as_str(), "DEPOSIT")
}

pub fn delete_cash_heading(entry: &CashEntry) -> (r: &'static str)
    ensures
        r@ == if is_withdrawal(*entry) {
            "Delete withdrawal?"@
        } else {
            "Delete deposit?"@
        },
{
    if text::same_text(entry.kind.as_str(), "DEPOSIT") && entry.sign == AmountSign::Negative {
        "Delete withdrawal?"
    } else {
        "Delete deposit?"
    }
}

/// The verb of a trade's title.
pub open spec fn trade_lead(kind: Seq<char>) -> Seq<char> {
    if kind == "OPEN"@ {
        "Opening Position · "@
    } else if kind == "SELL"@ {
        "Sell "@
    } else if kind == "TRANSFER_OUT"@ {
        "Transfer Out "@
    } else if kind == "TRANSFER_IN"@ {
        "Transfer In "@
    } else {
        "Buy "@
    }
}

/// The question before a trade is deleted.
pub fn delete_trade_heading(t: &Transaction) -> (r: String)
    ensures
        r@ == "Delete "@ + t.code@ + " transaction?"@,
{
    let mut r = "Delete ".to_owned();
    r.append(t.code.as_str());
    r.append(" transaction?");
    r
}

/// The title of a trade. `shares` is its number of shares as text.
pub fn trade_row_title(t: &Transaction, shares: &str) -> (r: String)
    ensures
        r@ == trade_lead(t.transaction_type@) + shares@ + " "@ + t.code@,
{
    let kind = t.transaction_type.as_str();
    let lead = if text::same_text(kind, "OPEN") {
        "Opening Position · "
    } else if text::same_text(kind, "SELL") {
        "Sell "
    } else if text::same_text(kind, "TRANSFER_OUT") {
        "Transfer Out "
    } else if text::same_text(kind, "TRANSFER_IN") {
        "Transfer In "
    } else {
        "Buy "
    };
    let mut r = lead.to_owned();
    r.append(shares);
    r.append(" ");
    r.append(t.code.as_str());
    r
}

pub open spec fn is_transfer_kind(kind: Seq<char>) -> bool {
    kind == "TRANSFER_IN"@ || kind == "TRANSFER_OUT"@
}

/// The line under a trade. `fee` is its fee as text, where it counts.
pub open spec fn trade_subtitle(t: Transaction, price: Seq<char>, fee: Option<Seq<char>>) -> Seq<char> {
    let base = t.account_name@ + " · "@ + price + "/share"@;
    let with_fee = match fee {
        Some(fee) => base + (" · "@ + fee + " fee"@),
        None => base,
    };
    if is_transfer_kind(t.transaction_type@) {
        with_fee + " · account transfer"@
    } else if t.settle_cash {
        with_fee + " · cash"@
    } else {
        with_fee
    }
}

pub fn trade_row_subtitle(t: &Transaction, price: &str, fee: Option<&str>) -> (r: String)
    ensures
        r@ == trade_subtitle(*t, price@, crate::charts::text_view(fee)),
{
    let mut r = t.account_name.clone();
    r.append(" · ");
    r.append(price);
    r.append("/share");
    match fee {
        Some(fee) => {
            let mut f = " · ".to_owned();
            f.append(fee);
            f.append(" fee");
            r.append(f.as_str());
        },
        None => {},
    }
    if is_transfer(t) {
        r.append(" · account transfer");
    } else if t.settle_cash {
        r.append(" · cash");
    }
    r
}

/// A side of a transfer between accounts; such a row cannot be changed or removed.
pub fn is_transfer(t: &Transaction) -> (r: bool)
    ensures
        r == is_transfer_kind(t.transaction_type@),
{
    text::same_text(t.transaction_type.as_str(), "TRANSFER_IN") || text::same_text(
        t.transaction_type.as_str(),
        "TRANSFER_OUT",
    )
}

/// How the fees of a trade enter its total.
#[derive(Clone, Copy, PartialEq, Eq, Structural)]
pub enum FeeEffect {
    Added,
    Deducted,
    Left,
}

pub open spec fn fee_effect_of(kind: ActivityKind) -> FeeEffect {
    match kind {
        ActivityKind::Sell => FeeEffect::Deducted,
        ActivityKind::TransferIn | ActivityKind::TransferOut => FeeEffect::Left,
        _ => FeeEffect::Added,
    }
}

pub fn fee_effect(t: &Transaction) -> (r: FeeEffect)
    ensures
        r == fee_effect_of(ledger::kind_of(t.transaction_type@)),
{
    match ledger::activity_kind(t.transaction_type.as_str()) {
        ActivityKind::Sell => FeeEffect::Deducted,
        ActivityKind::TransferIn | ActivityKind::TransferOut => FeeEffect::Left,
        _ => FeeEffect::Added,
    }
}

/// The account that an entry of the account selector stands for: the first entry is for
/// all accounts.
pub open spec fn account_choice(ids: Seq<i64>, selected: int) -> Option<i64> {
    if 1 <= selected <= ids.len() {
        Some(ids[selected - 1])
    } else {
        None
    }
}

pub fn account_filter(ids: &Vec<i64>, selected: u32) -> (r: Option<i64>)
    ensures
        r == account_choice(ids@, selected as int),
{
    let index: usize = selected as usize;
    if index >= 1 && index <= ids.len() {
        Some(ids[index - 1])
    } else {
        None
    }
}

/// Which trades a kind of the filter lets through.
pub proof fn filter_kinds_of_trades(t: Transaction)
    ensures
        trade_matches_kind(t, 0),
        trade_matches_kind(t, 1) <==> t.transaction_type@ == "BUY"@,
        trade_matches_kind(t, 2) <==> t.transaction_type@ == "SELL"@,
        !trade_matches_kind(t, 3),
        !trade_matches_kind(t, 4),
        trade_matches_kind(t, 5) <==> t.transaction_type@ == "TRANSFER_IN"@
            || t.transaction_type@ == "TRANSFER_OUT"@,
        !trade_matches_kind(t, 6),
{
}

/// Which movements of cash a kind of the filter lets through.
pub proof fn filter_kinds_of_cash(entry: CashEntry)
    ensures
        cash_matches_kind(entry, 0),
        !cash_matches_kind(entry, 1),
        !cash_matches_kind(entry, 2),
        cash_matches_kind(entry, 3) <==> entry.kind@ == "DEPOSIT"@ && (entry.sign is Positive
            || entry.sign is Zero),
        cash_matches_kind(entry, 4) <==> entry.kind@ == "DEPOSIT"@ && entry.sign is Negative,
        cash_matches_kind(entry, 5) <==> entry.kind@ == "TRANSFER"@,
        cash_matches_kind(entry, 6) <==> entry.kind@ == "DIVIDEND"@,
{
}

/// Without a query, the list of an account shows its trades of the chosen kind, and its
/// deposits, dividends and transfers of that kind.
pub proof fn list_shows_what_was_chosen(
    trades: Seq<Transaction>,
    cash: Seq<CashEntry>,
    accounts: Seq<Account>,
    kind: int,
    account_id: Option<i64>,
    query: Seq<char>,
    e: int,
)
    requires
        0 <= e < trades.len() + cash.len(),
        trades.len() + cash.len() <= usize::MAX,
    ensures
        ({
            let list = order::arrangement(
                (trades.len() + cash.len()) as int,
                shown(trades, cash, accounts, query, kind, account_id),
                row_keys(trades, cash),
            );
            let wanted = if e < trades.len() {
                (account_id is None || trades[e].account_id == account_id->0)
                    && trade_matches_kind(trades[e], kind)
            } else {
                let entry = cash[e - trades.len()];
                (account_id is None || entry.account_id == account_id->0) && cash_matches_kind(
                    entry,
                    kind,
                ) && (entry.kind@ == "DEPOSIT"@ || entry.kind@ == "DIVIDEND"@ || entry.kind@
                    == "TRANSFER"@)
            };
            &&& list.contains(e as usize) ==> wanted
            &&& wanted && text::trimmed(query).len() == 0 ==> list.contains(e as usize)
            &&& list.no_duplicates()
        }),
{
    let n = (trades.len() + cash.len()) as int;
    let keep = shown(trades, cash, accounts, query, kind, account_id);
    order::arrangement_sorts_kept_positions(n, keep, row_keys(trades, cash));
    let list = order::arrangement(n, keep, row_keys(trades, cash));
    assert(list.contains(e as usize) <==> keep(e));
    if text::trimmed(query).len() == 0 {
        text::no_words_in_blanks(query);
    }
}

/// The list of activities is the newest first, and those of one time stand in the reverse
/// order of entry.
pub proof fn list_is_newest_first(
    trades: Seq<Transaction>,
    cash: Seq<CashEntry>,
    keep: spec_fn(int) -> bool,
    a: int,
    b: int,
)
    requires
        trades.len() + cash.len() <= usize::MAX,
        0 <= a < b < order::arrangement(
            (trades.len() + cash.len()) as int,
            keep,
            row_keys(trades, cash),
        ).len(),
    ensures
        ({
            let list = order::arrangement(
                (trades.len() + cash.len()) as int,
                keep,
                row_keys(trades, cash),
            );
            let x = list[a] as int;
            let y = list[b] as int;
            let x_time = if x < trades.len() {
                trades[x].timestamp
            } else {
                cash[x - trades.len()].occurred_at
            };
            let y_time = if y < trades.len() {
                trades[y].timestamp
            } else {
                cash[y - trades.len()].occurred_at
            };
            let x_id = if x < trades.len() {
                trades[x].id
            } else {
                cash[x - trades.len()].id
            };
            let y_id = if y < trades.len() {
                trades[y].id
            } else {
                cash[y - trades.len()].id
            };
            x_time > y_time || x_time == y_time && x_id >= y_id
        }),
{
    let n = (trades.len() + cash.len()) as int;
    let list = order::arrangement(n, keep, row_keys(trades, cash));
    order::arrangement_sorts_kept_positions(n, keep, row_keys(trades, cash));
    assert(list.contains(list[a]) && list.contains(list[b]));
}

/// A trade is found by any part of its code, its name, its account, its date, its type or its
/// currency, whatever the case of the letters.
pub proof fn trade_is_found_by_each_of_its_parts(t: Transaction, part: Seq<char>)
    requires
        text::holds_part(t.code@, part) || text::holds_part(t.name@, part) || text::holds_part(
            t.account_name@,
            part,
        ) || text::holds_part(t.trade_date@, part) || text::holds_part(t.transaction_type@, part)
            || text::holds_part(t.currency@, part),
    ensures
        text::holds_part(trade_search_text(t), text::lowercase(part)),
{
    let none = Seq::<char>::empty();
    let whole = t.code@ + " "@ + t.name@ + " "@ + t.account_name@ + " "@ + t.trade_date@ + " "@
        + t.transaction_type@ + " "@ + t.currency@;
    let a = t.code@ + " "@;
    let b = a + t.name@ + " "@;
    let c = b + t.account_name@ + " "@;
    let d = c + t.trade_date@ + " "@;
    let e = d + t.transaction_type@ + " "@;
    assert(whole =~= none + t.code@ + (" "@ + t.name@ + " "@ + t.account_name@ + " "@
        + t.trade_date@ + " "@ + t.transaction_type@ + " "@ + t.currency@));
    assert(whole =~= a + t.name@ + (" "@ + t.account_name@ + " "@ + t.trade_date@ + " "@
        + t.transaction_type@ + " "@ + t.currency@));
    assert(whole =~= b + t.account_name@ + (" "@ + t.trade_date@ + " "@ + t.transaction_type@
        + " "@ + t.currency@));
    assert(whole =~= c + t.trade_date@ + (" "@ + t.transaction_type@ + " "@ + t.currency@));
    assert(whole =~= d + t.transaction_type@ + (" "@ + t.currency@));
    assert(whole =~= e + t.currency@ + none);
    part_is_found(
        none,
        t.code@,
        " "@ + t.name@ + " "@ + t.account_name@ + " "@ + t.trade_date@ + " "@
            + t.transaction_type@ + " "@ + t.currency@,
        part,
    );
    part_is_found(
        a,
        t.name@,
        " "@ + t.account_name@ + " "@ + t.trade_date@ + " "@ + t.transaction_type@ + " "@
            + t.currency@,
        part,
    );
    part_is_found(
        b,
        t.account_name@,
        " "@ + t.trade_date@ + " "@ + t.transaction_type@ + " "@ + t.currency@,
        part,
    );
    part_is_found(c, t.trade_date@, " "@ + t.transaction_type@ + " "@ + t.currency@, part);
    part_is_found(d, t.transaction_type@, " "@ + t.currency@, part);
    part_is_found(e, t.currency@, none, part);
}

proof fn part_is_found(before: Seq<char>, field: Seq<char>, after: Seq<char>, part: Seq<char>)
    ensures
        text::holds_part(field, part) ==> text::holds_part(
            text::lowercase(before + field + after),
            text::lowercase(part),
        ),
{
    if text::holds_part(field, part) {
        let at = choose|at: int| text::stands_at(field, part, at);
        let whole = before + field + after;
        let from = before.len() + at;
        assert forall|i: int| 0 <= i < part.len() implies whole[from + i] == #[trigger] part[i] by {
            assert(field.subrange(at, at + part.len())[i] == part[i]);
        }
        assert(text::lowercase(whole).subrange(from, from + part.len()) =~= text::lowercase(part));
        assert(text::stands_at(text::lowercase(whole), text::lowercase(part), from));
    }
}

/// A movement of cash is found by any part of what it is called, of its description, its
/// account, its date or its currency.
pub proof fn cash_is_found_by_each_of_its_parts(
    entry: CashEntry,
    account: Seq<char>,
    part: Seq<char>,
)
    requires
        text::holds_part(entry.description@, part) || text::holds_part(account, part)
            || text::holds_part(
            calendar::distribution_date_text(entry.occurred_at as int),
            part,
        ) || text::holds_part(entry.currency@, part) || text::holds_part(
            cash_search_words(entry),
            part,
        ),
    ensures
        text::holds_part(cash_search_text(entry, account), text::lowercase(part)),
{
    let none = Seq::<char>::empty();
    let words = cash_search_words(entry);
    let date = calendar::distribution_date_text(entry.occurred_at as int);
    let whole = words + " "@ + entry.description@ + " "@ + account + " "@ + date + " "@
        + entry.currency@;
    let a = words + " "@;
    let b = a + entry.description@ + " "@;
    let c = b + account + " "@;
    let d = c + date + " "@;
    assert(whole =~= none + words + (" "@ + entry.description@ + " "@ + account + " "@ + date
        + " "@ + entry.currency@));
    assert(whole =~= a + entry.description@ + (" "@ + account + " "@ + date + " "@
        + entry.currency@));
    assert(whole =~= b + account + (" "@ + date + " "@ + entry.currency@));
    assert(whole =~= c + date + (" "@ + entry.currency@));
    assert(whole =~= d + entry.currency@ + none);
    part_is_found(
        none,
        words,
        " "@ + entry.description@ + " "@ + account + " "@ + date + " "@ + entry.currency@,
        part,
    );
    part_is_found(
        a,
        entry.description@,
        " "@ + account + " "@ + date + " "@ + entry.currency@,
        part,
    );
    part_is_found(b, account, " "@ + date + " "@ + entry.currency@, part);
    part_is_found(c, date, " "@ + entry.currency@, part);
    part_is_found(d, entry.currency@, none, part);
}

/// A query finds what holds each of its words, and one word of it that is missing is enough to
/// leave a record out.
pub proof fn every_word_must_be_found(query: Seq<char>, searched: Seq<char>, w: int)
    requires
        0 <= w < text::words(query).len(),
    ensures
        !text::holds_part(searched, text::lowercase(text::words(query)[w])) ==> !finds(
            query,
            searched,
        ),
        (forall|k: int|
            0 <= k < text::words(query).len() ==> text::holds_part(
                searched,
                text::lowercase(#[trigger] text::words(query)[k]),
            )) ==> finds(query, searched),
{
}

/// What movements of cash are called in a search, by their kind and their way.
pub proof fn cash_is_called_by_its_way(entry: CashEntry)
    ensures
        entry.kind@ == "DIVIDEND"@ ==> cash_search_words(entry) == "dividend distribution income"@,
        entry.kind@ == "TRANSFER"@ ==> cash_search_words(entry) == "transfer move cash account"@,
        entry.kind@ == "DEPOSIT"@ && entry.sign is Negative ==> cash_search_words(entry)
            == "withdrawal withdraw cash"@,
        entry.kind@ == "DEPOSIT"@ && entry.sign is Positive ==> cash_search_words(entry)
            == "deposit add cash"@,
{
    cash_kinds_by_name();
}

proof fn cash_kinds_by_name()
    ensures
        "DEPOSIT"@ != "DIVIDEND"@,
        "DEPOSIT"@ != "TRANSFER"@,
        "DIVIDEND"@ != "TRANSFER"@,
{
    reveal_strlit("DEPOSIT");
    reveal_strlit("DIVIDEND");
    reveal_strlit("TRANSFER");
    assert("DIVIDEND"@[0] == 'D' && "TRANSFER"@[0] == 'T');
    assert("DEPOSIT"@.len() == 7 && "DIVIDEND"@.len() == 8 && "TRANSFER"@.len() == 8);
}

/// How movements of cash are titled in the list, and what stands under the title.
pub proof fn cash_rows_tell_the_way(entry: CashEntry, account: Seq<char>)
    ensures
        entry.kind@ == "DEPOSIT"@ ==> cash_title(entry) == if entry.sign is Negative {
            "Withdrawal"@
        } else {
            "Deposit"@
        },
        entry.kind@ == "DIVIDEND"@ ==> cash_title(entry) == if text::trimmed(
            entry.description@,
        ).len() == 0 {
            "Dividend"@
        } else {
            entry.description@
        },
        entry.kind@ == "TRANSFER"@ ==> cash_title(entry) == if text::trimmed(
            entry.description@,
        ).len() == 0 {
            "Transfer"@
        } else {
            entry.description@
        },
        entry.kind@ == "DEPOSIT"@ ==> cash_subtitle(entry, account) == account,
        entry.kind@ == "DIVIDEND"@ || entry.kind@ == "TRANSFER"@ ==> cash_subtitle(entry, account)
            == account + " · "@ + entry.currency@,
{
    cash_kinds_by_name();
}

/// How trades are titled in the list, by their types.
pub proof fn trade_rows_tell_the_type()
    ensures
        trade_lead("BUY"@) == "Buy "@,
        trade_lead("SELL"@) == "Sell "@,
        trade_lead("OPEN"@) == "Opening Position · "@,
        trade_lead("TRANSFER_OUT"@) == "Transfer Out "@,
        trade_lead("TRANSFER_IN"@) == "Transfer In "@,
{
    ledger::kinds_by_name();
}

/// What stands under the title of a trade: its account and its price, the fee where there was
/// one, and whether it moved between accounts or was settled with cash.
pub proof fn trade_rows_tell_how_settled(t: Transaction, price: Seq<char>, fee: Seq<char>)
    ensures
        ({
            let kind = t.transaction_type@;
            let end = if kind == "TRANSFER_IN"@ || kind == "TRANSFER_OUT"@ {
                " · account transfer"@
            } else if t.settle_cash {
                " · cash"@
            } else {
                Seq::empty()
            };
            &&& trade_subtitle(t, price, None) == t.account_name@ + " · "@ + price + "/share"@ + end
            &&& trade_subtitle(t, price, Some(fee)) == t.account_name@ + " · "@ + price
                + "/share"@ + (" · "@ + fee + " fee"@) + end
        }),
{
    let base = t.account_name@ + " · "@ + price + "/share"@;
    assert(base + Seq::<char>::empty() =~= base);
    let more = base + (" · "@ + fee + " fee"@);
    assert(more + Seq::<char>::empty() =~= more);
}

/// A fee lowers what a sale brings in, leaves a transfer as it is, and raises the cost of
/// everything else.
pub proof fn fees_count_against_the_owner()
    ensures
        fee_effect_of(ledger::kind_of("SELL"@)) == FeeEffect::Deducted,
        fee_effect_of(ledger::kind_of("TRANSFER_IN"@)) == FeeEffect::Left,
        fee_effect_of(ledger::kind_of("TRANSFER_OUT"@)) == FeeEffect::Left,
        fee_effect_of(ledger::kind_of("BUY"@)) == FeeEffect::Added,
        fee_effect_of(ledger::kind_of("OPEN"@)) == FeeEffect::Added,
{
    ledger::kinds_by_name();
}

/// The first entry of the selector stands for all accounts, the others for one each.
pub proof fn first_choice_is_all_accounts(ids: Seq<i64>, selected: int)
    ensures
        account_choice(ids, 0) is None,
        0 <= selected < ids.len() ==> account_choice(ids, selected + 1) == Some(ids[selected]),
        selected > ids.len() ==> account_choice(ids, selected) is None,
{
}

/// Activities of one day stand in one section, and those of two days in two.
pub proof fn sections_are_of_one_day(times: Seq<i64>, k: int)
    requires
        0 < k < times.len(),
        times[k] > 0,
        times[k - 1] > 0,
        calendar::civil(times[k] as int / 86_400).0 <= i32::MAX,
        calendar::civil(times[k - 1] as int / 86_400).0 <= i32::MAX,
    ensures
        begins_section(times)(0),
        begins_section(times)(k) <==> times[k] as int / 86_400 != times[k - 1] as int / 86_400,
{
    let a = times[k - 1] as int / 86_400;
    let b = times[k] as int / 86_400;
    if a != b {
        calendar::dates_are_written_apart(times[k - 1] as int, times[k] as int);
    }
}

} // verus!
