//! Amounts, names and the lines of rows.

use aureus::accounts::{currency_of_cash, find_account, name_of_account};
use aureus::activity::{
    account_filter, cash_row_is_editable, cash_row_subtitle, cash_row_title, delete_cash_heading,
    delete_trade_heading, fee_effect, is_transfer, rebuild_transactions_list, section_starts,
    trade_row_subtitle, trade_row_title, FeeEffect, TransactionsFilterState,
};
use aureus::model::{Account, AmountSign, CashEntry, Transaction};
use aureus::wording::{
    account_choice_label, entered_number, format_allocation_currency, format_currency,
    format_money_number, format_signed_currency, friendly_asset_type, friendly_exchange,
    holding_count_text, quote_health_css_class, quote_health_text, quote_status_text,
    report_currency, report_signed_currency, shares_text, split_ratio_text, trim_number,
};

fn trade(id: i64, account_id: i64, kind: &str, timestamp: i64) -> Transaction {
    Transaction {
        id,
        account_id,
        account_name: "Cash Account".to_owned(),
        code: "VFV".to_owned(),
        name: "S&P 500 Index".to_owned(),
        provider_symbol: "VFV.TO".to_owned(),
        transaction_type: kind.to_owned(),
        trade_date: "2024-03-01".to_owned(),
        timestamp,
        currency: "CAD".to_owned(),
        settle_cash: true,
        priced: true,
    }
}

fn cash(id: i64, kind: &str, description: &str, sign: AmountSign, occurred_at: i64) -> CashEntry {
    CashEntry {
        id,
        account_id: 2,
        kind: kind.to_owned(),
        description: description.to_owned(),
        currency: "USD".to_owned(),
        occurred_at,
        sign,
    }
}

fn accounts() -> Vec<Account> {
    vec![
        Account { id: 1, name: "TFSA".to_owned(), currency: "CAD".to_owned(), holds_cash: true },
        Account { id: 2, name: "RRSP".to_owned(), currency: "USD".to_owned(), holds_cash: false },
    ]
}

fn filter(query: &str, kind: u32, account_id: Option<i64>) -> TransactionsFilterState {
    TransactionsFilterState { query: query.to_owned(), kind, account_id }
}

#[test]
fn large_amounts_are_grouped() {
    assert_eq!(format_money_number("12.50", false), "12.50");
    assert_eq!(format_money_number("1234.00", false), "1234.00");
    assert_eq!(format_money_number("12345.00", true), "-12,345.00");
    assert_eq!(format_money_number("1234567.89", false), "1,234,567.89");
    assert_eq!(format_money_number("inf", false), "inf");
}

#[test]
fn grouping_only_adds_commas() {
    let grouped = format_money_number("123456789.01", false);
    assert_eq!(grouped, "123,456,789.01");
    assert_eq!(grouped.replace(',', ""), "123456789.01");
}

#[test]
fn amounts_carry_their_currency() {
    assert_eq!(format_currency("5.00", false, "CAD"), "C$5.00");
    assert_eq!(format_currency("5.00", true, "USD"), "US$-5.00");
    assert_eq!(format_currency("12345.60", false, "EUR"), "€12,345.60");
    assert_eq!(format_currency("5.00", false, "GBP"), "£5.00");
    assert_eq!(format_currency("5.00", false, "JPY"), "5.00 JPY");
    assert_eq!(format_signed_currency("5.00", true, "CAD"), "−C$5.00");
    assert_eq!(format_signed_currency("5.00", false, "CAD"), "+C$5.00");
    assert_eq!(format_allocation_currency("1234.50", true, "CAD"), "C$−1,234.50");
    assert_eq!(format_allocation_currency("234.50", false, "JPY"), "234.50 JPY");
    assert_eq!(report_currency(Some(("5.00", false)), "CAD"), "C$5.00");
    assert_eq!(report_currency(None, "CAD"), "—");
    assert_eq!(report_signed_currency(Some(("5.00", true)), "CAD"), "−C$5.00");
    assert_eq!(report_signed_currency(None, "CAD"), "—");
}

#[test]
fn numbers_lose_only_end_zeros() {
    assert_eq!(trim_number("1.500"), "1.5");
    assert_eq!(trim_number("100.000"), "100");
    assert_eq!(trim_number("0.001"), "0.001");
    assert_eq!(trim_number("100"), "100");
    assert_eq!(entered_number(" 1,234.5 "), "1234.5");
    assert_eq!(shares_text("1", true), "1 share");
    assert_eq!(shares_text("2.5", false), "2.5 shares");
    assert_eq!(holding_count_text(1), "1 holding");
    assert_eq!(holding_count_text(0), "0 holdings");
    assert_eq!(split_ratio_text("4", true), "4-for-1");
    assert_eq!(split_ratio_text("10", false), "1-for-10");
}

#[test]
fn names_are_friendly() {
    assert_eq!(account_choice_label("TFSA", "CAD"), "TFSA · CAD");
    assert_eq!(friendly_asset_type("Common Stock"), "Stock");
    assert_eq!(friendly_asset_type("ETF"), "ETF");
    assert_eq!(friendly_asset_type("mutual fund"), "Fund");
    assert_eq!(friendly_asset_type("INDEX"), "Index");
    assert_eq!(friendly_asset_type("Warrant"), "Warrant");
    assert_eq!(friendly_exchange("TOR"), "Toronto");
    assert_eq!(friendly_exchange("NGM"), "Nasdaq");
    assert_eq!(friendly_exchange("tor"), "tor");
}

#[test]
fn a_missing_quote_warns() {
    let missing = quote_health_text(false, Some(5), "Live", 10);
    assert_eq!(missing, "Quote unavailable");
    assert_eq!(quote_health_css_class(&missing), "warning");
    assert_eq!(quote_health_text(true, None, "Live", 10), "Cached quote · time unknown");
    assert_eq!(quote_health_text(true, Some(5), "Live", 10), "Live · just now");
    assert_eq!(quote_status_text("Stale", 7_205, 5), "Stale · 2 h ago");
    assert_eq!(quote_health_css_class("Live · just now"), "success");
    assert_eq!(quote_health_css_class("Current"), "success");
    assert_eq!(quote_health_css_class("Stale · 2 h ago"), "warning");
    assert_eq!(quote_health_css_class("Network error"), "warning");
    assert_eq!(quote_health_css_class("Market closed"), "dim-label");
}

#[test]
fn accounts_are_found_by_id() {
    let known = accounts();
    assert_eq!(find_account(&known, 2), Some(1));
    assert_eq!(find_account(&known, 3), None);
    assert_eq!(name_of_account(&known, 1), "TFSA");
    assert_eq!(name_of_account(&known, 9), "Account");
    assert_eq!(currency_of_cash(&known, 2, "CAD"), "USD");
    assert_eq!(currency_of_cash(&known, 9, "CAD"), "CAD");
}

#[test]
fn the_first_account_of_an_id_is_found_and_the_last_one_names_it() {
    let mut known = accounts();
    known[1].id = 1;
    assert_eq!(find_account(&known, 1), Some(0));
    assert_eq!(name_of_account(&known, 1), "RRSP");
    assert_eq!(currency_of_cash(&known, 1, "CAD"), "USD");
}

#[test]
fn without_a_filter_everything_is_shown() {
    let trades = vec![trade(1, 1, "BUY", 100), trade(2, 2, "SELL", 200)];
    let moves = vec![
        cash(5, "DEPOSIT", "", AmountSign::Positive, 150),
        cash(6, "TRADE", "", AmountSign::Negative, 160),
        cash(9, "DIVIDEND", "", AmountSign::Positive, 200),
    ];
    let rows = rebuild_transactions_list(&trades, &moves, &accounts(), &filter(" ", 0, None));
    assert_eq!(rows, vec![4, 1, 2, 0]);
}

#[test]
fn rows_belong_to_one_kind() {
    let trades = vec![trade(1, 1, "BUY", 1), trade(2, 1, "SELL", 2), trade(3, 1, "TRANSFER_IN", 3)];
    let moves = vec![
        cash(4, "DEPOSIT", "", AmountSign::Positive, 4),
        cash(5, "DEPOSIT", "", AmountSign::Negative, 5),
        cash(6, "TRANSFER", "", AmountSign::Negative, 6),
        cash(7, "DIVIDEND", "", AmountSign::Positive, 7),
    ];
    let of = |kind: u32| {
        rebuild_transactions_list(&trades, &moves, &accounts(), &filter("", kind, None))
    };
    assert_eq!(of(1), vec![0]);
    assert_eq!(of(2), vec![1]);
    assert_eq!(of(3), vec![3]);
    assert_eq!(of(4), vec![4]);
    assert_eq!(of(5), vec![5, 2]);
    assert_eq!(of(6), vec![6]);
}

#[test]
fn every_word_of_a_query_is_searched() {
    let trades = vec![trade(1, 1, "BUY", 100)];
    let moves = vec![cash(5, "DEPOSIT", "Bonus", AmountSign::Negative, 86_400)];
    let found = |query: &str, account: Option<i64>| {
        rebuild_transactions_list(&trades, &moves, &accounts(), &filter(query, 0, account))
    };
    assert_eq!(found("vfv CASH", None), vec![0]);
    assert_eq!(found("cash", None), vec![1, 0]);
    assert_eq!(found("withdraw rrsp jan", None), vec![1]);
    assert_eq!(found("vfv bonus", None), Vec::<usize>::new());
    assert_eq!(found("", Some(1)), vec![0]);
}

#[test]
fn sections_begin_with_a_new_date() {
    assert_eq!(section_starts(&vec![172_800, 172_801, 86_400, -1, 0]), vec![0, 2, 3]);
    assert!(section_starts(&vec![]).is_empty());
}

#[test]
fn rows_of_cash_have_titles() {
    let dividend = cash(1, "DIVIDEND", " ", AmountSign::Positive, 1);
    assert_eq!(cash_row_title(&dividend), "Dividend");
    assert_eq!(cash_row_subtitle(&dividend, "RRSP"), "RRSP · USD");
    let moved = cash(1, "TRANSFER", "To TFSA", AmountSign::Negative, 1);
    assert_eq!(cash_row_title(&moved), "To TFSA");
    assert!(!cash_row_is_editable(&moved));
    let withdrawal = cash(1, "DEPOSIT", "", AmountSign::Negative, 1);
    assert_eq!(cash_row_title(&withdrawal), "Withdrawal");
    assert_eq!(cash_row_subtitle(&withdrawal, "RRSP"), "RRSP");
    assert_eq!(delete_cash_heading(&withdrawal), "Delete withdrawal?");
    assert!(cash_row_is_editable(&withdrawal));
    let deposit = cash(1, "DEPOSIT", "", AmountSign::Unordered, 1);
    assert_eq!(cash_row_title(&deposit), "Deposit");
    assert_eq!(delete_cash_heading(&deposit), "Delete deposit?");
}

#[test]
fn rows_of_trades_have_titles() {
    let buy = trade(1, 1, "BUY", 1);
    assert_eq!(trade_row_title(&buy, "3"), "Buy 3 VFV");
    assert_eq!(delete_trade_heading(&buy), "Delete VFV transaction?");
    assert_eq!(
        trade_row_subtitle(&buy, "C$1.00", Some("C$0.50")),
        "Cash Account · C$1.00/share · C$0.50 fee · cash"
    );
    let moved = trade(1, 1, "TRANSFER_OUT", 1);
    assert_eq!(trade_row_title(&moved, "1"), "Transfer Out 1 VFV");
    assert_eq!(
        trade_row_subtitle(&moved, "C$1.00", None),
        "Cash Account · C$1.00/share · account transfer"
    );
    assert!(is_transfer(&moved) && !is_transfer(&buy));
    assert!(fee_effect(&buy) == FeeEffect::Added);
    assert!(fee_effect(&trade(1, 1, "SELL", 1)) == FeeEffect::Deducted);
    assert!(fee_effect(&moved) == FeeEffect::Left);
    assert_eq!(trade_row_title(&trade(1, 1, "OPEN", 1), "2"), "Opening Position · 2 VFV");
}

#[test]
fn the_first_entry_stands_for_all_accounts() {
    assert_eq!(account_filter(&vec![7, 8], 0), None);
    assert_eq!(account_filter(&vec![7, 8], 2), Some(8));
    assert_eq!(account_filter(&vec![7, 8], 3), None);
}
