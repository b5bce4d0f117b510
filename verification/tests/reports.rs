//! Reports and the symbols they are made from.

use aureus::model::{AmountSign, CashEntry, DividendEvent, Position, PricePoint, Transaction};
use aureus::reports::{
    activity_line_label, activity_lines, distributions_within, dividend_months,
    dividend_total_text, end_price, ending_cash, find_holding, month_is_complete, payers, period_activity,
    portfolio_metrics, report_file_name, report_filename_slug, report_needs_fx,
    report_periods_for_account, rows_in_time, source_is_complete, value_holdings, value_trades,
    EndPrice, ReportAmounts, ReportHolding, ReportKind, ReportPeriod,
};
use aureus::rates::{Conversion, Rate};
use aureus::symbols::{history_symbols, insert_sorted, report_symbols, traded_symbols};

const DAY: i64 = 86_400;
const NOW: i64 = 19_783 * DAY + 100;

fn trade(account_id: i64, symbol: &str, kind: &str, timestamp: i64) -> Transaction {
    Transaction {
        id: 1,
        account_id,
        account_name: "TFSA".to_owned(),
        code: symbol.to_owned(),
        name: symbol.to_owned(),
        provider_symbol: symbol.to_owned(),
        transaction_type: kind.to_owned(),
        trade_date: String::new(),
        timestamp,
        currency: "USD".to_owned(),
        settle_cash: false,
        priced: true,
    }
}

fn cash(account_id: i64, kind: &str, sign: AmountSign, occurred_at: i64) -> CashEntry {
    CashEntry {
        id: 1,
        account_id,
        kind: kind.to_owned(),
        description: String::new(),
        currency: "CAD".to_owned(),
        occurred_at,
        sign,
    }
}

fn position(account_id: i64, symbol: &str, priced: bool) -> Position {
    Position {
        id: 1,
        account_id,
        account_name: "TFSA".to_owned(),
        code: symbol.to_owned(),
        name: symbol.to_owned(),
        exchange: "TOR".to_owned(),
        provider_symbol: symbol.to_owned(),
        currency: "CAD".to_owned(),
        quote_updated_at: None,
        priced,
    }
}

#[test]
fn kinds_of_reports_have_names() {
    assert_eq!(ReportKind::Portfolio.title(), "Portfolio Performance");
    assert_eq!(ReportKind::Dividends.file_stem(), "dividend-income");
    assert!(ReportKind::from_index(0) == ReportKind::Portfolio);
    assert!(ReportKind::from_index(1) == ReportKind::Dividends);
}

#[test]
fn a_period_spans_its_year() {
    assert_eq!(ReportPeriod::Year(1970).bounds(NOW), (0, 365 * DAY - 1));
    assert_eq!(ReportPeriod::Year(2024).bounds(NOW).0, 19_723 * DAY);
    assert_eq!(ReportPeriod::Ytd.bounds(NOW), (19_723 * DAY, NOW));
    assert_eq!(ReportPeriod::Ytd.label(), "Year to Date (YTD)");
    assert_eq!(ReportPeriod::Year(2023).label(), "2023");
    assert_eq!(ReportPeriod::Ytd.filename_token(NOW), "2024-ytd");
    assert_eq!(ReportPeriod::Year(2023).filename_token(NOW), "2023");
    assert_eq!(ReportPeriod::Year(2023).date_range(NOW), "Jan 1, 2023 - Dec 31, 2023");
    assert_eq!(ReportPeriod::Ytd.date_range(NOW), "Jan 1, 2024 - Mar 1, 2024");
    assert_eq!(ReportPeriod::Year(1970).date_range(NOW), "Unknown date - Dec 31, 1970");
}

#[test]
fn periods_begin_with_the_first_activity() {
    let trades = vec![trade(1, "A", "BUY", 19_000 * DAY), trade(2, "A", "BUY", 10 * DAY)];
    let moves = vec![cash(1, "DEPOSIT", AmountSign::Positive, 19_400 * DAY)];
    let periods = report_periods_for_account(&trades, &moves, 1, NOW);
    let expected = vec![ReportPeriod::Ytd, ReportPeriod::Year(2023), ReportPeriod::Year(2022)];
    assert!(periods == expected);
    assert!(report_periods_for_account(&trades, &moves, 3, NOW) == vec![ReportPeriod::Ytd]);
}

#[test]
fn file_names_are_plain() {
    assert_eq!(report_filename_slug("  My TFSA -- (2024)! "), "my-tfsa-2024");
    assert_eq!(report_filename_slug("éé"), "account");
    assert_eq!(report_filename_slug(""), "account");
    assert_eq!(
        report_file_name(ReportKind::Portfolio, "My TFSA", ReportPeriod::Ytd, NOW),
        "aureus-portfolio-performance-my-tfsa-2024-ytd.pdf"
    );
}

#[test]
fn foreign_trades_need_rates() {
    let trades = vec![trade(1, "A", "BUY", 1)];
    assert!(report_needs_fx(&trades, 1, "CAD"));
    assert!(!report_needs_fx(&trades, 1, "usd"));
    assert!(!report_needs_fx(&trades, 2, "CAD"));
}

#[test]
fn a_holding_is_priced_at_the_end() {
    let closes = vec![PricePoint { timestamp: 10, positive: true }];
    let held = vec![position(2, "A", true), position(1, "a", true)];
    let at = |history: Option<&[PricePoint]>, period: ReportPeriod, end: i64| {
        end_price(history, &held, 1, "A", period, end)
    };
    assert!(at(Some(&closes), ReportPeriod::Year(1970), 10) == Some(EndPrice::Close(0)));
    assert!(at(Some(&closes), ReportPeriod::Year(1970), 9).is_none());
    assert!(at(None, ReportPeriod::Ytd, 9) == Some(EndPrice::Position(1)));
    assert!(end_price(None, &[position(1, "A", false)], 1, "A", ReportPeriod::Ytd, 9).is_none());
}

#[test]
fn the_activity_of_a_period_is_sorted_by_kind() {
    let trades = vec![
        trade(1, "A", "BUY", 10),
        trade(1, "A", "SELL", 20),
        trade(1, "A", "TRANSFER_OUT", 20),
        trade(1, "A", "BUY", 21),
        trade(2, "A", "BUY", 15),
        trade(1, "A", "OPEN", 15),
    ];
    let moves = vec![
        cash(1, "DEPOSIT", AmountSign::Positive, 10),
        cash(1, "DEPOSIT", AmountSign::Negative, 20),
        cash(1, "TRANSFER", AmountSign::Negative, 12),
        cash(1, "DEPOSIT", AmountSign::Zero, 12),
        cash(1, "DEPOSIT", AmountSign::Positive, 9),
    ];
    let activity = period_activity(&trades, &moves, 1, 10, 20);
    assert_eq!(activity.purchases, vec![0]);
    assert_eq!(activity.sales, vec![1]);
    assert_eq!(activity.security_transfers, vec![2]);
    assert_eq!(activity.deposits, vec![0]);
    assert_eq!(activity.withdrawals, vec![1]);
    assert_eq!(activity.cash_transfers, vec![2]);
    let labels: Vec<(&str, usize)> = activity_lines(&activity, 4)
        .iter()
        .map(|(line, count)| (activity_line_label(*line), *count))
        .collect();
    assert_eq!(
        labels,
        vec![
            ("Purchases", 1),
            ("Sales", 1),
            ("Deposits", 1),
            ("Withdrawals", 1),
            ("Cash transfers", 1),
            ("Security transfers", 1),
            ("Dividend distributions", 4),
        ]
    );
    assert!(activity_lines(&period_activity(&[], &[], 1, 0, 9), 0).is_empty());
}

#[test]
fn the_amount_of_a_line_is_whole_or_unknown() {
    let mut trades = vec![trade(1, "A", "BUY", 10), trade(1, "A", "BUY", 20)];
    trades[0].currency = "CAD".to_owned();
    let fx = vec![PricePoint { timestamp: 15, positive: true }];
    let places = period_activity(&trades, &[], 1, 0, 30).purchases;
    let by_rate = Conversion::Multiply(Rate::Historical(0));
    let line = value_trades(&places, &trades, "CAD", Some(&fx), None);
    assert!(line == Some(vec![Conversion::Same, by_rate]));
    assert!(value_trades(&places, &trades, "CAD", None, None).is_none());
    assert!(value_trades(&vec![0], &trades, "CAD", None, None).is_some());
}

#[test]
fn the_cash_at_the_end_is_added_up() {
    let moves = vec![
        cash(1, "DEPOSIT", AmountSign::Positive, 10),
        cash(2, "DEPOSIT", AmountSign::Positive, 10),
        cash(1, "TRADE", AmountSign::Negative, 20),
    ];
    assert_eq!(ending_cash(&moves, 1, ReportPeriod::Year(1970), 15), Some(vec![0]));
    assert_eq!(ending_cash(&moves, 1, ReportPeriod::Year(1970), 20), Some(vec![0, 2]));
    assert_eq!(ending_cash(&moves, 1, ReportPeriod::Ytd, 20), None);
}

#[test]
fn metrics_are_shown_where_they_are_known() {
    let amounts = ReportAmounts {
        ending_value: ("150.00", false),
        market: ("100.00", false),
        cash: ("50.00", true),
        basis: ("80.00", false),
        unrealized: ("20.00", false),
        realized: None,
        dividends: ("1.00", false),
    };
    let holding = |priced: bool, currency: &str| ReportHolding {
        priced,
        currency: currency.to_owned(),
    };
    let paid = vec![Some(Conversion::Same)];
    let held = vec![holding(true, "CAD"), holding(true, "USD")];
    let values = value_holdings(&held, "CAD", None, 9, Some(true));
    assert!(values[1].market == Some(Conversion::Multiply(Rate::Current)));
    let full = portfolio_metrics(&amounts, &values, &paid, "CAD");
    let values: Vec<&str> = full.iter().map(|metric| metric.value.as_str()).collect();
    assert_eq!(
        values,
        vec!["C$150.00", "C$100.00", "C$-50.00", "C$80.00", "+C$20.00", "—", "C$1.00", "2"]
    );
    assert_eq!(full[4].label, "Unrealized gain / loss");
    let held = vec![holding(true, "CAD"), holding(false, "CAD")];
    let values = value_holdings(&held, "CAD", None, 9, None);
    let partial = portfolio_metrics(&amounts, &values, &vec![Some(Conversion::Same), None], "CAD");
    assert_eq!(partial[0].value, "—");
    assert_eq!(partial[1].value, "—");
    assert_eq!(partial[3].value, "C$80.00");
    assert_eq!(partial[4].value, "—");
    assert_eq!(partial[6].value, "—");
    let values = value_holdings(&vec![holding(true, "XYZ")], "CAD", None, 9, Some(true));
    let strange = portfolio_metrics(&amounts, &values, &vec![], "CAD");
    assert_eq!(strange[0].value, "—");
    assert_eq!(strange[3].value, "—");
    assert_eq!(strange[6].value, "C$1.00");
    assert_eq!(strange[7].value, "1");
}

#[test]
fn dividends_are_reported_by_month_and_source() {
    let events: Vec<DividendEvent> = [10, 20, 30]
        .iter()
        .map(|time| DividendEvent { timestamp: *time, currency: String::new(), positive: true })
        .collect();
    assert_eq!(distributions_within(&events, 10, 20), vec![0, 1]);
    assert_eq!(rows_in_time(&vec![30, 10, 10]), vec![1, 2, 0]);
    let times = vec![40 * DAY, 5 * DAY, 45 * DAY];
    assert_eq!(dividend_months(&times).len(), 2);
    assert!(month_is_complete(&times, &vec![true, false, true], 2));
    assert!(!month_is_complete(&times, &vec![true, false, true], 1));
    let sources = vec!["B".to_owned(), "A".to_owned(), "B".to_owned()];
    assert_eq!(payers(&sources), vec!["A", "B"]);
    assert!(!source_is_complete(&sources, &vec![true, true, false], "B"));
    assert!(source_is_complete(&sources, &vec![true, true, false], "A"));
    let same = Some(Conversion::Same);
    assert_eq!(dividend_total_text(("5.00", false), &vec![same, same], "CAD"), "C$5.00");
    assert_eq!(dividend_total_text(("5.00", false), &vec![same, None], "CAD"), "—");
    assert_eq!(dividend_total_text(("0.00", false), &vec![], "CAD"), "C$0.00");
}

#[test]
fn symbols_are_named_once_and_in_order() {
    let trades = vec![
        trade(1, "vfv.to", "BUY", 1),
        trade(1, "AAPL", "BUY", 1),
        trade(1, "VFV.TO", "SELL", 1),
        trade(2, "MSFT", "BUY", 1),
        trade(1, " ", "BUY", 1),
    ];
    assert_eq!(history_symbols(&trades)[..3], ["VFV.TO", "AAPL", "MSFT"]);
    assert_eq!(report_symbols(&trades, 2), vec!["MSFT"]);
    assert!(traded_symbols(&trades, 1).contains(&"VFV.TO".to_owned()));
    let mut list = vec!["A".to_owned(), "C".to_owned()];
    insert_sorted(&mut list, "B".to_owned());
    insert_sorted(&mut list, "B".to_owned());
    assert_eq!(list, vec!["A", "B", "C"]);
}

#[test]
fn a_holding_is_found_by_account_and_symbol() {
    let positions =
        [position(2, "VFV.TO", true), position(1, "XEQT.TO", true), position(1, "VFV.TO", true)];
    assert_eq!(find_holding(&positions, 1, "vfv.to"), Some(2));
    assert_eq!(find_holding(&positions, 2, "VFV.TO"), Some(0));
    assert_eq!(find_holding(&positions, 2, "XEQT.TO"), None);
}

#[test]
fn a_slug_is_its_own_slug() {
    for name in ["  My TFSA (2024)! ", "--", "ÉPARGNE", "a - B"] {
        let slug = report_filename_slug(name);
        assert_eq!(report_filename_slug(&slug), slug);
        assert!(!slug.chars().any(|c| c.is_ascii_uppercase()));
    }
    assert_eq!(report_filename_slug("  My TFSA (2024)! "), "my-tfsa-2024");
}
