//! Distributions: what was paid, and what is expected.

use aureus::dividends::{
    distribution_subtitle, distribution_title, distribution_value, dividend_chart_message,
    dividend_income_text, dividend_period_label, dividend_source, dividend_source_name,
    dividend_status_note, dividend_yield_text, forecast_month, month_buckets,
    oldest_holding_year, paid_dividends, past_distributions, period_year, recent_distributions,
    selected_dividend_period, summary_month_title, summary_months, sync_dividend_period_options,
    year_end, year_is_complete, DividendPeriod,
};
use aureus::model::{AmountSign, CashEntry, DividendEvent, Position, Transaction};
use aureus::projection::{
    estimated_future_dividend_events, event_currency, one_for_each_security, projected_currency,
    upcoming_actions, upcoming_order, upcoming_subtitle, upcoming_title, UpcomingKind,
    UpcomingSplit,
};

const DAY: i64 = 86_400;

fn event(timestamp: i64, currency: &str) -> DividendEvent {
    DividendEvent { timestamp, currency: currency.to_owned(), positive: true }
}

fn position(id: i64, code: &str, symbol: &str) -> Position {
    Position {
        id,
        account_id: 1,
        account_name: "TFSA".to_owned(),
        code: code.to_owned(),
        name: format!("{code} Inc."),
        exchange: "TOR".to_owned(),
        provider_symbol: symbol.to_owned(),
        currency: "CAD".to_owned(),
        quote_updated_at: None,
        priced: false,
    }
}

fn trade(symbol: &str, kind: &str, timestamp: i64) -> Transaction {
    Transaction {
        id: 1,
        account_id: 1,
        account_name: "TFSA".to_owned(),
        code: symbol.to_owned(),
        name: symbol.to_owned(),
        provider_symbol: symbol.to_owned(),
        transaction_type: kind.to_owned(),
        trade_date: String::new(),
        timestamp,
        currency: "CAD".to_owned(),
        settle_cash: false,
        priced: true,
    }
}

fn cash(kind: &str, occurred_at: i64) -> CashEntry {
    CashEntry {
        id: 1,
        account_id: 1,
        kind: kind.to_owned(),
        description: String::new(),
        currency: "CAD".to_owned(),
        occurred_at,
        sign: AmountSign::Positive,
    }
}

#[test]
fn estimates_keep_the_rhythm_of_the_past() {
    let events = vec![event(90 * DAY, ""), event(0, "USD")];
    let now = 100 * DAY;
    let forecast = estimated_future_dividend_events(&events, None, now, 400 * DAY);
    assert_eq!(forecast.usual, Some(0));
    let times: Vec<i64> = forecast.dividends.iter().map(|dividend| dividend.timestamp).collect();
    assert_eq!(times, vec![180 * DAY, 270 * DAY, 360 * DAY]);
    assert!(forecast.dividends.iter().all(|dividend| dividend.estimated));
    assert!(forecast.dividends.iter().all(|dividend| dividend.amount == Some(0)));
}

#[test]
fn announced_events_are_never_left_out() {
    let events = vec![event(0, ""), event(90 * DAY, ""), event(150 * DAY, ""), event(151 * DAY, "")];
    let forecast =
        estimated_future_dividend_events(&events, Some(152 * DAY), 100 * DAY, 200 * DAY);
    let listed: Vec<(i64, bool)> =
        forecast.dividends.iter().map(|dividend| (dividend.timestamp, dividend.estimated)).collect();
    assert_eq!(listed, vec![(150 * DAY, false), (151 * DAY, false)]);
    let dated = estimated_future_dividend_events(&events[..2], Some(160 * DAY), 100 * DAY, 200 * DAY);
    assert_eq!(dated.dividends.len(), 1);
    assert_eq!(dated.dividends[0].timestamp, 160 * DAY);
    assert!(!dated.dividends[0].estimated);
}

#[test]
fn forecasts_run_forward() {
    let events = vec![event(0, ""), event(30 * DAY, ""), event(100 * DAY, "")];
    let forecast = estimated_future_dividend_events(&events, Some(70 * DAY), 50 * DAY, 200 * DAY);
    assert!(forecast.dividends.windows(2).all(|pair| pair[0].timestamp <= pair[1].timestamp));
    assert!(forecast.dividends.iter().all(|d| d.timestamp > 50 * DAY && d.timestamp <= 200 * DAY));
}

#[test]
fn nothing_is_forecast_without_a_rhythm() {
    let close = vec![event(0, ""), event(10 * DAY, "")];
    assert!(estimated_future_dividend_events(&close, None, 20 * DAY, 300 * DAY).dividends.is_empty());
    let mut silent = vec![event(0, ""), event(90 * DAY, "")];
    silent[1].positive = false;
    assert!(estimated_future_dividend_events(&silent, None, 95 * DAY, 300 * DAY).dividends.is_empty());
    let over = estimated_future_dividend_events(&close, None, 20 * DAY, 20 * DAY);
    assert!(over.dividends.is_empty());
    assert_eq!(over.usual, Some(1));
}

#[test]
fn distributions_have_a_currency() {
    let events = vec![event(0, "USD"), event(90 * DAY, " ")];
    let forecast = estimated_future_dividend_events(&events, None, 95 * DAY, 200 * DAY);
    assert_eq!(projected_currency(&events, forecast.usual, &forecast.dividends[0], "CAD"), "CAD");
    assert_eq!(event_currency(&events[0], "CAD"), "USD");
    assert_eq!(event_currency(&events[1], "CAD"), "CAD");
}

#[test]
fn upcoming_actions_are_listed() {
    let events = vec![event(0, ""), event(90 * DAY, "")];
    let splits = vec![
        UpcomingSplit { timestamp: 120 * DAY, reverse: true },
        UpcomingSplit { timestamp: 95 * DAY, reverse: false },
    ];
    let now = 100 * DAY;
    let actions = upcoming_actions(&events, &splits, Some(180 * DAY), Some(190 * DAY), now);
    let order = upcoming_order(&actions);
    let times: Vec<i64> = order.iter().map(|place| actions[*place].timestamp / DAY).collect();
    assert_eq!(times, vec![120, 180, 190, 270, 280, 360, 370, 450, 460]);
    assert!(actions[order[0]].kind == UpcomingKind::ReverseSplit(0));
    assert!(actions[order[1]].kind == UpcomingKind::ExDividend);
    assert!(actions[order[2]].kind == UpcomingKind::Payment);
    assert!(actions[order[3]].kind == UpcomingKind::EstimatedExDividend);
    assert!(actions[order[4]].kind == UpcomingKind::EstimatedPayment);
    assert_eq!(upcoming_title("VFV", &actions[order[0]]), "VFV · Reverse Split");
    assert_eq!(upcoming_subtitle(&actions[order[1]]), "Ex-dividend date · Jun 30, 1970");
    assert_eq!(upcoming_subtitle(&actions[order[0]]), "May 1, 1970");
    assert_eq!(upcoming_subtitle(&actions[order[4]]), "Estimated payment · Oct 8, 1970");
}

#[test]
fn each_security_is_looked_at_once() {
    let held = vec![position(1, "A", "A.TO"), position(2, "A", "a.to"), position(3, "B", "B")];
    assert_eq!(one_for_each_security(&held), vec![0, 2]);
}

#[test]
fn no_period_is_offered_twice() {
    let menu = sync_dividend_period_options(&vec![DividendPeriod::Annual], 0, 2022, 2024);
    let options =
        vec![DividendPeriod::Annual, DividendPeriod::Year(2023), DividendPeriod::Year(2022)];
    assert_eq!(menu.options, options);
    assert!(menu.changed && menu.visible);
    assert_eq!(menu.selected, 0);
    let again = sync_dividend_period_options(&options, 2, 2022, 2024);
    assert!(!again.changed);
    assert_eq!(again.selected, 2);
    let shorter = sync_dividend_period_options(&options, 2, 2023, 2024);
    assert_eq!(shorter.selected, 0);
    let only = sync_dividend_period_options(&options, 1, 2024, 2024);
    assert_eq!(only.options, vec![DividendPeriod::Annual]);
    assert!(!only.visible);
}

#[test]
fn periods_have_names_and_years() {
    let options = vec![DividendPeriod::Annual, DividendPeriod::Year(2023)];
    assert_eq!(selected_dividend_period(&options, 1), DividendPeriod::Year(2023));
    assert_eq!(selected_dividend_period(&options, 7), DividendPeriod::Annual);
    assert_eq!(dividend_period_label(DividendPeriod::Annual), "Annual");
    assert_eq!(dividend_period_label(DividendPeriod::Year(2023)), "2023");
    assert_eq!(period_year(DividendPeriod::Annual, 2024), 2024);
    assert_eq!(period_year(DividendPeriod::Year(2023), 2024), 2023);
}

#[test]
fn the_oldest_year_is_that_of_a_held_security() {
    let held = vec![position(1, "A", "A.TO")];
    let trades = vec![
        trade("a.to", "BUY", 20_000 * DAY),
        trade("A.TO", "SELL", 1 * DAY),
        trade("B", "BUY", 2 * DAY),
        trade("A.TO", "OPEN", 19_000 * DAY),
    ];
    assert_eq!(oldest_holding_year(&trades, &held, 2026), 2022);
    assert_eq!(oldest_holding_year(&trades, &[], 2026), 2026);
}

#[test]
fn a_year_ends_with_its_last_second() {
    assert_eq!(year_end(1970, 5), 365 * DAY - 1);
    assert_eq!(year_end(-5, 5), 5 + DAY - 1);
    assert_eq!(forecast_month(40 * DAY, 1970), Some(2));
    assert_eq!(forecast_month(40 * DAY, 1971), None);
}

#[test]
fn a_year_is_complete_where_its_distributions_convert() {
    let received = vec![10 * DAY, 400 * DAY];
    let forecast = vec![500 * DAY];
    let cad = vec!["CAD".to_owned(), "CAD".to_owned()];
    let mixed = vec!["XYZ".to_owned(), "CAD".to_owned()];
    let usd = vec!["USD".to_owned()];
    let complete = |currencies: &Vec<String>, year: i32, current: Option<bool>| {
        year_is_complete(&received, currencies, &forecast, &usd, year, 1971, "CAD", current)
    };
    assert!(complete(&cad, 1971, Some(true)));
    assert!(!complete(&cad, 1971, None));
    assert!(complete(&cad, 1970, None));
    assert!(!complete(&mixed, 1970, Some(true)));
    assert!(complete(&mixed, 1971, Some(true)));
    assert!(year_is_complete(&received, &cad, &forecast, &usd, 1971, 1972, "CAD", None));
}

#[test]
fn the_page_says_what_it_knows() {
    assert_eq!(dividend_income_text("C$12.00", true, true), "C$12.00");
    assert_eq!(dividend_income_text("C$12.00", false, true), "C$12.00+");
    assert_eq!(dividend_income_text("C$0.00", false, false), "—");
    assert_eq!(dividend_yield_text(Some("3.10"), "C$1.00", true), "3.10% yield · C$1.00 avg/mo");
    assert_eq!(dividend_yield_text(None, "C$1.00", true), "— yield · C$1.00 avg/mo");
    assert_eq!(dividend_yield_text(Some("3.10"), "C$1.00", false), "— yield · —/mo");
    assert_eq!(dividend_chart_message(true, 0, 3), None);
    assert_eq!(
        dividend_chart_message(false, 3, 3),
        Some("No distributions while held in this period")
    );
    assert_eq!(dividend_chart_message(false, 2, 3), Some("Checking dividend history"));
    assert_eq!(
        dividend_status_note(DividendPeriod::Annual, 2024, 2, 2, true, true),
        "2024 · received + estimated"
    );
    assert_eq!(
        dividend_status_note(DividendPeriod::Year(2023), 2024, 1, 2, true, true),
        "Received while held · updating cached dividend data"
    );
    assert_eq!(
        dividend_status_note(DividendPeriod::Annual, 2024, 2, 2, false, false),
        "No distributions found · unsupported currencies excluded from totals"
    );
}

#[test]
fn every_distribution_stands_in_one_month() {
    let received = vec![10 * DAY, 40 * DAY, 45 * DAY, 400 * DAY];
    let forecast = vec![350 * DAY];
    let months = month_buckets(&received, &forecast, 1970, 1970);
    assert_eq!(months.len(), 12);
    assert_eq!(months[0].received, vec![0]);
    assert_eq!(months[1].received, vec![1, 2]);
    assert_eq!(months[11].forecast, vec![0]);
    let placed: usize = months.iter().map(|month| month.received.len()).sum();
    assert_eq!(placed, 3);
}

#[test]
fn years_that_are_over_hold_no_forecast() {
    let months = month_buckets(&vec![10 * DAY], &vec![350 * DAY], 1970, 1971);
    assert_eq!(months[0].received, vec![0]);
    assert!(months.iter().all(|month| month.forecast.is_empty()));
}

#[test]
fn past_distributions_come_in_order() {
    let events = vec![event(30, ""), event(10, ""), event(99, "")];
    assert_eq!(past_distributions(&events, 50), vec![1, 0]);
}

#[test]
fn recent_distributions_are_the_newest_of_the_year() {
    let times: Vec<i64> = (1..=20).map(|day| day * DAY).chain([800 * DAY]).collect();
    let recent = recent_distributions(&times, 1970);
    assert_eq!(recent.len(), 16);
    assert_eq!(recent[0], 19);
    assert_eq!(recent[15], 4);
    assert_eq!(distribution_title("VFV", 40 * DAY), "VFV · Feb 10, 1970");
    assert_eq!(distribution_subtitle("Fund", "C$0.12"), "Fund · C$0.12 per share");
    assert_eq!(distribution_value(Some("C$1.20")), "≈ C$1.20");
    assert_eq!(distribution_value(None), "Native currency");
}

#[test]
fn payments_are_told_by_source_and_month() {
    let entries = vec![cash("DIVIDEND", 5 * DAY), cash("DEPOSIT", 5 * DAY), cash("DIVIDEND", 400 * DAY)];
    assert_eq!(paid_dividends(&entries, 1970), vec![0]);
    assert_eq!(dividend_source("  vfv.to dividend"), "VFV.TO");
    assert_eq!(dividend_source("  "), "DIVIDEND");
    let held = vec![position(1, "VFV", "VFV.TO")];
    assert_eq!(dividend_source_name(&held, "vfv"), "VFV Inc. total");
    assert_eq!(dividend_source_name(&held, "X"), "Dividend source total");
    let months = summary_months(&vec![5 * DAY, 40 * DAY, 41 * DAY, 0]);
    let titles: Vec<String> = months.iter().map(|code| summary_month_title(*code)).collect();
    assert_eq!(titles, vec!["Feb 1970", "Jan 1970"]);
    let many: Vec<i64> = (0..8).map(|month| (15 + 30 * month) * DAY).collect();
    assert_eq!(summary_months(&many).len(), 4);
}
