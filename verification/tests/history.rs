//! Prices, rates and the value of a portfolio over time.

use aureus::charts::{
    announces_failure, chart_message, fetches_rates, history_currency, history_needs_fx,
    history_summary, load_end_status, portfolio_chart_content, portfolio_refresh_message,
    visible_window, ChartContent, HistoryLoader, LoadEnd, Repaint,
};
use aureus::history::{build_portfolio_value_points, value_instant, HoldingValue};
use aureus::ledger::trades_in_order;
use aureus::model::{AmountSign, CashEntry, PricePoint, SplitEvent, Transaction};
use aureus::rates::{
    convert_dated, every_conversion, find_history, historical_close_at, historical_fx_at,
    history_convert_at, report_convert_at, sum_converted, sum_optional_converted,
    transaction_price_at, value_holding_at, Conversion, PriceSource, Rate, SecurityHistory,
};
use aureus::session::{
    history_range_change_suffix, history_range_unavailable_label,
    normalize_one_day_activity_to_session_start, portfolio_one_day_investment_return,
    portfolio_range_investment_return, value_flows, value_session, ExternalFlow, HistoryRange,
};

const DAY: i64 = 86_400;

fn trade(id: i64, kind: &str, date: &str, timestamp: i64) -> Transaction {
    Transaction {
        id,
        account_id: 1,
        account_name: "TFSA".to_owned(),
        code: "A".to_owned(),
        name: "A".to_owned(),
        provider_symbol: "A".to_owned(),
        transaction_type: kind.to_owned(),
        trade_date: date.to_owned(),
        timestamp,
        currency: "USD".to_owned(),
        settle_cash: false,
        priced: true,
    }
}

fn cash(id: i64, kind: &str, occurred_at: i64) -> CashEntry {
    CashEntry {
        id,
        account_id: 1,
        kind: kind.to_owned(),
        description: String::new(),
        currency: "CAD".to_owned(),
        occurred_at,
        sign: AmountSign::Positive,
    }
}

fn split(timestamp: i64) -> SplitEvent {
    SplitEvent { provider_symbol: "A".to_owned(), timestamp }
}

fn points(times: &[i64]) -> Vec<PricePoint> {
    times.iter().map(|time| PricePoint { timestamp: *time, positive: true }).collect()
}

#[test]
fn the_last_known_price_counts() {
    let history = points(&[10, 20, 30]);
    assert_eq!(historical_close_at(Some(&history), 9), None);
    assert_eq!(historical_close_at(Some(&history), 20), Some(1));
    assert_eq!(historical_close_at(Some(&history), 29), Some(1));
    assert_eq!(historical_fx_at(Some(&history), 99), Some(2));
    assert_eq!(historical_close_at(None, 99), None);
    assert_eq!(historical_close_at(Some(&[]), 99), None);
}

#[test]
fn the_last_trade_with_a_price_counts() {
    let mut trades = vec![trade(1, "BUY", "", 10), trade(2, "BUY", "", 20)];
    trades[1].priced = false;
    assert_eq!(transaction_price_at(&trades, &vec![0, 1], "a", 30), Some(0));
    assert_eq!(transaction_price_at(&trades, &vec![0, 1], "A", 9), None);
    assert_eq!(transaction_price_at(&trades, &vec![0, 1], "B", 30), None);
    trades[1].priced = true;
    assert_eq!(transaction_price_at(&trades, &vec![0, 1], "A", 30), Some(1));
    assert_eq!(transaction_price_at(&trades, &vec![1, 0], "A", 30), Some(0));
}

#[test]
fn conversions_go_both_ways() {
    let fx = points(&[10]);
    let rate = Rate::Historical(0);
    assert!(report_convert_at("usd", "CAD", Some(&fx), 10, None) == Some(Conversion::Multiply(rate)));
    assert!(report_convert_at("CAD", "USD", Some(&fx), 10, None) == Some(Conversion::Divide(rate)));
    assert!(report_convert_at("cad", "CAD", None, 10, None) == Some(Conversion::Same));
    assert!(report_convert_at("EUR", "CAD", Some(&fx), 10, None).is_none());
    assert!(
        report_convert_at("USD", "CAD", Some(&fx), 9, Some(true))
            == Some(Conversion::Multiply(Rate::Current))
    );
    assert!(report_convert_at("USD", "CAD", Some(&fx), 9, None).is_none());
    assert!(report_convert_at("CAD", "USD", None, 9, Some(false)).is_none());
}

#[test]
fn charts_convert_by_exact_names() {
    let fx = points(&[10]);
    assert!(history_convert_at("usd", "CAD", Some(&fx), 10).is_none());
    assert!(
        history_convert_at("USD", "CAD", Some(&fx), 10)
            == Some(Conversion::Multiply(Rate::Historical(0)))
    );
    assert!(history_convert_at("EUR", "EUR", None, 10) == Some(Conversion::Same));
}

#[test]
fn holdings_are_valued_by_closing_prices() {
    let trades = vec![trade(1, "BUY", "", 10)];
    let order = vec![0];
    let closes = points(&[20]);
    let fx = points(&[5]);
    let value = |history: Option<&[PricePoint]>, time: i64| {
        value_holding_at(history, &trades, &order, "A", time, "USD", "CAD", Some(&fx))
    };
    let converted = Conversion::Multiply(Rate::Historical(0));
    assert!(value(Some(&closes), 20) == Some((PriceSource::Close(0), converted)));
    assert!(value(Some(&closes), 15) == Some((PriceSource::Trade(0), converted)));
    assert!(value(None, 20).is_none());
    assert!(value(Some(&closes), 9).is_none());
}

#[test]
fn a_chart_takes_every_instant_once() {
    let trades = vec![trade(1, "BUY", "", 10), trade(2, "SELL", "", 40)];
    let moves = vec![cash(2, "DEPOSIT", 20), cash(1, "DEPOSIT", 20)];
    let histories = vec![points(&[5, 15, 25]), points(&[15, 60])];
    let plan =
        build_portfolio_value_points(&trades, &moves, &[split(15)], &histories, 0, Some(50), 99)
            .unwrap();
    assert_eq!(plan.instants, vec![10, 15, 20, 25, 40, 50]);
    assert_eq!(plan.share_events, vec![0, 2, 1]);
    assert_eq!(plan.share_counts, vec![1, 2, 2, 2, 3, 3]);
    assert_eq!(plan.cash_events, vec![1, 0]);
    assert_eq!(plan.cash_counts, vec![0, 0, 2, 2, 2, 2]);
    assert_eq!(plan.holdings.len(), 1);
    assert_eq!(plan.holdings[0].places, vec![0, 1, 2]);
    assert_eq!(plan.balances.len(), 1);
}

fn prices(symbol: &str, times: &[i64]) -> SecurityHistory {
    SecurityHistory { symbol: symbol.to_owned(), points: points(times) }
}

#[test]
fn an_instant_is_kept_where_all_of_it_is_known() {
    let mut trades = vec![trade(1, "BUY", "", 10), trade(2, "BUY", "", 30)];
    trades[1].provider_symbol = "b".to_owned();
    let mut moves = vec![cash(1, "DEPOSIT", 20)];
    let closes = vec![points(&[15])];
    let plan =
        build_portfolio_value_points(&trades, &moves, &[], &closes, 0, Some(40), 40).unwrap();
    assert_eq!(plan.instants, vec![10, 15, 20, 30, 40]);
    let order = trades_in_order(&trades);
    let fx = points(&[5]);
    let both = vec![prices("A", &[15]), prices("B", &[50])];
    let multiplied = Conversion::Multiply(Rate::Historical(0));

    let first = value_instant(
        &plan, &trades, &order, &moves, &both, Some(&fx), "CAD", 0, &vec![true, false],
    )
    .unwrap();
    let by_trade =
        HoldingValue { history: 0, price: PriceSource::Trade(0), conversion: multiplied };
    assert!(first.holdings == vec![Some(by_trade), None]);
    assert!(first.balances == vec![None]);

    let last = value_instant(
        &plan, &trades, &order, &moves, &both, Some(&fx), "CAD", 4, &vec![true, true],
    )
    .unwrap();
    let by_close =
        HoldingValue { history: 0, price: PriceSource::Close(0), conversion: multiplied };
    let other = HoldingValue { history: 1, price: PriceSource::Trade(1), conversion: multiplied };
    assert!(last.holdings == vec![Some(by_close), Some(other)]);
    assert!(last.balances == vec![Some(Conversion::Same)]);

    let one = vec![prices("A", &[15])];
    let known = |histories: &Vec<SecurityHistory>, fx: Option<&[PricePoint]>, held: Vec<bool>| {
        value_instant(&plan, &trades, &order, &moves, histories, fx, "CAD", 4, &held).is_some()
    };
    assert!(!known(&one, Some(&fx), vec![true, true]));
    assert!(known(&one, Some(&fx), vec![true, false]));
    assert!(!known(&both, None, vec![true, false]));
    assert!(known(&both, None, vec![false, false]));
    moves[0].currency = "XYZ".to_owned();
    let strange = value_instant(
        &plan, &trades, &order, &moves, &both, Some(&fx), "CAD", 4, &vec![false, false],
    );
    assert!(strange.is_none());
    let before = value_instant(
        &plan, &trades, &order, &moves, &both, Some(&fx), "CAD", 1, &vec![false, false],
    );
    assert!(before.is_some());
}

#[test]
fn a_sum_is_whole_or_unknown() {
    let same = Some(Conversion::Same);
    assert!(every_conversion(&vec![same, same]) == Some(vec![Conversion::Same; 2]));
    assert!(every_conversion(&vec![same, None, same]).is_none());
    assert!(every_conversion(&vec![]) == Some(vec![]));
    let both = vec!["CAD".to_owned(), "usd".to_owned()];
    let sum = sum_converted(&both, "CAD", Some(true));
    assert!(sum == Some(vec![Conversion::Same, Conversion::Multiply(Rate::Current)]));
    assert!(sum_converted(&both, "CAD", None).is_none());
    assert!(sum_converted(&both, "USD", Some(false)).is_none());
    assert!(sum_optional_converted(&vec![true, true], &both, "CAD", Some(true)) == sum);
    assert!(sum_optional_converted(&vec![false, true], &both, "CAD", Some(true)).is_none());
    let fx = points(&[5]);
    let dated = convert_dated(&vec![4, 5], &both, "CAD", Some(&fx), None);
    assert!(dated == vec![same, Some(Conversion::Multiply(Rate::Historical(0)))]);
    assert!(convert_dated(&vec![4, 4], &both, "CAD", Some(&fx), None)[1].is_none());
}

#[test]
fn the_own_currency_needs_no_rate() {
    assert!(report_convert_at("cad", "CAD", None, 5, None) == Some(Conversion::Same));
    assert!(report_convert_at("USD", "CAD", None, 5, None).is_none());
    assert!(history_convert_at("CAD", "CAD", None, 5) == Some(Conversion::Same));
    assert!(history_convert_at("cad", "CAD", None, 5).is_none());
}

#[test]
fn the_first_history_of_a_symbol_counts() {
    let histories = vec![prices("A", &[1]), prices("B", &[2]), prices("B", &[3])];
    assert_eq!(find_history(&histories, "B"), Some(1));
    assert_eq!(find_history(&histories, "b"), None);
}

#[test]
fn a_session_is_valued_where_all_of_it_is_known() {
    let start = 19_783 * DAY + 52_200;
    let end = start + 23_400;
    let trades = vec![
        trade(1, "BUY", "2024-02-29", 19_782 * DAY),
        trade(2, "BUY", "2024-03-01", 19_783 * DAY),
    ];
    let mut moves = vec![cash(1, "DEPOSIT", 19_782 * DAY), cash(2, "DEPOSIT", 19_783 * DAY)];
    let plan = portfolio_one_day_investment_return(&trades, &moves, &[], start, end).unwrap();
    let closes = vec![prices("A", &[start - 60, start + 60])];
    let fx = points(&[start, end]);
    let value = value_session(
        &plan, &trades, &moves, &closes, Some(&fx), "CAD", start, end, &vec![true],
    )
    .unwrap();
    let security = value.holdings[0].unwrap();
    assert_eq!((security.history, security.opening_close, security.closing_close), (0, 0, 1));
    assert!(security.opening_conversion == Conversion::Multiply(Rate::Historical(0)));
    assert!(security.closing_conversion == Conversion::Multiply(Rate::Historical(1)));
    assert!(value.opening_balances == vec![Conversion::Same]);
    assert!(value.closing_balances == vec![Conversion::Same]);
    assert!(value.deposits == vec![Conversion::Same]);
    assert!(value.flows == vec![Conversion::Multiply(Rate::Historical(0))]);

    let known = |closes: &Vec<SecurityHistory>, fx: Option<&[PricePoint]>, held: bool| {
        value_session(&plan, &trades, &moves, closes, fx, "CAD", start, end, &vec![held]).is_some()
    };
    assert!(!known(&vec![], Some(&fx), true));
    assert!(known(&vec![], Some(&fx), false));
    assert!(!known(&vec![prices("A", &[start + 1])], Some(&fx), true));
    assert!(!known(&closes, None, false));
    assert!(!known(&closes, Some(&points(&[end])), true));
    moves[1].currency = "XYZ".to_owned();
    let plan = portfolio_one_day_investment_return(&trades, &moves, &[], start, end).unwrap();
    let strange = value_session(
        &plan, &trades, &moves, &closes, Some(&fx), "CAD", start, end, &vec![true],
    );
    assert!(strange.is_none());
}

#[test]
fn flows_are_converted_at_their_own_times() {
    let trades = vec![trade(1, "BUY", "", 20)];
    let mut moves = vec![cash(1, "DEPOSIT", 15)];
    moves[0].currency = "usd".to_owned();
    let range = portfolio_range_investment_return(&points(&[10, 30]), &trades, &moves).unwrap();
    let fx = points(&[12, 18]);
    let values = value_flows(&range, &trades, &moves, Some(&fx), "CAD").unwrap();
    assert!(values.deposits == vec![Conversion::Multiply(Rate::Historical(0))]);
    assert!(values.flows == vec![Conversion::Multiply(Rate::Historical(1))]);
    assert!(value_flows(&range, &trades, &moves, Some(&points(&[16])), "CAD").is_none());
    assert!(value_flows(&range, &trades, &moves, None, "USD").is_some());
}

#[test]
fn counts_never_fall_along_a_chart() {
    let trades = vec![trade(1, "BUY", "", 10), trade(2, "SELL", "", 10), trade(3, "BUY", "", 30)];
    let plan = build_portfolio_value_points(
        &trades,
        &[cash(1, "DEPOSIT", 20)],
        &[],
        &vec![points(&[12, 24, 36])],
        0,
        None,
        48,
    )
    .unwrap();
    assert!(plan.share_counts.windows(2).all(|pair| pair[0] <= pair[1]));
    assert!(plan.cash_counts.windows(2).all(|pair| pair[0] <= pair[1]));
    assert_eq!((plan.instants[0], plan.instants[plan.instants.len() - 1]), (10, 48));
}

#[test]
fn a_short_chart_still_counts_earlier_events() {
    let trades = vec![trade(1, "BUY", "", 10), trade(2, "BUY", "", 30)];
    let plan =
        build_portfolio_value_points(&trades, &[], &[split(20)], &vec![], 40, Some(50), 99).unwrap();
    assert_eq!((plan.first_visible, plan.last_visible), (40, 50));
    assert_eq!(plan.instants, vec![40, 50]);
    assert_eq!(plan.share_events, vec![0, 2, 1]);
    assert_eq!(plan.share_counts, vec![3, 3]);
    let late = build_portfolio_value_points(&trades, &[], &[], &vec![], 5, Some(7), 99).unwrap();
    assert_eq!((late.first_visible, late.last_visible), (10, 10));
    assert!(build_portfolio_value_points(&[], &[], &[split(1)], &vec![], 0, None, 9).is_none());
}

#[test]
fn ranges_have_words() {
    assert_eq!(history_range_change_suffix(HistoryRange::ThreeMonths), "over 3 months");
    assert_eq!(history_range_unavailable_label(HistoryRange::OneDay), "Today's change unavailable");
}

#[test]
fn activity_of_the_day_follows_the_opening() {
    let start = 19_783 * DAY + 52_200;
    let end = start + 23_400;
    let trades =
        vec![trade(1, "BUY", "2024-03-01", 19_783 * DAY), trade(2, "BUY", "2024-02-29", 19_782 * DAY)];
    let moves = vec![cash(1, "DEPOSIT", 19_783 * DAY), cash(2, "DEPOSIT", 19_784 * DAY)];
    let (trade_times, cash_times) =
        normalize_one_day_activity_to_session_start(&trades, &moves, start, Some(end));
    assert_eq!(trade_times, vec![start + 1, 19_782 * DAY]);
    assert_eq!(cash_times, vec![start + 1, 19_784 * DAY]);
    let (kept, _) = normalize_one_day_activity_to_session_start(&trades, &moves, start, None);
    assert_eq!(kept, vec![19_783 * DAY, 19_782 * DAY]);
    let (over_night, _) =
        normalize_one_day_activity_to_session_start(&trades, &moves, start, Some(end + DAY));
    assert_eq!(over_night, vec![19_783 * DAY, 19_782 * DAY]);
}

#[test]
fn a_session_is_laid_out() {
    let start = 19_783 * DAY + 52_200;
    let end = start + 23_400;
    let mut trades = vec![
        trade(4, "SELL", "2024-03-01", 19_783 * DAY),
        trade(3, "BUY", "2024-03-01", 19_783 * DAY),
        trade(2, "TRANSFER_IN", "2024-03-01", 19_783 * DAY),
        trade(1, "BUY", "2024-02-29", 19_783 * DAY + 1),
    ];
    trades[1].settle_cash = true;
    let moves = vec![
        cash(1, "DEPOSIT", 19_782 * DAY),
        cash(2, "DEPOSIT", 19_783 * DAY + 80_000),
        cash(3, "DIVIDEND", 19_783 * DAY),
        cash(4, "DEPOSIT", 19_784 * DAY),
    ];
    let splits = vec![split(start - 1), split(start), split(end + 1)];
    let plan = portfolio_one_day_investment_return(&trades, &moves, &splits, start, end).unwrap();
    assert_eq!(plan.opening_events, vec![3]);
    assert_eq!(plan.session_splits, vec![0, 1]);
    assert_eq!(plan.session_trades, vec![2, 1, 0]);
    assert_eq!(plan.opening_cash, vec![0]);
    assert_eq!(plan.closing_cash, vec![0, 1, 2]);
    assert_eq!(plan.deposits, vec![1]);
    assert!(plan.flows == vec![ExternalFlow::Withdrawal(0)]);
    assert_eq!(plan.events, vec![3, 4, 5, 2, 1, 0]);
    assert_eq!(plan.holdings.len(), 1);
    assert_eq!(plan.holdings[0].places, vec![0, 1, 2, 3, 4, 5]);
    assert_eq!(plan.opening_balances.len(), 1);
    assert_eq!(plan.closing_balances[0].places, vec![0, 1, 2]);
    assert!(portfolio_one_day_investment_return(&trades, &moves, &splits, end, end).is_none());
}

#[test]
fn a_split_of_the_day_counts_once() {
    let start = 19_783 * DAY + 52_200;
    let trades = vec![trade(1, "BUY", "2024-02-29", 19_782 * DAY)];
    for time in [19_783 * DAY, start - 1, start, start + 60] {
        let splits = vec![split(time)];
        let plan =
            portfolio_one_day_investment_return(&trades, &[], &splits, start, start + 60).unwrap();
        assert_eq!(plan.opening_events, vec![0]);
        assert_eq!(plan.session_splits, vec![0]);
        assert_eq!(plan.holdings[0].places, vec![0, 1]);
    }
    let earlier = vec![split(19_783 * DAY - 1)];
    let plan =
        portfolio_one_day_investment_return(&trades, &[], &earlier, start, start + 60).unwrap();
    assert_eq!(plan.opening_events, vec![0, 1]);
    assert!(plan.session_splits.is_empty());
    let late = vec![split(start + 61)];
    let plan = portfolio_one_day_investment_return(&trades, &[], &late, start, start + 60).unwrap();
    assert_eq!(plan.events, vec![0]);
}

#[test]
fn a_session_is_parted_by_security_and_by_balance() {
    let start = 19_783 * DAY + 52_200;
    let mut trades = vec![
        trade(1, "BUY", "2024-02-29", 19_782 * DAY),
        trade(2, "BUY", "2024-02-29", 19_782 * DAY),
        trade(3, "BUY", "2024-03-01", 19_783 * DAY),
    ];
    trades[1].account_id += 1;
    trades[2].provider_symbol = "OTHER".to_owned();
    let mut moves = vec![
        cash(1, "DEPOSIT", 19_782 * DAY),
        cash(2, "DEPOSIT", 19_783 * DAY),
        cash(3, "DEPOSIT", 19_783 * DAY),
    ];
    moves[2].currency = "XYZ".to_owned();
    let plan =
        portfolio_one_day_investment_return(&trades, &moves, &[], start, start + 60).unwrap();
    let places: Vec<Vec<usize>> = plan.holdings.iter().map(|plan| plan.places.clone()).collect();
    assert_eq!(places, vec![vec![0, 1], vec![2]]);
    let opening: Vec<Vec<usize>> =
        plan.opening_balances.iter().map(|plan| plan.places.clone()).collect();
    assert_eq!(opening, vec![vec![0]]);
    let closing: Vec<Vec<usize>> =
        plan.closing_balances.iter().map(|plan| plan.places.clone()).collect();
    assert_eq!(closing, vec![vec![0, 1], vec![2]]);
}

#[test]
fn how_a_purchase_is_paid_changes_no_events() {
    let start = 19_783 * DAY + 52_200;
    let mut trades = vec![trade(1, "BUY", "2024-03-01", 19_783 * DAY)];
    let outside =
        portfolio_one_day_investment_return(&trades, &[], &[], start, start + 60).unwrap();
    trades[0].settle_cash = true;
    let moves = vec![cash(1, "TRADE", 19_783 * DAY)];
    let inside =
        portfolio_one_day_investment_return(&trades, &moves, &[], start, start + 60).unwrap();
    assert_eq!(outside.events, inside.events);
    assert!(outside.flows == vec![ExternalFlow::Contribution(0)]);
    assert!(inside.flows.is_empty());
    assert_eq!(inside.closing_cash, vec![0]);
    assert!(inside.opening_cash.is_empty());
    assert!(inside.deposits.is_empty());
}

#[test]
fn the_value_does_not_depend_on_the_start() {
    let trades = vec![trade(1, "BUY", "", 10), trade(2, "BUY", "", 20), trade(3, "SELL", "", 30)];
    let prices = vec![points(&[15, 25, 35])];
    let plan = |minimum| {
        build_portfolio_value_points(&trades, &[], &[], &prices, minimum, Some(40), 40).unwrap()
    };
    let (early, late) = (plan(5), plan(22));
    assert_eq!(late.instants, vec![22, 25, 30, 35, 40]);
    assert_eq!(early.share_events, late.share_events);
    for (at, time) in late.instants.iter().enumerate().skip(1) {
        let same = early.instants.iter().position(|other| other == time).unwrap();
        assert_eq!(early.share_counts[same], late.share_counts[at]);
    }
}

#[test]
fn flows_lie_between_the_points() {
    let mut trades = vec![trade(1, "BUY", "", 10), trade(2, "SELL", "", 20), trade(3, "OPEN", "", 30)];
    let moves = vec![cash(1, "DEPOSIT", 11), cash(2, "DIVIDEND", 12), cash(3, "DEPOSIT", 31)];
    let range = portfolio_range_investment_return(&points(&[10, 25, 30]), &trades, &moves).unwrap();
    assert_eq!(range.deposits, vec![0]);
    assert!(range.flows == vec![ExternalFlow::Withdrawal(1), ExternalFlow::Contribution(2)]);
    trades[1].settle_cash = true;
    trades[2].transaction_type = "TRANSFER_IN".to_owned();
    let inner = portfolio_range_investment_return(&points(&[10, 30]), &trades, &moves).unwrap();
    assert!(inner.flows.is_empty());
    assert!(portfolio_range_investment_return(&points(&[10]), &trades, &moves).is_none());
    assert!(portfolio_range_investment_return(&[], &trades, &moves).is_none());
}

#[test]
fn the_day_chart_lies_in_every_session() {
    let histories = vec![points(&[100, 150, 200]), points(&[]), points(&[110, 190])];
    let fx = points(&[90, 180]);
    let window = visible_window(HistoryRange::OneDay, 0, 500, &histories, Some(&fx));
    assert_eq!(window, (110, Some(190)));
    let rates_only = visible_window(HistoryRange::OneDay, 0, 500, &vec![], Some(&fx));
    assert_eq!(rates_only, (90, Some(180)));
    assert_eq!(visible_window(HistoryRange::OneDay, 0, DAY, &vec![], None), (0, None));
    let (month, open) = visible_window(HistoryRange::OneMonth, 42, 500, &histories, None);
    assert_eq!((month, open), (42, None));
}

#[test]
fn chart_contents_are_told() {
    assert!(portfolio_chart_content(0, 0, 5, 0, false) == ChartContent::NoActivity);
    assert!(portfolio_chart_content(1, 0, 2, 3, true) == ChartContent::Points);
    assert!(portfolio_chart_content(1, 0, 1, 1, false) == ChartContent::Loading);
    assert!(portfolio_chart_content(0, 1, 0, 0, true) == ChartContent::Loading);
    assert!(portfolio_chart_content(0, 1, 1, 0, false) == ChartContent::TooShort);
    assert_eq!(chart_message(ChartContent::Points), None);
    assert_eq!(chart_message(ChartContent::Loading), Some("Loading portfolio history"));
    assert_eq!(chart_message(ChartContent::TooShort), Some("Not enough history yet"));
    assert_eq!(
        chart_message(ChartContent::NoActivity),
        Some("Add activity or cash to see portfolio history")
    );
}

#[test]
fn foreign_activity_needs_rates() {
    let trades = vec![trade(1, "BUY", "", 10)];
    assert!(history_needs_fx(&trades, &[], "CAD"));
    assert!(!history_needs_fx(&trades, &[], "USD"));
    assert!(history_needs_fx(&[], &[cash(1, "DEPOSIT", 1)], "USD"));
    assert!(!history_needs_fx(&[], &[], "USD"));
    assert!(!fetches_rates(false, HistoryRange::All, &[], true));
    assert!(fetches_rates(true, HistoryRange::All, &[], false));
    assert!(!fetches_rates(true, HistoryRange::All, &points(&[1, 2]), false));
    assert!(fetches_rates(true, HistoryRange::OneDay, &points(&[1, 2]), false));
    assert!(!fetches_rates(true, HistoryRange::OneDay, &points(&[0, 2 * DAY]), false));
}

#[test]
fn a_refresh_keeps_what_is_on_the_screen() {
    let mut loader = HistoryLoader { generation: 0 };
    let refresh = loader.start(5, true, true, false);
    assert!(refresh.repaint == Repaint::Keep);
    assert_eq!(refresh.status, Some("Refreshing history"));
    assert_eq!(refresh.request, Some(1));
    let shown = loader.start(5, false, false, false);
    assert!(shown.repaint == Repaint::Cached && shown.request.is_none() && !shown.finished);
    let empty = loader.start(1, false, false, true);
    assert!(empty.repaint == Repaint::Loading && empty.request == Some(3));
}

#[test]
fn a_later_choice_supersedes_an_earlier_one() {
    let mut loader = HistoryLoader { generation: 7 };
    let first = loader.start(0, false, true, false).request.unwrap();
    let second = loader.start(0, false, true, false).request.unwrap();
    assert!(loader.finish(first, true, true) == LoadEnd::Superseded);
    assert!(loader.finish(second, true, false) == LoadEnd::Fresh);
    assert!(loader.finish(second, false, true) == LoadEnd::KeepCached);
    assert!(loader.finish(second, false, false) == LoadEnd::Unavailable);
    assert!(announces_failure(LoadEnd::KeepCached, true));
    assert!(!announces_failure(LoadEnd::KeepCached, false));
    assert!(!announces_failure(LoadEnd::Superseded, true));
    assert_eq!(load_end_status(LoadEnd::Superseded), None);
    assert_eq!(load_end_status(LoadEnd::Fresh), Some("Updated just now"));
    assert_eq!(
        load_end_status(LoadEnd::KeepCached),
        Some("Update failed · showing cached history")
    );
}

#[test]
fn the_currency_of_a_history_may_be_missing() {
    assert_eq!(history_currency(Some("EUR"), "CAD"), "EUR");
    assert_eq!(history_currency(Some(" "), "CAD"), "CAD");
    assert_eq!(history_currency(None, "CAD"), "CAD");
}

#[test]
fn histories_are_summed_up() {
    let none = history_summary(0, HistoryRange::OneWeek, "1W", "+1.00", None);
    assert!(none.dimmed);
    assert_eq!(none.high_low, "No history available");
    assert_eq!(none.change, "This week's change unavailable");
    let some = history_summary(2, HistoryRange::OneWeek, "1W", "+1.00", Some(("US$1.00", "US$2.00")));
    assert!(!some.dimmed);
    assert_eq!(some.change, "+1.00% this week");
    assert_eq!(some.range_return, "+1.00% over 1W");
    assert_eq!(some.high_low, "Low US$1.00 · High US$2.00 · 2 points");
    let unbounded = history_summary(3, HistoryRange::All, "All", "-2.50", None);
    assert_eq!(unbounded.high_low, "3 points");
    assert_eq!(unbounded.change, "-2.50% all time");
}

#[test]
fn refreshes_of_the_chart_are_announced() {
    assert_eq!(portfolio_refresh_message(false, 3, 0, false), None);
    assert_eq!(portfolio_refresh_message(true, 0, 2, false), None);
    assert_eq!(
        portfolio_refresh_message(true, 3, 0, false),
        Some("Could not refresh portfolio history")
    );
    assert_eq!(
        portfolio_refresh_message(true, 1, 2, false),
        Some("Some portfolio history could not be updated")
    );
}
