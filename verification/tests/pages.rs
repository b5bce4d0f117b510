//! What the pages show.

use aureus::allocation::{first_free_color, security_groups, FallbackPalette};
use aureus::details::{
    account_caption, account_dividends, account_history, cached_value_text, cash_event_title,
    cash_history, cash_movement_title, day_change_text, end_dividend_load, holding_filter,
    holding_transactions, newest_dividends, position_line_label, position_lines, positions_of,
    search_price_label, security_caption, security_lines, start_dividend_load,
    trade_event_subtitle, trade_event_title, trailing_dividends, PositionLine,
};
use aureus::model::{
    Account, AmountSign, CashEntry, DividendEvent, Position, SearchResult, Transaction,
    WatchlistItem,
};
use aureus::overview::{
    account_positions, account_subtitle, cash_rows, cash_subtitle, gain_class, gain_line,
    native_line, page_sides, page_to_rebuild, position_subtitle, quote_note, shows_native_value,
    value_account, value_portfolio, Rebuild,
};
use aureus::rates::{Conversion, Rate};
use aureus::settings::{
    aureus_theme_enabled, base_currency, base_index, chosen_base, currency_at, market_status_text,
    portfolio_needs_fx, portfolio_needs_fx_with_cash, theme_setting,
};
use aureus::watchlist::{
    item_caption, star_message, watchlist_item_id_for_symbol, Star, StarReply, StarRequest,
};

const DAY: i64 = 86_400;

fn account(id: i64, currency: &str, holds_cash: bool) -> Account {
    Account { id, name: "TFSA".to_owned(), currency: currency.to_owned(), holds_cash }
}

fn position(id: i64, symbol: &str, currency: &str) -> Position {
    Position {
        id,
        account_id: id % 2,
        account_name: "TFSA".to_owned(),
        code: symbol.to_owned(),
        name: "Index".to_owned(),
        exchange: "TOR".to_owned(),
        provider_symbol: symbol.to_owned(),
        currency: currency.to_owned(),
        quote_updated_at: Some(100 * id),
        priced: true,
    }
}

fn trade(id: i64, kind: &str, timestamp: i64) -> Transaction {
    Transaction {
        id,
        account_id: 1,
        account_name: "TFSA".to_owned(),
        code: "VFV".to_owned(),
        name: "Index".to_owned(),
        provider_symbol: "VFV.TO".to_owned(),
        transaction_type: kind.to_owned(),
        trade_date: String::new(),
        timestamp,
        currency: "CAD".to_owned(),
        settle_cash: false,
        priced: true,
    }
}

fn cash(id: i64, kind: &str, description: &str, sign: AmountSign, occurred_at: i64) -> CashEntry {
    CashEntry {
        id,
        account_id: 1,
        kind: kind.to_owned(),
        description: description.to_owned(),
        currency: "CAD".to_owned(),
        occurred_at,
        sign,
    }
}

fn event(timestamp: i64) -> DividendEvent {
    DividendEvent { timestamp, currency: String::new(), positive: true }
}

#[test]
fn the_base_is_always_a_dollar() {
    assert_eq!(base_currency(Some("CAD"), &[]), "CAD");
    assert_eq!(base_currency(Some("EUR"), &[account(1, "CAD", true)]), "CAD");
    assert_eq!(base_currency(None, &[account(1, "EUR", true)]), "USD");
    assert_eq!(base_currency(None, &[]), "USD");
    for base in ["CAD", "USD"] {
        assert_eq!(currency_at(base_index(base)), base);
    }
}

#[test]
fn preferences_change_only_what_differs() {
    assert_eq!(chosen_base(1, "CAD"), Some("USD"));
    assert_eq!(chosen_base(0, "CAD"), None);
    assert_eq!(chosen_base(2, "CAD"), None);
    assert!(aureus_theme_enabled(Some(theme_setting(true))));
    assert!(!aureus_theme_enabled(Some(theme_setting(false))));
    assert!(aureus_theme_enabled(None));
}

#[test]
fn other_dollars_need_a_rate() {
    let held = vec![position(1, "A", "USD"), position(2, "B", "EUR")];
    assert!(portfolio_needs_fx(&held, "CAD"));
    assert!(!portfolio_needs_fx(&held, "USD"));
    assert!(portfolio_needs_fx_with_cash(&held, &[account(1, "CAD", true)], "USD"));
    assert!(!portfolio_needs_fx_with_cash(&held, &[account(1, "CAD", false)], "USD"));
}

#[test]
fn the_market_status_is_put_together() {
    let mut held = vec![position(1, "A", "USD"), position(2, "B", "CAD")];
    let rate = Some(("1.3500", "Mar 1"));
    assert_eq!(
        market_status_text(&held, "CAD", "Live", rate, 160),
        "Live · oldest 1 min ago · USD/CAD 1.3500 · Mar 1"
    );
    held[1].quote_updated_at = None;
    held[1].currency = "EUR".to_owned();
    assert_eq!(
        market_status_text(&held, "CAD", "Live", None, 100),
        "Some quotes unavailable · cached just now · waiting for USD/CAD rate · \
         some currencies are shown natively"
    );
    assert_eq!(market_status_text(&[], "CAD", "Live", rate, 100), "");
}

#[test]
fn pages_show_a_side() {
    let empty = page_sides(0, 0, false, 0, 0);
    assert!(!empty.portfolio && !empty.accounts && !empty.watchlist);
    let started = page_sides(0, 0, true, 1, 2);
    assert!(started.portfolio && started.accounts && started.watchlist);
    assert!(page_to_rebuild("dividends") == Rebuild::Dividends);
    assert!(page_to_rebuild("search") == Rebuild::Nothing);
}

#[test]
fn notes_and_lines_are_worded() {
    assert_eq!(quote_note(true, true, true, "Live"), "Live");
    assert_eq!(quote_note(false, true, true, "Live"), "Cash balance");
    assert_eq!(quote_note(false, false, true, "Live"), "No current holdings");
    assert_eq!(quote_note(false, false, false, "Live"), "No holdings yet");
    assert_eq!(gain_class(AmountSign::Positive), Some("success"));
    assert_eq!(gain_class(AmountSign::Negative), Some("error"));
    assert_eq!(gain_class(AmountSign::Zero), None);
    assert_eq!(
        position_subtitle(&position(1, "A", "CAD"), "2 shares"),
        "Index · Toronto · 2 shares · TFSA"
    );
    assert!(shows_native_value(&position(1, "A", "USD"), "CAD", true));
    assert!(!shows_native_value(&position(1, "A", "USD"), "CAD", false));
    let held = account(1, "USD", true);
    assert_eq!(cash_subtitle(&held, "CAD", "US$5.00"), "TFSA · USD · US$5.00 native");
    assert_eq!(cash_subtitle(&held, "USD", "US$5.00"), "TFSA · USD");
    assert_eq!(account_subtitle(&held, "US$5.00", 1), "USD · US$5.00 cash · 1 holding");
    assert_eq!(account_caption("US$5.00", 2), "US$5.00 cash · 2 holdings");
}

#[test]
fn holdings_are_found_by_account_and_security() {
    let held = vec![position(1, "A", "CAD"), position(2, "a", "CAD"), position(3, "B", "CAD")];
    assert_eq!(account_positions(&held, 1), vec![0, 2]);
    let accounts = vec![account(1, "CAD", false), account(2, "CAD", true)];
    assert_eq!(cash_rows(&accounts), vec![1]);
    assert_eq!(positions_of(&held, "A"), vec![0, 1]);
}

#[test]
fn the_value_of_an_account_is_whole_or_unknown() {
    let mut held = vec![position(1, "A", "USD"), position(2, "B", "XYZ"), position(3, "C", "CAD")];
    let own = account(1, "CAD", true);
    let value = value_account(&own, &held, "CAD", Some(true)).unwrap();
    assert!(value.holdings == vec![Conversion::Multiply(Rate::Current), Conversion::Same]);
    assert!(value.cash == Conversion::Same);
    assert!(value_account(&own, &held, "CAD", None).is_none());
    assert!(value_account(&account(1, "XYZ", true), &held, "CAD", Some(true)).is_none());
    assert!(value_account(&account(0, "CAD", true), &held, "CAD", Some(true)).is_none());
    assert!(value_account(&account(7, "CAD", true), &held, "CAD", None).is_some());
    held[2].priced = false;
    assert!(value_account(&own, &held, "CAD", Some(true)).is_none());
}

#[test]
fn the_totals_of_the_portfolio_are_whole_or_unknown() {
    let mut held = vec![position(1, "A", "USD"), position(3, "C", "CAD")];
    let accounts = vec![account(1, "CAD", true), account(2, "USD", true)];
    let totals = value_portfolio(&held, &accounts, "CAD", Some(true));
    assert!(totals.value_is_known() && totals.gain_is_known());
    assert!(totals.market == Some(vec![Conversion::Multiply(Rate::Current), Conversion::Same]));
    held[0].priced = false;
    let totals = value_portfolio(&held, &accounts, "CAD", Some(true));
    assert!(totals.market.is_none() && totals.basis.is_some() && totals.cash.is_some());
    assert!(!totals.value_is_known() && !totals.gain_is_known());
    let totals = value_portfolio(&[], &accounts, "CAD", None);
    assert!(totals.cash.is_none() && totals.gain_is_known() && !totals.value_is_known());
}

#[test]
fn securities_are_grouped() {
    let held = vec![position(1, "A", "CAD"), position(2, "B", "CAD"), position(3, "A", "CAD")];
    let groups = security_groups(&held, &vec![true, true, true]);
    assert_eq!(groups.len(), 2);
    assert_eq!(groups[0].members, vec![0, 2]);
    assert_eq!(groups[1].members, vec![1]);
    assert_eq!(groups[0].symbol, "A");
    let fewer = security_groups(&held, &vec![false, true, true]);
    assert_eq!(fewer[0].members, vec![1]);
    assert_eq!(fewer[1].members, vec![2]);
    let listed: usize = groups.iter().map(|group| group.members.len()).sum();
    assert_eq!(listed, 3);
}

#[test]
fn colors_are_not_used_twice() {
    assert_eq!(first_free_color(&vec![false, true, true]), Some(1));
    assert_eq!(first_free_color(&vec![false]), None);
    let mut palette = FallbackPalette::new();
    assert_eq!(palette.try_next(false), None);
    assert_eq!(palette.try_next(true), Some(1));
    assert_eq!(palette.try_next(true), Some(2));
}

#[test]
fn a_star_follows_the_watchlist() {
    let items = vec![WatchlistItem {
        id: 7,
        code: "VFV".to_owned(),
        name: "Index".to_owned(),
        exchange: "TOR".to_owned(),
        provider_symbol: "VFV.TO".to_owned(),
        currency: "CAD".to_owned(),
        asset_type: "ETF".to_owned(),
    }];
    assert_eq!(watchlist_item_id_for_symbol(&items, "vfv.to"), Some(7));
    assert_eq!(watchlist_item_id_for_symbol(&items, "B"), None);
    assert_eq!(item_caption(&items[0]), "Toronto · CAD");
    let mut star = Star { item: None };
    assert!(star.click() == StarRequest::Add);
    assert!(!star.reply(StarReply::Failed));
    assert!(star.reply(StarReply::Added(7)));
    assert_eq!((star.icon(), star.tooltip()), ("starred-symbolic", "Remove from Watchlist"));
    assert!(star.click() == StarRequest::Remove(7));
    assert!(star.reply(StarReply::Removed));
    assert_eq!((star.icon(), star.tooltip()), ("non-starred-symbolic", "Add to Watchlist"));
    assert!(!star.reply(StarReply::Duplicate(Some(9))));
    assert_eq!(star.item, Some(9));
    assert!(star.reply(StarReply::Absent));
    assert_eq!(star_message("VFV", true), "Added VFV to watchlist");
    assert_eq!(star_message("VFV", false), "Removed VFV from watchlist");
}

#[test]
fn the_history_of_an_account_is_its_newest_events() {
    let trades: Vec<Transaction> = (0..15).map(|id| trade(id, "BUY", 10 * id)).collect();
    let mut moves: Vec<CashEntry> =
        (0..10).map(|id| cash(id, "DEPOSIT", "", AmountSign::Positive, 10 * id)).collect();
    moves[9].account_id = 2;
    let history = account_history(&trades, &moves, 1);
    assert_eq!(history.len(), 20);
    assert_eq!(history[..8], [14, 13, 12, 11, 10, 9, 8, 23]);
    assert_eq!(history[19], 17);
}

#[test]
fn events_of_an_account_have_titles() {
    let titles: Vec<String> = ["BUY", "SELL", "OPEN", "TRANSFER_OUT", "TRANSFER_IN", "DRIP"]
        .iter()
        .map(|kind| trade_event_title(&trade(1, kind, DAY)))
        .collect();
    assert_eq!(
        titles,
        vec![
            "Buy VFV",
            "Sell VFV",
            "Opening Position · VFV",
            "Transfer Out VFV",
            "Transfer In VFV",
            "DRIP · VFV",
        ]
    );
    assert_eq!(
        trade_event_subtitle(&trade(1, "BUY", DAY), "3", "C$1.00"),
        "Jan 2, 1970 · 3 shares at C$1.00"
    );
    let title = |kind: &str, description: &str, sign: AmountSign| {
        cash_event_title(&cash(1, kind, description, sign, 1))
    };
    assert_eq!(title("DEPOSIT", "x", AmountSign::Zero), "Deposit");
    assert_eq!(title("DEPOSIT", "x", AmountSign::Negative), "Withdrawal");
    assert_eq!(title("DEPOSIT", "x", AmountSign::Unordered), "Withdrawal");
    assert_eq!(title("DIVIDEND", " ", AmountSign::Positive), "Dividend");
    assert_eq!(title("DIVIDEND", "VFV dividend", AmountSign::Positive), "VFV dividend");
    assert_eq!(title("TRADE", "", AmountSign::Positive), "");
}

#[test]
fn movements_of_cash_are_listed() {
    let moves = vec![
        cash(1, "DEPOSIT", "Bonus", AmountSign::Positive, 10),
        cash(3, "DIVIDEND", "VFV", AmountSign::Positive, 20),
        cash(4, "DEPOSIT", "", AmountSign::Negative, 20),
        cash(5, "DIVIDEND", "VFV", AmountSign::Zero, 30),
    ];
    assert_eq!(cash_history(&moves, 1), vec![3, 2, 1, 0]);
    assert!(cash_history(&moves, 2).is_empty());
    assert_eq!(cash_movement_title(&moves[0]), "Bonus");
    assert_eq!(cash_movement_title(&moves[2]), "Cash withdrawn");
    assert_eq!(account_dividends(&moves, 1), vec![1]);
}

#[test]
fn a_holding_is_described() {
    let labels = |trades: bool, realized: bool, unrealized: bool, base: &str| {
        position_lines(trades, realized, unrealized, "USD", base, true)
            .iter()
            .map(|line| position_line_label(*line))
            .collect::<Vec<_>>()
    };
    assert_eq!(
        labels(true, true, true, "CAD"),
        vec![
            "Account",
            "Shares",
            "Cost basis",
            "Unrealized return",
            "Realized gain",
            "Investment return",
            "Native market value",
        ]
    );
    assert_eq!(labels(true, true, false, "USD").last(), Some(&"Realized gain"));
    assert_eq!(labels(false, true, true, "USD").len(), 4);
    assert!(
        position_lines(false, false, false, "USD", "CAD", false).last()
            == Some(&PositionLine::UnrealizedReturn)
    );
    let trades = vec![trade(1, "BUY", 1), trade(2, "SELL", 2)];
    assert_eq!(holding_transactions(&trades, 1, "vfv.to"), vec![0, 1]);
    assert!(holding_transactions(&trades, 2, "VFV.TO").is_empty());
    assert_eq!(holding_filter("VFV", "TFSA"), "VFV TFSA");
}

#[test]
fn a_security_is_described() {
    let asset = SearchResult {
        provider_symbol: "VFV.TO".to_owned(),
        code: "VFV".to_owned(),
        exchange: "TOR".to_owned(),
        name: "Index".to_owned(),
        asset_type: "etf".to_owned(),
        currency: "CAD".to_owned(),
    };
    let lines: Vec<(&str, String)> =
        security_lines(&asset).into_iter().map(|line| (line.label, line.value)).collect();
    assert_eq!(
        lines,
        vec![
            ("Exchange", "Toronto".to_owned()),
            ("Currency", "CAD".to_owned()),
            ("Yahoo symbol", "VFV.TO".to_owned()),
            ("Type", "ETF".to_owned()),
        ]
    );
    let untyped = SearchResult { asset_type: " ".to_owned(), ..asset };
    assert_eq!(security_lines(&untyped).len(), 3);
    assert_eq!(security_caption("Index", "TOR", "CAD"), "Index · Toronto · CAD");
    assert_eq!(search_price_label(true), "Search result price");
    assert_eq!(search_price_label(false), "Quote unavailable");
    assert_eq!(day_change_text(Some("+1.20")), "+1.20% today");
    assert_eq!(day_change_text(None), "Today's change unavailable");
    assert_eq!(cached_value_text("Network error"), "Network error · using cached value");
}

#[test]
fn distributions_of_a_security_are_kept_for_a_day() {
    let fresh = start_dividend_load(2, false, Some(0), DAY - 1);
    assert!(!fresh.fetch);
    assert_eq!(fresh.status, "Trailing 12 months · estimated at current shares");
    assert!(!start_dividend_load(0, false, Some(0), 0).fetch);
    assert_eq!(start_dividend_load(0, false, Some(0), 0).status, "No distributions found");
    let stale = start_dividend_load(2, false, Some(0), DAY);
    assert!(stale.fetch);
    assert_eq!(stale.status, "Cached dividend history · updating");
    assert_eq!(start_dividend_load(0, true, Some(0), 0).status, "Loading dividend history");
    assert!(start_dividend_load(0, false, None, 0).fetch);
}

#[test]
fn a_load_of_distributions_ends() {
    let loaded = end_dividend_load(Ok(3), false, true);
    assert_eq!(loaded.status, "Updated just now · estimated at current shares");
    assert_eq!(loaded.toast, None);
    assert_eq!(end_dividend_load(Ok(0), true, true).status, "No distributions found");
    let kept = end_dividend_load(Err("offline"), true, true);
    assert_eq!(kept.status, "Update failed · showing cached dividend history");
    assert_eq!(kept.toast, Some("Could not refresh dividend data"));
    let failed = end_dividend_load(Err("offline"), false, false);
    assert_eq!((failed.status.as_str(), failed.toast), ("offline", None));
}

#[test]
fn distributions_of_the_last_year_count() {
    let now = 400 * DAY;
    let events = vec![event(34 * DAY - 1), event(34 * DAY), event(now), event(now + 1)];
    assert_eq!(trailing_dividends(&events, now), vec![1, 2]);
    let many: Vec<DividendEvent> = (0..10).map(|day| event(day * DAY)).collect();
    assert_eq!(newest_dividends(&many), vec![9, 8, 7, 6, 5, 4, 3, 2]);
    assert_eq!(newest_dividends(&many[..1]), vec![0]);
}

#[test]
fn a_holding_says_what_it_gained() {
    assert_eq!(gain_line(Some("+C$12.00"), "+3.40"), "+C$12.00 (+3.40%) total");
    assert_eq!(gain_line(None, "+0.00"), "Total return unavailable");
    assert_eq!(native_line("US$5.00"), "US$5.00 native");
}
