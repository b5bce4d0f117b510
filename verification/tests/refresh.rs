//! Refreshes, pages, the search and the toasts.

use aureus::navigation::{
    account_row, list_row, overview_row, page_index, row_key, variant_id, FirstCheck, FirstVisits,
    OverviewRow, PageState, Slide,
};
use aureus::refresh::{
    begin_detail_refresh, changed_labels, complete_detail_refresh, dividends_message, list_refresh, market_message,
    quote_targets, refresh_of_page, startup_plan, watchlist_message, DetailPullRefresh,
    DetailShortcutRefresh, DragEnd, DragMove, DragPull, Feedback, ListRefresh, MarketOutcome,
    PageRefresh, RefreshRequest, Requests, TaskEnd, WindowRefresh,
};
use aureus::search::{
    search_result_details, KeyEffect, SearchKey, SearchOutcome, SearchState,
};
use aureus::toasts::{ToastAction, ToastManager};

#[test]
fn a_refresh_ends_with_its_last_task() {
    let mut pull = DetailPullRefresh { pending: 0 };
    pull.begin(2);
    assert!(!pull.complete());
    assert!(pull.complete());
    assert!(pull.complete());
    pull.begin(0);
    assert_eq!(pull.pending, 1);
    pull.cancel();
    assert_eq!(pull.pending, 0);
}

#[test]
fn a_shortcut_waits_for_its_tasks() {
    let mut shortcut = DetailShortcutRefresh::new();
    assert!(shortcut.begin(2));
    assert!(!shortcut.begin(5));
    assert_eq!(shortcut.pending, 2);
    assert!(shortcut.grows(1) && !shortcut.fades(1));
    assert_eq!(shortcut.complete(), None);
    assert_eq!(shortcut.complete(), Some(1));
    assert!(shortcut.fades(1) && !shortcut.grows(1));
    assert_eq!(shortcut.complete(), None);
}

#[test]
fn a_pull_counts_before_a_shortcut() {
    let mut pull = DetailPullRefresh { pending: 1 };
    let mut shortcut = DetailShortcutRefresh::new();
    assert!(!begin_detail_refresh(&pull, &mut shortcut, 2));
    assert!(complete_detail_refresh(&mut pull, &mut shortcut) == TaskEnd::Pull { finished: true });
    assert!(begin_detail_refresh(&pull, &mut shortcut, 1));
    assert!(!begin_detail_refresh(&pull, &mut shortcut, 1));
    assert!(
        complete_detail_refresh(&mut pull, &mut shortcut) == TaskEnd::Shortcut { fading: Some(1) }
    );
}

#[test]
fn a_drag_far_enough_refreshes() {
    let mut drag = DragPull::new();
    assert!(drag.update(false, true) == DragMove::Ignored);
    drag.begin(false, true);
    assert!(drag.update(true, false) == DragMove::Waiting);
    assert!(drag.update(false, false) == DragMove::Claimed);
    assert!(drag.update(true, true) == DragMove::Followed);
    assert!(drag.armed);
    assert!(drag.end() == DragEnd::Refresh);
    assert!(drag.end() == DragEnd::Nothing);
    drag.begin(false, true);
    assert!(drag.update(false, false) == DragMove::Claimed);
    assert!(drag.end() == DragEnd::Withdraw);
    drag.begin(true, true);
    assert!(!drag.can_pull);
}

#[test]
fn the_window_shows_one_refresh() {
    let mut window =
        WindowRefresh { pull_active: false, shortcut_active: false, shortcut_generation: 0 };
    assert!(window.request(true, "overview") == RefreshRequest::Detail);
    assert!(window.request(false, "dividends") == RefreshRequest::Page(PageRefresh::Dividends));
    assert!(window.line_grows(1));
    assert!(window.request(false, "dividends") == RefreshRequest::Busy);
    assert!(window.finish_refresh_feedback() == Feedback::Line(1));
    assert!(window.line_fades(1));
    assert!(window.finish_refresh_feedback() == Feedback::Nothing);
    assert_eq!(window.begin_shortcut_refresh(), Some(2));
    assert_eq!(window.finish_shortcut_refresh(), Some(2));
    assert_eq!(window.finish_shortcut_refresh(), None);
    window.pull_active = true;
    assert_eq!(window.begin_shortcut_refresh(), None);
    assert!(window.finish_refresh_feedback() == Feedback::Pull);
    assert!(window.finish_pull_refresh());
    assert!(!window.finish_pull_refresh());
}

#[test]
fn each_page_refreshes_what_it_shows() {
    assert!(refresh_of_page("accounts") == PageRefresh::Market);
    assert!(refresh_of_page("search") == PageRefresh::Nothing);
    assert!(refresh_of_page("watchlist") == PageRefresh::Watchlist);
    assert!(refresh_of_page("overview") == PageRefresh::Overview);
    assert!(refresh_of_page("other") == PageRefresh::Market);
}

#[test]
fn a_newer_request_outdates_the_older() {
    let mut requests = Requests { generation: u64::MAX };
    let first = requests.start();
    assert!(requests.is_newest(first));
    let second = requests.start();
    assert!(requests.is_newest(second) && !requests.is_newest(first));
}

#[test]
fn empty_lists_are_not_fetched() {
    assert!(list_refresh(0, false) == ListRefresh::Silent);
    assert!(list_refresh(0, true) == ListRefresh::Told);
    assert!(list_refresh(3, false) == ListRefresh::Fetch);
}

#[test]
fn failures_are_announced_when_asked_for() {
    assert_eq!(dividends_message(false, 1, 0), None);
    assert_eq!(dividends_message(true, 1, 0), Some("Could not refresh dividend data"));
    assert_eq!(dividends_message(true, 1, 2), Some("Some dividend data could not be updated"));
    assert_eq!(watchlist_message(true, 0, 2), None);
    assert_eq!(watchlist_message(true, 1, 0), Some("Could not refresh watchlist data"));
    assert_eq!(watchlist_message(true, 1, 1), Some("Some watchlist data could not be updated"));
}

#[test]
fn silence_means_that_all_went_well() {
    let mut outcome = MarketOutcome {
        quotes: 2,
        failures: 0,
        network_failures: 0,
        quotes_attempted: true,
        fx_attempted: true,
        fx_failed: false,
    };
    assert_eq!(market_message(&outcome), None);
    outcome.fx_failed = true;
    assert_eq!(market_message(&outcome), Some("Exchange rate could not be updated"));
    outcome.failures = 1;
    assert_eq!(
        market_message(&outcome),
        Some("Some prices and the exchange rate could not be updated")
    );
    outcome.fx_failed = false;
    assert_eq!(
        market_message(&outcome),
        Some("Some prices could not be updated · stale values may remain")
    );
    outcome.quotes = 0;
    assert_eq!(market_message(&outcome), Some("Quotes unavailable · using cached prices"));
    outcome.network_failures = 1;
    assert_eq!(market_message(&outcome), Some("Network unavailable · using cached prices"));
    outcome.quotes_attempted = false;
    outcome.fx_failed = true;
    assert_eq!(market_message(&outcome), Some("Could not refresh exchange rate"));
}

#[test]
fn a_start_fetches_what_is_stale() {
    let quiet = startup_plan(0, 0, 0, true, false, 0);
    assert!(!quiet.history && !quiet.market && !quiet.fetch_fx && !quiet.dividends);
    let rates = startup_plan(0, 1, 0, true, true, 2);
    assert!(rates.history && rates.market && rates.fetch_fx && rates.dividends);
    assert!(!startup_plan(1, 0, 0, false, true, 0).market);
    assert!(startup_plan(1, 0, 1, false, false, 0).market);
}

#[test]
fn one_quote_serves_all_holdings() {
    let symbols = vec!["A.to".to_owned(), "B".to_owned(), "a.TO".to_owned()];
    let targets = quote_targets(&symbols, &vec![1, 2, 3]);
    assert_eq!(targets.len(), 2);
    let found = targets.iter().find(|target| target.symbol.eq_ignore_ascii_case("a.to")).unwrap();
    assert_eq!(found.ids, vec![1, 3]);
}

#[test]
fn only_changed_labels_are_faded() {
    let before = vec!["C$1.00".to_owned(), "Live".to_owned()];
    let after = vec!["C$1.00".to_owned(), "Stale".to_owned()];
    assert_eq!(changed_labels(&before, &after), vec![1]);
    assert!(changed_labels(&before, &before).is_empty());
}

#[test]
fn going_back_moves_the_other_way() {
    let mut state =
        PageState { place: 0, page: "overview".to_owned(), visits: Requests { generation: 0 } };
    let there = state.visit(Some("watchlist"), true);
    assert!(there.slide == Some(Slide::Left));
    let again = state.visit(Some("watchlist"), true);
    assert!(again.slide.is_none());
    let back = state.visit(None, true);
    assert!(back.slide == Some(Slide::Right));
    assert_eq!((state.page.as_str(), back.visit), ("overview", 3));
    assert!(state.visit(Some("accounts"), false).slide == Some(Slide::Up));
    assert!(state.visit(Some("dividends"), false).slide == Some(Slide::Down));
    assert_eq!(page_index("search"), 2);
}

#[test]
fn pages_are_checked_once() {
    let mut visits = FirstVisits { dividends_checked: false, watchlist_checked: false };
    assert!(visits.visit("overview") == FirstCheck::Nothing);
    assert!(visits.visit("dividends") == FirstCheck::Dividends);
    assert!(visits.visit("dividends") == FirstCheck::Nothing);
    assert!(visits.visit("watchlist") == FirstCheck::Watchlist);
}

#[test]
fn names_of_rows_read_back() {
    assert_eq!(row_key("position-", -7), "position--7");
    assert!(overview_row(&row_key("position-", -7)) == OverviewRow::Position(-7));
    assert!(overview_row(&row_key("cash-", 4)) == OverviewRow::Cash(4));
    assert!(overview_row("position-x") == OverviewRow::Nothing);
    assert_eq!(account_row(&row_key("account-", i64::MAX)), Some(i64::MAX));
    assert_eq!(account_row("account-"), None);
    assert_eq!(list_row(-1, 2), Some(0));
    assert_eq!(list_row(2, 2), None);
    assert_eq!(list_row(1, 2), Some(1));
    assert_eq!(variant_id(Some("12")), Some(12));
    assert_eq!(variant_id(Some("x")), None);
    assert_eq!(variant_id(None), None);
}

fn empty_search() -> SearchState {
    SearchState {
        entry: String::new(),
        count: 0,
        highlighted: None,
        searching: false,
        list_visible: false,
        status: String::new(),
        status_visible: false,
    }
}

#[test]
fn only_the_newest_query_is_answered() {
    let mut search = empty_search();
    assert_eq!(search.changed("  vfv ").as_deref(), Some("vfv"));
    assert_eq!(search.status, "Searching");
    assert_eq!(search.changed(" xeqt").as_deref(), Some("xeqt"));
    assert!(!search.completed("vfv", SearchOutcome::Found(3)));
    assert!(search.completed("xeqt", SearchOutcome::Found(2)));
    assert_eq!((search.count, search.list_visible), (2, true));
    assert_eq!(search.changed("  "), None);
    assert!(!search.list_visible && search.count == 0);
}

#[test]
fn searches_can_find_nothing() {
    let mut search = empty_search();
    search.changed("q");
    assert!(search.completed("q", SearchOutcome::Found(0)));
    assert_eq!(search.status, "No matching stocks or ETFs");
    assert!(search.completed("q", SearchOutcome::Failed("offline".to_owned())));
    assert_eq!(search.status, "offline");
    assert!(search.key(SearchKey::Down) == KeyEffect::Passed);
}

#[test]
fn up_undoes_down() {
    let mut search = empty_search();
    search.changed("q");
    search.completed("q", SearchOutcome::Found(3));
    assert!(search.key(SearchKey::Down) == KeyEffect::Chosen(0));
    assert!(search.key(SearchKey::Down) == KeyEffect::Chosen(1));
    assert!(search.key(SearchKey::Up) == KeyEffect::Chosen(0));
    assert!(search.key(SearchKey::Other) == KeyEffect::Passed);
    assert!(search.key(SearchKey::Enter) == KeyEffect::Opened(0));
    assert_eq!(search.highlighted, None);
    assert!(search.key(SearchKey::Enter) == KeyEffect::Opened(0));
    assert_eq!(search.activated(2), Some(2));
    assert_eq!(search.activated(3), None);
    assert_eq!(search.activated(-1), None);
}

#[test]
fn results_are_described() {
    let line = search_result_details("TOR", "CAD", "ETF", None);
    assert!(line.starts_with("Toronto · CAD · ETF"));
    let changed = search_result_details("TOR", "CAD", "ETF", Some("+1.00"));
    assert!(changed.starts_with(&line) && changed.contains("+1.00"));
}

#[test]
fn a_toast_is_not_shown_twice() {
    let mut toasts = ToastManager::new();
    assert!(toasts.add_toast(Some("Saved")) == ToastAction::ShowAndTrack);
    assert!(toasts.add_toast(Some("Saved")) == ToastAction::Renew);
    assert!(toasts.add_toast(Some("Removed")) == ToastAction::ShowAndTrack);
    assert!(toasts.add_toast(None) == ToastAction::Show);
    toasts.dismissed("Saved");
    assert_eq!(toasts.active, vec!["Removed"]);
    assert!(toasts.add_toast(Some("Saved")) == ToastAction::ShowAndTrack);
}
