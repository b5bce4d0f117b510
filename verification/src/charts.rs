//! What the charts show: their window, what has to be fetched for them, and what is
//! said while and after a history is loaded.

use vstd::prelude::*;
use crate::model::{CashEntry, PricePoint, Transaction};
use crate::numbers;
use crate::session;
use crate::session::HistoryRange;
use crate::text;

verus! {

/// The latest of the times at which the histories begin; histories without points aside.
pub open spec fn latest_opening(histories: Seq<Vec<PricePoint>>) -> Option<i64>
    decreases histories.len(),
{
    if histories.len() == 0 {
        None
    } else {
        let before = latest_opening(histories.drop_last());
        let points = histories.last()@;
        if points.len() == 0 {
            before
        } else {
            match before {
                Some(time) if time >= points[0].timestamp => Some(time),
                _ => Some(points[0].timestamp),
            }
        }
    }
}

/// The earliest of the times at which the histories end; histories without points aside.
pub open spec fn earliest_closing(histories: Seq<Vec<PricePoint>>) -> Option<i64>
    decreases histories.len(),
{
    if histories.len() == 0 {
        None
    } else {
        let before = earliest_closing(histories.drop_last());
        let points = histories.last()@;
        if points.len() == 0 {
            before
        } else {
            match before {
                Some(time) if time <= points.last().timestamp => Some(time),
                _ => Some(points.last().timestamp),
            }
        }
    }
}

pub open spec fn first_time(points: Option<Seq<PricePoint>>) -> Option<i64> {
    match points {
        Some(points) if points.len() > 0 => Some(points[0].timestamp),
        _ => None,
    }
}

pub open spec fn last_time(points: Option<Seq<PricePoint>>) -> Option<i64> {
    match points {
        Some(points) if points.len() > 0 => Some(points.last().timestamp),
        _ => None,
    }
}

/// The start of the portfolio's chart. One day is the newest session that all securities
/// have in common; exchange rates define it only where there is no security.
pub open spec fn chart_start(
    range: HistoryRange,
    minimum: int,
    now: int,
    histories: Seq<Vec<PricePoint>>,
    fx: Option<Seq<PricePoint>>,
) -> int {
    if range != HistoryRange::OneDay {
        minimum
    } else {
        match latest_opening(histories) {
            Some(time) => time as int,
            None => match first_time(fx) {
                Some(time) => time as int,
                None => numbers::saturated(now - 86_400),
            },
        }
    }
}

/// The end of the portfolio's chart, where it does not run up to the present.
pub open spec fn chart_end(
    range: HistoryRange,
    histories: Seq<Vec<PricePoint>>,
    fx: Option<Seq<PricePoint>>,
) -> Option<i64> {
    if range != HistoryRange::OneDay {
        None
    } else {
        match earliest_closing(histories) {
            Some(time) => Some(time),
            None => last_time(fx),
        }
    }
}

/// Start and end of the portfolio's chart.
#[verifier::loop_isolation(false)]
pub fn visible_window(
    range: HistoryRange,
    minimum: i64,
    now: i64,
    histories: &Vec<Vec<PricePoint>>,
    fx_points: Option<&[PricePoint]>,
) -> (r: (i64, Option<i64>))
    ensures
        r.0 == chart_start(
            range,
            minimum as int,
            now as int,
            histories@,
            crate::rates::points_view(fx_points),
        ),
        r.1 == chart_end(range, histories@, crate::rates::points_view(fx_points)),
{
    if range != HistoryRange::OneDay {
        return (minimum, None);
    }
    let mut opening: Option<i64> = None;
    let mut closing: Option<i64> = None;
    let mut i: usize = 0;
    assert(histories@.take(0) =~= Seq::empty());
    while i < histories.len()
        invariant
            i <= histories@.len(),
            opening == latest_opening(histories@.take(i as int)),
            closing == earliest_closing(histories@.take(i as int)),
        decreases histories@.len() - i,
    {
        let points = &histories[i];
        assert(histories@.take(i + 1).drop_last() =~= histories@.take(i as int));
        assert(histories@.take(i + 1).last() == histories@[i as int]);
        if points.len() > 0 {
            let first: i64 = points[0].timestamp;
            let last: i64 = points[points.len() - 1].timestamp;
            opening = match opening {
                Some(time) => if time >= first {
                    Some(time)
                } else {
                    Some(first)
                },
                None => Some(first),
            };
            closing = match closing {
                Some(time) => if time <= last {
                    Some(time)
                } else {
                    Some(last)
                },
                None => Some(last),
            };
        }
        i += 1;
    }
    assert(histories@.take(i as int) =~= histories@);
    let (fx_first, fx_last): (Option<i64>, Option<i64>) = match fx_points {
        Some(points) => if points.len() > 0 {
            (Some(points[0].timestamp), Some(points[points.len() - 1].timestamp))
        } else {
            (None, None)
        },
        None => (None, None),
    };
    let start: i64 = match opening {
        Some(time) => time,
        None => match fx_first {
            Some(time) => time,
            None => numbers::saturating_difference(now, 86_400),
        },
    };
    let end: Option<i64> = match closing {
        Some(time) => Some(time),
        None => fx_last,
    };
    (start, end)
}

/// No security's session begins after the start of a one-day chart, and none ends before
/// its end.
pub proof fn window_lies_in_every_session(histories: Seq<Vec<PricePoint>>, h: int)
    requires
        0 <= h < histories.len(),
        histories[h]@.len() > 0,
    ensures
        latest_opening(histories) is Some,
        earliest_closing(histories) is Some,
        histories[h]@[0].timestamp <= latest_opening(histories)->0,
        earliest_closing(histories)->0 <= histories[h]@.last().timestamp,
    decreases histories.len(),
{
    if h < histories.len() - 1 {
        assert(histories.drop_last()[h] == histories[h]);
        window_lies_in_every_session(histories.drop_last(), h);
    }
}

/// What stands where the portfolio's chart is.
#[derive(Clone, Copy, PartialEq, Eq, Structural)]
pub enum ChartContent {
    Points,
    Loading,
    TooShort,
    NoActivity,
}

/// Decides what stands where the portfolio's chart is: the points if there are two or
/// more, else why there are not.
pub fn portfolio_chart_content(
    transactions: usize,
    cash_entries: usize,
    points: usize,
    missing: usize,
    fx_missing: bool,
) -> (r: ChartContent)
    ensures
        r == if transactions == 0 && cash_entries == 0 {
            ChartContent::NoActivity
        } else if points >= 2 {
            ChartContent::Points
        } else if missing > 0 || fx_missing {
            ChartContent::Loading
        } else {
            ChartContent::TooShort
        },
{
    if transactions == 0 && cash_entries == 0 {
        ChartContent::NoActivity
    } else if points >= 2 {
        ChartContent::Points
    } else if missing > 0 || fx_missing {
        ChartContent::Loading
    } else {
        ChartContent::TooShort
    }
}

pub open spec fn content_message(content: ChartContent) -> Option<Seq<char>> {
    match content {
        ChartContent::Points => None,
        ChartContent::Loading => Some("Loading portfolio history"@),
        ChartContent::TooShort => Some("Not enough history yet"@),
        ChartContent::NoActivity => Some("Add activity or cash to see portfolio history"@),
    }
}

pub fn chart_message(content: ChartContent) -> (r: Option<&'static str>)
    ensures
        match r {
            Some(message) => content_message(content) == Some(message@),
            None => content_message(content) is None,
        },
{
    match content {
        ChartContent::Points => None,
        ChartContent::Loading => Some("Loading portfolio history"),
        ChartContent::TooShort => Some("Not enough history yet"),
        ChartContent::NoActivity => Some("Add activity or cash to see portfolio history"),
    }
}

/// Some trade or some cash is held in another currency than the base.
pub open spec fn foreign(
    trades: Seq<Transaction>,
    cash: Seq<CashEntry>,
    base: Seq<char>,
) -> bool {
    ||| exists|i: int| 0 <= i < trades.len() && (#[trigger] trades[i]).currency@ != base
    ||| exists|i: int| 0 <= i < cash.len() && (#[trigger] cash[i]).currency@ != base
}

pub fn history_needs_fx(
    transactions: &[Transaction],
    cash_entries: &[CashEntry],
    base: &str,
) -> (r: bool)
    ensures
        r == foreign(transactions@, cash_entries@, base@),
{
    let mut i: usize = 0;
    while i < transactions.len()
        invariant
            i <= transactions@.len(),
            forall|k: int| 0 <= k < i ==> (#[trigger] transactions@[k]).currency@ == base@,
        decreases transactions@.len() - i,
    {
        if !text::same_text(transactions[i].currency.as_str(), base) {
            return true;
        }
        i += 1;
    }
    let mut j: usize = 0;
    while j < cash_entries.len()
        invariant
            j <= cash_entries@.len(),
            forall|k: int| 0 <= k < transactions@.len() ==> (#[trigger] transactions@[k]).currency@ == base@,
            forall|k: int| 0 <= k < j ==> (#[trigger] cash_entries@[k]).currency@ == base@,
        decreases cash_entries@.len() - j,
    {
        if !text::same_text(cash_entries[j].currency.as_str(), base) {
            return true;
        }
        j += 1;
    }
    false
}

/// The exchange rates are fetched where they are needed and what is stored is empty, is
/// out of date, or, for one day, spans less than two days.
pub open spec fn rates_wanted(
    needs_fx: bool,
    range: HistoryRange,
    cached: Seq<PricePoint>,
    stale: bool,
) -> bool {
    needs_fx && (cached.len() == 0 || stale || range == HistoryRange::OneDay && numbers::saturated(
        cached.last().timestamp - cached[0].timestamp,
    ) < 172_800)
}

pub fn fetches_rates(
    needs_fx: bool,
    range: HistoryRange,
    cached: &[PricePoint],
    stale: bool,
) -> (r: bool)
    ensures
        r == rates_wanted(needs_fx, range, cached@, stale),
{
    if !needs_fx {
        return false;
    }
    if cached.len() == 0 || stale {
        return true;
    }
    range == HistoryRange::OneDay && numbers::saturating_difference(
        cached[cached.len() - 1].timestamp,
        cached[0].timestamp,
    ) < 172_800
}

/// What a refresh of the portfolio's history announces: nothing where it was not asked
/// to, or where nothing failed.
pub open spec fn refresh_announcement(
    announce: bool,
    failures: int,
    histories: int,
    fx_fetched: bool,
) -> Option<Seq<char>> {
    if !announce || failures == 0 {
        None
    } else if histories == 0 && !fx_fetched {
        Some("Could not refresh portfolio history"@)
    } else {
        Some("Some portfolio history could not be updated"@)
    }
}

pub fn portfolio_refresh_message(
    announce: bool,
    failures: usize,
    histories: usize,
    fx_fetched: bool,
) -> (r: Option<&'static str>)
    ensures
        match r {
            Some(message) => refresh_announcement(
                announce,
                failures as int,
                histories as int,
                fx_fetched,
            ) == Some(message@),
            None => refresh_announcement(announce, failures as int, histories as int, fx_fetched) is None,
        },
{
    if !announce || failures == 0 {
        None
    } else if histories == 0 && !fx_fetched {
        Some("Could not refresh portfolio history")
    } else {
        Some("Some portfolio history could not be updated")
    }
}

/// What is drawn when a range is chosen or refreshed.
#[derive(Clone, Copy, PartialEq, Eq, Structural)]
pub enum Repaint {
    /// What is on the screen stays.
    Keep,
    /// The stored points are drawn.
    Cached,
    /// The chart says that it is loading.
    Loading,
}

/// How the load of a price history starts.
pub struct LoadStart {
    pub repaint: Repaint,
    pub status: Option<&'static str>,
    /// The number of the request to send, if one is sent.
    pub request: Option<u64>,
    /// A refresh that was asked for is over.
    pub finished: bool,
}

/// The chart of one security: the number of the newest choice of a range.
pub struct HistoryLoader {
    pub generation: u64,
}

pub open spec fn next_generation(generation: u64) -> u64 {
    if generation == u64::MAX {
        generation
    } else {
        (generation + 1) as u64
    }
}

pub open spec fn start_repaint(cached_points: int, announce: bool) -> Repaint {
    if announce {
        Repaint::Keep
    } else if cached_points >= 2 {
        Repaint::Cached
    } else {
        Repaint::Loading
    }
}

pub open spec fn start_status(
    cached_points: int,
    announce: bool,
    fetch: bool,
) -> Option<Seq<char>> {
    if cached_points >= 2 {
        if fetch {
            if announce {
                Some("Refreshing history"@)
            } else {
                Some("Cached history · updating"@)
            }
        } else if announce {
            None
        } else {
            Some("Cached history"@)
        }
    } else if announce {
        None
    } else {
        Some("Loading history"@)
    }
}

pub open spec fn label_view(label: Option<&'static str>) -> Option<Seq<char>> {
    match label {
        Some(label) => Some(label@),
        None => None,
    }
}

/// How the load of a price history ends.
#[derive(Clone, Copy, PartialEq, Eq, Structural)]
pub enum LoadEnd {
    /// A newer choice was made: nothing is shown.
    Superseded,
    /// The new points are drawn.
    Fresh,
    /// The stored points stay.
    KeepCached,
    /// The chart says that there is no history.
    Unavailable,
}

impl HistoryLoader {
    /// Starts to show a range: every choice counts, also one that needs no request.
    pub fn start(
        &mut self,
        cached_points: usize,
        announce: bool,
        force_refresh: bool,
        stale: bool,
    ) -> (r: LoadStart)
        ensures
            final(self).generation == next_generation(old(self).generation),
            r.repaint == start_repaint(cached_points as int, announce),
            label_view(r.status) == start_status(
                cached_points as int,
                announce,
                force_refresh || stale,
            ),
            r.request == if force_refresh || stale {
                Some(final(self).generation)
            } else {
                None
            },
            r.finished == (announce && !(force_refresh || stale)),
    {
        let cached = cached_points >= 2;
        let fetch = force_refresh || stale;
        if self.generation < u64::MAX {
            self.generation = self.generation + 1;
        }
        let repaint = if announce {
            Repaint::Keep
        } else if cached {
            Repaint::Cached
        } else {
            Repaint::Loading
        };
        let status = if cached {
            if fetch {
                if announce {
                    Some("Refreshing history")
                } else {
                    Some("Cached history · updating")
                }
            } else if announce {
                None
            } else {
                Some("Cached history")
            }
        } else if announce {
            None
        } else {
            Some("Loading history")
        };
        LoadStart {
            repaint,
            status,
            request: if fetch {
                Some(self.generation)
            } else {
                None
            },
            finished: announce && !fetch,
        }
    }

    /// Decides what the answer to a request does to the screen.
    pub fn finish(&self, request: u64, loaded: bool, had_cache: bool) -> (r: LoadEnd)
        ensures
            r == if self.generation != request {
                LoadEnd::Superseded
            } else if loaded {
                LoadEnd::Fresh
            } else if had_cache {
                LoadEnd::KeepCached
            } else {
                LoadEnd::Unavailable
            },
    {
        if self.generation != request {
            LoadEnd::Superseded
        } else if loaded {
            LoadEnd::Fresh
        } else if had_cache {
            LoadEnd::KeepCached
        } else {
            LoadEnd::Unavailable
        }
    }
}

/// A request is outdated by any later choice of a range.
pub proof fn later_choice_supersedes(generation: u64)
    requires
        generation < u64::MAX,
    ensures
        next_generation(generation) != generation,
        next_generation(generation) > generation,
{
}

/// The label for the end of a load, if it changes; for a history that could not be had,
/// the error is the label.
pub open spec fn end_status(end: LoadEnd) -> Option<Seq<char>> {
    match end {
        LoadEnd::Fresh => Some("Updated just now"@),
        LoadEnd::KeepCached => Some("Update failed · showing cached history"@),
        _ => None,
    }
}

pub fn load_end_status(end: LoadEnd) -> (r: Option<&'static str>)
    ensures
        label_view(r) == end_status(end),
{
    match end {
        LoadEnd::Fresh => Some("Updated just now"),
        LoadEnd::KeepCached => Some("Update failed · showing cached history"),
        LoadEnd::Superseded | LoadEnd::Unavailable => None,
    }
}

/// A failed refresh that was asked for is announced, unless it was superseded.
pub fn announces_failure(end: LoadEnd, announce: bool) -> (r: bool)
    ensures
        r == (announce && (end == LoadEnd::KeepCached || end == LoadEnd::Unavailable)),
{
    announce && (end == LoadEnd::KeepCached || end == LoadEnd::Unavailable)
}

/// The currency that came with a history, or else the one already known.
pub open spec fn chosen_currency(loaded: Option<Seq<char>>, known: Seq<char>) -> Seq<char> {
    match loaded {
        Some(currency) if !text::nothing_but_blanks(currency) => currency,
        _ => known,
    }
}

pub open spec fn text_view(t: Option<&str>) -> Option<Seq<char>> {
    match t {
        Some(t) => Some(t@),
        None => None,
    }
}

pub fn history_currency(loaded: Option<&str>, known: &str) -> (r: String)
    ensures
        r@ == chosen_currency(text_view(loaded), known@),
{
    match loaded {
        Some(currency) => if text::is_only_blank(currency) {
            known.to_owned()
        } else {
            currency.to_owned()
        },
        None => known.to_owned(),
    }
}

/// The three lines under the chart of a security.
pub struct HistorySummary {
    pub range_return: String,
    pub high_low: String,
    pub change: String,
    /// The change is not known.
    pub dimmed: bool,
}

/// The lines for a history of `count` points. `change` is the change over the range in
/// percent with its sign, and `bounds` are the lowest and the highest price, where both
/// are finite.
pub open spec fn summary_matches(
    s: HistorySummary,
    count: int,
    range: HistoryRange,
    range_label: Seq<char>,
    change: Seq<char>,
    bounds: Option<(Seq<char>, Seq<char>)>,
) -> bool {
    if count == 0 {
        &&& s.range_return@ == "—"@
        &&& s.high_low@ == "No history available"@
        &&& s.change@ == session::unavailable_label(range)
        &&& s.dimmed
    } else {
        let points = numbers::natural_text(count as nat) + " points"@;
        &&& s.range_return@ == change + "% over "@ + range_label
        &&& s.high_low@ == match bounds {
            Some((low, high)) => "Low "@ + low + " · High "@ + high + " · "@ + points,
            None => points,
        }
        &&& s.change@ == change + "% "@ + session::change_suffix(range)
        &&& !s.dimmed
    }
}

pub open spec fn bounds_view(bounds: Option<(&str, &str)>) -> Option<(Seq<char>, Seq<char>)> {
    match bounds {
        Some((low, high)) => Some((low@, high@)),
        None => None,
    }
}

pub fn history_summary(
    count: usize,
    range: HistoryRange,
    range_label: &str,
    change: &str,
    bounds: Option<(&str, &str)>,
) -> (r: HistorySummary)
    ensures
        summary_matches(r, count as int, range, range_label@, change@, bounds_view(bounds)),
{
    if count == 0 {
        return HistorySummary {
            range_return: "—".to_owned(),
            high_low: "No history available".to_owned(),
            change: session::history_range_unavailable_label(range).to_owned(),
            dimmed: true,
        };
    }
    let mut range_return = change.to_owned();
    range_return.append("% over ");
    range_return.append(range_label);
    let mut points = numbers::print_natural(count as u64);
    points.append(" points");
    let high_low = match bounds {
        Some((low, high)) => {
            let mut t = "Low ".to_owned();
            t.append(low);
            t.append(" · High ");
            t.append(high);
            t.append(" · ");
            t.append(points.as_str());
            t
        },
        None => points,
    };
    let mut day = change.to_owned();
    day.append("% ");
    day.append(session::history_range_change_suffix(range));
    HistorySummary { range_return, high_low, change: day, dimmed: false }
}

/// The window of a day is set by sessions: it begins as one of them does and ends as one of
/// them does.
pub proof fn sessions_set_the_window(histories: Seq<Vec<PricePoint>>)
    ensures
        latest_opening(histories) is Some ==> exists|h: int|
            0 <= h < histories.len() && (#[trigger] histories[h])@.len() > 0
                && histories[h]@[0].timestamp == latest_opening(histories)->0,
        earliest_closing(histories) is Some ==> exists|h: int|
            0 <= h < histories.len() && (#[trigger] histories[h])@.len() > 0
                && histories[h]@.last().timestamp == earliest_closing(histories)->0,
    decreases histories.len(),
{
    if histories.len() > 0 {
        let before = histories.drop_last();
        sessions_set_the_window(before);
        let n = histories.len() - 1;
        assert(histories[n] == histories.last());
        if latest_opening(before) is Some {
            let h = choose|h: int|
                0 <= h < before.len() && (#[trigger] before[h])@.len() > 0
                    && before[h]@[0].timestamp == latest_opening(before)->0;
            assert(histories[h] == before[h]);
        }
        if earliest_closing(before) is Some {
            let h = choose|h: int|
                0 <= h < before.len() && (#[trigger] before[h])@.len() > 0
                    && before[h]@.last().timestamp == earliest_closing(before)->0;
            assert(histories[h] == before[h]);
        }
    }
}

/// Only the chart of one day has a window of its own. It is that of the sessions, or of the
/// exchange rates where no session is known, or else the last twenty-four hours.
pub proof fn only_a_day_has_a_window(
    range: HistoryRange,
    minimum: int,
    now: int,
    histories: Seq<Vec<PricePoint>>,
    fx: Option<Seq<PricePoint>>,
    h: int,
)
    requires
        0 <= now <= i64::MAX,
    ensures
        range != HistoryRange::OneDay ==> chart_start(range, minimum, now, histories, fx) == minimum
            && chart_end(range, histories, fx) is None,
        range == HistoryRange::OneDay && 0 <= h < histories.len() && histories[h]@.len() > 0 ==> {
            &&& chart_start(range, minimum, now, histories, fx) >= histories[h]@[0].timestamp
            &&& chart_end(range, histories, fx) is Some
            &&& chart_end(range, histories, fx)->0 <= histories[h]@.last().timestamp
        },
        range == HistoryRange::OneDay && (forall|k: int|
            0 <= k < histories.len() ==> (#[trigger] histories[k])@.len() == 0) ==> {
            if fx is Some && fx->0.len() > 0 {
                &&& chart_start(range, minimum, now, histories, fx) == fx->0[0].timestamp
                &&& chart_end(range, histories, fx) == Some(fx->0.last().timestamp)
            } else {
                &&& chart_start(range, minimum, now, histories, fx) == now - 86_400
                &&& chart_end(range, histories, fx) is None
            }
        },
{
    sessions_set_the_window(histories);
    if 0 <= h < histories.len() && histories[h]@.len() > 0 {
        window_lies_in_every_session(histories, h);
    }
}

/// A chart without points says why there are none.
pub proof fn empty_chart_gives_its_reason(content: ChartContent)
    ensures
        content_message(content) is None <==> content == ChartContent::Points,
        content_message(ChartContent::Loading) == Some("Loading portfolio history"@),
        content_message(ChartContent::TooShort) == Some("Not enough history yet"@),
        content_message(ChartContent::NoActivity) == Some(
            "Add activity or cash to see portfolio history"@,
        ),
{
}

/// Exchange rates are asked for only where something is held in another currency: where none
/// are stored, where those stored are old, and for the chart of a day where they span less
/// than two days.
pub proof fn rates_are_asked_for_when_needed(
    range: HistoryRange,
    cached: Seq<PricePoint>,
    stale: bool,
)
    ensures
        !rates_wanted(false, range, cached, stale),
        stale || cached.len() == 0 ==> rates_wanted(true, range, cached, stale),
        cached.len() > 0 && range != HistoryRange::OneDay ==> !rates_wanted(
            true,
            range,
            cached,
            false,
        ),
        cached.len() > 0 && range == HistoryRange::OneDay && cached[0].timestamp >= 0
            && cached.last().timestamp >= 0 ==> (rates_wanted(true, range, cached, false)
            <==> cached.last().timestamp < cached[0].timestamp + 2 * 86_400),
{
}

/// A failed refresh is announced where it was asked for, and nothing else is.
pub proof fn failure_is_announced_when_asked(
    announce: bool,
    failures: int,
    histories: int,
    fx_fetched: bool,
)
    ensures
        refresh_announcement(announce, failures, histories, fx_fetched) is Some <==> announce
            && failures != 0,
        announce && failures != 0 && (histories != 0 || fx_fetched) ==> refresh_announcement(
            announce,
            failures,
            histories,
            fx_fetched,
        ) == Some("Some portfolio history could not be updated"@),
        announce && failures != 0 && histories == 0 && !fx_fetched ==> refresh_announcement(
            announce,
            failures,
            histories,
            fx_fetched,
        ) == Some("Could not refresh portfolio history"@),
{
}

/// A refresh that was asked for leaves the chart on the screen. Otherwise the stored points
/// are drawn where they make a line, and the status says so.
pub proof fn stored_points_are_drawn_first(cached_points: int, fetch: bool)
    ensures
        start_repaint(cached_points, true) == Repaint::Keep,
        cached_points >= 2 ==> {
            &&& start_repaint(cached_points, false) == Repaint::Cached
            &&& start_status(cached_points, false, true) == Some("Cached history · updating"@)
            &&& start_status(cached_points, false, false) == Some("Cached history"@)
            &&& start_status(cached_points, true, true) == Some("Refreshing history"@)
            &&& start_status(cached_points, true, false) is None
        },
        cached_points < 2 ==> {
            &&& start_repaint(cached_points, false) == Repaint::Loading
            &&& start_status(cached_points, false, fetch) == Some("Loading history"@)
            &&& start_status(cached_points, true, fetch) is None
        },
{
}

/// Each load has a number of its own, one above that of the load before it.
pub proof fn loads_are_numbered_in_order(generation: u64)
    ensures
        generation < u64::MAX ==> next_generation(generation) == generation + 1,
        next_generation(u64::MAX) == u64::MAX,
{
}

/// The status at the end of a load tells an update from a failure. A load that no longer
/// counts, or that leaves no history, has none.
pub proof fn end_of_load_is_told(end: LoadEnd)
    ensures
        end_status(end) is Some <==> end == LoadEnd::Fresh || end == LoadEnd::KeepCached,
        end_status(LoadEnd::Fresh) == Some("Updated just now"@),
        end_status(LoadEnd::KeepCached) == Some("Update failed · showing cached history"@),
{
}

/// The currency that came with a history counts where it says something.
pub proof fn loaded_currency_counts(currency: Seq<char>, known: Seq<char>, i: int)
    ensures
        chosen_currency(None, known) == known,
        0 <= i < currency.len() && !text::blank(currency[i]) ==> chosen_currency(
            Some(currency),
            known,
        ) == currency,
        (forall|k: int| 0 <= k < currency.len() ==> text::blank(#[trigger] currency[k]))
            ==> chosen_currency(Some(currency), known) == known,
{
    text::trimming_takes_blanks_off(currency);
    if text::trimmed(currency).len() == 0 && 0 <= i < currency.len() {
        let (from, to) = choose|from: int, to: int|
            0 <= from <= to <= currency.len() && text::trimmed(currency)
                == #[trigger] currency.subrange(from, to) && (forall|k: int|
                0 <= k < from ==> text::blank(#[trigger] currency[k])) && forall|k: int|
                to <= k < currency.len() ==> text::blank(#[trigger] currency[k]);
        assert(from == to);
        assert(text::blank(currency[i]));
    }
    if text::trimmed(currency).len() > 0 {
        let (from, to) = choose|from: int, to: int|
            0 <= from <= to <= currency.len() && text::trimmed(currency)
                == #[trigger] currency.subrange(from, to) && (forall|k: int|
                0 <= k < from ==> text::blank(#[trigger] currency[k])) && forall|k: int|
                to <= k < currency.len() ==> text::blank(#[trigger] currency[k]);
        assert(text::trimmed(currency)[0] == currency[from]);
        assert(!text::blank(currency[from]));
    }
}

/// The summary of a history is dimmed where there is none; otherwise it tells the change, the
/// bounds where they are known, and of how many points it is made.
pub proof fn summary_tells_the_change(
    s: HistorySummary,
    count: int,
    range: HistoryRange,
    range_label: Seq<char>,
    change: Seq<char>,
    low: Seq<char>,
    high: Seq<char>,
    bounded: bool,
)
    requires
        summary_matches(
            s,
            count,
            range,
            range_label,
            change,
            if bounded {
                Some((low, high))
            } else {
                None
            },
        ),
        count >= 0,
    ensures
        s.dimmed <==> count == 0,
        count == 0 ==> s.range_return@ == "—"@ && s.high_low@ == "No history available"@,
        count > 0 ==> {
            &&& s.range_return@ == change + "% over "@ + range_label
            &&& text::stands_at(s.change@, change, 0)
            &&& bounded ==> s.high_low@ == "Low "@ + low + " · High "@ + high + " · "@ + (
            numbers::integer_text(count) + " points"@)
            &&& !bounded ==> s.high_low@ == numbers::integer_text(count) + " points"@
        },
        range == HistoryRange::OneDay ==> s.change@ == if count == 0 {
            "Today's change unavailable"@
        } else {
            change + "% "@ + "today"@
        },
{
    if count > 0 {
        assert(s.change@.subrange(0, change.len() as int) =~= change);
    }
}

/// Exchange rates are needed exactly where a trade or a movement of cash is in another currency
/// than the base.
pub proof fn other_currencies_need_rates(
    trades: Seq<Transaction>,
    cash: Seq<CashEntry>,
    base: Seq<char>,
    i: int,
)
    ensures
        0 <= i < trades.len() && trades[i].currency@ != base ==> foreign(trades, cash, base),
        0 <= i < cash.len() && cash[i].currency@ != base ==> foreign(trades, cash, base),
        (forall|k: int| 0 <= k < trades.len() ==> (#[trigger] trades[k]).currency@ == base) && (
        forall|k: int| 0 <= k < cash.len() ==> (#[trigger] cash[k]).currency@ == base) ==> !foreign(
            trades,
            cash,
            base,
        ),
{
}

} // verus!
