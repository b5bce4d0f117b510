//! Refreshing: who may start it, when it is over, and what is said about it.

use vstd::prelude::*;
use crate::charts;
use crate::order;
use crate::text;

verus! {

/// The number of tasks still to come after one of them is done.
pub open spec fn one_less(pending: u8) -> u8 {
    if pending > 1 {
        (pending - 1) as u8
    } else {
        0
    }
}

pub open spec fn at_least_one(pending: u8) -> u8 {
    if pending == 0 {
        1
    } else {
        pending
    }
}

/// The number of tasks still to come after several are done.
pub open spec fn after_tasks(pending: u8, done: nat) -> u8
    decreases done,
{
    if done == 0 {
        pending
    } else {
        one_less(after_tasks(pending, (done - 1) as nat))
    }
}

/// A refresh of several tasks is over with the last of them, and not before.
pub proof fn refresh_ends_with_last_task(pending: u8, done: nat)
    ensures
        done < at_least_one(pending) ==> after_tasks(at_least_one(pending), done)
            == at_least_one(pending) - done,
        done >= at_least_one(pending) ==> after_tasks(at_least_one(pending), done) == 0,
    decreases done,
{
    if done > 0 {
        refresh_ends_with_last_task(pending, (done - 1) as nat);
    }
}

/// A refresh that was started by pulling the page of a security down.
pub struct DetailPullRefresh {
    pub pending: u8,
}

impl DetailPullRefresh {
    pub fn begin(&mut self, pending: u8)
        ensures
            final(self).pending == at_least_one(pending),
    {
        self.pending = if pending == 0 {
            1
        } else {
            pending
        };
    }

    /// One task is done. Says whether the refresh is over.
    pub fn complete(&mut self) -> (r: bool)
        ensures
            final(self).pending == one_less(old(self).pending),
            r == (final(self).pending == 0),
    {
        if self.pending > 1 {
            self.pending = self.pending - 1;
            false
        } else {
            self.pending = 0;
            true
        }
    }

    pub fn cancel(&mut self)
        ensures
            final(self).pending == 0,
    {
        self.pending = 0;
    }
}

/// The number after a number, beginning anew behind the largest.
pub open spec fn next_number(generation: u64) -> u64 {
    if generation == u64::MAX {
        0
    } else {
        (generation + 1) as u64
    }
}

fn number_after(generation: u64) -> (r: u64)
    ensures
        r == next_number(generation),
{
    if generation == u64::MAX {
        0
    } else {
        generation + 1
    }
}

/// A refresh of the page of a security that was started from the keyboard.
pub struct DetailShortcutRefresh {
    pub active: bool,
    pub generation: u64,
    pub pending: u8,
}

impl DetailShortcutRefresh {
    pub fn new() -> (r: Self)
        ensures
            !r.active,
            r.generation == 0,
            r.pending == 0,
    {
        DetailShortcutRefresh { active: false, generation: 0, pending: 0 }
    }

    /// Starts, unless a refresh is running.
    pub fn begin(&mut self, pending: u8) -> (r: bool)
        ensures
            r == !old(self).active,
            r ==> final(self).active && final(self).generation == next_number(
                old(self).generation,
            ) && final(self).pending == at_least_one(pending),
            !r ==> *final(self) == *old(self),
    {
        if self.active {
            return false;
        }
        self.pending = if pending == 0 {
            1
        } else {
            pending
        };
        self.generation = number_after(self.generation);
        self.active = true;
        true
    }

    /// One task is done. Where that ends a running refresh, its number is given, for the
    /// line that then fades.
    pub fn complete(&mut self) -> (r: Option<u64>)
        ensures
            final(self).pending == one_less(old(self).pending),
            final(self).generation == old(self).generation,
            final(self).active == (old(self).active && old(self).pending > 1),
            r == if old(self).active && old(self).pending <= 1 {
                Some(old(self).generation)
            } else {
                None
            },
    {
        if self.pending > 1 {
            self.pending = self.pending - 1;
            return None;
        }
        self.pending = 0;
        if !self.active {
            return None;
        }
        self.active = false;
        Some(self.generation)
    }

    /// The line of this refresh still grows.
    pub fn grows(&self, generation: u64) -> (r: bool)
        ensures
            r == (self.active && self.generation == generation),
    {
        self.active && self.generation == generation
    }

    /// The line of this refresh may still fade: no newer one has begun.
    pub fn fades(&self, generation: u64) -> (r: bool)
        ensures
            r == (!self.active && self.generation == generation),
    {
        !self.active && self.generation == generation
    }
}

/// What the end of a task did.
#[derive(Clone, Copy, PartialEq, Eq, Structural)]
pub enum TaskEnd {
    Pull { finished: bool },
    Shortcut { fading: Option<u64> },
}

/// A task of the page of a security is done: it counts for the pull, if one is running,
/// and else for the shortcut.
pub fn complete_detail_refresh(
    pull: &mut DetailPullRefresh,
    shortcut: &mut DetailShortcutRefresh,
) -> (r: TaskEnd)
    ensures
        old(pull).pending > 0 ==> final(pull).pending == one_less(old(pull).pending)
            && *final(shortcut) == *old(shortcut) && r == (TaskEnd::Pull {
            finished: final(pull).pending == 0,
        }),
        old(pull).pending == 0 ==> *final(pull) == *old(pull) && final(shortcut).pending == one_less(
            old(shortcut).pending,
        ) && final(shortcut).generation == old(shortcut).generation && final(shortcut).active == (
        old(shortcut).active && old(shortcut).pending > 1) && r == (TaskEnd::Shortcut {
            fading: if old(shortcut).active && old(shortcut).pending <= 1 {
                Some(old(shortcut).generation)
            } else {
                None
            },
        }),
{
    if pull.pending > 0 {
        TaskEnd::Pull { finished: pull.complete() }
    } else {
        TaskEnd::Shortcut { fading: shortcut.complete() }
    }
}

/// A refresh of the page of a security is asked for from the keyboard: it starts where
/// no pull and no other such refresh is running.
pub fn begin_detail_refresh(
    pull: &DetailPullRefresh,
    shortcut: &mut DetailShortcutRefresh,
    tasks: u8,
) -> (r: bool)
    ensures
        r == (pull.pending == 0 && !old(shortcut).active),
        r ==> final(shortcut).active && final(shortcut).generation == next_number(
            old(shortcut).generation,
        ) && final(shortcut).pending == at_least_one(tasks),
        !r ==> *final(shortcut) == *old(shortcut),
{
    if pull.pending > 0 {
        return false;
    }
    shortcut.begin(tasks)
}

/// A drag over a page.
pub struct DragPull {
    pub can_pull: bool,
    pub pulling: bool,
    pub armed: bool,
}

/// What the movement of a drag does.
#[derive(Clone, Copy, PartialEq, Eq, Structural)]
pub enum DragMove {
    /// The drag is not for this page.
    Ignored,
    /// It is not known yet whether this is a pull.
    Waiting,
    /// The drag is a pull from now on.
    Claimed,
    /// The pull goes on.
    Followed,
}

/// What the end of a drag does.
#[derive(Clone, Copy, PartialEq, Eq, Structural)]
pub enum DragEnd {
    Nothing,
    Refresh,
    Withdraw,
}

impl DragPull {
    /// A drag is armed only while it is a pull, and a pull only where one may begin.
    pub open spec fn well_formed(self) -> bool {
        &&& self.armed ==> self.pulling
        &&& self.pulling ==> self.can_pull
    }

    pub fn new() -> (r: Self)
        ensures
            r.well_formed(),
            !r.can_pull,
            !r.pulling,
            !r.armed,
    {
        DragPull { can_pull: false, pulling: false, armed: false }
    }

    /// A drag begins. It may become a pull where nothing is being refreshed and the page
    /// is at its top.
    pub fn begin(&mut self, busy: bool, at_top: bool)
        ensures
            final(self).well_formed(),
            final(self).can_pull == (!busy && at_top),
            !final(self).pulling,
            !final(self).armed,
    {
        self.can_pull = !busy && at_top;
        self.pulling = false;
        self.armed = false;
    }

    /// A drag moves. `held_back` says that it does not lead clearly downwards; `far` that
    /// it has gone far enough for a refresh.
    pub fn update(&mut self, held_back: bool, far: bool) -> (r: DragMove)
        requires
            old(self).well_formed(),
        ensures
            final(self).well_formed(),
            final(self).can_pull == old(self).can_pull,
            r == if !old(self).can_pull {
                DragMove::Ignored
            } else if old(self).pulling {
                DragMove::Followed
            } else if held_back {
                DragMove::Waiting
            } else {
                DragMove::Claimed
            },
            final(self).pulling == (r == DragMove::Followed || r == DragMove::Claimed),
            final(self).armed == (final(self).pulling && far),
    {
        if !self.can_pull {
            return DragMove::Ignored;
        }
        let mut moved = DragMove::Followed;
        if !self.pulling {
            if held_back {
                self.armed = false;
                return DragMove::Waiting;
            }
            self.pulling = true;
            moved = DragMove::Claimed;
        }
        self.armed = far;
        moved
    }

    /// A drag ends.
    pub fn end(&mut self) -> (r: DragEnd)
        ensures
            final(self).well_formed(),
            !final(self).can_pull,
            !final(self).pulling,
            !final(self).armed,
            r == if !old(self).can_pull {
                DragEnd::Nothing
            } else if old(self).armed {
                DragEnd::Refresh
            } else {
                DragEnd::Withdraw
            },
    {
        self.pulling = false;
        let could = self.can_pull;
        self.can_pull = false;
        let armed = self.armed;
        self.armed = false;
        if !could {
            DragEnd::Nothing
        } else if armed {
            DragEnd::Refresh
        } else {
            DragEnd::Withdraw
        }
    }
}

/// The refresh of the window: by pulling, or from the keyboard.
pub struct WindowRefresh {
    pub pull_active: bool,
    pub shortcut_active: bool,
    pub shortcut_generation: u64,
}

/// What the end of a refresh does.
#[derive(Clone, Copy, PartialEq, Eq, Structural)]
pub enum Feedback {
    /// The pulled page is let go, after a moment.
    Pull,
    /// The line of this number is completed, and then fades.
    Line(u64),
    Nothing,
}

impl WindowRefresh {
    /// Starts the line of a refresh, and gives its number; a pull shows no line.
    pub fn begin_shortcut_refresh(&mut self) -> (r: Option<u64>)
        ensures
            final(self).pull_active == old(self).pull_active,
            old(self).pull_active ==> r is None && *final(self) == *old(self),
            !old(self).pull_active ==> r == Some(final(self).shortcut_generation)
                && final(self).shortcut_active && final(self).shortcut_generation == next_number(
                old(self).shortcut_generation,
            ),
    {
        if self.pull_active {
            return None;
        }
        self.shortcut_generation = number_after(self.shortcut_generation);
        self.shortcut_active = true;
        Some(self.shortcut_generation)
    }

    /// Ends the line of a refresh.
    pub fn finish_shortcut_refresh(&mut self) -> (r: Option<u64>)
        ensures
            final(self).pull_active == old(self).pull_active,
            final(self).shortcut_generation == old(self).shortcut_generation,
            !final(self).shortcut_active,
            r == if old(self).shortcut_active {
                Some(old(self).shortcut_generation)
            } else {
                None
            },
    {
        if !self.shortcut_active {
            return None;
        }
        self.shortcut_active = false;
        Some(self.shortcut_generation)
    }

    /// A refresh is over: the pull ends, if there is one, and else the line.
    pub fn finish_refresh_feedback(&mut self) -> (r: Feedback)
        ensures
            final(self).pull_active == old(self).pull_active,
            final(self).shortcut_generation == old(self).shortcut_generation,
            final(self).shortcut_active == (old(self).pull_active && old(self).shortcut_active),
            r == if old(self).pull_active {
                Feedback::Pull
            } else if old(self).shortcut_active {
                Feedback::Line(old(self).shortcut_generation)
            } else {
                Feedback::Nothing
            },
    {
        if self.pull_active {
            return Feedback::Pull;
        }
        match self.finish_shortcut_refresh() {
            Some(generation) => Feedback::Line(generation),
            None => Feedback::Nothing,
        }
    }

    /// The moment after a pull is over. Says whether the page is to be let go.
    pub fn finish_pull_refresh(&mut self) -> (r: bool)
        ensures
            r == old(self).pull_active,
            !final(self).pull_active,
            final(self).shortcut_active == old(self).shortcut_active,
            final(self).shortcut_generation == old(self).shortcut_generation,
    {
        let was = self.pull_active;
        self.pull_active = false;
        was
    }

    /// The line of this number still grows.
    pub fn line_grows(&self, generation: u64) -> (r: bool)
        ensures
            r == (self.shortcut_active && self.shortcut_generation == generation),
    {
        self.shortcut_active && self.shortcut_generation == generation
    }

    /// The line of this number may still fade.
    pub fn line_fades(&self, generation: u64) -> (r: bool)
        ensures
            r == (!self.shortcut_active && self.shortcut_generation == generation),
    {
        !self.shortcut_active && self.shortcut_generation == generation
    }

    /// Decides what a request to refresh does.
    pub fn request(&mut self, detail_open: bool, page: &str) -> (r: RefreshRequest)
        ensures
            r == requested(
                detail_open,
                old(self).pull_active,
                old(self).shortcut_active,
                page@,
            ),
            final(self).pull_active == old(self).pull_active,
            r is Page && !old(self).pull_active ==> final(self).shortcut_active
                && final(self).shortcut_generation == next_number(old(self).shortcut_generation),
            !(r is Page && !old(self).pull_active) ==> *final(self) == *old(self),
    {
        if detail_open {
            return RefreshRequest::Detail;
        }
        if !self.pull_active {
            if self.shortcut_active {
                return RefreshRequest::Busy;
            }
            let _line = self.begin_shortcut_refresh();
        }
        RefreshRequest::Page(refresh_of_page(page))
    }
}

/// What is refreshed on a page.
#[derive(Clone, Copy, PartialEq, Eq, Structural)]
pub enum PageRefresh {
    /// Prices, and the exchange rate.
    Market,
    Dividends,
    Nothing,
    Watchlist,
    /// Prices, the exchange rate, distributions, and the portfolio's history.
    Overview,
}

/// What a request to refresh does.
#[derive(Clone, Copy, PartialEq, Eq, Structural)]
pub enum RefreshRequest {
    /// The page of a security refreshes itself.
    Detail,
    /// A refresh is running.
    Busy,
    Page(PageRefresh),
}

pub open spec fn page_refresh(page: Seq<char>) -> PageRefresh {
    if page == "accounts"@ {
        PageRefresh::Market
    } else if page == "dividends"@ {
        PageRefresh::Dividends
    } else if page == "search"@ {
        PageRefresh::Nothing
    } else if page == "watchlist"@ {
        PageRefresh::Watchlist
    } else if page == "overview"@ {
        PageRefresh::Overview
    } else {
        PageRefresh::Market
    }
}

pub open spec fn requested(
    detail_open: bool,
    pull_active: bool,
    shortcut_active: bool,
    page: Seq<char>,
) -> RefreshRequest {
    if detail_open {
        RefreshRequest::Detail
    } else if !pull_active && shortcut_active {
        RefreshRequest::Busy
    } else {
        RefreshRequest::Page(page_refresh(page))
    }
}

pub fn refresh_of_page(page: &str) -> (r: PageRefresh)
    ensures
        r == page_refresh(page@),
{
    if text::same_text(page, "accounts") {
        PageRefresh::Market
    } else if text::same_text(page, "dividends") {
        PageRefresh::Dividends
    } else if text::same_text(page, "search") {
        PageRefresh::Nothing
    } else if text::same_text(page, "watchlist") {
        PageRefresh::Watchlist
    } else if text::same_text(page, "overview") {
        PageRefresh::Overview
    } else {
        PageRefresh::Market
    }
}

/// Requests of one kind, of which only the answer to the newest counts.
pub struct Requests {
    pub generation: u64,
}

impl Requests {
    /// Makes a request, and gives its number.
    pub fn start(&mut self) -> (r: u64)
        ensures
            r == next_number(old(self).generation),
            final(self).generation == r,
    {
        self.generation = number_after(self.generation);
        self.generation
    }

    pub fn is_newest(&self, generation: u64) -> (r: bool)
        ensures
            r == (self.generation == generation),
    {
        self.generation == generation
    }
}

/// Whatever was asked before, the answer to it no longer counts once another request is
/// made.
pub proof fn newer_request_outdates(generation: u64)
    ensures
        next_number(generation) != generation,
{
}

/// How a refresh of lists starts: not at all where there is nothing to refresh.
#[derive(Clone, Copy, PartialEq, Eq, Structural)]
pub enum ListRefresh {
    /// Nothing to do, and nothing to say.
    Silent,
    /// The refresh is over at once; there is something to say about it.
    Told,
    Fetch,
}

pub fn list_refresh(items: usize, announce: bool) -> (r: ListRefresh)
    ensures
        r == if items > 0 {
            ListRefresh::Fetch
        } else if announce {
            ListRefresh::Told
        } else {
            ListRefresh::Silent
        },
{
    if items > 0 {
        ListRefresh::Fetch
    } else if announce {
        ListRefresh::Told
    } else {
        ListRefresh::Silent
    }
}

/// What a refresh of distributions announces.
pub open spec fn dividends_announcement(announce: bool, failures: int, loaded: int) -> Option<Seq<char>> {
    if !announce || failures == 0 {
        None
    } else if loaded == 0 {
        Some("Could not refresh dividend data"@)
    } else {
        Some("Some dividend data could not be updated"@)
    }
}

pub fn dividends_message(announce: bool, failures: usize, loaded: usize) -> (r: Option<&'static str>)
    ensures
        charts::label_view(r) == dividends_announcement(announce, failures as int, loaded as int),
{
    if !announce || failures == 0 {
        None
    } else if loaded == 0 {
        Some("Could not refresh dividend data")
    } else {
        Some("Some dividend data could not be updated")
    }
}

/// What a refresh of the watchlist announces.
pub open spec fn watchlist_announcement(announce: bool, failures: int, loaded: int) -> Option<Seq<char>> {
    if !announce || failures == 0 {
        None
    } else if loaded == 0 {
        Some("Could not refresh watchlist data"@)
    } else {
        Some("Some watchlist data could not be updated"@)
    }
}

pub fn watchlist_message(announce: bool, failures: usize, loaded: usize) -> (r: Option<&'static str>)
    ensures
        charts::label_view(r) == watchlist_announcement(announce, failures as int, loaded as int),
{
    if !announce || failures == 0 {
        None
    } else if loaded == 0 {
        Some("Could not refresh watchlist data")
    } else {
        Some("Some watchlist data could not be updated")
    }
}

/// The outcome of a refresh of prices.
#[derive(Clone, Copy)]
pub struct MarketOutcome {
    pub quotes: usize,
    pub failures: usize,
    /// Failures for want of a network.
    pub network_failures: usize,
    pub quotes_attempted: bool,
    pub fx_attempted: bool,
    pub fx_failed: bool,
}

/// What a refresh of prices announces.
pub open spec fn market_announcement(o: MarketOutcome) -> Option<Seq<char>> {
    if !o.quotes_attempted && o.fx_attempted && o.fx_failed {
        Some("Could not refresh exchange rate"@)
    } else if o.quotes == 0 && o.failures > 0 {
        if o.network_failures == o.failures {
            Some("Network unavailable · using cached prices"@)
        } else {
            Some("Quotes unavailable · using cached prices"@)
        }
    } else if o.failures > 0 {
        if o.fx_failed {
            Some("Some prices and the exchange rate could not be updated"@)
        } else {
            Some("Some prices could not be updated · stale values may remain"@)
        }
    } else if o.fx_failed {
        Some("Exchange rate could not be updated"@)
    } else {
        None
    }
}

pub fn market_message(outcome: &MarketOutcome) -> (r: Option<&'static str>)
    ensures
        charts::label_view(r) == market_announcement(*outcome),
{
    if !outcome.quotes_attempted && outcome.fx_attempted && outcome.fx_failed {
        Some("Could not refresh exchange rate")
    } else if outcome.quotes == 0 && outcome.failures > 0 && outcome.network_failures
        == outcome.failures {
        Some("Network unavailable · using cached prices")
    } else if outcome.quotes == 0 && outcome.failures > 0 {
        Some("Quotes unavailable · using cached prices")
    } else if outcome.failures > 0 && outcome.fx_failed {
        Some("Some prices and the exchange rate could not be updated")
    } else if outcome.failures > 0 {
        Some("Some prices could not be updated · stale values may remain")
    } else if outcome.fx_failed {
        Some("Exchange rate could not be updated")
    } else {
        None
    }
}

/// A refresh of prices says nothing exactly where nothing failed, as long as a failed
/// exchange rate was asked for.
pub proof fn silence_means_success(o: MarketOutcome)
    ensures
        market_announcement(o) is None <==> o.failures == 0 && !o.fx_failed,
{
}

/// What is refreshed when the window opens.
#[derive(Clone, Copy, PartialEq, Eq, Structural)]
pub struct StartupPlan {
    pub history: bool,
    pub market: bool,
    pub fetch_fx: bool,
    pub dividends: bool,
}

pub fn startup_plan(
    transactions: usize,
    cash_entries: usize,
    stale_quotes: usize,
    needs_fx: bool,
    fx_stale: bool,
    stale_dividends: usize,
) -> (r: StartupPlan)
    ensures
        r.history == (transactions > 0 || cash_entries > 0),
        r.fetch_fx == (needs_fx && fx_stale),
        r.market == (stale_quotes > 0 || r.fetch_fx),
        r.dividends == (stale_dividends > 0),
{
    let fetch_fx = needs_fx && fx_stale;
    StartupPlan {
        history: transactions > 0 || cash_entries > 0,
        market: stale_quotes > 0 || fetch_fx,
        fetch_fx,
        dividends: stale_dividends > 0,
    }
}

/// The symbol that a request for prices goes to.
pub open spec fn target_symbol(symbol: Seq<char>) -> Seq<char> {
    text::uppercase(text::trimmed(symbol))
}

/// The symbols that requests go to, in the order in which they first occur.
pub open spec fn target_symbols(symbols: Seq<Seq<char>>) -> Seq<Seq<char>>
    decreases symbols.len(),
{
    if symbols.len() == 0 {
        Seq::empty()
    } else {
        let before = target_symbols(symbols.drop_last());
        let last = target_symbol(symbols.last());
        if last.len() == 0 || before.contains(last) {
            before
        } else {
            before.push(last)
        }
    }
}

/// The holdings that a price is for.
pub open spec fn target_ids(symbols: Seq<Seq<char>>, ids: Seq<i64>, target: Seq<char>) -> Seq<i64>
    decreases symbols.len(),
{
    if symbols.len() == 0 {
        Seq::empty()
    } else {
        let before = target_ids(symbols.drop_last(), ids, target);
        if target_symbol(symbols.last()) == target {
            before.push(ids[symbols.len() - 1])
        } else {
            before
        }
    }
}

/// One request for a price, and the holdings that it is for.
pub struct QuoteTarget {
    pub symbol: String,
    pub ids: Vec<i64>,
}

pub open spec fn target_views(targets: Seq<QuoteTarget>) -> Seq<Seq<char>> {
    Seq::new(targets.len(), |k: int| targets[k].symbol@)
}

fn find_target(targets: &Vec<QuoteTarget>, symbol: &str) -> (r: Option<usize>)
    ensures
        match r {
            Some(k) => k < targets@.len() && targets@[k as int].symbol@ == symbol@,
            None => !target_views(targets@).contains(symbol@),
        },
{
    let mut k: usize = 0;
    while k < targets.len()
        invariant
            k <= targets@.len(),
            forall|q: int| 0 <= q < k ==> (#[trigger] targets@[q]).symbol@ != symbol@,
        decreases targets@.len() - k,
    {
        if text::same_text(targets[k].symbol.as_str(), symbol) {
            return Some(k);
        }
        k += 1;
    }
    proof {
        if target_views(targets@).contains(symbol@) {
            let q = choose|q: int| 0 <= q < targets@.len() && target_views(targets@)[q] == symbol@;
            assert(targets@[q].symbol@ == symbol@);
        }
    }
    None
}

/// Groups holdings by the price that they need, so that each price is asked for once.
#[verifier::loop_isolation(false)]
pub fn quote_targets(symbols: &Vec<String>, ids: &Vec<i64>) -> (r: Vec<QuoteTarget>)
    requires
        symbols@.len() == ids@.len(),
    ensures
        target_views(r@) == target_symbols(text::views(symbols@)),
        forall|k: int|
            0 <= k < r@.len() ==> (#[trigger] r@[k]).ids@ == target_ids(
                text::views(symbols@),
                ids@,
                r@[k].symbol@,
            ),
{
    let ghost all = text::views(symbols@);
    let mut r: Vec<QuoteTarget> = Vec::new();
    let mut i: usize = 0;
    assert(all.take(0) =~= Seq::empty());
    assert(target_views(r@) =~= Seq::empty());
    while i < symbols.len()
        invariant
            i <= symbols@.len(),
            target_views(r@) == target_symbols(all.take(i as int)),
            target_views(r@).no_duplicates(),
            forall|k: int|
                0 <= k < r@.len() ==> (#[trigger] r@[k]).ids@ == target_ids(
                    all.take(i as int),
                    ids@,
                    r@[k].symbol@,
                ),
            forall|t: Seq<char>|
                t.len() > 0 && !target_symbols(all.take(i as int)).contains(t)
                    ==> #[trigger] target_ids(all.take(i as int), ids@, t) =~= Seq::empty(),
        decreases symbols@.len() - i,
    {
        let ghost head = all.take(i as int);
        let ghost longer = all.take(i + 1);
        assert(longer.drop_last() =~= head);
        assert(longer.last() == symbols@[i as int]@);
        let symbol = text::to_upper(text::trim(symbols[i].as_str()).as_str());
        let ghost own = symbol@;
        let ghost before = r@;
        let chars = text::chars_of(symbol.as_str());
        if chars.len() > 0 {
            match find_target(&r, symbol.as_str()) {
                Some(k) => {
                    assert(target_views(r@)[k as int] == own);
                    assert(target_views(before).contains(own));
                    let mut list: Vec<i64> = Vec::new();
                    let mut q: usize = 0;
                    while q < r[k].ids.len()
                        invariant
                            k < r@.len(),
                            r@ == before,
                            q <= r@[k as int].ids@.len(),
                            list@ == r@[k as int].ids@.take(q as int),
                        decreases r@[k as int].ids@.len() - q,
                    {
                        list.push(r[k].ids[q]);
                        q += 1;
                    }
                    assert(list@ =~= before[k as int].ids@);
                    list.push(ids[i]);
                    r[k] = QuoteTarget { symbol, ids: list };
                    proof {
                        assert(target_views(r@) =~= target_views(before));
                        assert forall|g: int| 0 <= g < r@.len() implies (#[trigger] r@[g]).ids@
                            == target_ids(longer, ids@, r@[g].symbol@) by {
                            if g != k {
                                assert(target_views(before)[g] != target_views(before)[k as int]);
                                assert(r@[g] == before[g]);
                                assert(before[g].symbol@ != own);
                            }
                        }
                    }
                },
                None => {
                    let mut list: Vec<i64> = Vec::new();
                    list.push(ids[i]);
                    r.push(QuoteTarget { symbol, ids: list });
                    proof {
                        assert(target_views(r@) =~= target_views(before).push(own));
                        assert(target_ids(head, ids@, own) =~= Seq::empty());
                        assert forall|g: int| 0 <= g < r@.len() implies (#[trigger] r@[g]).ids@
                            == target_ids(longer, ids@, r@[g].symbol@) by {
                            if g < before.len() {
                                assert(r@[g] == before[g]);
                                assert(target_views(before)[g] == before[g].symbol@);
                                assert(before[g].symbol@ != own);
                            } else {
                                assert(r@[g].ids@ =~= seq![ids@[i as int]]);
                            }
                        }
                    }
                },
            }
        } else {
            proof {
                assert forall|g: int| 0 <= g < r@.len() implies (#[trigger] r@[g]).ids@
                    == target_ids(longer, ids@, r@[g].symbol@) by {
                    let name = target_views(r@)[g];
                    named_target_is_not_empty(head, g);
                    assert(name.len() > 0);
                }
            }
        }
        proof {
            assert forall|t: Seq<char>|
                t.len() > 0 && !target_symbols(longer).contains(t) implies #[trigger] target_ids(
                longer,
                ids@,
                t,
            ) =~= Seq::empty() by {
                if own.len() > 0 {
                    if target_symbols(head).contains(own) {
                    } else {
                        assert(target_symbols(longer) == target_symbols(head).push(own));
                        assert(target_symbols(longer)[target_symbols(head).len() as int] == own);
                    }
                }
                assert(t != own);
                if target_symbols(head).contains(t) {
                    let q = choose|q: int|
                        0 <= q < target_symbols(head).len() && target_symbols(head)[q] == t;
                    assert(target_symbols(longer)[q] == t);
                }
                assert(target_ids(head, ids@, t) =~= Seq::empty());
            }
        }
        i += 1;
    }
    assert(all.take(i as int) =~= all);
    r
}

proof fn named_target_is_not_empty(symbols: Seq<Seq<char>>, g: int)
    requires
        0 <= g < target_symbols(symbols).len(),
    ensures
        target_symbols(symbols)[g].len() > 0,
    decreases symbols.len(),
{
    if symbols.len() > 0 {
        let before = target_symbols(symbols.drop_last());
        if g < before.len() {
            named_target_is_not_empty(symbols.drop_last(), g);
        }
    }
}

pub open spec fn differs(before: Seq<String>, after: Seq<String>) -> spec_fn(int) -> bool {
    |i: int| before[i]@ != after[i]@
}

/// The labels whose text a refresh has changed. Only these are faded over; what stays the
/// same stays still.
#[verifier::loop_isolation(false)]
pub fn changed_labels(before: &Vec<String>, after: &Vec<String>) -> (r: Vec<usize>)
    requires
        before@.len() == after@.len(),
    ensures
        r@ == order::selection(before@.len() as int, differs(before@, after@)),
{
    let mut keep: Vec<bool> = Vec::new();
    let mut i: usize = 0;
    while i < before.len()
        invariant
            i <= before@.len(),
            keep@.len() == i,
            forall|k: int| 0 <= k < i ==> #[trigger] keep@[k] == differs(before@, after@)(k),
        decreases before@.len() - i,
    {
        keep.push(!text::same_text(before[i].as_str(), after[i].as_str()));
        i += 1;
    }
    let r = order::select(&keep);
    proof {
        order::is_selection(r@, before@.len() as int, |i: int| keep@[i], differs(before@, after@));
    }
    r
}

/// A refresh has at least one task, and each request a number above the one before it, until
/// the numbers begin again.
pub proof fn refresh_has_a_task(pending: u8, generation: u64)
    ensures
        at_least_one(pending) >= 1,
        pending >= 1 ==> at_least_one(pending) == pending,
        at_least_one(0) == 1,
        generation < u64::MAX ==> next_number(generation) == generation + 1,
        next_number(u64::MAX) == 0,
{
}

/// What a page refreshes: each its own data, the search nothing, and any other the market.
pub proof fn pages_refresh_their_data(page: Seq<char>)
    ensures
        page_refresh(page) == PageRefresh::Dividends <==> page == "dividends"@,
        page_refresh(page) == PageRefresh::Watchlist <==> page == "watchlist"@,
        page_refresh(page) == PageRefresh::Overview <==> page == "overview"@,
        page_refresh(page) == PageRefresh::Nothing <==> page == "search"@,
        page_refresh("accounts"@) == PageRefresh::Market,
{
    crate::navigation::pages_by_name();
}

/// An open security is refreshed before any page. A page waits only for a refresh that was
/// started by a key, unless it was pulled down.
pub proof fn open_security_is_refreshed_first(
    pull_active: bool,
    shortcut_active: bool,
    page: Seq<char>,
)
    ensures
        requested(true, pull_active, shortcut_active, page) == RefreshRequest::Detail,
        requested(false, false, true, page) == RefreshRequest::Busy,
        requested(false, true, shortcut_active, page) == RefreshRequest::Page(page_refresh(page)),
        requested(false, pull_active, false, page) == RefreshRequest::Page(page_refresh(page)),
{
}

/// A refresh of dividends or of the watchlist is announced where it was asked for and failed,
/// in part or as a whole.
pub proof fn failures_are_announced_when_asked(announce: bool, failures: int, loaded: int)
    ensures
        dividends_announcement(announce, failures, loaded) is Some <==> announce && failures != 0,
        watchlist_announcement(announce, failures, loaded) is Some <==> announce && failures != 0,
        failures != 0 && loaded != 0 ==> {
            &&& dividends_announcement(true, failures, loaded) == Some(
                "Some dividend data could not be updated"@,
            )
            &&& watchlist_announcement(true, failures, loaded) == Some(
                "Some watchlist data could not be updated"@,
            )
        },
        failures != 0 ==> {
            &&& dividends_announcement(true, failures, 0) == Some(
                "Could not refresh dividend data"@,
            )
            &&& watchlist_announcement(true, failures, 0) == Some(
                "Could not refresh watchlist data"@,
            )
        },
{
}

/// What a refresh of prices announces of what failed: the rate alone, all of the prices, some
/// of them, or some of them and the rate. The network is to blame where it is for each.
pub proof fn failed_prices_and_rates_are_told_apart(o: MarketOutcome)
    ensures
        o.quotes_attempted && o.quotes == 0 && o.failures > 0 && o.network_failures == o.failures
            ==> market_announcement(o) == Some("Network unavailable · using cached prices"@),
        o.quotes_attempted && o.quotes == 0 && o.failures > 0 && o.network_failures != o.failures
            ==> market_announcement(o) == Some("Quotes unavailable · using cached prices"@),
        o.quotes_attempted && o.quotes > 0 && o.failures > 0 && !o.fx_failed ==> market_announcement(
            o,
        ) == Some("Some prices could not be updated · stale values may remain"@),
        o.quotes_attempted && o.quotes > 0 && o.failures > 0 && o.fx_failed ==> market_announcement(
            o,
        ) == Some("Some prices and the exchange rate could not be updated"@),
        o.quotes_attempted && o.failures == 0 && o.fx_failed ==> market_announcement(o) == Some(
            "Exchange rate could not be updated"@,
        ),
        !o.quotes_attempted && o.fx_attempted && o.fx_failed ==> market_announcement(o) == Some(
            "Could not refresh exchange rate"@,
        ),
{
}

/// Every symbol that is not blank is asked for once, in upper case and without blanks round
/// it; and nothing else is.
pub proof fn every_symbol_is_asked_for_once(symbols: Seq<Seq<char>>, symbol: Seq<char>)
    ensures
        target_symbols(symbols).no_duplicates(),
        target_symbols(symbols).contains(symbol) <==> symbol.len() > 0 && exists|i: int|
            0 <= i < symbols.len() && symbol == text::uppercase(
                text::trimmed(#[trigger] symbols[i]),
            ),
    decreases symbols.len(),
{
    if symbols.len() > 0 {
        let before = symbols.drop_last();
        let n = symbols.len() - 1;
        let last = text::uppercase(text::trimmed(symbols.last()));
        let old_list = target_symbols(before);
        let list = target_symbols(symbols);
        every_symbol_is_asked_for_once(before, symbol);
        every_symbol_is_asked_for_once(before, last);
        assert(symbols[n] == symbols.last());
        assert forall|i: int| 0 <= i < n implies #[trigger] symbols[i] == before[i] by {}
        if exists|i: int|
            0 <= i < before.len() && symbol == text::uppercase(text::trimmed(#[trigger] before[i])) {
            let i = choose|i: int|
                0 <= i < before.len() && symbol == text::uppercase(
                    text::trimmed(#[trigger] before[i]),
                );
            assert(symbols[i] == before[i]);
        }
        if exists|i: int|
            0 <= i < symbols.len() && symbol == text::uppercase(
                text::trimmed(#[trigger] symbols[i]),
            ) {
            let i = choose|i: int|
                0 <= i < symbols.len() && symbol == text::uppercase(
                    text::trimmed(#[trigger] symbols[i]),
                );
            if i < n {
                assert(before[i] == symbols[i]);
            }
        }
        if last.len() > 0 && !old_list.contains(last) {
            assert(list =~= old_list.push(last));
            assert(list[old_list.len() as int] == last);
            if old_list.contains(symbol) {
                let k = choose|k: int| 0 <= k < old_list.len() && old_list[k] == symbol;
                assert(list[k] == symbol);
            }
            if list.contains(symbol) && symbol != last {
                let k = choose|k: int| 0 <= k < list.len() && list[k] == symbol;
                assert(old_list[k] == symbol);
            }
            assert forall|a: int, b: int|
                0 <= a < list.len() && 0 <= b < list.len() && a != b implies list[a] != list[b] by {
                if a == old_list.len() {
                    assert(old_list.contains(old_list[b]));
                } else if b == old_list.len() {
                    assert(old_list.contains(old_list[a]));
                }
            }
        }
    }
}

/// What is asked for under a symbol is asked for on behalf of every record that has it.
pub proof fn targets_stand_for_their_records(
    symbols: Seq<Seq<char>>,
    ids: Seq<i64>,
    target: Seq<char>,
    id: i64,
)
    requires
        symbols.len() == ids.len(),
    ensures
        target_ids(symbols, ids, target).contains(id) <==> exists|i: int|
            0 <= i < symbols.len() && text::uppercase(text::trimmed(#[trigger] symbols[i]))
                == target && ids[i] == id,
{
    ids_of_first(symbols, ids, target, id);
}

proof fn ids_of_first(symbols: Seq<Seq<char>>, ids: Seq<i64>, target: Seq<char>, id: i64)
    requires
        symbols.len() <= ids.len(),
    ensures
        target_ids(symbols, ids, target).contains(id) <==> exists|i: int|
            0 <= i < symbols.len() && text::uppercase(text::trimmed(#[trigger] symbols[i]))
                == target && ids[i] == id,
    decreases symbols.len(),
{
    if symbols.len() > 0 {
        let before = symbols.drop_last();
        let n = symbols.len() - 1;
        ids_of_first(before, ids, target, id);
        let old_list = target_ids(before, ids, target);
        let list = target_ids(symbols, ids, target);
        assert(symbols[n] == symbols.last());
        if list.contains(id) {
            let k = choose|k: int| 0 <= k < list.len() && list[k] == id;
            if k < old_list.len() {
                assert(old_list[k] == id);
                let i = choose|i: int|
                    0 <= i < before.len() && text::uppercase(text::trimmed(#[trigger] before[i]))
                        == target && ids[i] == id;
                assert(symbols[i] == before[i]);
            }
        }
        if exists|i: int|
            0 <= i < symbols.len() && text::uppercase(text::trimmed(#[trigger] symbols[i]))
                == target && ids[i] == id {
            let i = choose|i: int|
                0 <= i < symbols.len() && text::uppercase(text::trimmed(#[trigger] symbols[i]))
                    == target && ids[i] == id;
            if i < n {
                assert(before[i] == symbols[i]);
                let k = choose|k: int| 0 <= k < old_list.len() && old_list[k] == id;
                assert(list[k] == id);
            } else {
                assert(list[old_list.len() as int] == id);
            }
        }
    }
}

} // verus!
