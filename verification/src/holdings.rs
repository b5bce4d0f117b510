//! The holdings and the balances of cash that a stream of events builds up.
//!
//! Events are named by their places in the stream. A holding is opened by the first trade
//! of a security, in an account or in the portfolio, and is named by the place of that
//! trade.

use vstd::prelude::*;
use crate::ledger;
use crate::ledger::{Quantity, ShareStep};
use crate::model::{CashEntry, SplitEvent, Transaction};
use crate::order;
use crate::text;

verus! {

/// Where a security is held: in each account apart, or in the portfolio as a whole.
#[derive(Clone, Copy, PartialEq, Eq, Structural)]
pub enum Scope {
    Account,
    Portfolio,
}

pub open spec fn same_holding(scope: Scope, a: Transaction, b: Transaction) -> bool {
    (scope == Scope::Portfolio || a.account_id == b.account_id) && text::alike(
        a.provider_symbol@,
        b.provider_symbol@,
    )
}

/// The event at a place is a trade, and none before it is of the same holding.
pub open spec fn opens_holding(
    scope: Scope,
    trades: Seq<Transaction>,
    events: Seq<usize>,
) -> spec_fn(int) -> bool {
    |k: int|
        events[k] < trades.len() && forall|q: int|
            0 <= q < k && #[trigger] events[q] < trades.len() ==> !same_holding(
                scope,
                trades[events[q] as int],
                trades[events[k] as int],
            )
}

/// The event at a place concerns the holding that was opened at another: it is a trade of
/// it, or a later split of its security.
pub open spec fn concerns_holding(
    scope: Scope,
    trades: Seq<Transaction>,
    splits: Seq<SplitEvent>,
    events: Seq<usize>,
    opening: int,
) -> spec_fn(int) -> bool {
    |k: int|
        opening <= k && if events[k] < trades.len() {
            same_holding(scope, trades[events[opening] as int], trades[events[k] as int])
        } else {
            text::alike(
                trades[events[opening] as int].provider_symbol@,
                splits[events[k] - trades.len()].provider_symbol@,
            )
        }
}

/// The events at the given places.
pub open spec fn at_places(events: Seq<usize>, places: Seq<usize>) -> Seq<usize> {
    Seq::new(places.len(), |i: int| events[places[i] as int])
}

/// The life of a holding: where it was opened, the places of the events that concern it,
/// and what each of them does to it.
pub struct HoldingPlan {
    pub opening: usize,
    pub places: Vec<usize>,
    pub steps: Vec<ShareStep>,
}

pub open spec fn is_holding_plan(
    plan: HoldingPlan,
    scope: Scope,
    trades: Seq<Transaction>,
    splits: Seq<SplitEvent>,
    events: Seq<usize>,
) -> bool {
    &&& plan.places@ == order::selection(
        events.len() as int,
        concerns_holding(scope, trades, splits, events, plan.opening as int),
    )
    &&& plan.steps@ == ledger::event_steps(trades, at_places(events, plan.places@))
}

/// The plans of all holdings, by the order of their opening.
pub open spec fn are_holdings(
    plans: Seq<HoldingPlan>,
    scope: Scope,
    trades: Seq<Transaction>,
    splits: Seq<SplitEvent>,
    events: Seq<usize>,
) -> bool {
    &&& Seq::new(plans.len(), |i: int| plans[i].opening) == order::selection(
        events.len() as int,
        opens_holding(scope, trades, events),
    )
    &&& forall|i: int|
        0 <= i < plans.len() ==> is_holding_plan(#[trigger] plans[i], scope, trades, splits, events)
}

/// The plans speak of places in a stream of the given length.
pub open spec fn plans_fit(plans: Seq<HoldingPlan>, len: int) -> bool {
    forall|i: int|
        0 <= i < plans.len() ==> plan_fits(#[trigger] plans[i], len)
}

pub open spec fn plan_fits(plan: HoldingPlan, len: int) -> bool {
    forall|k: int| 0 <= k < plan.places@.len() ==> #[trigger] plan.places@[k] < len
}

fn trades_same_holding(scope: Scope, a: &Transaction, b: &Transaction) -> (r: bool)
    ensures
        r == same_holding(scope, *a, *b),
{
    (scope == Scope::Portfolio || a.account_id == b.account_id) && text::same_letters(
        a.provider_symbol.as_str(),
        b.provider_symbol.as_str(),
    )
}

#[verifier::loop_isolation(false)]
fn openings(scope: Scope, transactions: &[Transaction], events: &Vec<usize>) -> (r: Vec<usize>)
    ensures
        r@ == order::selection(events@.len() as int, opens_holding(scope, transactions@, events@)),
        order::selected(r@, events@.len() as int, opens_holding(scope, transactions@, events@)),
{
    let ghost trades = transactions@;
    let mut keep: Vec<bool> = Vec::new();
    let mut k: usize = 0;
    while k < events.len()
        invariant
            k <= events@.len(),
            keep@.len() == k,
            forall|p: int| 0 <= p < k ==> #[trigger] keep@[p] == opens_holding(scope, trades, events@)(p),
        decreases events@.len() - k,
    {
        let mut fresh = events[k] < transactions.len();
        let mut q: usize = 0;
        while q < k
            invariant
                q <= k,
                fresh ==> events@[k as int] < trades.len(),
                fresh == (events@[k as int] < trades.len() && forall|p: int|
                    0 <= p < q && #[trigger] events@[p] < trades.len() ==> !same_holding(
                        scope,
                        trades[events@[p] as int],
                        trades[events@[k as int] as int],
                    )),
            decreases k - q,
        {
            if fresh && events[q] < transactions.len() && trades_same_holding(
                scope,
                &transactions[events[q]],
                &transactions[events[k]],
            ) {
                fresh = false;
            }
            q += 1;
        }
        keep.push(fresh);
        k += 1;
    }
    let r = order::select(&keep);
    proof {
        order::is_selection(
            r@,
            keep@.len() as int,
            |i: int| keep@[i],
            opens_holding(scope, trades, events@),
        );
    }
    r
}

#[verifier::loop_isolation(false)]
fn life_of(
    scope: Scope,
    transactions: &[Transaction],
    splits: &[SplitEvent],
    events: &Vec<usize>,
    opening: usize,
) -> (r: HoldingPlan)
    requires
        opening < events@.len(),
        events@[opening as int] < transactions@.len(),
        forall|k: int|
            0 <= k < events@.len() ==> #[trigger] events@[k] < transactions@.len() + splits@.len(),
    ensures
        r.opening == opening,
        is_holding_plan(r, scope, transactions@, splits@, events@),
        plan_fits(r, events@.len() as int),
{
    let ghost trades = transactions@;
    let ghost wanted = concerns_holding(scope, trades, splits@, events@, opening as int);
    let first = &transactions[events[opening]];
    let mut keep: Vec<bool> = Vec::new();
    let mut k: usize = 0;
    while k < events.len()
        invariant
            k <= events@.len(),
            keep@.len() == k,
            forall|p: int| 0 <= p < k ==> #[trigger] keep@[p] == wanted(p),
        decreases events@.len() - k,
    {
        let e: usize = events[k];
        let concerned = if k < opening {
            false
        } else if e < transactions.len() {
            trades_same_holding(scope, first, &transactions[e])
        } else {
            text::same_letters(
                first.provider_symbol.as_str(),
                splits[e - transactions.len()].provider_symbol.as_str(),
            )
        };
        keep.push(concerned);
        k += 1;
    }
    let places = order::select(&keep);
    proof {
        order::is_selection(places@, keep@.len() as int, |i: int| keep@[i], wanted);
    }
    let mut steps: Vec<ShareStep> = Vec::new();
    let mut i: usize = 0;
    while i < places.len()
        invariant
            i <= places@.len(),
            steps@.len() == i,
            forall|p: int|
                0 <= p < i ==> #[trigger] steps@[p] == ledger::event_step(
                    trades,
                    events@[places@[p] as int] as int,
                ),
        decreases places@.len() - i,
    {
        let e: usize = events[places[i]];
        if e < transactions.len() {
            let kind = ledger::activity_kind(transactions[e].transaction_type.as_str());
            steps.push(ledger::step_of_trade(kind, Quantity::Trade(e), false));
        } else {
            steps.push(ShareStep::Multiply(Quantity::Split(e - transactions.len())));
        }
        i += 1;
    }
    assert(steps@ =~= ledger::event_steps(trades, at_places(events@, places@)));
    HoldingPlan { opening, places, steps }
}

/// The holdings that trades and splits build up, by the order of their opening.
#[verifier::loop_isolation(false)]
pub fn holdings(
    scope: Scope,
    transactions: &[Transaction],
    splits: &[SplitEvent],
    events: &Vec<usize>,
) -> (r: Vec<HoldingPlan>)
    requires
        forall|k: int|
            0 <= k < events@.len() ==> #[trigger] events@[k] < transactions@.len() + splits@.len(),
    ensures
        are_holdings(r@, scope, transactions@, splits@, events@),
        plans_fit(r@, events@.len() as int),
{
    let first = openings(scope, transactions, events);
    let mut r: Vec<HoldingPlan> = Vec::new();
    let mut i: usize = 0;
    while i < first.len()
        invariant
            i <= first@.len(),
            r@.len() == i,
            plans_fit(r@, events@.len() as int),
            forall|p: int| 0 <= p < i ==> (#[trigger] r@[p]).opening == first@[p],
            forall|p: int|
                0 <= p < i ==> is_holding_plan(
                    #[trigger] r@[p],
                    scope,
                    transactions@,
                    splits@,
                    events@,
                ),
        decreases first@.len() - i,
    {
        r.push(life_of(scope, transactions, splits, events, first[i]));
        i += 1;
    }
    assert(Seq::new(r@.len(), |i: int| r@[i].opening) =~= first@);
    r
}

/// The last trade among the first of the given places, up to the place `count`.
pub open spec fn last_trade(
    trades: int,
    events: Seq<usize>,
    places: Seq<usize>,
    count: int,
) -> Option<usize>
    decreases places.len(),
{
    if places.len() == 0 {
        None
    } else if places.last() < count && events[places.last() as int] < trades {
        Some(events[places.last() as int])
    } else {
        last_trade(trades, events, places.drop_last(), count)
    }
}

/// The trade from which a holding has its names after `count` events of the stream: the
/// last one of its trades by then. Nothing where it is not open yet.
pub fn named_by(
    transactions: &[Transaction],
    events: &Vec<usize>,
    plan: &HoldingPlan,
    count: usize,
) -> (r: Option<usize>)
    requires
        forall|i: int| 0 <= i < plan.places@.len() ==> #[trigger] plan.places@[i] < events@.len(),
    ensures
        r == last_trade(transactions@.len() as int, events@, plan.places@, count as int),
        r matches Some(t) ==> t < transactions@.len(),
{
    let ghost places = plan.places@;
    let mut n: usize = plan.places.len();
    assert(places.take(n as int) =~= places);
    while n > 0
        invariant
            n <= places.len(),
            places == plan.places@,
            forall|i: int| 0 <= i < places.len() ==> #[trigger] places[i] < events@.len(),
            last_trade(transactions@.len() as int, events@, places.take(n as int), count as int)
                == last_trade(transactions@.len() as int, events@, places, count as int),
        decreases n,
    {
        let place: usize = plan.places[n - 1];
        assert(places.take(n as int).last() == place);
        assert(places.take(n as int).drop_last() =~= places.take(n - 1));
        if place < count && events[place] < transactions.len() {
            return Some(events[place]);
        }
        n -= 1;
    }
    None
}

/// Every trade of a stream belongs to one holding, and to no other.
pub proof fn trade_has_one_holding(
    scope: Scope,
    trades: Seq<Transaction>,
    splits: Seq<SplitEvent>,
    events: Seq<usize>,
    k: int,
)
    requires
        0 <= k < events.len(),
        events[k] < trades.len(),
    ensures
        exists|o: int|
            0 <= o <= k && #[trigger] opens_holding(scope, trades, events)(o) && concerns_holding(
                scope,
                trades,
                splits,
                events,
                o,
            )(k),
        forall|o: int, p: int|
            0 <= o < events.len() && 0 <= p < events.len() && #[trigger] opens_holding(
                scope,
                trades,
                events,
            )(o) && #[trigger] opens_holding(scope, trades, events)(p) && concerns_holding(
                scope,
                trades,
                splits,
                events,
                o,
            )(k) && concerns_holding(scope, trades, splits, events, p)(k) ==> o == p,
{
    let of_it = |q: int| events[q] < trades.len() && same_holding(
        scope,
        trades[events[q] as int],
        trades[events[k] as int],
    );
    let o = first_place(of_it, k);
    assert forall|q: int| 0 <= q < o && #[trigger] events[q] < trades.len() implies !same_holding(
        scope,
        trades[events[q] as int],
        trades[events[o] as int],
    ) by {
        assert(!of_it(q));
    }
    assert(opens_holding(scope, trades, events)(o));
    assert(concerns_holding(scope, trades, splits, events, o)(k));
}

/// The first place at which something holds, where it holds at `k`.
pub(crate) proof fn first_place(holds: spec_fn(int) -> bool, k: int) -> (o: int)
    requires
        0 <= k,
        holds(k),
    ensures
        0 <= o <= k,
        holds(o),
        forall|q: int| 0 <= q < o ==> !#[trigger] holds(q),
    decreases k,
{
    if exists|q: int| 0 <= q < k && #[trigger] holds(q) {
        let q = choose|q: int| 0 <= q < k && #[trigger] holds(q);
        first_place(holds, q)
    } else {
        k
    }
}

/// A split changes only holdings that are open when it takes effect, and all of these that
/// are of its security.
pub proof fn split_concerns_open_holdings(
    scope: Scope,
    trades: Seq<Transaction>,
    splits: Seq<SplitEvent>,
    events: Seq<usize>,
    opening: int,
    k: int,
)
    requires
        0 <= opening < events.len(),
        0 <= k < events.len(),
        opens_holding(scope, trades, events)(opening),
        trades.len() <= events[k] < trades.len() + splits.len(),
    ensures
        concerns_holding(scope, trades, splits, events, opening)(k) <==> opening < k && text::alike(
            trades[events[opening] as int].provider_symbol@,
            splits[events[k] - trades.len()].provider_symbol@,
        ),
{
}

/// Two lists of plans say the same.
pub open spec fn same_holdings(p: Seq<HoldingPlan>, q: Seq<HoldingPlan>) -> bool {
    &&& p.len() == q.len()
    &&& forall|i: int|
        0 <= i < p.len() ==> (#[trigger] p[i]).opening == q[i].opening && p[i].places@
            == q[i].places@ && p[i].steps@ == q[i].steps@
}

/// A stream has one list of holdings.
pub proof fn holdings_are_unique(
    p: Seq<HoldingPlan>,
    q: Seq<HoldingPlan>,
    scope: Scope,
    trades: Seq<Transaction>,
    splits: Seq<SplitEvent>,
    events: Seq<usize>,
)
    requires
        are_holdings(p, scope, trades, splits, events),
        are_holdings(q, scope, trades, splits, events),
    ensures
        same_holdings(p, q),
{
    let first = Seq::new(p.len(), |i: int| p[i].opening);
    let other = Seq::new(q.len(), |i: int| q[i].opening);
    assert(first == other);
    assert(first.len() == p.len() && other.len() == q.len());
    assert forall|i: int| 0 <= i < p.len() implies (#[trigger] p[i]).opening == q[i].opening
        && p[i].places@ == q[i].places@ && p[i].steps@ == q[i].steps@ by {
        assert(first[i] == other[i]);
        assert(is_holding_plan(q[i], scope, trades, splits, events));
    }
}

/// Two lists of trades agree in their accounts, securities and kinds.
pub open spec fn agree_in_shares(a: Seq<Transaction>, b: Seq<Transaction>) -> bool {
    &&& a.len() == b.len()
    &&& forall|i: int|
        0 <= i < a.len() ==> (#[trigger] a[i]).account_id == b[i].account_id && a[i].provider_symbol
            == b[i].provider_symbol && a[i].transaction_type == b[i].transaction_type
}

/// The holdings of a stream depend on the accounts, the securities and the kinds of the
/// trades alone.
pub proof fn holdings_follow_shares(
    plans: Seq<HoldingPlan>,
    scope: Scope,
    a: Seq<Transaction>,
    b: Seq<Transaction>,
    splits: Seq<SplitEvent>,
    events: Seq<usize>,
)
    requires
        agree_in_shares(a, b),
        events.len() <= usize::MAX,
        forall|k: int| 0 <= k < events.len() ==> #[trigger] events[k] < a.len() + splits.len(),
        are_holdings(plans, scope, a, splits, events),
    ensures
        are_holdings(plans, scope, b, splits, events),
{
    let len = events.len() as int;
    let opens_a = opens_holding(scope, a, events);
    let opens_b = opens_holding(scope, b, events);
    assert forall|k: int| 0 <= k < len implies #[trigger] opens_a(k) == opens_b(k) by {
        assert(events[k] < a.len() + splits.len());
        if events[k] < a.len() {
            assert(a[events[k] as int].account_id == b[events[k] as int].account_id);
            assert forall|q: int| 0 <= q < k && #[trigger] events[q] < a.len() implies same_holding(
                scope,
                a[events[q] as int],
                a[events[k] as int],
            ) == same_holding(scope, b[events[q] as int], b[events[k] as int]) by {
                assert(a[events[q] as int].account_id == b[events[q] as int].account_id);
            }
        }
    }
    order::same_selection(len, opens_a, opens_b);
    order::every_selection_exists(len, opens_a);
    let first = order::selection(len, opens_a);
    assert forall|i: int| 0 <= i < plans.len() implies is_holding_plan(
        #[trigger] plans[i],
        scope,
        b,
        splits,
        events,
    ) by {
        let plan = plans[i];
        assert(first[i] == Seq::new(plans.len(), |i: int| plans[i].opening)[i]);
        assert(first[i] == plan.opening);
        assert(opens_a(first[i] as int));
        let o = plan.opening as int;
        let concerns_a = concerns_holding(scope, a, splits, events, o);
        let concerns_b = concerns_holding(scope, b, splits, events, o);
        assert(a[events[o] as int].account_id == b[events[o] as int].account_id);
        assert forall|k: int| 0 <= k < len implies #[trigger] concerns_a(k) == concerns_b(k) by {
            assert(events[k] < a.len() + splits.len());
            if events[k] < a.len() {
                assert(a[events[k] as int].account_id == b[events[k] as int].account_id);
            }
        }
        order::same_selection(len, concerns_a, concerns_b);
        order::every_selection_exists(len, concerns_a);
        let mine = at_places(events, plan.places@);
        assert forall|k: int| 0 <= k < mine.len() implies ledger::event_step(
            a,
            #[trigger] mine[k] as int,
        ) == ledger::event_step(b, mine[k] as int) by {
            assert(plan.places@[k] < len);
            assert(mine[k] == events[plan.places@[k] as int]);
            if mine[k] < a.len() {
                assert(a[mine[k] as int].account_id == b[mine[k] as int].account_id);
            }
        }
        assert(ledger::event_steps(a, mine) =~= ledger::event_steps(b, mine));
    }
}

pub open spec fn same_balance(a: CashEntry, b: CashEntry) -> bool {
    a.account_id == b.account_id && text::alike(a.currency@, b.currency@)
}

/// No movement before a place is of the same account and currency.
pub open spec fn opens_balance(cash: Seq<CashEntry>, events: Seq<usize>) -> spec_fn(int) -> bool {
    |k: int|
        forall|q: int|
            0 <= q < k ==> !same_balance(
                cash[#[trigger] events[q] as int],
                cash[events[k] as int],
            )
}

pub open spec fn concerns_balance(
    cash: Seq<CashEntry>,
    events: Seq<usize>,
    opening: int,
) -> spec_fn(int) -> bool {
    |k: int| same_balance(cash[events[opening] as int], cash[events[k] as int])
}

/// A balance of cash: the movement that it begins with, and the places of all that count
/// to it.
pub struct BalancePlan {
    pub opening: usize,
    pub places: Vec<usize>,
}

/// The plans of all balances, by the order of their opening.
pub open spec fn are_balances(
    plans: Seq<BalancePlan>,
    cash: Seq<CashEntry>,
    events: Seq<usize>,
) -> bool {
    &&& Seq::new(plans.len(), |i: int| plans[i].opening) == order::selection(
        events.len() as int,
        opens_balance(cash, events),
    )
    &&& forall|i: int|
        0 <= i < plans.len() ==> (#[trigger] plans[i]).places@ == order::selection(
            events.len() as int,
            concerns_balance(cash, events, plans[i].opening as int),
        )
}

/// The balances speak of places in a list of movements of the given length.
pub open spec fn balances_fit(plans: Seq<BalancePlan>, len: int) -> bool {
    forall|i: int| 0 <= i < plans.len() ==> (#[trigger] plans[i]).opening < len
}

/// Two lists of plans say the same.
pub open spec fn same_balances(p: Seq<BalancePlan>, q: Seq<BalancePlan>) -> bool {
    &&& p.len() == q.len()
    &&& forall|i: int|
        0 <= i < p.len() ==> (#[trigger] p[i]).opening == q[i].opening && p[i].places@
            == q[i].places@
}

/// Movements have one list of balances.
pub proof fn balances_are_unique(
    p: Seq<BalancePlan>,
    q: Seq<BalancePlan>,
    cash: Seq<CashEntry>,
    events: Seq<usize>,
)
    requires
        are_balances(p, cash, events),
        are_balances(q, cash, events),
    ensures
        same_balances(p, q),
{
    let first = Seq::new(p.len(), |i: int| p[i].opening);
    let other = Seq::new(q.len(), |i: int| q[i].opening);
    assert(first == other);
    assert(first.len() == p.len() && other.len() == q.len());
    assert forall|i: int| 0 <= i < p.len() implies (#[trigger] p[i]).opening == q[i].opening
        && p[i].places@ == q[i].places@ by {
        assert(first[i] == other[i]);
        let its = q[i];
        assert(its.places@ == order::selection(
            events.len() as int,
            concerns_balance(cash, events, its.opening as int),
        ));
    }
}

fn moves_same_balance(a: &CashEntry, b: &CashEntry) -> (r: bool)
    ensures
        r == same_balance(*a, *b),
{
    a.account_id == b.account_id && text::same_letters(a.currency.as_str(), b.currency.as_str())
}

#[verifier::loop_isolation(false)]
fn balance_openings(cash_entries: &[CashEntry], events: &Vec<usize>) -> (r: Vec<usize>)
    requires
        forall|k: int| 0 <= k < events@.len() ==> #[trigger] events@[k] < cash_entries@.len(),
    ensures
        r@ == order::selection(events@.len() as int, opens_balance(cash_entries@, events@)),
        order::selected(r@, events@.len() as int, opens_balance(cash_entries@, events@)),
{
    let ghost cash = cash_entries@;
    let mut keep: Vec<bool> = Vec::new();
    let mut k: usize = 0;
    while k < events.len()
        invariant
            k <= events@.len(),
            keep@.len() == k,
            forall|p: int| 0 <= p < k ==> #[trigger] keep@[p] == opens_balance(cash, events@)(p),
        decreases events@.len() - k,
    {
        let mut fresh = true;
        let mut q: usize = 0;
        while q < k
            invariant
                q <= k,
                fresh == forall|p: int|
                    0 <= p < q ==> !same_balance(
                        cash[#[trigger] events@[p] as int],
                        cash[events@[k as int] as int],
                    ),
            decreases k - q,
        {
            if moves_same_balance(&cash_entries[events[q]], &cash_entries[events[k]]) {
                fresh = false;
            }
            q += 1;
        }
        keep.push(fresh);
        k += 1;
    }
    let r = order::select(&keep);
    proof {
        order::is_selection(
            r@,
            keep@.len() as int,
            |i: int| keep@[i],
            opens_balance(cash, events@),
        );
    }
    r
}

#[verifier::loop_isolation(false)]
fn movements_of(cash_entries: &[CashEntry], events: &Vec<usize>, opening: usize) -> (r: BalancePlan)
    requires
        opening < events@.len(),
        forall|k: int| 0 <= k < events@.len() ==> #[trigger] events@[k] < cash_entries@.len(),
    ensures
        r.opening == opening,
        r.places@ == order::selection(
            events@.len() as int,
            concerns_balance(cash_entries@, events@, opening as int),
        ),
{
    let ghost wanted = concerns_balance(cash_entries@, events@, opening as int);
    let first = &cash_entries[events[opening]];
    let mut keep: Vec<bool> = Vec::new();
    let mut k: usize = 0;
    while k < events.len()
        invariant
            k <= events@.len(),
            keep@.len() == k,
            forall|p: int| 0 <= p < k ==> #[trigger] keep@[p] == wanted(p),
        decreases events@.len() - k,
    {
        keep.push(moves_same_balance(first, &cash_entries[events[k]]));
        k += 1;
    }
    let places = order::select(&keep);
    proof {
        order::is_selection(places@, keep@.len() as int, |i: int| keep@[i], wanted);
    }
    BalancePlan { opening, places }
}

/// The balances of cash that movements build up: one for each currency in each account.
#[verifier::loop_isolation(false)]
pub fn balances(cash_entries: &[CashEntry], events: &Vec<usize>) -> (r: Vec<BalancePlan>)
    requires
        forall|k: int| 0 <= k < events@.len() ==> #[trigger] events@[k] < cash_entries@.len(),
    ensures
        are_balances(r@, cash_entries@, events@),
        balances_fit(r@, events@.len() as int),
{
    let first = balance_openings(cash_entries, events);
    let mut r: Vec<BalancePlan> = Vec::new();
    let mut i: usize = 0;
    while i < first.len()
        invariant
            i <= first@.len(),
            r@.len() == i,
            balances_fit(r@, events@.len() as int),
            forall|p: int| 0 <= p < i ==> (#[trigger] r@[p]).opening == first@[p],
            forall|p: int|
                0 <= p < i ==> (#[trigger] r@[p]).places@ == order::selection(
                    events@.len() as int,
                    concerns_balance(cash_entries@, events@, r@[p].opening as int),
                ),
        decreases first@.len() - i,
    {
        r.push(movements_of(cash_entries, events, first[i]));
        i += 1;
    }
    assert(Seq::new(r@.len(), |i: int| r@[i].opening) =~= first@);
    r
}

/// Every movement of cash counts to one balance, and to no other.
pub proof fn movement_has_one_balance(cash: Seq<CashEntry>, events: Seq<usize>, k: int)
    requires
        0 <= k < events.len(),
    ensures
        exists|o: int|
            0 <= o <= k && #[trigger] opens_balance(cash, events)(o) && concerns_balance(
                cash,
                events,
                o,
            )(k),
        forall|o: int, p: int|
            0 <= o < events.len() && 0 <= p < events.len() && #[trigger] opens_balance(
                cash,
                events,
            )(o) && #[trigger] opens_balance(cash, events)(p) && concerns_balance(cash, events, o)(
                k,
            ) && concerns_balance(cash, events, p)(k) ==> o == p,
{
    let of_it = |q: int| same_balance(cash[events[q] as int], cash[events[k] as int]);
    let o = first_place(of_it, k);
    assert forall|q: int| 0 <= q < o implies !same_balance(
        cash[#[trigger] events[q] as int],
        cash[events[o] as int],
    ) by {
        assert(!of_it(q));
    }
    assert(opens_balance(cash, events)(o));
    assert(concerns_balance(cash, events, o)(k));
    assert forall|o: int, p: int|
        0 <= o < events.len() && 0 <= p < events.len() && #[trigger] opens_balance(cash, events)(o)
            && #[trigger] opens_balance(cash, events)(p) && concerns_balance(cash, events, o)(k)
            && concerns_balance(cash, events, p)(k) implies o == p by {
        if o < p {
            assert(same_balance(cash[events[o] as int], cash[events[p] as int]));
        } else if p < o {
            assert(same_balance(cash[events[p] as int], cash[events[o] as int]));
        }
    }
}

/// A holding collects the trades of its security, in its account where accounts are kept
/// apart, and the later splits of the security. Every trade stands in one of the holdings.
/// What brings shares in adds to it, and what takes shares out takes from it.
pub proof fn holdings_collect_their_trades(
    plans: Seq<HoldingPlan>,
    scope: Scope,
    trades: Seq<Transaction>,
    splits: Seq<SplitEvent>,
    events: Seq<usize>,
    p: int,
    k: usize,
)
    requires
        are_holdings(plans, scope, trades, splits, events),
        trades.len() + splits.len() <= usize::MAX,
        events.len() <= usize::MAX,
        forall|q: int| 0 <= q < events.len() ==> #[trigger] events[q] < trades.len() + splits.len(),
        k < events.len(),
    ensures
        0 <= p < plans.len() ==> {
            let e = events[k as int];
            let first = trades[events[plans[p].opening as int] as int];
            &&& events[plans[p].opening as int] < trades.len()
            &&& e < trades.len() ==> (plans[p].places@.contains(k) <==> text::alike(
                trades[e as int].provider_symbol@,
                first.provider_symbol@,
            ) && (scope == Scope::Portfolio || trades[e as int].account_id == first.account_id))
            &&& e >= trades.len() ==> (plans[p].places@.contains(k) <==> plans[p].opening < k
                && text::alike(
                splits[e - trades.len()].provider_symbol@,
                first.provider_symbol@,
            ))
        },
        events[k as int] < trades.len() ==> exists|q: int|
            0 <= q < plans.len() && (#[trigger] plans[q]).places@.contains(k),
{
    let opens = opens_holding(scope, trades, events);
    let first = order::selection(events.len() as int, opens);
    order::selection_lists_kept_positions(events.len() as int, opens);
    let list = Seq::new(plans.len(), |i: int| plans[i].opening);
    assert(list == first);
    if 0 <= p < plans.len() {
        assert(list[p] == plans[p].opening);
        assert(first.contains(first[p]));
        let opening = plans[p].opening as int;
        assert(opens(opening));
        assert(is_holding_plan(plans[p], scope, trades, splits, events));
        order::selection_lists_kept_positions(
            events.len() as int,
            concerns_holding(scope, trades, splits, events, opening),
        );
        if events[k as int] < trades.len() && k < opening {
            assert(!same_holding(
                scope,
                trades[events[k as int] as int],
                trades[events[opening] as int],
            ));
        }
    }
    if events[k as int] < trades.len() {
        trade_has_one_holding(scope, trades, splits, events, k as int);
        let o = choose|o: int|
            0 <= o <= k && #[trigger] opens_holding(scope, trades, events)(o) && concerns_holding(
                scope,
                trades,
                splits,
                events,
                o,
            )(k as int);
        assert(first.contains(o as usize));
        let q = choose|q: int| 0 <= q < first.len() && first[q] == o as usize;
        assert(list[q] == plans[q].opening);
        assert(is_holding_plan(plans[q], scope, trades, splits, events));
        order::selection_lists_kept_positions(
            events.len() as int,
            concerns_holding(scope, trades, splits, events, o),
        );
        assert(plans[q].places@.contains(k));
    }
}

/// What the events of a holding do to it, in their order: purchases, opening positions and
/// shares that are transferred in add to it, sales and shares that are transferred out take
/// from it, splits multiply it, and nothing else changes it.
pub proof fn holding_steps_follow_the_types(
    plan: HoldingPlan,
    scope: Scope,
    trades: Seq<Transaction>,
    splits: Seq<SplitEvent>,
    events: Seq<usize>,
    n: int,
)
    requires
        is_holding_plan(plan, scope, trades, splits, events),
        trades.len() + splits.len() <= usize::MAX,
        events.len() <= usize::MAX,
        forall|q: int| 0 <= q < events.len() ==> #[trigger] events[q] < trades.len() + splits.len(),
        0 <= n < plan.places@.len(),
    ensures
        plan.steps@.len() == plan.places@.len(),
        n > 0 ==> plan.places@[n - 1] < plan.places@[n],
        plan.places@[n] < events.len(),
        ({
            let e = events[plan.places@[n] as int];
            let step = plan.steps@[n];
            &&& e >= trades.len() ==> step == ShareStep::Multiply(
                Quantity::Split((e - trades.len()) as usize),
            )
            &&& e < trades.len() ==> {
                let kind = trades[e as int].transaction_type@;
                &&& kind == "BUY"@ || kind == "OPEN"@ || kind == "TRANSFER_IN"@ <==> step
                    == ShareStep::Gain(Quantity::Trade(e))
                &&& kind == "SELL"@ || kind == "TRANSFER_OUT"@ <==> step == ShareStep::Lose(
                    Quantity::Trade(e),
                )
            }
        }),
{
    order::selection_lists_kept_positions(
        events.len() as int,
        concerns_holding(scope, trades, splits, events, plan.opening as int),
    );
    assert(plan.places@.contains(plan.places@[n]));
    let own = at_places(events, plan.places@);
    assert(own[n] == events[plan.places@[n] as int]);
    ledger::steps_follow_the_types(trades, splits, own, n);
}

/// The names of a holding come from the last of its trades by then.
pub proof fn last_trade_is_the_newest(
    trades: int,
    events: Seq<usize>,
    places: Seq<usize>,
    count: int,
)
    ensures
        match last_trade(trades, events, places, count) {
            None => forall|n: int|
                0 <= n < places.len() && #[trigger] places[n] < count ==> events[places[n] as int]
                    >= trades,
            Some(t) => exists|n: int|
                0 <= n < places.len() && #[trigger] places[n] < count && events[places[n] as int]
                    == t && t < trades && forall|m: int|
                    n < m < places.len() && #[trigger] places[m] < count ==> events[places[m] as int]
                        >= trades,
        },
    decreases places.len(),
{
    if places.len() > 0 {
        let rest = places.drop_last();
        let last = places.len() - 1;
        if places.last() < count && events[places.last() as int] < trades {
            assert(places[last] < count);
        } else {
            last_trade_is_the_newest(trades, events, rest, count);
            match last_trade(trades, events, rest, count) {
                None => {
                    assert forall|n: int|
                        0 <= n < places.len() && #[trigger] places[n] < count implies events[places[n] as int]
                        >= trades by {
                        if n < last {
                            assert(rest[n] == places[n]);
                        }
                    }
                },
                Some(t) => {
                    let n = choose|n: int|
                        0 <= n < rest.len() && #[trigger] rest[n] < count && events[rest[n] as int]
                            == t && t < trades && forall|m: int|
                            n < m < rest.len() && #[trigger] rest[m] < count
                                ==> events[rest[m] as int] >= trades;
                    assert(places[n] == rest[n]);
                    assert forall|m: int|
                        n < m < places.len() && #[trigger] places[m] < count implies events[places[m] as int]
                        >= trades by {
                        if m < last {
                            assert(rest[m] == places[m]);
                        }
                    }
                },
            }
        }
    }
}

/// A balance collects all movements of one account in one currency, and every movement
/// counts to one of the balances.
pub proof fn balances_collect_their_movements(
    plans: Seq<BalancePlan>,
    cash: Seq<CashEntry>,
    events: Seq<usize>,
    p: int,
    k: usize,
)
    requires
        are_balances(plans, cash, events),
        events.len() <= usize::MAX,
        k < events.len(),
    ensures
        0 <= p < plans.len() ==> {
            let first = cash[events[plans[p].opening as int] as int];
            let entry = cash[events[k as int] as int];
            plans[p].places@.contains(k) <==> entry.account_id == first.account_id && text::alike(
                entry.currency@,
                first.currency@,
            )
        },
        0 <= p < plans.len() ==> forall|a: int, b: int|
            0 <= a < b < plans[p].places@.len() ==> #[trigger] plans[p].places@[a]
                < #[trigger] plans[p].places@[b],
        exists|q: int| 0 <= q < plans.len() && (#[trigger] plans[q]).places@.contains(k),
{
    let opens = opens_balance(cash, events);
    let first = order::selection(events.len() as int, opens);
    order::selection_lists_kept_positions(events.len() as int, opens);
    let list = Seq::new(plans.len(), |i: int| plans[i].opening);
    assert(list == first);
    if 0 <= p < plans.len() {
        let its = plans[p];
        assert(its.places@ == order::selection(
            events.len() as int,
            concerns_balance(cash, events, its.opening as int),
        ));
        order::selection_lists_kept_positions(
            events.len() as int,
            concerns_balance(cash, events, its.opening as int),
        );
    }
    movement_has_one_balance(cash, events, k as int);
    let o = choose|o: int|
        0 <= o <= k && #[trigger] opens_balance(cash, events)(o) && concerns_balance(
            cash,
            events,
            o,
        )(k as int);
    assert(first.contains(o as usize));
    let q = choose|q: int| 0 <= q < first.len() && first[q] == o as usize;
    assert(list[q] == plans[q].opening);
    let its = plans[q];
    assert(its.places@ == order::selection(
        events.len() as int,
        concerns_balance(cash, events, its.opening as int),
    ));
    order::selection_lists_kept_positions(
        events.len() as int,
        concerns_balance(cash, events, its.opening as int),
    );
    assert(plans[q].places@.contains(k));
}

} // verus!
