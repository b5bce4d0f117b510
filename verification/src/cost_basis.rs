//! Average-cost ledgers: what each trade and each split does to the shares and to the
//! cost of a holding, and which sales realize a gain.

use vstd::prelude::*;
use crate::holdings;
use crate::holdings::Scope;
use crate::ledger;
use crate::ledger::ActivityKind;
use crate::model::{PricePoint, SplitEvent, Transaction};
use crate::numbers;
use crate::order;
use crate::rates;
use crate::rates::Conversion;
use crate::text;

verus! {

/// What happens in a ledger.
#[derive(Clone, Copy, PartialEq, Eq, Structural)]
pub enum LedgerStep {
    /// Shares come in at the price of the transaction, and its fees add to their cost.
    Purchase(usize),
    /// Shares come in at the price of the transaction, without fees.
    TransferIn(usize),
    /// Shares leave at average cost, and the gain on them is realized.
    Sale(usize),
    /// Shares leave at average cost, and no gain is counted.
    Removal(usize),
    /// The shares are multiplied by the ratio of the split; their cost stays.
    Split(usize),
    /// Nothing but the names that the transaction carries.
    Note(usize),
}

/// The step of a trade. A sale counts as one from the time `realize_from` on.
pub open spec fn trade_ledger_step(
    kind: ActivityKind,
    timestamp: int,
    realize_from: Option<i64>,
    position: usize,
) -> LedgerStep {
    match kind {
        ActivityKind::Buy | ActivityKind::Open => LedgerStep::Purchase(position),
        ActivityKind::TransferIn => LedgerStep::TransferIn(position),
        ActivityKind::Sell => match realize_from {
            Some(start) if timestamp >= start => LedgerStep::Sale(position),
            _ => LedgerStep::Removal(position),
        },
        ActivityKind::TransferOut => LedgerStep::Removal(position),
        ActivityKind::Split | ActivityKind::Other => LedgerStep::Note(position),
    }
}

pub open spec fn ledger_step(
    trades: Seq<Transaction>,
    realize_from: Option<i64>,
    e: int,
) -> LedgerStep {
    if e < trades.len() {
        trade_ledger_step(
            ledger::kind_of(trades[e].transaction_type@),
            trades[e].timestamp as int,
            realize_from,
            e as usize,
        )
    } else {
        LedgerStep::Split((e - trades.len()) as usize)
    }
}

/// The events up to and including a time.
pub open spec fn events_until(
    trades: Seq<Transaction>,
    splits: Seq<SplitEvent>,
    end: int,
) -> spec_fn(int) -> bool {
    |e: int|
        if e < trades.len() {
            trades[e].timestamp <= end
        } else {
            splits[e - trades.len()].timestamp <= end
        }
}

/// The steps of all ledgers up to and including a time, in the order in which they take
/// effect.
pub open spec fn ledger_steps(
    trades: Seq<Transaction>,
    splits: Seq<SplitEvent>,
    realize_from: Option<i64>,
    end: int,
) -> Seq<LedgerStep> {
    let events = order::arrangement(
        (trades.len() + splits.len()) as int,
        events_until(trades, splits, end),
        ledger::event_keys(trades, splits),
    );
    Seq::new(events.len(), |k: int| ledger_step(trades, realize_from, events[k] as int))
}

/// The ledger of a security in an account.
pub open spec fn ledger_name(account_id: int, symbol: Seq<char>) -> Seq<char> {
    numbers::integer_text(account_id) + "|"@ + text::uppercase(symbol)
}

pub fn ledger_key(account_id: i64, provider_symbol: &str) -> (r: String)
    ensures
        r@ == ledger_name(account_id as int, provider_symbol@),
{
    let mut r = numbers::print_integer(account_id);
    r.append("|");
    r.append(text::to_upper(provider_symbol).as_str());
    r
}

/// A split reaches every ledger whose name ends with a bar and the security.
pub open spec fn split_reaches(ledger: Seq<char>, symbol: Seq<char>) -> bool {
    text::closes_with(ledger, "|"@ + text::uppercase(symbol))
}

pub fn split_applies(ledger: &str, split_symbol: &str) -> (r: bool)
    ensures
        r == split_reaches(ledger@, split_symbol@),
{
    let mut suffix = "|".to_owned();
    suffix.append(text::to_upper(split_symbol).as_str());
    text::ends_with(ledger, suffix.as_str())
}

/// The name of the ledger that a trade is entered in: the security, or the security in the
/// account.
pub open spec fn ledger_of(scope: Scope, t: Transaction) -> Seq<char> {
    match scope {
        Scope::Account => ledger_name(t.account_id as int, t.provider_symbol@),
        Scope::Portfolio => text::uppercase(t.provider_symbol@),
    }
}

fn name_of_ledger(scope: Scope, t: &Transaction) -> (r: String)
    ensures
        r@ == ledger_of(scope, *t),
{
    match scope {
        Scope::Account => ledger_key(t.account_id, t.provider_symbol.as_str()),
        Scope::Portfolio => text::to_upper(t.provider_symbol.as_str()),
    }
}

/// A split reaches a ledger.
pub open spec fn split_enters(scope: Scope, ledger: Seq<char>, symbol: Seq<char>) -> bool {
    match scope {
        Scope::Account => split_reaches(ledger, symbol),
        Scope::Portfolio => ledger == text::uppercase(symbol),
    }
}

fn reaches_ledger(scope: Scope, ledger: &str, symbol: &str) -> (r: bool)
    ensures
        r == split_enters(scope, ledger@, symbol@),
{
    match scope {
        Scope::Account => split_applies(ledger, symbol),
        Scope::Portfolio => text::same_text(ledger, text::to_upper(symbol).as_str()),
    }
}

/// The trade of a step; none for a split.
pub open spec fn trade_of_step(step: LedgerStep) -> Option<usize> {
    match step {
        LedgerStep::Purchase(i) => Some(i),
        LedgerStep::TransferIn(i) => Some(i),
        LedgerStep::Sale(i) => Some(i),
        LedgerStep::Removal(i) => Some(i),
        LedgerStep::Note(i) => Some(i),
        LedgerStep::Split(_) => None,
    }
}

fn step_trade(step: LedgerStep) -> (r: Option<usize>)
    ensures
        r == trade_of_step(step),
{
    match step {
        LedgerStep::Purchase(i) => Some(i),
        LedgerStep::TransferIn(i) => Some(i),
        LedgerStep::Sale(i) => Some(i),
        LedgerStep::Removal(i) => Some(i),
        LedgerStep::Note(i) => Some(i),
        LedgerStep::Split(_) => None,
    }
}

/// The step at a place is a trade that is entered in the ledger of the name.
pub open spec fn entered_in(
    scope: Scope,
    trades: Seq<Transaction>,
    steps: Seq<LedgerStep>,
    k: int,
    ledger: Seq<char>,
) -> bool {
    trade_of_step(steps[k]) matches Some(i) && ledger_of(scope, trades[i as int]) == ledger
}

/// The name of the ledger that is open because of the trade at a place.
pub open spec fn ledger_at(
    scope: Scope,
    trades: Seq<Transaction>,
    steps: Seq<LedgerStep>,
    k: int,
) -> Seq<char> {
    ledger_of(scope, trades[trade_of_step(steps[k])->0 as int])
}

/// The step at a place is a trade, and none before it is entered in the same ledger.
pub open spec fn opens_ledger(
    scope: Scope,
    trades: Seq<Transaction>,
    steps: Seq<LedgerStep>,
) -> spec_fn(int) -> bool {
    |k: int|
        trade_of_step(steps[k]) is Some && forall|q: int|
            0 <= q < k ==> !#[trigger] entered_in(
                scope,
                trades,
                steps,
                q,
                ledger_at(scope, trades, steps, k),
            )
}

/// The step at a place changes the ledger that was opened at another: it is a trade that is
/// entered in it, or a later split that reaches it.
pub open spec fn changes_ledger(
    scope: Scope,
    trades: Seq<Transaction>,
    splits: Seq<SplitEvent>,
    steps: Seq<LedgerStep>,
    opening: int,
) -> spec_fn(int) -> bool {
    |k: int|
        opening <= k && match steps[k] {
            LedgerStep::Split(j) => split_enters(
                scope,
                ledger_at(scope, trades, steps, opening),
                splits[j as int].provider_symbol@,
            ),
            _ => entered_in(scope, trades, steps, k, ledger_at(scope, trades, steps, opening)),
        }
}

/// A ledger: its name, the place of the trade that opens it, and the places of all steps
/// that change it.
pub struct Ledger {
    pub name: String,
    pub opening: usize,
    pub places: Vec<usize>,
}

/// The steps of all ledgers in their order, and the ledgers by the order of their opening.
pub struct LedgerPlan {
    pub steps: Vec<LedgerStep>,
    pub ledgers: Vec<Ledger>,
}

pub open spec fn is_ledger(
    ledger: Ledger,
    scope: Scope,
    trades: Seq<Transaction>,
    splits: Seq<SplitEvent>,
    steps: Seq<LedgerStep>,
) -> bool {
    &&& ledger.name@ == ledger_at(scope, trades, steps, ledger.opening as int)
    &&& ledger.places@ == order::selection(
        steps.len() as int,
        changes_ledger(scope, trades, splits, steps, ledger.opening as int),
    )
}

pub open spec fn are_ledgers(
    ledgers: Seq<Ledger>,
    scope: Scope,
    trades: Seq<Transaction>,
    splits: Seq<SplitEvent>,
    steps: Seq<LedgerStep>,
) -> bool {
    &&& Seq::new(ledgers.len(), |i: int| ledgers[i].opening) == order::selection(
        steps.len() as int,
        opens_ledger(scope, trades, steps),
    )
    &&& forall|i: int|
        0 <= i < ledgers.len() ==> is_ledger(#[trigger] ledgers[i], scope, trades, splits, steps)
}

/// The steps speak of trades and splits that are there.
pub open spec fn steps_in_range(steps: Seq<LedgerStep>, trades: int, splits: int) -> bool {
    forall|k: int|
        0 <= k < steps.len() ==> match #[trigger] steps[k] {
            LedgerStep::Split(j) => j < splits,
            LedgerStep::Purchase(i) => i < trades,
            LedgerStep::TransferIn(i) => i < trades,
            LedgerStep::Sale(i) => i < trades,
            LedgerStep::Removal(i) => i < trades,
            LedgerStep::Note(i) => i < trades,
        }
}

#[verifier::loop_isolation(false)]
fn ledger_openings(
    scope: Scope,
    transactions: &[Transaction],
    steps: &Vec<LedgerStep>,
) -> (r: Vec<usize>)
    requires
        forall|k: int|
            0 <= k < steps@.len() ==> (trade_of_step(#[trigger] steps@[k]) matches Some(i) ==> i
                < transactions@.len()),
    ensures
        r@ == order::selection(steps@.len() as int, opens_ledger(scope, transactions@, steps@)),
        order::selected(
            r@,
            steps@.len() as int,
            opens_ledger(scope, transactions@, steps@),
        ),
{
    let ghost trades = transactions@;
    let ghost wanted = opens_ledger(scope, trades, steps@);
    let mut keep: Vec<bool> = Vec::new();
    let mut k: usize = 0;
    while k < steps.len()
        invariant
            k <= steps@.len(),
            keep@.len() == k,
            forall|p: int| 0 <= p < k ==> #[trigger] keep@[p] == wanted(p),
        decreases steps@.len() - k,
    {
        let fresh = match step_trade(steps[k]) {
            None => false,
            Some(i) => {
                let name = name_of_ledger(scope, &transactions[i]);
                let mut alone = true;
                let mut q: usize = 0;
                while q < k
                    invariant
                        q <= k,
                        name@ == ledger_at(scope, trades, steps@, k as int),
                        alone == forall|p: int|
                            0 <= p < q ==> !#[trigger] entered_in(
                                scope,
                                trades,
                                steps@,
                                p,
                                name@,
                            ),
                    decreases k - q,
                {
                    if let Some(other) = step_trade(steps[q]) {
                        let its = name_of_ledger(scope, &transactions[other]);
                        if text::same_text(its.as_str(), name.as_str()) {
                            assert(entered_in(scope, trades, steps@, q as int, name@));
                            alone = false;
                        }
                    }
                    q += 1;
                }
                alone
            },
        };
        keep.push(fresh);
        k += 1;
    }
    let r = order::select(&keep);
    proof {
        order::is_selection(r@, keep@.len() as int, |i: int| keep@[i], wanted);
    }
    r
}

#[verifier::loop_isolation(false)]
fn ledger_from(
    scope: Scope,
    transactions: &[Transaction],
    splits: &[SplitEvent],
    steps: &Vec<LedgerStep>,
    opening: usize,
) -> (r: Ledger)
    requires
        opening < steps@.len(),
        trade_of_step(steps@[opening as int]) is Some,
        steps_in_range(steps@, transactions@.len() as int, splits@.len() as int),
    ensures
        r.opening == opening,
        is_ledger(r, scope, transactions@, splits@, steps@),
{
    let ghost trades = transactions@;
    let ghost wanted = changes_ledger(scope, trades, splits@, steps@, opening as int);
    assert(steps_in_range(steps@, trades.len() as int, splits@.len() as int));
    let name = match step_trade(steps[opening]) {
        Some(i) => name_of_ledger(scope, &transactions[i]),
        None => String::new(),
    };
    let mut keep: Vec<bool> = Vec::new();
    let mut k: usize = 0;
    while k < steps.len()
        invariant
            k <= steps@.len(),
            keep@.len() == k,
            name@ == ledger_at(scope, trades, steps@, opening as int),
            forall|p: int| 0 <= p < k ==> #[trigger] keep@[p] == wanted(p),
        decreases steps@.len() - k,
    {
        let step = steps[k];
        let changed = if k < opening {
            false
        } else {
            match step {
                LedgerStep::Split(j) => reaches_ledger(
                    scope,
                    name.as_str(),
                    splits[j].provider_symbol.as_str(),
                ),
                _ => match step_trade(step) {
                    Some(i) => text::same_text(
                        name_of_ledger(scope, &transactions[i]).as_str(),
                        name.as_str(),
                    ),
                    None => false,
                },
            }
        };
        keep.push(changed);
        k += 1;
    }
    let places = order::select(&keep);
    proof {
        order::is_selection(places@, keep@.len() as int, |i: int| keep@[i], wanted);
    }
    Ledger { name, opening, places }
}

/// Parts steps into the ledgers that they change.
#[verifier::loop_isolation(false)]
fn ledgers_of(
    scope: Scope,
    transactions: &[Transaction],
    splits: &[SplitEvent],
    steps: Vec<LedgerStep>,
) -> (r: LedgerPlan)
    requires
        steps_in_range(steps@, transactions@.len() as int, splits@.len() as int),
    ensures
        r.steps@ == steps@,
        are_ledgers(r.ledgers@, scope, transactions@, splits@, steps@),
{
    let first = ledger_openings(scope, transactions, &steps);
    let mut ledgers: Vec<Ledger> = Vec::new();
    let mut i: usize = 0;
    while i < first.len()
        invariant
            i <= first@.len(),
            ledgers@.len() == i,
            forall|p: int| 0 <= p < i ==> (#[trigger] ledgers@[p]).opening == first@[p],
            forall|p: int|
                0 <= p < i ==> is_ledger(
                    #[trigger] ledgers@[p],
                    scope,
                    transactions@,
                    splits@,
                    steps@,
                ),
        decreases first@.len() - i,
    {
        assert(opens_ledger(scope, transactions@, steps@)(first@[i as int] as int));
        ledgers.push(ledger_from(scope, transactions, splits, &steps, first[i]));
        i += 1;
    }
    assert(Seq::new(ledgers@.len(), |i: int| ledgers@[i].opening) =~= first@);
    LedgerPlan { steps, ledgers }
}

/// Every trade is entered in one ledger, and in no other: no account sells what another
/// bought, and no security changes the ledger of another.
pub proof fn trade_has_one_ledger(
    scope: Scope,
    trades: Seq<Transaction>,
    splits: Seq<SplitEvent>,
    steps: Seq<LedgerStep>,
    k: int,
)
    requires
        0 <= k < steps.len(),
        trade_of_step(steps[k]) is Some,
    ensures
        exists|o: int|
            0 <= o <= k && #[trigger] opens_ledger(scope, trades, steps)(o) && changes_ledger(
                scope,
                trades,
                splits,
                steps,
                o,
            )(k),
        forall|o: int, p: int|
            0 <= o < steps.len() && 0 <= p < steps.len() && #[trigger] opens_ledger(
                scope,
                trades,
                steps,
            )(o) && #[trigger] opens_ledger(scope, trades, steps)(p) && changes_ledger(
                scope,
                trades,
                splits,
                steps,
                o,
            )(k) && changes_ledger(scope, trades, splits, steps, p)(k) ==> o == p,
{
    let name = ledger_at(scope, trades, steps, k);
    let o = holdings::first_place(|q: int| entered_in(scope, trades, steps, q, name), k);
    assert(opens_ledger(scope, trades, steps)(o)) by {
        assert forall|q: int| 0 <= q < o implies !#[trigger] entered_in(
            scope,
            trades,
            steps,
            q,
            ledger_at(scope, trades, steps, o),
        ) by {
            let of_it = |q: int| entered_in(scope, trades, steps, q, name);
            assert(!of_it(q));
        }
    }
    assert(changes_ledger(scope, trades, splits, steps, o)(k));
    assert forall|o: int, p: int|
        0 <= o < steps.len() && 0 <= p < steps.len() && #[trigger] opens_ledger(
            scope,
            trades,
            steps,
        )(o) && #[trigger] opens_ledger(scope, trades, steps)(p) && changes_ledger(
            scope,
            trades,
            splits,
            steps,
            o,
        )(k) && changes_ledger(scope, trades, splits, steps, p)(k) implies o == p by {
        assert(entered_in(scope, trades, steps, o, name));
        assert(entered_in(scope, trades, steps, p, name));
    }
}

/// A split changes the ledgers that are open when it takes effect and that it reaches, and
/// no others.
pub proof fn split_changes_open_ledgers(
    scope: Scope,
    trades: Seq<Transaction>,
    splits: Seq<SplitEvent>,
    steps: Seq<LedgerStep>,
    opening: int,
    k: int,
    j: usize,
)
    requires
        0 <= opening < steps.len(),
        0 <= k < steps.len(),
        opens_ledger(scope, trades, steps)(opening),
        steps[k] == LedgerStep::Split(j),
    ensures
        changes_ledger(scope, trades, splits, steps, opening)(k) <==> opening < k && split_enters(
            scope,
            ledger_at(scope, trades, steps, opening),
            splits[j as int].provider_symbol@,
        ),
{
}

/// Two trades are entered in one ledger of the portfolio where their securities are the
/// same, and in one ledger of an account where their accounts are the same too.
pub proof fn ledgers_are_kept_apart(a: Transaction, b: Transaction)
    ensures
        ledger_of(Scope::Portfolio, a) == ledger_of(Scope::Portfolio, b) <==> text::alike(
            a.provider_symbol@,
            b.provider_symbol@,
        ),
        ledger_of(Scope::Account, a) == ledger_of(Scope::Account, b) <==> a.account_id
            == b.account_id && text::alike(a.provider_symbol@, b.provider_symbol@),
{
    text::alike_by_upper_case(a.provider_symbol@, b.provider_symbol@);
    reveal_strlit("|");
    let x = ledger_of(Scope::Account, a);
    let y = ledger_of(Scope::Account, b);
    let m = numbers::integer_text(a.account_id as int);
    let n = numbers::integer_text(b.account_id as int);
    if x == y {
        integer_text_has_no_bar(a.account_id as int);
        integer_text_has_no_bar(b.account_id as int);
        assert(x[m.len() as int] == '|' && y[n.len() as int] == '|');
        if m.len() < n.len() {
            assert(y[m.len() as int] == n[m.len() as int]);
        }
        if n.len() < m.len() {
            assert(x[n.len() as int] == m[n.len() as int]);
        }
        assert(m =~= x.take(m.len() as int));
        assert(n =~= y.take(n.len() as int));
        numbers::printed_integer_reads_back(a.account_id as int);
        numbers::printed_integer_reads_back(b.account_id as int);
        assert(text::uppercase(a.provider_symbol@) =~= x.skip(m.len() as int + 1));
        assert(text::uppercase(b.provider_symbol@) =~= y.skip(n.len() as int + 1));
    }
}

/// A gain is found only where every sale and every transfer out is covered: `uncovered`
/// says of each step that its ledger held too little for it.
pub open spec fn all_covered(steps: Seq<LedgerStep>, uncovered: Seq<bool>) -> bool {
    !(exists|k: int|
        0 <= k < steps.len() && (#[trigger] steps[k] is Sale || steps[k] is Removal)
            && uncovered[k])
}

pub fn gain_is_covered(steps: &Vec<LedgerStep>, uncovered: &Vec<bool>) -> (r: bool)
    requires
        steps@.len() == uncovered@.len(),
    ensures
        r == all_covered(steps@, uncovered@),
{
    let mut k: usize = 0;
    while k < steps.len()
        invariant
            k <= steps@.len(),
            steps@.len() == uncovered@.len(),
            forall|q: int|
                0 <= q < k ==> !((#[trigger] steps@[q] is Sale || steps@[q] is Removal)
                    && uncovered@[q]),
        decreases steps@.len() - k,
    {
        let leaves = match steps[k] {
            LedgerStep::Sale(_) | LedgerStep::Removal(_) => true,
            _ => false,
        };
        if leaves && uncovered[k] {
            assert(steps@[k as int] is Sale || steps@[k as int] is Removal);
            return false;
        }
        k += 1;
    }
    true
}

/// The sales are among as many trades as given.
pub open spec fn sales_fit(steps: Seq<LedgerStep>, trades: int) -> bool {
    forall|k: int|
        0 <= k < steps.len() ==> match #[trigger] steps[k] {
            LedgerStep::Sale(i) => i < trades,
            _ => true,
        }
}

/// How the gain of a sale is converted: by the rate known at its time, or else by the
/// current one.
pub open spec fn sale_conversion(
    trades: Seq<Transaction>,
    step: LedgerStep,
    target: Seq<char>,
    fx: Option<Seq<PricePoint>>,
    current: Option<bool>,
) -> Option<Conversion> {
    match step {
        LedgerStep::Sale(i) => rates::conversion_at(
            trades[i as int].currency@,
            target,
            rates::rate_at(fx, trades[i as int].timestamp as int, current),
        ),
        _ => None,
    }
}

/// The conversions of the sales that count, each at the place of its step.
pub open spec fn sale_conversions(
    trades: Seq<Transaction>,
    steps: Seq<LedgerStep>,
    counted: Seq<bool>,
    target: Seq<char>,
    fx: Option<Seq<PricePoint>>,
    current: Option<bool>,
) -> Seq<Option<Conversion>> {
    Seq::new(
        steps.len(),
        |k: int|
            if counted[k] {
                sale_conversion(trades, steps[k], target, fx, current)
            } else {
                None
            },
    )
}

/// Every sale that counts can be converted.
pub open spec fn sales_convert(
    trades: Seq<Transaction>,
    steps: Seq<LedgerStep>,
    counted: Seq<bool>,
    target: Seq<char>,
    fx: Option<Seq<PricePoint>>,
    current: Option<bool>,
) -> bool {
    forall|k: int|
        0 <= k < steps.len() && #[trigger] steps[k] is Sale && counted[k] ==> sale_conversion(
            trades,
            steps[k],
            target,
            fx,
            current,
        ) is Some
}

/// Finds how the gains of the sales of a period are converted. `counted` says of each step
/// whether its ledger held any shares before it: a sale of nothing has no gain. The gain of
/// the period is unknown as soon as one sale that counts cannot be converted.
pub fn value_period_gain(
    steps: &Vec<LedgerStep>,
    transactions: &[Transaction],
    counted: &Vec<bool>,
    target_currency: &str,
    fx_points: Option<&[PricePoint]>,
    current: Option<bool>,
) -> (r: Option<Vec<Option<Conversion>>>)
    requires
        steps@.len() == counted@.len(),
        sales_fit(steps@, transactions@.len() as int),
    ensures
        r is Some <==> sales_convert(
            transactions@,
            steps@,
            counted@,
            target_currency@,
            rates::points_view(fx_points),
            current,
        ),
        r matches Some(list) ==> list@ == sale_conversions(
            transactions@,
            steps@,
            counted@,
            target_currency@,
            rates::points_view(fx_points),
            current,
        ),
{
    let ghost fx = rates::points_view(fx_points);
    let ghost whole = sale_conversions(
        transactions@,
        steps@,
        counted@,
        target_currency@,
        fx,
        current,
    );
    let mut list: Vec<Option<Conversion>> = Vec::new();
    let mut k: usize = 0;
    while k < steps.len()
        invariant
            k <= steps@.len(),
            steps@.len() == counted@.len(),
            sales_fit(steps@, transactions@.len() as int),
            fx == rates::points_view(fx_points),
            whole == sale_conversions(
                transactions@,
                steps@,
                counted@,
                target_currency@,
                fx,
                current,
            ),
            list@ == whole.take(k as int),
            forall|q: int|
                0 <= q < k && #[trigger] steps@[q] is Sale && counted@[q] ==> sale_conversion(
                    transactions@,
                    steps@[q],
                    target_currency@,
                    fx,
                    current,
                ) is Some,
        decreases steps@.len() - k,
    {
        let mut conversion: Option<Conversion> = None;
        if counted[k] {
            match steps[k] {
                LedgerStep::Sale(i) => {
                    let trade = &transactions[i];
                    conversion =
                    rates::report_convert_at(
                        trade.currency.as_str(),
                        target_currency,
                        fx_points,
                        trade.timestamp,
                        current,
                    );
                    if conversion.is_none() {
                        assert(steps@[k as int] is Sale);
                        return None;
                    }
                },
                _ => {},
            }
        }
        list.push(conversion);
        k += 1;
    }
    assert(list@ =~= whole);
    Some(list)
}

/// Finds how the gains of all sales are converted, by the current rate. `uncovered` says
/// of each step that its ledger held too little for it. The gain is unknown as soon as one
/// step takes more out than there is, or one sale cannot be converted.
pub fn value_total_gain(
    steps: &Vec<LedgerStep>,
    transactions: &[Transaction],
    uncovered: &Vec<bool>,
    base: &str,
    current: Option<bool>,
) -> (r: Option<Vec<Option<Conversion>>>)
    requires
        steps@.len() == uncovered@.len(),
        sales_fit(steps@, transactions@.len() as int),
    ensures
        ({
            let counted = Seq::new(steps@.len(), |k: int| true);
            &&& r is Some <==> all_covered(steps@, uncovered@) && sales_convert(
                transactions@,
                steps@,
                counted,
                base@,
                None,
                current,
            )
            &&& r matches Some(list) ==> list@ == sale_conversions(
                transactions@,
                steps@,
                counted,
                base@,
                None,
                current,
            )
        }),
{
    if !gain_is_covered(steps, uncovered) {
        return None;
    }
    let mut counted: Vec<bool> = Vec::new();
    while counted.len() < steps.len()
        invariant
            counted@ == Seq::new(counted@.len(), |k: int| true),
            counted@.len() <= steps@.len(),
        decreases steps@.len() - counted@.len(),
    {
        counted.push(true);
    }
    assert(counted@ =~= Seq::new(steps@.len(), |k: int| true));
    value_period_gain(steps, transactions, &counted, base, None, current)
}

#[verifier::loop_isolation(false)]
fn steps_until(
    transactions: &[Transaction],
    splits: &[SplitEvent],
    realize_from: Option<i64>,
    end: i64,
) -> (r: Vec<LedgerStep>)
    ensures
        r@ == ledger_steps(transactions@, splits@, realize_from, end as int),
        steps_in_range(r@, transactions@.len() as int, splits@.len() as int),
{
    let ghost trades = transactions@;
    let ghost wanted = events_until(trades, splits@, end as int);
    let mut keep: Vec<bool> = Vec::new();
    let mut i: usize = 0;
    while i < transactions.len()
        invariant
            i <= trades.len(),
            keep@.len() == i,
            forall|e: int| 0 <= e < i ==> #[trigger] keep@[e] == wanted(e),
        decreases trades.len() - i,
    {
        keep.push(transactions[i].timestamp <= end);
        i += 1;
    }
    let mut j: usize = 0;
    while j < splits.len()
        invariant
            j <= splits@.len(),
            keep@.len() == trades.len() + j,
            forall|e: int| 0 <= e < keep@.len() ==> #[trigger] keep@[e] == wanted(e),
        decreases splits@.len() - j,
    {
        keep.push(splits[j].timestamp <= end);
        j += 1;
    }
    let events = ledger::arrange_events(transactions, splits, &keep);
    proof {
        order::is_arrangement(
            events@,
            keep@.len() as int,
            |i: int| keep@[i],
            ledger::event_keys(trades, splits@),
            wanted,
            ledger::event_keys(trades, splits@),
        );
    }
    let mut r: Vec<LedgerStep> = Vec::new();
    let mut k: usize = 0;
    while k < events.len()
        invariant
            k <= events@.len(),
            r@.len() == k,
            steps_in_range(r@, trades.len() as int, splits@.len() as int),
            forall|q: int|
                0 <= q < k ==> #[trigger] r@[q] == ledger_step(trades, realize_from, events@[q] as int),
        decreases events@.len() - k,
    {
        let e: usize = events[k];
        if e < transactions.len() {
            let t = &transactions[e];
            let step = match ledger::activity_kind(t.transaction_type.as_str()) {
                ActivityKind::Buy | ActivityKind::Open => LedgerStep::Purchase(e),
                ActivityKind::TransferIn => LedgerStep::TransferIn(e),
                ActivityKind::Sell => match realize_from {
                    Some(start) => if t.timestamp >= start {
                        LedgerStep::Sale(e)
                    } else {
                        LedgerStep::Removal(e)
                    },
                    None => LedgerStep::Removal(e),
                },
                ActivityKind::TransferOut => LedgerStep::Removal(e),
                ActivityKind::Split | ActivityKind::Other => LedgerStep::Note(e),
            };
            r.push(step);
        } else {
            r.push(LedgerStep::Split(e - transactions.len()));
        }
        k += 1;
    }
    assert(r@ =~= ledger_steps(trades, splits@, realize_from, end as int));
    r
}

/// The steps that lead to the holdings of an account at the end of a period. There is
/// one ledger for each security.
pub fn report_holding_states_as_of(
    transactions: &[Transaction],
    split_events: &[SplitEvent],
    end_timestamp: i64,
) -> (r: LedgerPlan)
    ensures
        r.steps@ == ledger_steps(transactions@, split_events@, None, end_timestamp as int),
        are_ledgers(r.ledgers@, Scope::Portfolio, transactions@, split_events@, r.steps@),
{
    ledgers_of(
        Scope::Portfolio,
        transactions,
        split_events,
        steps_until(transactions, split_events, None, end_timestamp),
    )
}

/// The steps from which the gain of a period is found: sales before its start change the
/// ledgers, and only those within it count.
pub fn report_realized_gain_for_period(
    transactions: &[Transaction],
    split_events: &[SplitEvent],
    start_timestamp: i64,
    end_timestamp: i64,
) -> (r: LedgerPlan)
    ensures
        r.steps@ == ledger_steps(
            transactions@,
            split_events@,
            Some(start_timestamp),
            end_timestamp as int,
        ),
        are_ledgers(r.ledgers@, Scope::Portfolio, transactions@, split_events@, r.steps@),
        sales_fit(r.steps@, transactions@.len() as int),
{
    ledgers_of(
        Scope::Portfolio,
        transactions,
        split_events,
        steps_until(transactions, split_events, Some(start_timestamp), end_timestamp),
    )
}

/// Trades of the kinds that a ledger knows.
pub open spec fn known_trade(t: Transaction) -> bool {
    let kind = ledger::kind_of(t.transaction_type@);
    kind != ActivityKind::Split && kind != ActivityKind::Other
}

/// The steps from which the gain of all sales is found; nothing where a trade is of no
/// known kind. There is one ledger for each security in each account.
pub fn realized_gain_from_transactions(
    transactions: &[Transaction],
    splits: &[SplitEvent],
) -> (r: Option<LedgerPlan>)
    ensures
        match r {
            Some(plan) => {
                &&& forall|i: int| 0 <= i < transactions@.len() ==> known_trade(#[trigger] transactions@[i])
                &&& plan.steps@ == ledger_steps(
                    transactions@,
                    splits@,
                    Some(i64::MIN),
                    i64::MAX as int,
                )
                &&& are_ledgers(
                    plan.ledgers@,
                    Scope::Account,
                    transactions@,
                    splits@,
                    plan.steps@,
                )
                &&& sales_fit(plan.steps@, transactions@.len() as int)
            },
            None => exists|i: int|
                0 <= i < transactions@.len() && !known_trade(#[trigger] transactions@[i]),
        },
{
    let mut i: usize = 0;
    while i < transactions.len()
        invariant
            i <= transactions@.len(),
            forall|k: int| 0 <= k < i ==> known_trade(#[trigger] transactions@[k]),
        decreases transactions@.len() - i,
    {
        let kind = ledger::activity_kind(transactions[i].transaction_type.as_str());
        if kind == ActivityKind::Split || kind == ActivityKind::Other {
            assert(!known_trade(transactions@[i as int]));
            return None;
        }
        i += 1;
    }
    Some(
        ledgers_of(
            Scope::Account,
            transactions,
            splits,
            steps_until(transactions, splits, Some(i64::MIN), i64::MAX),
        ),
    )
}

/// The steps of a period count the sales within it, and nothing else: a purchase, a
/// transfer or a split realizes no gain, nor does a sale outside of the period.
pub proof fn sales_of_a_period(
    trades: Seq<Transaction>,
    splits: Seq<SplitEvent>,
    start: i64,
    end: int,
    i: usize,
)
    requires
        trades.len() + splits.len() <= usize::MAX,
    ensures
        ledger_steps(trades, splits, Some(start), end).contains(LedgerStep::Sale(i)) <==> i
            < trades.len() && ledger::kind_of(trades[i as int].transaction_type@)
            == ActivityKind::Sell && start <= trades[i as int].timestamp <= end,
{
    let len = (trades.len() + splits.len()) as int;
    let keep = events_until(trades, splits, end);
    let keys = ledger::event_keys(trades, splits);
    order::every_arrangement_exists(len, keep, keys);
    let events = order::arrangement(len, keep, keys);
    let steps = ledger_steps(trades, splits, Some(start), end);
    if steps.contains(LedgerStep::Sale(i)) {
        let k = choose|k: int| 0 <= k < steps.len() && steps[k] == LedgerStep::Sale(i);
        assert(keep(events[k] as int));
        assert(steps[k] == ledger_step(trades, Some(start), events[k] as int));
    }
    if i < trades.len() && ledger::kind_of(trades[i as int].transaction_type@) == ActivityKind::Sell
        && start <= trades[i as int].timestamp <= end {
        assert(keep(i as int));
        assert(events.contains(i));
        let k = choose|k: int| 0 <= k < events.len() && events[k] == i;
        assert(steps[k] == LedgerStep::Sale(i));
    }
}

/// The step with its gain left out.
pub open spec fn unrealized(step: LedgerStep) -> LedgerStep {
    match step {
        LedgerStep::Sale(i) => LedgerStep::Removal(i),
        _ => step,
    }
}

/// Two adjacent periods add up: the steps of the first are the first steps of the whole,
/// and the steps of the second are those of the whole with the sales of the first as mere
/// removals. So every sale of the whole counts in one of the two, in the same state of
/// its ledger, and none counts in both.
pub proof fn adjacent_periods_add_up(
    trades: Seq<Transaction>,
    splits: Seq<SplitEvent>,
    start: i64,
    middle: i64,
    end: i64,
)
    requires
        start <= middle < end,
        trades.len() + splits.len() <= usize::MAX,
    ensures
        ({
            let whole = ledger_steps(trades, splits, Some(start), end as int);
            let first = ledger_steps(trades, splits, Some(start), middle as int);
            let second = ledger_steps(trades, splits, Some((middle + 1) as i64), end as int);
            &&& first.len() <= whole.len()
            &&& first == whole.take(first.len() as int)
            &&& second.len() == whole.len()
            &&& forall|k: int|
                0 <= k < whole.len() ==> #[trigger] second[k] == if k < first.len() {
                    unrealized(whole[k])
                } else {
                    whole[k]
                }
        }),
{
    let len = (trades.len() + splits.len()) as int;
    let keys = ledger::event_keys(trades, splits);
    let until_middle = events_until(trades, splits, middle as int);
    let until_end = events_until(trades, splits, end as int);
    let near = |e: int| until_end(e) && keys(e).first <= middle;
    order::every_arrangement_exists(len, until_middle, keys);
    order::every_arrangement_exists(len, until_end, keys);
    let early = order::arrangement(len, until_middle, keys);
    let all = order::arrangement(len, until_end, keys);
    assert forall|e: int| 0 <= e < len implies #[trigger] until_middle(e) == near(e) by {
        if e < trades.len() {
        } else {
        }
    }
    order::arrangement_by_equals(early, len, until_middle, keys, near, keys);
    order::arrangement_up_to(all, len, until_end, keys, middle as int, early);
    let whole = ledger_steps(trades, splits, Some(start), end as int);
    let first = ledger_steps(trades, splits, Some(start), middle as int);
    let second = ledger_steps(trades, splits, Some((middle + 1) as i64), end as int);
    assert(first =~= whole.take(first.len() as int));
    assert forall|k: int| 0 <= k < whole.len() implies #[trigger] second[k] == if k < first.len() {
        unrealized(whole[k])
    } else {
        whole[k]
    } by {
        if k < first.len() {
            assert(early[k] == all[k]);
            assert(until_middle(early[k] as int));
        } else {
            assert(keys(all[k] as int).first > middle);
        }
    }
}

proof fn integer_text_has_no_bar(n: int)
    ensures
        forall|i: int| 0 <= i < numbers::integer_text(n).len() ==> numbers::integer_text(n)[i] != '|',
{
    numbers::printed_integer_is_plain(n);
    let s = numbers::integer_text(n);
    assert forall|i: int| 0 <= i < s.len() implies s[i] != '|' by {
        assert(s[i] == '-' || numbers::is_digit(s[i]));
    }
}

/// A split of a security reaches its ledger in every account, and, where no bar stands
/// in the symbol of a ledger, no ledger of another security.
pub proof fn split_reaches_its_security(account_id: int, held: Seq<char>, split: Seq<char>)
    ensures
        text::alike(held, split) ==> split_reaches(ledger_name(account_id, held), split),
        split_reaches(ledger_name(account_id, held), split) && !held.contains('|') ==> text::alike(
            held,
            split,
        ),
{
    reveal_strlit("|");
    let n = numbers::integer_text(account_id);
    let s = text::uppercase(held);
    let p = text::uppercase(split);
    let name = ledger_name(account_id, held);
    let suffix = "|"@ + p;
    text::alike_by_upper_case(held, split);
    if text::alike(held, split) {
        assert(name.subrange(name.len() - suffix.len(), name.len() as int) =~= suffix);
    }
    if split_reaches(name, split) && !held.contains('|') {
        let at = name.len() - suffix.len();
        integer_text_has_no_bar(account_id);
        assert(name.subrange(at, at + suffix.len())[0] == '|');
        assert(name[at] == '|');
        assert(forall|i: int| 0 <= i < s.len() ==> s[i] == text::upper(held[i]));
        if at > n.len() {
            assert(name[at] == s[at - n.len() - 1]);
            assert(held.contains(held[at - n.len() - 1]));
        }
        assert(at == n.len());
        assert forall|i: int| 0 <= i < p.len() implies s[i] == p[i] by {
            assert(name.subrange(at, at + suffix.len())[i + 1] == suffix[i + 1]);
        }
        assert(s =~= p);
    }
}

/// What each record does to its ledger. Purchases and opening positions come in at their
/// price with their fees, shares that are transferred in at their price alone. Sales within
/// the period realize a gain; sales before it and shares that are transferred out leave at
/// average cost. Splits change the number of shares. Only what is of no such type changes
/// nothing, and no record counts twice or after the end.
pub proof fn ledgers_follow_the_types(
    trades: Seq<Transaction>,
    splits: Seq<SplitEvent>,
    realize_from: Option<i64>,
    end: int,
)
    requires
        trades.len() + splits.len() <= usize::MAX,
    ensures
        ({
            let steps = ledger_steps(trades, splits, realize_from, end);
            &&& steps.no_duplicates()
            &&& forall|i: int|
                0 <= i < trades.len() ==> {
                    let kind = (#[trigger] trades[i]).transaction_type@;
                    let counts = trades[i].timestamp <= end;
                    let realized = kind == "SELL"@ && realize_from is Some && realize_from->0
                        <= trades[i].timestamp;
                    &&& steps.contains(LedgerStep::Purchase(i as usize)) <==> counts && (kind
                        == "BUY"@ || kind == "OPEN"@)
                    &&& steps.contains(LedgerStep::TransferIn(i as usize)) <==> counts && kind
                        == "TRANSFER_IN"@
                    &&& steps.contains(LedgerStep::Sale(i as usize)) <==> counts && realized
                    &&& steps.contains(LedgerStep::Removal(i as usize)) <==> counts && (kind
                        == "TRANSFER_OUT"@ || (kind == "SELL"@ && !realized))
                    &&& steps.contains(LedgerStep::Note(i as usize)) <==> counts && kind != "BUY"@
                        && kind != "OPEN"@ && kind != "TRANSFER_IN"@ && kind != "SELL"@ && kind
                        != "TRANSFER_OUT"@
                }
            &&& forall|j: int|
                0 <= j < splits.len() ==> (steps.contains(LedgerStep::Split(j as usize)) <==> (
                #[trigger] splits[j]).timestamp <= end)
        }),
{
    ledger::kinds_by_name();
    let len = (trades.len() + splits.len()) as int;
    let keep = events_until(trades, splits, end);
    let keys = ledger::event_keys(trades, splits);
    order::arrangement_sorts_kept_positions(len, keep, keys);
    let events = order::arrangement(len, keep, keys);
    let steps = ledger_steps(trades, splits, realize_from, end);
    assert forall|k: int| 0 <= k < events.len() implies #[trigger] events[k] < len && steps[k]
        == ledger_step(trades, realize_from, events[k] as int) by {
        assert(events.contains(events[k]));
    }
    assert forall|a: int, b: int|
        0 <= a < steps.len() && 0 <= b < steps.len() && a != b implies steps[a] != steps[b] by {
        assert(events[a] != events[b]);
    }
    assert forall|e: int| 0 <= e < len && keep(e) implies #[trigger] steps.contains(
        ledger_step(trades, realize_from, e),
    ) by {
        assert(events.contains(e as usize));
        let k = choose|k: int| 0 <= k < events.len() && events[k] == e as usize;
        assert(steps[k] == ledger_step(trades, realize_from, e));
    }
    assert forall|step: LedgerStep| #[trigger] steps.contains(step) implies exists|e: int|
        0 <= e < len && keep(e) && step == ledger_step(trades, realize_from, e) by {
        let k = choose|k: int| 0 <= k < steps.len() && steps[k] == step;
        assert(events.contains(events[k]));
        assert(step == ledger_step(trades, realize_from, events[k] as int));
    }
    assert forall|i: int| 0 <= i < trades.len() implies {
        let kind = (#[trigger] trades[i]).transaction_type@;
        let counts = trades[i].timestamp <= end;
        let realized = kind == "SELL"@ && realize_from is Some && realize_from->0
            <= trades[i].timestamp;
        &&& steps.contains(LedgerStep::Purchase(i as usize)) <==> counts && (kind == "BUY"@ || kind
            == "OPEN"@)
        &&& steps.contains(LedgerStep::TransferIn(i as usize)) <==> counts && kind == "TRANSFER_IN"@
        &&& steps.contains(LedgerStep::Sale(i as usize)) <==> counts && realized
        &&& steps.contains(LedgerStep::Removal(i as usize)) <==> counts && (kind == "TRANSFER_OUT"@
            || (kind == "SELL"@ && !realized))
        &&& steps.contains(LedgerStep::Note(i as usize)) <==> counts && kind != "BUY"@ && kind
            != "OPEN"@ && kind != "TRANSFER_IN"@ && kind != "SELL"@ && kind != "TRANSFER_OUT"@
    } by {
        let step = ledger_step(trades, realize_from, i);
        if keep(i) {
            assert(steps.contains(step));
        }
    }
    assert forall|j: int| 0 <= j < splits.len() implies (steps.contains(
        LedgerStep::Split(j as usize),
    ) <==> (#[trigger] splits[j]).timestamp <= end) by {
        let step = ledger_step(trades, realize_from, trades.len() + j);
        if keep(trades.len() + j) {
            assert(steps.contains(step));
        }
    }
}

/// When the record of a step took place.
pub open spec fn ledger_time(
    trades: Seq<Transaction>,
    splits: Seq<SplitEvent>,
    step: LedgerStep,
) -> int {
    match step {
        LedgerStep::Purchase(i) => trades[i as int].timestamp as int,
        LedgerStep::TransferIn(i) => trades[i as int].timestamp as int,
        LedgerStep::Sale(i) => trades[i as int].timestamp as int,
        LedgerStep::Removal(i) => trades[i as int].timestamp as int,
        LedgerStep::Note(i) => trades[i as int].timestamp as int,
        LedgerStep::Split(j) => splits[j as int].timestamp as int,
    }
}

/// Ledgers are kept in the order of time. At one time splits come first, and shares come in
/// before others leave, so that a sale finds what was bought before it on the same day.
pub proof fn ledgers_are_kept_in_order(
    trades: Seq<Transaction>,
    splits: Seq<SplitEvent>,
    realize_from: Option<i64>,
    end: int,
)
    requires
        trades.len() + splits.len() <= usize::MAX,
    ensures
        ({
            let steps = ledger_steps(trades, splits, realize_from, end);
            forall|a: int, b: int|
                0 <= a < b < steps.len() ==> {
                    let x = ledger_time(trades, splits, #[trigger] steps[a]);
                    let y = ledger_time(trades, splits, #[trigger] steps[b]);
                    &&& x <= y
                    &&& x == y && (steps[a] is Sale || steps[a] is Removal) ==> !(steps[b] is Purchase)
                        && !(steps[b] is TransferIn) && !(steps[b] is Split)
                    &&& x == y && (steps[a] is Purchase || steps[a] is TransferIn) ==> !(steps[b] is Split)
                }
        }),
{
    ledger::kinds_by_name();
    let len = (trades.len() + splits.len()) as int;
    let keep = events_until(trades, splits, end);
    let keys = ledger::event_keys(trades, splits);
    order::arrangement_sorts_kept_positions(len, keep, keys);
    ledger::records_take_effect_in_order(trades, splits, keep);
    let events = order::arrangement(len, keep, keys);
    let steps = ledger_steps(trades, splits, realize_from, end);
    assert forall|k: int| 0 <= k < events.len() implies #[trigger] events[k] < len && steps[k]
        == ledger_step(trades, realize_from, events[k] as int) by {
        assert(events.contains(events[k]));
    }
    assert forall|a: int, b: int| 0 <= a < b < steps.len() implies {
        let x = ledger_time(trades, splits, #[trigger] steps[a]);
        let y = ledger_time(trades, splits, #[trigger] steps[b]);
        &&& x <= y
        &&& x == y && (steps[a] is Sale || steps[a] is Removal) ==> !(steps[b] is Purchase) && !(
        steps[b] is TransferIn) && !(steps[b] is Split)
        &&& x == y && (steps[a] is Purchase || steps[a] is TransferIn) ==> !(steps[b] is Split)
    } by {
        let x = events[a];
        let y = events[b];
    }
}

/// A trade is of a known type where it buys, sells, opens or transfers.
pub proof fn known_trades_are_of_five_types(t: Transaction)
    ensures
        known_trade(t) <==> t.transaction_type@ == "BUY"@ || t.transaction_type@ == "OPEN"@
            || t.transaction_type@ == "TRANSFER_IN"@ || t.transaction_type@ == "SELL"@
            || t.transaction_type@ == "TRANSFER_OUT"@,
{
    ledger::kinds_by_name();
}

/// A gain is found unless a sale or a transfer out takes more than its ledger held.
pub proof fn gain_needs_cover(steps: Seq<LedgerStep>, uncovered: Seq<bool>, k: int)
    ensures
        0 <= k < steps.len() && (steps[k] is Sale || steps[k] is Removal) && uncovered[k]
            ==> !all_covered(steps, uncovered),
        (forall|q: int| 0 <= q < steps.len() ==> !#[trigger] uncovered[q]) ==> all_covered(
            steps,
            uncovered,
        ),
        (forall|q: int|
            0 <= q < steps.len() && uncovered[q] ==> #[trigger] steps[q] is Purchase || steps[q] is TransferIn
                || steps[q] is Note || steps[q] is Split) ==> all_covered(steps, uncovered),
{
}

/// A ledger collects the trades of its security, in its account where accounts are kept
/// apart, and every trade stands in one of the ledgers. The steps of a ledger are in the
/// order in which they take effect.
pub proof fn ledgers_collect_their_trades(
    ledgers: Seq<Ledger>,
    scope: Scope,
    trades: Seq<Transaction>,
    splits: Seq<SplitEvent>,
    steps: Seq<LedgerStep>,
    l: int,
    k: usize,
)
    requires
        are_ledgers(ledgers, scope, trades, splits, steps),
        steps_in_range(steps, trades.len() as int, splits.len() as int),
        steps.len() <= usize::MAX,
        k < steps.len(),
    ensures
        trade_of_step(steps[k as int]) matches Some(i) ==> {
            let t = trades[i as int];
            &&& 0 <= l < ledgers.len() ==> (trade_of_step(
                steps[ledgers[l].opening as int],
            ) matches Some(o) && (ledgers[l].places@.contains(k) <==> text::alike(
                t.provider_symbol@,
                trades[o as int].provider_symbol@,
            ) && (scope == Scope::Portfolio || t.account_id == trades[o as int].account_id)))
            &&& exists|m: int|
                0 <= m < ledgers.len() && (#[trigger] ledgers[m]).places@.contains(k)
        },
        0 <= l < ledgers.len() ==> ledgers[l].places@.contains(ledgers[l].opening),
        0 <= l < ledgers.len() ==> forall|a: int, b: int|
            0 <= a < b < ledgers[l].places@.len() ==> #[trigger] ledgers[l].places@[a]
                < #[trigger] ledgers[l].places@[b],
{
    let opens = opens_ledger(scope, trades, steps);
    let first = order::selection(steps.len() as int, opens);
    order::selection_lists_kept_positions(steps.len() as int, opens);
    let list = Seq::new(ledgers.len(), |i: int| ledgers[i].opening);
    assert(list == first);
    if 0 <= l < ledgers.len() {
        assert(list[l] == ledgers[l].opening);
        assert(first.contains(first[l]));
        let opening = ledgers[l].opening as int;
        assert(opens(opening));
        assert(is_ledger(ledgers[l], scope, trades, splits, steps));
        order::selection_lists_kept_positions(
            steps.len() as int,
            changes_ledger(scope, trades, splits, steps, opening),
        );
        assert(changes_ledger(scope, trades, splits, steps, opening)(opening));
        if let Some(i) = trade_of_step(steps[k as int]) {
            let o = trade_of_step(steps[opening])->0;
            ledgers_are_kept_apart(trades[i as int], trades[o as int]);
            if k < opening {
                assert(!entered_in(
                    scope,
                    trades,
                    steps,
                    k as int,
                    ledger_at(scope, trades, steps, opening),
                ));
            }
        }
    }
    if trade_of_step(steps[k as int]) is Some {
        trade_has_one_ledger(scope, trades, splits, steps, k as int);
        let o = choose|o: int|
            0 <= o <= k && #[trigger] opens_ledger(scope, trades, steps)(o) && changes_ledger(
                scope,
                trades,
                splits,
                steps,
                o,
            )(k as int);
        assert(first.contains(o as usize));
        let m = choose|m: int| 0 <= m < first.len() && first[m] == o as usize;
        assert(list[m] == ledgers[m].opening);
        assert(is_ledger(ledgers[m], scope, trades, splits, steps));
        order::selection_lists_kept_positions(
            steps.len() as int,
            changes_ledger(scope, trades, splits, steps, o),
        );
        assert(ledgers[m].places@.contains(k));
    }
}

/// A split changes a ledger that was open before it and is of its security. Where accounts
/// are kept apart this is so for every security without a bar in its symbol.
pub proof fn splits_change_open_ledgers_of_their_security(
    ledgers: Seq<Ledger>,
    scope: Scope,
    trades: Seq<Transaction>,
    splits: Seq<SplitEvent>,
    steps: Seq<LedgerStep>,
    l: int,
    k: usize,
    j: usize,
)
    requires
        are_ledgers(ledgers, scope, trades, splits, steps),
        steps_in_range(steps, trades.len() as int, splits.len() as int),
        steps.len() <= usize::MAX,
        k < steps.len(),
        steps[k as int] == LedgerStep::Split(j),
        0 <= l < ledgers.len(),
    ensures
        trade_of_step(steps[ledgers[l].opening as int]) matches Some(o) && (scope
            == Scope::Portfolio || !trades[o as int].provider_symbol@.contains('|') ==> (
        ledgers[l].places@.contains(k) <==> ledgers[l].opening < k && text::alike(
            trades[o as int].provider_symbol@,
            splits[j as int].provider_symbol@,
        ))),
{
    let opens = opens_ledger(scope, trades, steps);
    let first = order::selection(steps.len() as int, opens);
    order::selection_lists_kept_positions(steps.len() as int, opens);
    let list = Seq::new(ledgers.len(), |i: int| ledgers[i].opening);
    assert(list == first);
    assert(list[l] == ledgers[l].opening);
    assert(first.contains(first[l]));
    let opening = ledgers[l].opening as int;
    assert(opens(opening));
    assert(is_ledger(ledgers[l], scope, trades, splits, steps));
    order::selection_lists_kept_positions(
        steps.len() as int,
        changes_ledger(scope, trades, splits, steps, opening),
    );
    let o = trade_of_step(steps[opening])->0;
    text::alike_by_upper_case(trades[o as int].provider_symbol@, splits[j as int].provider_symbol@);
    split_reaches_its_security(
        trades[o as int].account_id as int,
        trades[o as int].provider_symbol@,
        splits[j as int].provider_symbol@,
    );
}

/// The gain of a sale is converted from the currency of the trade by the rate of its time.
pub proof fn sales_convert_by_the_rate_of_their_time(
    trades: Seq<Transaction>,
    i: usize,
    target: Seq<char>,
    fx: Option<Seq<PricePoint>>,
    current: Option<bool>,
)
    ensures
        sale_conversion(trades, LedgerStep::Sale(i), target, fx, current) == rates::conversion_at(
            trades[i as int].currency@,
            target,
            rates::rate_at(fx, trades[i as int].timestamp as int, current),
        ),
        sale_conversion(trades, LedgerStep::Removal(i), target, fx, current) is None,
{
}

/// The gain of a sale in US dollars becomes one in Canadian dollars by the last rate known when
/// the sale was made; a gain in the currency that is asked for stays as it is.
pub proof fn gain_takes_the_last_rate_before_the_sale(
    trades: Seq<Transaction>,
    i: usize,
    target: Seq<char>,
    points: Seq<PricePoint>,
    current: Option<bool>,
    k: int,
)
    requires
        points.len() <= usize::MAX,
    ensures
        text::alike(trades[i as int].currency@, target) ==> sale_conversion(
            trades,
            LedgerStep::Sale(i),
            target,
            Some(points),
            current,
        ) == Some(Conversion::Same),
        text::alike(trades[i as int].currency@, "USD"@) && text::alike(target, "CAD"@) && 0 <= k
            < points.len() && points[k].timestamp <= trades[i as int].timestamp && (forall|j: int|
            k < j < points.len() ==> (#[trigger] points[j]).timestamp > trades[i as int].timestamp)
            ==> sale_conversion(trades, LedgerStep::Sale(i), target, Some(points), current) == Some(
            Conversion::Multiply(rates::Rate::Historical(k as usize)),
        ),
{
    if text::alike(trades[i as int].currency@, "USD"@) && text::alike(target, "CAD"@) && 0 <= k
        < points.len() && points[k].timestamp <= trades[i as int].timestamp && (forall|j: int|
        k < j < points.len() ==> (#[trigger] points[j]).timestamp > trades[i as int].timestamp) {
        rates::last_known_rate_exchanges_dollars(
            trades[i as int].currency@,
            target,
            points,
            trades[i as int].timestamp as int,
            current,
            k,
        );
    }
}

/// A ledger has the name of the security that opens it, in upper case, with the account in
/// front of it where accounts are kept apart.
pub proof fn ledgers_are_named_by_security(
    ledger: Ledger,
    scope: Scope,
    trades: Seq<Transaction>,
    splits: Seq<SplitEvent>,
    steps: Seq<LedgerStep>,
    o: usize,
)
    requires
        is_ledger(ledger, scope, trades, splits, steps),
        trade_of_step(steps[ledger.opening as int]) == Some(o),
    ensures
        scope == Scope::Portfolio ==> ledger.name@ == text::uppercase(
            trades[o as int].provider_symbol@,
        ),
        scope == Scope::Account ==> ledger.name@ == numbers::integer_text(
            trades[o as int].account_id as int,
        ) + "|"@ + text::uppercase(trades[o as int].provider_symbol@),
{
}

/// A split reaches the ledgers of its security in every account.
pub proof fn split_reaches_every_account(account_id: int, symbol: Seq<char>)
    ensures
        split_reaches(
            numbers::integer_text(account_id) + "|"@ + text::uppercase(symbol),
            symbol,
        ),
{
    let end = "|"@ + text::uppercase(symbol);
    let number = numbers::integer_text(account_id);
    text::text_holds_its_parts(number, end, Seq::empty());
    assert(number + "|"@ + text::uppercase(symbol) =~= number + end);
}

} // verus!
