//! Which activities may be recorded, changed or removed.

use vstd::prelude::*;
use crate::ledger;
use crate::ledger::{ActivityKind, Quantity, ShareStep};
use crate::model::{SplitEvent, Transaction};
use crate::order;
use crate::order::SortKey;
use crate::text;

verus! {

/// The activities of one holding: those of an account in a security, but for the one
/// with the id that is left out.
pub open spec fn of_holding(
    t: Transaction,
    account_id: int,
    symbol: Seq<char>,
    except: Option<i64>,
) -> bool {
    t.account_id == account_id && text::alike(t.provider_symbol@, symbol) && Some(t.id) != except
}

pub open spec fn is_opening(t: Transaction) -> bool {
    t.transaction_type@ == "OPEN"@
}

/// Why an activity cannot be recorded for a holding, the number of shares held aside.
pub open spec fn change_refusal(
    trades: Seq<Transaction>,
    account_id: int,
    symbol: Seq<char>,
    editing_id: Option<i64>,
    kind: Seq<char>,
    timestamp: int,
    no_shares: bool,
) -> Option<Seq<char>> {
    let mine = |i: int|
        0 <= i < trades.len() && of_holding(trades[i], account_id, symbol, editing_id);
    let two_openings = if kind == "OPEN"@ {
        exists|i: int| #[trigger] mine(i) && is_opening(trades[i])
    } else {
        exists|i: int, j: int|
            i < j && #[trigger] mine(i) && #[trigger] mine(j) && is_opening(trades[i])
                && is_opening(trades[j])
    };
    if no_shares {
        Some("Shares must be greater than zero"@)
    } else if two_openings {
        Some("Only one opening position can be recorded for a holding"@)
    } else if kind == "OPEN"@ {
        if exists|i: int| #[trigger] mine(i) && trades[i].timestamp < timestamp {
            Some("Opening position must be dated before the other activity"@)
        } else {
            None
        }
    } else if exists|i: int|
        #[trigger] mine(i) && is_opening(trades[i]) && timestamp < trades[i].timestamp {
        Some("Activity cannot be dated before the opening position"@)
    } else {
        None
    }
}

/// The key of an activity that is being entered: a new one comes after every recorded
/// one of its time and rank.
pub open spec fn proposed_key(kind: Seq<char>, timestamp: i64, editing_id: Option<i64>) -> SortKey {
    SortKey {
        first: timestamp as i128,
        second: ledger::priority(ledger::kind_of(kind)) as i128,
        third: match editing_id {
            Some(id) => id as i128,
            None => i64::MAX as i128,
        },
    }
}

/// The keys of the trades, of the splits, and last of the activity being entered.
pub open spec fn change_keys(
    trades: Seq<Transaction>,
    splits: Seq<SplitEvent>,
    proposed: SortKey,
) -> spec_fn(int) -> SortKey {
    |e: int|
        if e < trades.len() + splits.len() {
            ledger::event_keys(trades, splits)(e)
        } else {
            proposed
        }
}

/// The events that a change is held against: the other activities of the holding, all
/// splits, and the activity itself.
pub open spec fn change_events(
    trades: Seq<Transaction>,
    account_id: int,
    symbol: Seq<char>,
    editing_id: Option<i64>,
) -> spec_fn(int) -> bool {
    |e: int| e < trades.len() ==> of_holding(trades[e], account_id, symbol, editing_id)
}

pub open spec fn change_step(
    trades: Seq<Transaction>,
    splits: Seq<SplitEvent>,
    kind: Seq<char>,
    e: int,
) -> ShareStep {
    if e < trades.len() {
        ledger::trade_step(
            ledger::kind_of(trades[e].transaction_type@),
            Quantity::Trade(e as usize),
            true,
        )
    } else if e < trades.len() + splits.len() {
        ShareStep::Multiply(Quantity::Split((e - trades.len()) as usize))
    } else {
        ledger::trade_step(ledger::kind_of(kind), Quantity::Proposed, true)
    }
}

/// The steps of a holding with the activity being entered among them.
pub open spec fn change_steps(
    trades: Seq<Transaction>,
    splits: Seq<SplitEvent>,
    account_id: int,
    symbol: Seq<char>,
    editing_id: Option<i64>,
    kind: Seq<char>,
    timestamp: i64,
) -> Seq<ShareStep> {
    let events = order::arrangement(
        (trades.len() + splits.len() + 1) as int,
        change_events(trades, account_id, symbol, editing_id),
        change_keys(trades, splits, proposed_key(kind, timestamp, editing_id)),
    );
    Seq::new(events.len(), |k: int| change_step(trades, splits, kind, events[k] as int))
}

fn belongs(t: &Transaction, account_id: i64, symbol: &str, except: Option<i64>) -> (r: bool)
    ensures
        r == of_holding(*t, account_id as int, symbol@, except),
{
    let other = match except {
        Some(id) => id != t.id,
        None => true,
    };
    t.account_id == account_id && text::same_letters(t.provider_symbol.as_str(), symbol) && other
}

/// Checks an activity before it is recorded or changed. `no_shares` says that its number
/// of shares is zero or less. Where nothing stands against it, the steps are given that
/// the holding then goes through; `change_verdict` decides on their outcome.
#[verifier::loop_isolation(false)]
pub fn validate_transaction_change(
    transactions: &[Transaction],
    splits: &[SplitEvent],
    account_id: i64,
    provider_symbol: &str,
    editing_id: Option<i64>,
    kind: &str,
    timestamp: i64,
    no_shares: bool,
) -> (r: Result<Vec<ShareStep>, &'static str>)
    requires
        transactions@.len() + splits@.len() < usize::MAX,
    ensures
        match r {
            Ok(steps) => {
                &&& change_refusal(
                    transactions@,
                    account_id as int,
                    provider_symbol@,
                    editing_id,
                    kind@,
                    timestamp as int,
                    no_shares,
                ) is None
                &&& steps@ == change_steps(
                    transactions@,
                    splits@,
                    account_id as int,
                    provider_symbol@,
                    editing_id,
                    kind@,
                    timestamp,
                )
            },
            Err(message) => change_refusal(
                transactions@,
                account_id as int,
                provider_symbol@,
                editing_id,
                kind@,
                timestamp as int,
                no_shares,
            ) == Some(message@),
        },
{
    if no_shares {
        return Err("Shares must be greater than zero");
    }
    let ghost trades = transactions@;
    let ghost mine = |i: int|
        0 <= i < trades.len() && of_holding(
            trades[i],
            account_id as int,
            provider_symbol@,
            editing_id,
        );
    let opens = text::same_text(kind, "OPEN");
    let mut keep: Vec<bool> = Vec::new();
    let mut opening: Option<usize> = None;
    let mut second: Option<usize> = None;
    let mut earlier: Option<usize> = None;
    let mut i: usize = 0;
    while i < transactions.len()
        invariant
            i <= trades.len(),
            keep@.len() == i,
            forall|e: int| 0 <= e < i ==> #[trigger] keep@[e] == mine(e),
            match opening {
                Some(o) => o < i && mine(o as int) && is_opening(trades[o as int]),
                None => forall|e: int| 0 <= e < i && #[trigger] mine(e) ==> !is_opening(trades[e]),
            },
            match (opening, second) {
                (Some(o), Some(p)) => o < p < i && mine(p as int) && is_opening(trades[p as int]),
                (Some(o), None) => forall|e: int|
                    0 <= e < i && #[trigger] mine(e) && is_opening(trades[e]) ==> e == o,
                (None, Some(_)) => false,
                (None, None) => true,
            },
            match earlier {
                Some(o) => o < i && mine(o as int) && trades[o as int].timestamp < timestamp,
                None => forall|e: int|
                    0 <= e < i && #[trigger] mine(e) ==> trades[e].timestamp >= timestamp,
            },
        decreases transactions@.len() - i,
    {
        let t = &transactions[i];
        let kept = belongs(t, account_id, provider_symbol, editing_id);
        assert(kept == mine(i as int));
        if kept {
            if text::same_text(t.transaction_type.as_str(), "OPEN") {
                if opening.is_none() {
                    opening = Some(i);
                } else if second.is_none() {
                    second = Some(i);
                }
            }
            if t.timestamp < timestamp {
                earlier = Some(i);
            }
        }
        keep.push(kept);
        i += 1;
    }
    if second.is_some() || (opens && opening.is_some()) {
        return Err("Only one opening position can be recorded for a holding");
    }
    if opens {
        if earlier.is_some() {
            return Err("Opening position must be dated before the other activity");
        }
    } else {
        match opening {
            Some(o) => {
                if timestamp < transactions[o].timestamp {
                    return Err("Activity cannot be dated before the opening position");
                }
            },
            None => {},
        }
    }
    let mut keys = ledger::event_sort_keys(transactions, splits);
    let ghost proposed = proposed_key(kind@, timestamp, editing_id);
    keys.push(
        SortKey {
            first: timestamp as i128,
            second: ledger::activity_sort_priority(kind) as i128,
            third: match editing_id {
                Some(id) => id as i128,
                None => i64::MAX as i128,
            },
        },
    );
    let total: usize = transactions.len() + splits.len() + 1;
    let ghost wanted = change_events(trades, account_id as int, provider_symbol@, editing_id);
    while keep.len() < total
        invariant
            trades.len() <= keep@.len() <= total,
            forall|e: int| 0 <= e < keep@.len() ==> #[trigger] keep@[e] == wanted(e),
        decreases total - keep@.len(),
    {
        keep.push(true);
    }
    let events = order::arrange(&keep, &keys);
    proof {
        order::is_arrangement(
            events@,
            total as int,
            |i: int| keep@[i],
            |i: int| keys@[i],
            wanted,
            change_keys(trades, splits@, proposed),
        );
    }
    let mut steps: Vec<ShareStep> = Vec::new();
    let mut k: usize = 0;
    while k < events.len()
        invariant
            k <= events@.len(),
            steps@.len() == k,
            forall|q: int|
                0 <= q < k ==> #[trigger] steps@[q] == change_step(
                    trades,
                    splits@,
                    kind@,
                    events@[q] as int,
                ),
        decreases events@.len() - k,
    {
        let e: usize = events[k];
        if e < transactions.len() {
            let recorded = ledger::activity_kind(transactions[e].transaction_type.as_str());
            steps.push(ledger::step_of_trade(recorded, Quantity::Trade(e), true));
        } else if e < transactions.len() + splits.len() {
            steps.push(ShareStep::Multiply(Quantity::Split(e - transactions.len())));
        } else {
            steps.push(
                ledger::step_of_trade(ledger::activity_kind(kind), Quantity::Proposed, true),
            );
        }
        k += 1;
    }
    assert(steps@ =~= change_steps(
        trades,
        splits@,
        account_id as int,
        provider_symbol@,
        editing_id,
        kind@,
        timestamp,
    ));
    Ok(steps)
}

/// Some step that takes shares away leaves fewer than none.
pub open spec fn oversold(steps: Seq<ShareStep>, short: Seq<bool>) -> bool {
    exists|k: int| 0 <= k < steps.len() && #[trigger] steps[k] is Lose && short[k]
}

fn is_oversold(steps: &Vec<ShareStep>, short: &Vec<bool>) -> (r: bool)
    requires
        steps@.len() == short@.len(),
    ensures
        r == oversold(steps@, short@),
{
    let mut k: usize = 0;
    while k < steps.len()
        invariant
            k <= steps@.len(),
            steps@.len() == short@.len(),
            forall|q: int| 0 <= q < k ==> !((#[trigger] steps@[q]) is Lose && short@[q]),
        decreases steps@.len() - k,
    {
        let loses = matches!(steps[k], ShareStep::Lose(_));
        if loses && short[k] {
            return true;
        }
        k += 1;
    }
    false
}

/// Decides on a change from its steps. `short` says of each step whether fewer shares
/// than none are held after it.
pub fn change_verdict(steps: &Vec<ShareStep>, short: &Vec<bool>) -> (r: Result<(), &'static str>)
    requires
        steps@.len() == short@.len(),
    ensures
        match r {
            Ok(_) => !oversold(steps@, short@),
            Err(message) => oversold(steps@, short@) && message@
                == "Activity exceeds the shares held on that date"@,
        },
{
    if is_oversold(steps, short) {
        Err("Activity exceeds the shares held on that date")
    } else {
        Ok(())
    }
}

/// Removing an activity must not leave another one dated before the opening position.
pub open spec fn removal_refused(trades: Seq<Transaction>, removed: Transaction) -> bool {
    let mine = |i: int|
        0 <= i < trades.len() && of_holding(
            trades[i],
            removed.account_id as int,
            removed.provider_symbol@,
            Some(removed.id),
        );
    &&& exists|o: int| #[trigger] mine(o) && is_opening(trades[o])
    &&& exists|i: int|
        #[trigger] mine(i) && !is_opening(trades[i]) && forall|o: int|
            #[trigger] mine(o) && is_opening(trades[o]) ==> trades[i].timestamp < trades[o].timestamp
}

/// In the replay after a removal only purchases, opening positions and sales count.
pub open spec fn removal_trade_step(kind: ActivityKind, quantity: Quantity) -> ShareStep {
    match kind {
        ActivityKind::Open | ActivityKind::Buy => ShareStep::Gain(quantity),
        ActivityKind::Sell => ShareStep::Lose(quantity),
        ActivityKind::Split => ShareStep::Multiply(quantity),
        _ => ShareStep::Keep(quantity),
    }
}

pub open spec fn removal_step(trades: Seq<Transaction>, e: int) -> ShareStep {
    if e < trades.len() {
        removal_trade_step(
            ledger::kind_of(trades[e].transaction_type@),
            Quantity::Trade(e as usize),
        )
    } else {
        ShareStep::Multiply(Quantity::Split((e - trades.len()) as usize))
    }
}

/// The steps of a holding without the activity being removed.
pub open spec fn removal_steps(
    trades: Seq<Transaction>,
    splits: Seq<SplitEvent>,
    removed: Transaction,
) -> Seq<ShareStep> {
    let events = order::arrangement(
        (trades.len() + splits.len()) as int,
        change_events(
            trades,
            removed.account_id as int,
            removed.provider_symbol@,
            Some(removed.id),
        ),
        ledger::event_keys(trades, splits),
    );
    Seq::new(events.len(), |k: int| removal_step(trades, events[k] as int))
}

/// Checks the removal of an activity. Where nothing stands against it, the steps are
/// given that the holding then goes through; `removal_verdict` decides on their outcome.
#[verifier::loop_isolation(false)]
pub fn validate_transaction_removal(
    transactions: &[Transaction],
    splits: &[SplitEvent],
    removed: &Transaction,
) -> (r: Result<Vec<ShareStep>, &'static str>)
    requires
        transactions@.len() + splits@.len() <= usize::MAX,
    ensures
        match r {
            Ok(steps) => !removal_refused(transactions@, *removed) && steps@ == removal_steps(
                transactions@,
                splits@,
                *removed,
            ),
            Err(message) => removal_refused(transactions@, *removed) && message@
                == "Delete or move the earlier transaction first"@,
        },
{
    let ghost trades = transactions@;
    let ghost mine = |i: int|
        0 <= i < trades.len() && of_holding(
            trades[i],
            removed.account_id as int,
            removed.provider_symbol@,
            Some(removed.id),
        );
    let mut keep: Vec<bool> = Vec::new();
    let mut opening: Option<usize> = None;
    let mut other: Option<usize> = None;
    let mut i: usize = 0;
    while i < transactions.len()
        invariant
            i <= trades.len(),
            keep@.len() == i,
            forall|e: int| 0 <= e < i ==> #[trigger] keep@[e] == mine(e),
            match opening {
                Some(o) => o < i && mine(o as int) && is_opening(trades[o as int]) && forall|e: int|
                    0 <= e < i && #[trigger] mine(e) && is_opening(trades[e])
                        ==> trades[o as int].timestamp <= trades[e].timestamp,
                None => forall|e: int| 0 <= e < i && #[trigger] mine(e) ==> !is_opening(trades[e]),
            },
            match other {
                Some(o) => o < i && mine(o as int) && !is_opening(trades[o as int]) && forall|e: int|
                    0 <= e < i && #[trigger] mine(e) && !is_opening(trades[e])
                        ==> trades[o as int].timestamp <= trades[e].timestamp,
                None => forall|e: int| 0 <= e < i && #[trigger] mine(e) ==> is_opening(trades[e]),
            },
        decreases transactions@.len() - i,
    {
        let t = &transactions[i];
        let kept = belongs(
            t,
            removed.account_id,
            removed.provider_symbol.as_str(),
            Some(removed.id),
        );
        assert(kept == mine(i as int));
        if kept {
            if text::same_text(t.transaction_type.as_str(), "OPEN") {
                let first = match opening {
                    Some(o) => t.timestamp < transactions[o].timestamp,
                    None => true,
                };
                if first {
                    opening = Some(i);
                }
            } else {
                let first = match other {
                    Some(o) => t.timestamp < transactions[o].timestamp,
                    None => true,
                };
                if first {
                    other = Some(i);
                }
            }
        }
        keep.push(kept);
        i += 1;
    }
    match (opening, other) {
        (Some(o), Some(p)) => {
            if transactions[p].timestamp < transactions[o].timestamp {
                return Err("Delete or move the earlier transaction first");
            }
        },
        _ => {},
    }
    let total: usize = transactions.len() + splits.len();
    let ghost wanted = change_events(
        trades,
        removed.account_id as int,
        removed.provider_symbol@,
        Some(removed.id),
    );
    while keep.len() < total
        invariant
            trades.len() <= keep@.len() <= total,
            forall|e: int| 0 <= e < keep@.len() ==> #[trigger] keep@[e] == wanted(e),
        decreases total - keep@.len(),
    {
        keep.push(true);
    }
    let events = ledger::arrange_events(transactions, splits, &keep);
    proof {
        order::is_arrangement(
            events@,
            total as int,
            |i: int| keep@[i],
            ledger::event_keys(trades, splits@),
            wanted,
            ledger::event_keys(trades, splits@),
        );
    }
    let mut steps: Vec<ShareStep> = Vec::new();
    let mut k: usize = 0;
    while k < events.len()
        invariant
            k <= events@.len(),
            steps@.len() == k,
            forall|q: int|
                0 <= q < k ==> #[trigger] steps@[q] == removal_step(trades, events@[q] as int),
        decreases events@.len() - k,
    {
        let e: usize = events[k];
        if e < transactions.len() {
            let q = Quantity::Trade(e);
            let step = match ledger::activity_kind(transactions[e].transaction_type.as_str()) {
                ActivityKind::Open | ActivityKind::Buy => ShareStep::Gain(q),
                ActivityKind::Sell => ShareStep::Lose(q),
                ActivityKind::Split => ShareStep::Multiply(q),
                _ => ShareStep::Keep(q),
            };
            steps.push(step);
        } else {
            steps.push(ShareStep::Multiply(Quantity::Split(e - transactions.len())));
        }
        k += 1;
    }
    assert(steps@ =~= removal_steps(trades, splits@, *removed));
    Ok(steps)
}

/// Decides on a removal from its steps. `short` says of each step whether fewer shares
/// than none are held after it.
pub fn removal_verdict(steps: &Vec<ShareStep>, short: &Vec<bool>) -> (r: Result<(), &'static str>)
    requires
        steps@.len() == short@.len(),
    ensures
        match r {
            Ok(_) => !oversold(steps@, short@),
            Err(message) => oversold(steps@, short@) && message@
                == "Delete later sell transactions first"@,
        },
{
    if is_oversold(steps, short) {
        Err("Delete later sell transactions first")
    } else {
        Ok(())
    }
}

/// Once an activity is entered, the holding is replayed with all its other activities. Each
/// of them counts once and by its type: purchases, opening positions and shares that are
/// transferred in add to the holding, sales and shares that are transferred out take from
/// it. What is recorded for another account or another security does not count, nor does
/// the old version of an activity that is being changed. The activity itself counts in the
/// same way.
pub proof fn change_replays_the_holding(
    trades: Seq<Transaction>,
    splits: Seq<SplitEvent>,
    account_id: int,
    symbol: Seq<char>,
    editing_id: Option<i64>,
    kind: Seq<char>,
    timestamp: i64,
)
    requires
        trades.len() + splits.len() < usize::MAX,
    ensures
        ({
            let steps = change_steps(
                trades,
                splits,
                account_id,
                symbol,
                editing_id,
                kind,
                timestamp,
            );
            &&& steps.no_duplicates()
            &&& forall|i: int|
                0 <= i < trades.len() ==> {
                    let counts = (#[trigger] trades[i]).account_id == account_id && text::alike(
                        trades[i].provider_symbol@,
                        symbol,
                    ) && editing_id != Some(trades[i].id);
                    let its = trades[i].transaction_type@;
                    let quantity = Quantity::Trade(i as usize);
                    &&& steps.contains(ShareStep::Gain(quantity)) <==> counts && (its == "BUY"@
                        || its == "OPEN"@ || its == "TRANSFER_IN"@)
                    &&& steps.contains(ShareStep::Lose(quantity)) <==> counts && (its == "SELL"@
                        || its == "TRANSFER_OUT"@)
                    &&& steps.contains(ShareStep::Multiply(quantity)) <==> counts && its == "SPLIT"@
                }
            &&& forall|j: int|
                0 <= j < splits.len() ==> #[trigger] steps.contains(
                    ShareStep::Multiply(Quantity::Split(j as usize)),
                )
            &&& kind == "BUY"@ || kind == "OPEN"@ || kind == "TRANSFER_IN"@ <==> steps.contains(
                ShareStep::Gain(Quantity::Proposed),
            )
            &&& kind == "SELL"@ || kind == "TRANSFER_OUT"@ <==> steps.contains(
                ShareStep::Lose(Quantity::Proposed),
            )
            &&& kind == "SPLIT"@ <==> steps.contains(ShareStep::Multiply(Quantity::Proposed))
        }),
{
    ledger::kinds_by_name();
    let len = (trades.len() + splits.len() + 1) as int;
    let keep = change_events(trades, account_id, symbol, editing_id);
    let keys = change_keys(trades, splits, proposed_key(kind, timestamp, editing_id));
    order::arrangement_sorts_kept_positions(len, keep, keys);
    let events = order::arrangement(len, keep, keys);
    let steps = change_steps(trades, splits, account_id, symbol, editing_id, kind, timestamp);
    assert forall|k: int| 0 <= k < events.len() implies #[trigger] events[k] < len && steps[k]
        == change_step(trades, splits, kind, events[k] as int) by {
        assert(events.contains(events[k]));
    }
    assert forall|a: int, b: int|
        0 <= a < steps.len() && 0 <= b < steps.len() && a != b implies steps[a] != steps[b] by {
        assert(events[a] != events[b]);
    }
    assert forall|e: int| 0 <= e < len && keep(e) implies #[trigger] steps.contains(
        change_step(trades, splits, kind, e),
    ) by {
        assert(events.contains(e as usize));
        let k = choose|k: int| 0 <= k < events.len() && events[k] == e as usize;
        assert(steps[k] == change_step(trades, splits, kind, e));
    }
    assert forall|step: ShareStep| #[trigger] steps.contains(step) implies exists|e: int|
        0 <= e < len && keep(e) && step == change_step(trades, splits, kind, e) by {
        let k = choose|k: int| 0 <= k < steps.len() && steps[k] == step;
        assert(events.contains(events[k]));
        assert(step == change_step(trades, splits, kind, events[k] as int));
    }
    assert forall|i: int| 0 <= i < trades.len() implies {
        let counts = (#[trigger] trades[i]).account_id == account_id && text::alike(
            trades[i].provider_symbol@,
            symbol,
        ) && editing_id != Some(trades[i].id);
        let its = trades[i].transaction_type@;
        let quantity = Quantity::Trade(i as usize);
        &&& steps.contains(ShareStep::Gain(quantity)) <==> counts && (its == "BUY"@ || its
            == "OPEN"@ || its == "TRANSFER_IN"@)
        &&& steps.contains(ShareStep::Lose(quantity)) <==> counts && (its == "SELL"@ || its
            == "TRANSFER_OUT"@)
        &&& steps.contains(ShareStep::Multiply(quantity)) <==> counts && its == "SPLIT"@
    } by {
        let step = change_step(trades, splits, kind, i);
        if keep(i) {
            assert(steps.contains(step));
        }
    }
    assert forall|j: int| 0 <= j < splits.len() implies #[trigger] steps.contains(
        ShareStep::Multiply(Quantity::Split(j as usize)),
    ) by {
        assert(keep(trades.len() + j));
        assert(steps.contains(change_step(trades, splits, kind, trades.len() + j)));
    }
    assert(keep(len - 1));
    assert(steps.contains(change_step(trades, splits, kind, len - 1)));
}

/// Once an activity is removed, the holding is replayed without it. Of its other activities,
/// purchases and opening positions add to it and sales take from it; what was transferred
/// does not count. What is recorded for another account or another security does not count
/// either.
pub proof fn removal_replays_the_holding(
    trades: Seq<Transaction>,
    splits: Seq<SplitEvent>,
    removed: Transaction,
)
    requires
        trades.len() + splits.len() <= usize::MAX,
    ensures
        ({
            let steps = removal_steps(trades, splits, removed);
            &&& steps.no_duplicates()
            &&& forall|i: int|
                0 <= i < trades.len() ==> {
                    let counts = (#[trigger] trades[i]).account_id == removed.account_id
                        && text::alike(trades[i].provider_symbol@, removed.provider_symbol@)
                        && trades[i].id != removed.id;
                    let its = trades[i].transaction_type@;
                    let quantity = Quantity::Trade(i as usize);
                    &&& steps.contains(ShareStep::Gain(quantity)) <==> counts && (its == "BUY"@
                        || its == "OPEN"@)
                    &&& steps.contains(ShareStep::Lose(quantity)) <==> counts && its == "SELL"@
                    &&& steps.contains(ShareStep::Multiply(quantity)) <==> counts && its == "SPLIT"@
                }
            &&& forall|j: int|
                0 <= j < splits.len() ==> #[trigger] steps.contains(
                    ShareStep::Multiply(Quantity::Split(j as usize)),
                )
            &&& forall|a: int, b: int|
                0 <= a < b < steps.len() ==> ledger::step_time(trades, splits, #[trigger] steps[a])
                    <= ledger::step_time(trades, splits, #[trigger] steps[b])
            &&& forall|a: int, b: int|
                0 <= a < b < steps.len() && ledger::step_time(trades, splits, #[trigger] steps[a])
                    == ledger::step_time(trades, splits, #[trigger] steps[b]) ==> (steps[b] is Gain
                    ==> !(steps[a] is Lose))
        }),
{
    ledger::kinds_by_name();
    let len = (trades.len() + splits.len()) as int;
    let keep = change_events(
        trades,
        removed.account_id as int,
        removed.provider_symbol@,
        Some(removed.id),
    );
    let keys = ledger::event_keys(trades, splits);
    order::arrangement_sorts_kept_positions(len, keep, keys);
    ledger::records_take_effect_in_order(trades, splits, keep);
    let events = order::arrangement(len, keep, keys);
    let steps = removal_steps(trades, splits, removed);
    assert forall|k: int| 0 <= k < events.len() implies #[trigger] events[k] < len && steps[k]
        == removal_step(trades, events[k] as int) by {
        assert(events.contains(events[k]));
    }
    assert forall|a: int, b: int|
        0 <= a < steps.len() && 0 <= b < steps.len() && a != b implies steps[a] != steps[b] by {
        assert(events[a] != events[b]);
    }
    assert forall|e: int| 0 <= e < len && keep(e) implies #[trigger] steps.contains(
        removal_step(trades, e),
    ) by {
        assert(events.contains(e as usize));
        let k = choose|k: int| 0 <= k < events.len() && events[k] == e as usize;
        assert(steps[k] == removal_step(trades, e));
    }
    assert forall|step: ShareStep| #[trigger] steps.contains(step) implies exists|e: int|
        0 <= e < len && keep(e) && step == removal_step(trades, e) by {
        let k = choose|k: int| 0 <= k < steps.len() && steps[k] == step;
        assert(events.contains(events[k]));
        assert(step == removal_step(trades, events[k] as int));
    }
    assert forall|i: int| 0 <= i < trades.len() implies {
        let counts = (#[trigger] trades[i]).account_id == removed.account_id && text::alike(
            trades[i].provider_symbol@,
            removed.provider_symbol@,
        ) && trades[i].id != removed.id;
        let its = trades[i].transaction_type@;
        let quantity = Quantity::Trade(i as usize);
        &&& steps.contains(ShareStep::Gain(quantity)) <==> counts && (its == "BUY"@ || its
            == "OPEN"@)
        &&& steps.contains(ShareStep::Lose(quantity)) <==> counts && its == "SELL"@
        &&& steps.contains(ShareStep::Multiply(quantity)) <==> counts && its == "SPLIT"@
    } by {
        let step = removal_step(trades, i);
        if keep(i) {
            assert(steps.contains(step));
        }
    }
    assert forall|j: int| 0 <= j < splits.len() implies #[trigger] steps.contains(
        ShareStep::Multiply(Quantity::Split(j as usize)),
    ) by {
        assert(keep(trades.len() + j));
        assert(steps.contains(removal_step(trades, trades.len() + j)));
    }
    assert forall|a: int, b: int| 0 <= a < b < steps.len() implies {
        &&& ledger::step_time(trades, splits, #[trigger] steps[a]) <= ledger::step_time(
            trades,
            splits,
            #[trigger] steps[b],
        )
        &&& ledger::step_time(trades, splits, steps[a]) == ledger::step_time(
            trades,
            splits,
            steps[b],
        ) ==> (steps[b] is Gain ==> !(steps[a] is Lose))
    } by {
        let x = events[a];
        let y = events[b];
    }
}

/// Which activities a holding takes: one that is of more than no shares, and after which
/// there is at most one opening position in the holding and nothing that was there or comes
/// in lies before it. What is recorded for another account or security, and the old version
/// of an activity that is being changed, stand against nothing.
pub proof fn opening_position_comes_first(
    trades: Seq<Transaction>,
    account_id: int,
    symbol: Seq<char>,
    editing_id: Option<i64>,
    kind: Seq<char>,
    timestamp: int,
    no_shares: bool,
)
    ensures
        ({
            let mine = |i: int|
                0 <= i < trades.len() && trades[i].account_id == account_id && text::alike(
                    trades[i].provider_symbol@,
                    symbol,
                ) && editing_id != Some(trades[i].id);
            let refusal = change_refusal(
                trades,
                account_id,
                symbol,
                editing_id,
                kind,
                timestamp,
                no_shares,
            );
            &&& no_shares ==> refusal == Some("Shares must be greater than zero"@)
            &&& refusal is None <==> {
                &&& !no_shares
                &&& forall|i: int, j: int|
                    #[trigger] mine(i) && #[trigger] mine(j) && trades[i].transaction_type@
                        == "OPEN"@ && trades[j].transaction_type@ == "OPEN"@ ==> i == j
                &&& kind == "OPEN"@ ==> forall|i: int| #[trigger]
                    mine(i) ==> trades[i].transaction_type@ != "OPEN"@ && timestamp
                        <= trades[i].timestamp
                &&& kind != "OPEN"@ ==> forall|i: int| #[trigger]
                    mine(i) && trades[i].transaction_type@ == "OPEN"@ ==> trades[i].timestamp
                        <= timestamp
            }
            &&& !no_shares && kind == "OPEN"@ && (exists|i: int| #[trigger]
                mine(i) && trades[i].transaction_type@ == "OPEN"@) ==> refusal == Some(
                "Only one opening position can be recorded for a holding"@,
            )
            &&& !no_shares && kind == "OPEN"@ && !(exists|i: int| #[trigger]
                mine(i) && trades[i].transaction_type@ == "OPEN"@) && refusal is Some ==> refusal
                == Some("Opening position must be dated before the other activity"@)
            &&& !no_shares && kind != "OPEN"@ && refusal is Some && (forall|i: int, j: int|
                #[trigger] mine(i) && #[trigger] mine(j) && trades[i].transaction_type@ == "OPEN"@
                    && trades[j].transaction_type@ == "OPEN"@ ==> i == j) ==> refusal == Some(
                "Activity cannot be dated before the opening position"@,
            )
        }),
{
    let mine = |i: int|
        0 <= i < trades.len() && trades[i].account_id == account_id && text::alike(
            trades[i].provider_symbol@,
            symbol,
        ) && editing_id != Some(trades[i].id);
    let ours = |i: int|
        0 <= i < trades.len() && of_holding(trades[i], account_id, symbol, editing_id);
    assert forall|i: int| #[trigger] mine(i) == ours(i) by {
    }
    assert(mine =~= ours);
}

/// After an activity is removed, no activity of the holding may be left that lies before
/// every opening position in it. Where no opening position is left, nothing stands against
/// the removal; and it does not matter what is recorded for other holdings.
pub proof fn removal_leaves_opening_first(trades: Seq<Transaction>, removed: Transaction)
    ensures
        ({
            let mine = |i: int|
                0 <= i < trades.len() && trades[i].account_id == removed.account_id && text::alike(
                    trades[i].provider_symbol@,
                    removed.provider_symbol@,
                ) && trades[i].id != removed.id;
            !removal_refused(trades, removed) <==> ((forall|o: int| #[trigger]
                mine(o) ==> trades[o].transaction_type@ != "OPEN"@) || forall|i: int| #[trigger]
                mine(i) ==> exists|o: int| #[trigger]
                    mine(o) && trades[o].transaction_type@ == "OPEN"@ && (i == o
                        || trades[i].transaction_type@ == "OPEN"@ || trades[o].timestamp
                        <= trades[i].timestamp))
        }),
{
    let mine = |i: int|
        0 <= i < trades.len() && trades[i].account_id == removed.account_id && text::alike(
            trades[i].provider_symbol@,
            removed.provider_symbol@,
        ) && trades[i].id != removed.id;
    let ours = |i: int|
        0 <= i < trades.len() && of_holding(
            trades[i],
            removed.account_id as int,
            removed.provider_symbol@,
            Some(removed.id),
        );
    assert forall|i: int| #[trigger] mine(i) == ours(i) by {
    }
    assert(mine =~= ours);
}

/// What is short of shares after a step that takes some out is refused, and nothing else: a
/// step that brings shares in never stands against anything.
pub proof fn only_taking_out_can_fall_short(steps: Seq<ShareStep>, short: Seq<bool>, k: int)
    ensures
        0 <= k < steps.len() && steps[k] is Lose && short[k] ==> oversold(steps, short),
        (forall|q: int|
            0 <= q < steps.len() && short[q] ==> !(#[trigger] steps[q] is Lose)) ==> !oversold(
            steps,
            short,
        ),
        (forall|q: int| 0 <= q < steps.len() ==> !#[trigger] short[q]) ==> !oversold(steps, short),
{
}

/// When the record of a step takes effect, where the activity that is being entered has the
/// given time.
pub open spec fn change_time(
    trades: Seq<Transaction>,
    splits: Seq<SplitEvent>,
    timestamp: i64,
    step: ShareStep,
) -> int {
    match step {
        ShareStep::Gain(Quantity::Proposed) => timestamp as int,
        ShareStep::Lose(Quantity::Proposed) => timestamp as int,
        ShareStep::Multiply(Quantity::Proposed) => timestamp as int,
        ShareStep::Keep(Quantity::Proposed) => timestamp as int,
        _ => ledger::step_time(trades, splits, step),
    }
}

/// A holding is replayed in the order of time. At one time, shares come in before others go
/// out, and a new activity comes after those of its type that were recorded already.
pub proof fn change_is_replayed_in_order(
    trades: Seq<Transaction>,
    splits: Seq<SplitEvent>,
    account_id: int,
    symbol: Seq<char>,
    editing_id: Option<i64>,
    kind: Seq<char>,
    timestamp: i64,
)
    requires
        trades.len() + splits.len() < usize::MAX,
    ensures
        ({
            let steps = change_steps(
                trades,
                splits,
                account_id,
                symbol,
                editing_id,
                kind,
                timestamp,
            );
            forall|a: int, b: int|
                0 <= a < b < steps.len() ==> {
                    let x = change_time(trades, splits, timestamp, #[trigger] steps[a]);
                    let y = change_time(trades, splits, timestamp, #[trigger] steps[b]);
                    &&& x <= y
                    &&& x == y ==> !(steps[a] is Lose && steps[b] is Gain)
                    &&& x == y && editing_id is None && (steps[a] == ShareStep::Gain(
                        Quantity::Proposed,
                    ) || steps[a] == ShareStep::Lose(Quantity::Proposed)) ==> match steps[b] {
                        ShareStep::Gain(Quantity::Trade(i)) => trades[i as int].transaction_type@
                            != kind,
                        ShareStep::Lose(Quantity::Trade(i)) => trades[i as int].transaction_type@
                            != kind,
                        _ => true,
                    }
                }
        }),
{
    ledger::kinds_by_name();
    let len = (trades.len() + splits.len() + 1) as int;
    let keep = change_events(trades, account_id, symbol, editing_id);
    let keys = change_keys(trades, splits, proposed_key(kind, timestamp, editing_id));
    order::arrangement_sorts_kept_positions(len, keep, keys);
    let events = order::arrangement(len, keep, keys);
    let steps = change_steps(trades, splits, account_id, symbol, editing_id, kind, timestamp);
    assert forall|k: int| 0 <= k < events.len() implies #[trigger] events[k] < len && steps[k]
        == change_step(trades, splits, kind, events[k] as int) by {
        assert(events.contains(events[k]));
    }
    assert forall|a: int, b: int| 0 <= a < b < steps.len() implies {
        let x = change_time(trades, splits, timestamp, #[trigger] steps[a]);
        let y = change_time(trades, splits, timestamp, #[trigger] steps[b]);
        &&& x <= y
        &&& x == y ==> !(steps[a] is Lose && steps[b] is Gain)
        &&& x == y && editing_id is None && (steps[a] == ShareStep::Gain(Quantity::Proposed)
            || steps[a] == ShareStep::Lose(Quantity::Proposed)) ==> match steps[b] {
            ShareStep::Gain(Quantity::Trade(i)) => trades[i as int].transaction_type@ != kind,
            ShareStep::Lose(Quantity::Trade(i)) => trades[i as int].transaction_type@ != kind,
            _ => true,
        }
    } by {
        let x = events[a];
        let y = events[b];
    }
}

} // verus!
