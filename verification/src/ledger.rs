//! Trades and share splits in the order in which they take effect.
//!
//! The ledger functions put the records in order and say what each of them does to a
//! holding; the quantities themselves are applied by the caller, step by step.

use vstd::prelude::*;
use crate::model::{SplitEvent, Transaction};
use crate::order;
use crate::order::SortKey;
use crate::text;

verus! {

#[derive(Clone, Copy, PartialEq, Eq, Structural)]
pub enum ActivityKind {
    Split,
    Open,
    Buy,
    TransferIn,
    Sell,
    TransferOut,
    Other,
}

pub open spec fn kind_of(s: Seq<char>) -> ActivityKind {
    if s == "SPLIT"@ {
        ActivityKind::Split
    } else if s == "OPEN"@ {
        ActivityKind::Open
    } else if s == "BUY"@ {
        ActivityKind::Buy
    } else if s == "TRANSFER_IN"@ {
        ActivityKind::TransferIn
    } else if s == "SELL"@ {
        ActivityKind::Sell
    } else if s == "TRANSFER_OUT"@ {
        ActivityKind::TransferOut
    } else {
        ActivityKind::Other
    }
}

pub fn activity_kind(kind: &str) -> (r: ActivityKind)
    ensures
        r == kind_of(kind@),
{
    if text::same_text(kind, "SPLIT") {
        ActivityKind::Split
    } else if text::same_text(kind, "OPEN") {
        ActivityKind::Open
    } else if text::same_text(kind, "BUY") {
        ActivityKind::Buy
    } else if text::same_text(kind, "TRANSFER_IN") {
        ActivityKind::TransferIn
    } else if text::same_text(kind, "SELL") {
        ActivityKind::Sell
    } else if text::same_text(kind, "TRANSFER_OUT") {
        ActivityKind::TransferOut
    } else {
        ActivityKind::Other
    }
}

/// The rank of an activity among those of the same time: what brings shares in comes
/// before what takes them out, and a split before both.
pub open spec fn priority(kind: ActivityKind) -> u8 {
    match kind {
        ActivityKind::Split => 0,
        ActivityKind::Open => 1,
        ActivityKind::Buy => 2,
        ActivityKind::TransferIn => 3,
        ActivityKind::Sell => 4,
        ActivityKind::TransferOut => 5,
        ActivityKind::Other => 6,
    }
}

fn kind_priority(kind: ActivityKind) -> (r: u8)
    ensures
        r == priority(kind),
{
    match kind {
        ActivityKind::Split => 0,
        ActivityKind::Open => 1,
        ActivityKind::Buy => 2,
        ActivityKind::TransferIn => 3,
        ActivityKind::Sell => 4,
        ActivityKind::TransferOut => 5,
        ActivityKind::Other => 6,
    }
}

pub fn activity_sort_priority(kind: &str) -> (r: u8)
    ensures
        r == priority(kind_of(kind@)),
{
    kind_priority(activity_kind(kind))
}

/// The kind that an entry of the kind selector stands for.
pub open spec fn kind_at(index: int) -> Seq<char> {
    if index == 1 {
        "SELL"@
    } else if index == 2 {
        "OPEN"@
    } else {
        "BUY"@
    }
}

/// The entry of the kind selector for a kind.
pub open spec fn kind_position(kind: Seq<char>) -> int {
    if kind == "SELL"@ {
        1
    } else if kind == "OPEN"@ {
        2
    } else {
        0
    }
}

pub fn transaction_kind_from_index(index: u32) -> (r: &'static str)
    ensures
        r@ == kind_at(index as int),
{
    match index {
        1 => "SELL",
        2 => "OPEN",
        _ => "BUY",
    }
}

pub fn transaction_kind_index(kind: &str) -> (r: u32)
    ensures
        r == kind_position(kind@),
{
    if text::same_text(kind, "SELL") {
        1
    } else if text::same_text(kind, "OPEN") {
        2
    } else {
        0
    }
}

/// Each entry of the kind selector gives its own kind, and each of the three kinds its
/// own entry.
pub proof fn kind_selector_agrees(index: int, kind: Seq<char>)
    ensures
        0 <= index <= 2 ==> kind_position(kind_at(index)) == index,
        kind == "BUY"@ || kind == "SELL"@ || kind == "OPEN"@ ==> kind_at(kind_position(kind)) == kind,
{
    reveal_strlit("BUY");
    reveal_strlit("SELL");
    reveal_strlit("OPEN");
    assert("BUY"@.len() == 3);
    assert("SELL"@[0] == 'S');
    assert("OPEN"@[0] == 'O');
}

/// Where the quantity of a step is found.
#[derive(Clone, Copy, PartialEq, Eq, Structural)]
pub enum Quantity {
    /// The shares of the transaction at this position.
    Trade(usize),
    /// The ratio of the split at this position.
    Split(usize),
    /// The shares of the activity that is being entered.
    Proposed,
}

/// What happens to the number of shares held.
#[derive(Clone, Copy, PartialEq, Eq, Structural)]
pub enum ShareStep {
    Gain(Quantity),
    Lose(Quantity),
    Multiply(Quantity),
    Keep(Quantity),
}

/// The effect that trades of a kind have on a holding. A split recorded as a trade
/// multiplies only where `with_splits` says so.
pub open spec fn trade_step(kind: ActivityKind, quantity: Quantity, with_splits: bool) -> ShareStep {
    match kind {
        ActivityKind::Open | ActivityKind::Buy | ActivityKind::TransferIn => ShareStep::Gain(quantity),
        ActivityKind::Sell | ActivityKind::TransferOut => ShareStep::Lose(quantity),
        ActivityKind::Split => if with_splits {
            ShareStep::Multiply(quantity)
        } else {
            ShareStep::Keep(quantity)
        },
        ActivityKind::Other => ShareStep::Keep(quantity),
    }
}

pub(crate) fn step_of_trade(kind: ActivityKind, quantity: Quantity, with_splits: bool) -> (r: ShareStep)
    ensures
        r == trade_step(kind, quantity, with_splits),
{
    match kind {
        ActivityKind::Open | ActivityKind::Buy | ActivityKind::TransferIn => ShareStep::Gain(quantity),
        ActivityKind::Sell | ActivityKind::TransferOut => ShareStep::Lose(quantity),
        ActivityKind::Split => if with_splits {
            ShareStep::Multiply(quantity)
        } else {
            ShareStep::Keep(quantity)
        },
        ActivityKind::Other => ShareStep::Keep(quantity),
    }
}

/// When a trade takes effect: by time, then by rank, then by the order of entry.
pub open spec fn trade_key(t: Transaction) -> SortKey {
    SortKey {
        first: t.timestamp as i128,
        second: priority(kind_of(t.transaction_type@)) as i128,
        third: t.id as i128,
    }
}

/// A split takes effect before every trade of the same time.
pub open spec fn split_key(s: SplitEvent) -> SortKey {
    SortKey { first: s.timestamp as i128, second: 0, third: i64::MIN as i128 }
}

/// The key of an event: the trades are counted first, then the splits.
pub open spec fn event_keys(trades: Seq<Transaction>, splits: Seq<SplitEvent>) -> spec_fn(int) -> SortKey {
    |e: int|
        if e < trades.len() {
            trade_key(trades[e])
        } else {
            split_key(splits[e - trades.len()])
        }
}

pub open spec fn event_quantity(trades: int, e: int) -> Quantity {
    if e < trades {
        Quantity::Trade(e as usize)
    } else {
        Quantity::Split((e - trades) as usize)
    }
}

/// What an event does to the holding it belongs to.
pub open spec fn event_step(trades: Seq<Transaction>, e: int) -> ShareStep {
    let quantity = event_quantity(trades.len() as int, e);
    if e < trades.len() {
        trade_step(kind_of(trades[e].transaction_type@), quantity, false)
    } else {
        ShareStep::Multiply(quantity)
    }
}

pub open spec fn event_steps(trades: Seq<Transaction>, order: Seq<usize>) -> Seq<ShareStep> {
    Seq::new(order.len(), |k: int| event_step(trades, order[k] as int))
}

pub(crate) fn trade_sort_key(t: &Transaction) -> (r: SortKey)
    ensures
        r == trade_key(*t),
{
    SortKey {
        first: t.timestamp as i128,
        second: activity_sort_priority(t.transaction_type.as_str()) as i128,
        third: t.id as i128,
    }
}

pub open spec fn trade_keys(trades: Seq<Transaction>) -> spec_fn(int) -> SortKey {
    |i: int| trade_key(trades[i])
}

/// All trades in the order in which they take effect.
#[verifier::loop_isolation(false)]
pub fn trades_in_order(transactions: &[Transaction]) -> (r: Vec<usize>)
    ensures
        r@ == order::arrangement(
            transactions@.len() as int,
            |i: int| true,
            trade_keys(transactions@),
        ),
        forall|k: int| 0 <= k < r@.len() ==> #[trigger] r@[k] < transactions@.len(),
{
    let mut keep: Vec<bool> = Vec::new();
    let mut keys: Vec<SortKey> = Vec::new();
    let mut i: usize = 0;
    while i < transactions.len()
        invariant
            i <= transactions@.len(),
            keep@.len() == i,
            keys@.len() == i,
            forall|k: int| 0 <= k < i ==> #[trigger] keep@[k],
            forall|k: int| 0 <= k < i ==> #[trigger] keys@[k] == trade_keys(transactions@)(k),
        decreases transactions@.len() - i,
    {
        keep.push(true);
        keys.push(trade_sort_key(&transactions[i]));
        i += 1;
    }
    let r = order::arrange(&keep, &keys);
    proof {
        order::is_arrangement(
            r@,
            transactions@.len() as int,
            |i: int| keep@[i],
            |i: int| keys@[i],
            |i: int| true,
            trade_keys(transactions@),
        );
    }
    r
}

/// The keys of all trades, and behind them those of all splits.
pub(crate) fn event_sort_keys(trades: &[Transaction], splits: &[SplitEvent]) -> (keys: Vec<SortKey>)
    ensures
        keys@.len() == trades@.len() + splits@.len(),
        forall|e: int| 0 <= e < keys@.len() ==> #[trigger] keys@[e] == event_keys(trades@, splits@)(e),
{
    let mut keys: Vec<SortKey> = Vec::new();
    let mut i: usize = 0;
    while i < trades.len()
        invariant
            i <= trades@.len(),
            keys@.len() == i,
            forall|e: int| 0 <= e < i ==> #[trigger] keys@[e] == trade_key(trades@[e]),
        decreases trades@.len() - i,
    {
        keys.push(trade_sort_key(&trades[i]));
        i += 1;
    }
    let mut j: usize = 0;
    while j < splits.len()
        invariant
            j <= splits@.len(),
            keys@.len() == trades@.len() + j,
            forall|e: int| 0 <= e < trades@.len() ==> #[trigger] keys@[e] == trade_key(trades@[e]),
            forall|e: int|
                trades@.len() <= e < trades@.len() + j ==> #[trigger] keys@[e] == split_key(
                    splits@[e - trades@.len()],
                ),
        decreases splits@.len() - j,
    {
        keys.push(
            SortKey { first: splits[j].timestamp as i128, second: 0, third: i64::MIN as i128 },
        );
        j += 1;
    }
    keys
}

/// Puts the kept trades and splits in the order in which they take effect.
pub(crate) fn arrange_events(
    trades: &[Transaction],
    splits: &[SplitEvent],
    keep: &Vec<bool>,
) -> (r: Vec<usize>)
    requires
        keep@.len() == trades@.len() + splits@.len(),
    ensures
        order::arranged(
            r@,
            keep@.len() as int,
            |i: int| keep@[i],
            event_keys(trades@, splits@),
        ),
{
    let keys = event_sort_keys(trades, splits);
    let r = order::arrange(keep, &keys);
    proof {
        order::arrangement_by_equals(
            r@,
            keep@.len() as int,
            |i: int| keep@[i],
            |i: int| keys@[i],
            |i: int| keep@[i],
            event_keys(trades@, splits@),
        );
    }
    r
}

fn steps_in_order(trades: &[Transaction], order: &Vec<usize>) -> (r: Vec<ShareStep>)
    ensures
        r@ == event_steps(trades@, order@),
{
    let mut r: Vec<ShareStep> = Vec::new();
    let mut k: usize = 0;
    while k < order.len()
        invariant
            k <= order@.len(),
            r@ == event_steps(trades@, order@).take(k as int),
        decreases order@.len() - k,
    {
        let e: usize = order[k];
        if e < trades.len() {
            let kind = activity_kind(trades[e].transaction_type.as_str());
            r.push(step_of_trade(kind, Quantity::Trade(e), false));
        } else {
            r.push(ShareStep::Multiply(Quantity::Split(e - trades.len())));
        }
        k += 1;
    }
    assert(r@ =~= event_steps(trades@, order@));
    r
}

/// The events up to a time that concern a security: its trades, and its splits.
pub open spec fn concerns_by_then(
    trades: Seq<Transaction>,
    splits: Seq<SplitEvent>,
    symbol: Seq<char>,
    timestamp: int,
) -> spec_fn(int) -> bool {
    |e: int|
        if e < trades.len() {
            trades[e].timestamp <= timestamp && text::alike(trades[e].provider_symbol@, symbol)
        } else {
            splits[e - trades.len()].timestamp <= timestamp && text::alike(
                splits[e - trades.len()].provider_symbol@,
                symbol,
            )
        }
}

/// The steps that lead to the number of shares of a security held at a time.
pub open spec fn held_steps(
    trades: Seq<Transaction>,
    splits: Seq<SplitEvent>,
    symbol: Seq<char>,
    timestamp: int,
) -> Seq<ShareStep> {
    event_steps(
        trades,
        order::arrangement(
            (trades.len() + splits.len()) as int,
            concerns_by_then(trades, splits, symbol, timestamp),
            event_keys(trades, splits),
        ),
    )
}

pub fn report_shares_held_at(
    transactions: &[Transaction],
    split_events: &[SplitEvent],
    provider_symbol: &str,
    timestamp: i64,
) -> (r: Vec<ShareStep>)
    ensures
        r@ == held_steps(transactions@, split_events@, provider_symbol@, timestamp as int),
{
    let mut keep: Vec<bool> = Vec::new();
    let ghost wanted = concerns_by_then(
        transactions@,
        split_events@,
        provider_symbol@,
        timestamp as int,
    );
    let mut i: usize = 0;
    while i < transactions.len()
        invariant
            i <= transactions@.len(),
            keep@.len() == i,
            wanted == concerns_by_then(
                transactions@,
                split_events@,
                provider_symbol@,
                timestamp as int,
            ),
            forall|e: int| 0 <= e < i ==> #[trigger] keep@[e] == wanted(e),
        decreases transactions@.len() - i,
    {
        let t = &transactions[i];
        keep.push(
            t.timestamp <= timestamp && text::same_letters(
                t.provider_symbol.as_str(),
                provider_symbol,
            ),
        );
        i += 1;
    }
    let mut j: usize = 0;
    while j < split_events.len()
        invariant
            j <= split_events@.len(),
            keep@.len() == transactions@.len() + j,
            wanted == concerns_by_then(
                transactions@,
                split_events@,
                provider_symbol@,
                timestamp as int,
            ),
            forall|e: int| 0 <= e < transactions@.len() + j ==> #[trigger] keep@[e] == wanted(e),
        decreases split_events@.len() - j,
    {
        let s = &split_events[j];
        keep.push(
            s.timestamp <= timestamp && text::same_letters(
                s.provider_symbol.as_str(),
                provider_symbol,
            ),
        );
        j += 1;
    }
    let events = arrange_events(transactions, split_events, &keep);
    proof {
        order::is_arrangement(
            events@,
            keep@.len() as int,
            |i: int| keep@[i],
            event_keys(transactions@, split_events@),
            wanted,
            event_keys(transactions@, split_events@),
        );
    }
    steps_in_order(transactions, &events)
}

/// The events up to a time that concern a security whose splits alone are given.
pub open spec fn trades_by_then(
    trades: Seq<Transaction>,
    splits: Seq<SplitEvent>,
    symbol: Seq<char>,
    timestamp: int,
) -> spec_fn(int) -> bool {
    |e: int|
        if e < trades.len() {
            trades[e].timestamp <= timestamp && text::alike(trades[e].provider_symbol@, symbol)
        } else {
            splits[e - trades.len()].timestamp <= timestamp
        }
}

/// The steps that lead to the number of shares held, where all splits given are those of
/// the security.
pub open spec fn dividend_steps(
    trades: Seq<Transaction>,
    splits: Seq<SplitEvent>,
    symbol: Seq<char>,
    timestamp: int,
) -> Seq<ShareStep> {
    event_steps(
        trades,
        order::arrangement(
            (trades.len() + splits.len()) as int,
            trades_by_then(trades, splits, symbol, timestamp),
            event_keys(trades, splits),
        ),
    )
}

/// The steps that lead to the number of shares of a security held at a time, where all
/// splits given are those of the security.
#[verifier::loop_isolation(false)]
pub fn dividend_shares_held_at(
    transactions: &[Transaction],
    splits: &[SplitEvent],
    provider_symbol: &str,
    timestamp: i64,
) -> (r: Vec<ShareStep>)
    ensures
        r@ == dividend_steps(transactions@, splits@, provider_symbol@, timestamp as int),
{
    let mut keep: Vec<bool> = Vec::new();
    let ghost wanted = trades_by_then(
        transactions@,
        splits@,
        provider_symbol@,
        timestamp as int,
    );
    let mut i: usize = 0;
    while i < transactions.len()
        invariant
            i <= transactions@.len(),
            keep@.len() == i,
            forall|e: int| 0 <= e < i ==> #[trigger] keep@[e] == wanted(e),
        decreases transactions@.len() - i,
    {
        let t = &transactions[i];
        keep.push(
            text::same_letters(t.provider_symbol.as_str(), provider_symbol) && t.timestamp
                <= timestamp,
        );
        i += 1;
    }
    let mut j: usize = 0;
    while j < splits.len()
        invariant
            j <= splits@.len(),
            keep@.len() == transactions@.len() + j,
            forall|e: int| 0 <= e < transactions@.len() + j ==> #[trigger] keep@[e] == wanted(e),
        decreases splits@.len() - j,
    {
        keep.push(splits[j].timestamp <= timestamp);
        j += 1;
    }
    let events = arrange_events(transactions, splits, &keep);
    proof {
        order::is_arrangement(
            events@,
            keep@.len() as int,
            |i: int| keep@[i],
            event_keys(transactions@, splits@),
            wanted,
            event_keys(transactions@, splits@),
        );
    }
    steps_in_order(transactions, &events)
}

/// Looking further ahead only adds steps: what led to the holding at a time stays as it
/// is at the head of what leads to the holding at a later time.
pub proof fn earlier_steps_stay(
    trades: Seq<Transaction>,
    splits: Seq<SplitEvent>,
    symbol: Seq<char>,
    earlier: int,
    later: int,
)
    requires
        earlier <= later,
        trades.len() + splits.len() <= usize::MAX,
    ensures
        ({
            let first = held_steps(trades, splits, symbol, earlier);
            let second = held_steps(trades, splits, symbol, later);
            first.len() <= second.len() && first == second.take(first.len() as int)
        }),
{
    let len = (trades.len() + splits.len()) as int;
    let keys = event_keys(trades, splits);
    let keep1 = concerns_by_then(trades, splits, symbol, earlier);
    let keep2 = concerns_by_then(trades, splits, symbol, later);
    let near = |e: int| keep2(e) && keys(e).first <= earlier;
    order::every_arrangement_exists(len, keep1, keys);
    order::every_arrangement_exists(len, keep2, keys);
    let first = order::arrangement(len, keep1, keys);
    let second = order::arrangement(len, keep2, keys);
    assert forall|e: int| 0 <= e < len implies #[trigger] keep1(e) == near(e) by {
        if e < trades.len() {
        } else {
        }
    }
    order::arrangement_by_equals(first, len, keep1, keys, near, keys);
    order::arrangement_up_to(second, len, keep2, keys, earlier, first);
    assert(event_steps(trades, first) =~= event_steps(trades, second).take(first.len() as int));
}

/// The place among all splits of an event that is counted among the splits of a security:
/// `own` lists the places of these.
pub open spec fn among_all(trades: int, own: Seq<usize>, e: int) -> int {
    if e < trades {
        e
    } else {
        trades + own[e - trades]
    }
}

/// The step with its split named by the place among all splits.
pub open spec fn step_among_all(own: Seq<usize>, step: ShareStep) -> ShareStep {
    match step {
        ShareStep::Multiply(Quantity::Split(j)) => ShareStep::Multiply(
            Quantity::Split(own[j as int]),
        ),
        _ => step,
    }
}

pub open spec fn is_split_of(splits: Seq<SplitEvent>, symbol: Seq<char>) -> spec_fn(int) -> bool {
    |j: int| text::alike(splits[j].provider_symbol@, symbol)
}

/// The splits of a security among all splits, in their order.
pub open spec fn own_splits(splits: Seq<SplitEvent>, symbol: Seq<char>) -> Seq<SplitEvent> {
    let own = order::selection(splits.len() as int, is_split_of(splits, symbol));
    Seq::new(own.len(), |k: int| splits[own[k] as int])
}

/// Distributions and reports agree on the shares held: from the splits of the security
/// alone come the same steps as from all splits.
pub proof fn dividends_and_reports_agree(
    trades: Seq<Transaction>,
    splits: Seq<SplitEvent>,
    symbol: Seq<char>,
    timestamp: int,
)
    requires
        trades.len() + splits.len() <= usize::MAX,
    ensures
        ({
            let own = order::selection(splits.len() as int, is_split_of(splits, symbol));
            let steps = dividend_steps(trades, own_splits(splits, symbol), symbol, timestamp);
            held_steps(trades, splits, symbol, timestamp) == Seq::new(
                steps.len(),
                |k: int| step_among_all(own, steps[k]),
            )
        }),
{
    let n = trades.len() as int;
    let whose = is_split_of(splits, symbol);
    let own = order::selection(splits.len() as int, whose);
    let mine = own_splits(splits, symbol);
    order::every_selection_exists(splits.len() as int, whose);
    own_is_no_longer(own, splits.len() as int, whose);
    let len = (trades.len() + splits.len()) as int;
    let short = (trades.len() + mine.len()) as int;
    let keep = concerns_by_then(trades, splits, symbol, timestamp);
    let keys = event_keys(trades, splits);
    let keep2 = trades_by_then(trades, mine, symbol, timestamp);
    let keys2 = event_keys(trades, mine);
    order::every_arrangement_exists(short, keep2, keys2);
    let few = order::arrangement(short, keep2, keys2);
    let many = Seq::new(few.len(), |k: int| among_all(n, own, few[k] as int) as usize);
    assert forall|e: int| 0 <= e < short implies {
        let f = #[trigger] among_all(n, own, e);
        0 <= f < len && keys(f) == keys2(e) && keep(f) == keep2(e)
    } by {
        if e >= n {
            assert(own[e - n] < splits.len());
            assert(whose(own[e - n] as int));
            assert(mine[e - n] == splits[own[e - n] as int]);
        }
    }
    assert forall|k: int| 0 <= k < few.len() implies many[k] == #[trigger] among_all(
        n,
        own,
        few[k] as int,
    ) by {
        assert(few[k] < short);
    }
    assert forall|k: int| 0 <= k < many.len() implies #[trigger] many[k] < len && keep(
        many[k] as int,
    ) by {
        assert(few[k] < short && keep2(few[k] as int));
        assert(many[k] == among_all(n, own, few[k] as int));
    }
    assert forall|i: usize| i < len && keep(i as int) implies #[trigger] many.contains(i) by {
        let e: int = if i < n {
            i as int
        } else {
            let j = (i - n) as usize;
            assert(whose(j as int));
            assert(own.contains(j));
            n + choose|q: int| 0 <= q < own.len() && own[q] == j
        };
        assert(among_all(n, own, e) == i);
        assert(keep2(e));
        assert(few.contains(e as usize));
        let k = choose|k: int| 0 <= k < few.len() && few[k] == e as usize;
        assert(many[k] == among_all(n, own, few[k] as int));
    }
    assert forall|a: int, b: int| 0 <= a < b < many.len() implies order::comes_before(
        #[trigger] order::keyed(keys, many[a]),
        #[trigger] order::keyed(keys, many[b]),
    ) by {
        let x = few[a] as int;
        let y = few[b] as int;
        assert(x < short && y < short);
        assert(many[a] == among_all(n, own, x));
        assert(many[b] == among_all(n, own, y));
        assert(order::comes_before(order::keyed(keys2, few[a]), order::keyed(keys2, few[b])));
        if x < y && x >= n {
            assert(own[x - n] < own[y - n]);
        }
    }
    assert(order::arranged(many, len, keep, keys));
    order::arrangement_is_unique(many, order::arrangement(len, keep, keys), len, keep, keys);
    let steps = dividend_steps(trades, mine, symbol, timestamp);
    assert forall|k: int| 0 <= k < many.len() implies #[trigger] event_step(
        trades,
        many[k] as int,
    ) == step_among_all(own, steps[k]) by {
        assert(few[k] < short);
        assert(many[k] == among_all(n, own, few[k] as int));
        assert(steps[k] == event_step(trades, few[k] as int));
        if few[k] >= n {
            assert(own[few[k] - n] < splits.len());
        }
    }
    assert(held_steps(trades, splits, symbol, timestamp) =~= Seq::new(
        steps.len(),
        |k: int| step_among_all(own, steps[k]),
    ));
}

proof fn own_is_no_longer(own: Seq<usize>, len: int, keep: spec_fn(int) -> bool)
    requires
        0 <= len,
        order::selected(own, len, keep),
    ensures
        own.len() <= len,
{
    if own.len() > 0 {
        places_climb(own, own.len() - 1);
    }
}

proof fn places_climb(own: Seq<usize>, k: int)
    requires
        0 <= k < own.len(),
        forall|a: int, b: int| 0 <= a < b < own.len() ==> own[a] < own[b],
    ensures
        own[k] >= k,
    decreases k,
{
    if k > 0 {
        places_climb(own, k - 1);
    }
}

pub(crate) proof fn kinds_by_name()
    ensures
        kind_of("SPLIT"@) == ActivityKind::Split,
        kind_of("OPEN"@) == ActivityKind::Open,
        kind_of("BUY"@) == ActivityKind::Buy,
        kind_of("TRANSFER_IN"@) == ActivityKind::TransferIn,
        kind_of("SELL"@) == ActivityKind::Sell,
        kind_of("TRANSFER_OUT"@) == ActivityKind::TransferOut,
{
    reveal_strlit("SPLIT");
    reveal_strlit("OPEN");
    reveal_strlit("BUY");
    reveal_strlit("TRANSFER_IN");
    reveal_strlit("SELL");
    reveal_strlit("TRANSFER_OUT");
    assert("SPLIT"@.len() == 5 && "OPEN"@.len() == 4 && "BUY"@.len() == 3);
    assert("TRANSFER_IN"@.len() == 11 && "SELL"@.len() == 4 && "TRANSFER_OUT"@.len() == 12);
    assert("OPEN"@[0] == 'O' && "SELL"@[0] == 'S');
}

/// Every type that activity is recorded with is a kind of its own.
pub proof fn types_are_kinds_of_their_own(a: Seq<char>, b: Seq<char>)
    ensures
        kind_of(a) == kind_of(b) <==> a == b || (kind_of(a) == ActivityKind::Other && kind_of(b)
            == ActivityKind::Other),
        kind_of(a) == ActivityKind::Other <==> a != "SPLIT"@ && a != "OPEN"@ && a != "BUY"@ && a
            != "TRANSFER_IN"@ && a != "SELL"@ && a != "TRANSFER_OUT"@,
{
    kinds_by_name();
}

/// At one time, opening positions come before purchases, these before shares that are
/// transferred in, these before sales, and these before shares that are transferred out.
/// Splits come before all of them, and whatever is of no known type after all of them.
pub proof fn types_have_their_ranks(other: Seq<char>)
    requires
        other != "SPLIT"@ && other != "OPEN"@ && other != "BUY"@ && other != "TRANSFER_IN"@ && other
            != "SELL"@ && other != "TRANSFER_OUT"@,
    ensures
        priority(kind_of("SPLIT"@)) < priority(kind_of("OPEN"@)) < priority(kind_of("BUY"@))
            < priority(kind_of("TRANSFER_IN"@)) < priority(kind_of("SELL"@)) < priority(
            kind_of("TRANSFER_OUT"@),
        ) < priority(kind_of(other)),
{
    kinds_by_name();
}

/// When the record of a step took place.
pub open spec fn step_time(
    trades: Seq<Transaction>,
    splits: Seq<SplitEvent>,
    step: ShareStep,
) -> int {
    let quantity = match step {
        ShareStep::Gain(q) => q,
        ShareStep::Lose(q) => q,
        ShareStep::Multiply(q) => q,
        ShareStep::Keep(q) => q,
    };
    match quantity {
        Quantity::Trade(i) => trades[i as int].timestamp as int,
        Quantity::Split(j) => splits[j as int].timestamp as int,
        Quantity::Proposed => 0,
    }
}

/// What trades and splits do to a holding. Purchases, opening positions and shares that are
/// transferred in add to it; sales and shares that are transferred out take from it; a split
/// multiplies it; and nothing else changes it.
pub proof fn steps_follow_the_types(
    trades: Seq<Transaction>,
    splits: Seq<SplitEvent>,
    events: Seq<usize>,
    k: int,
)
    requires
        trades.len() + splits.len() <= usize::MAX,
        0 <= k < events.len(),
        events[k] < trades.len() + splits.len(),
    ensures
        event_steps(trades, events).len() == events.len(),
        events[k] >= trades.len() ==> event_steps(trades, events)[k] == ShareStep::Multiply(
            Quantity::Split((events[k] - trades.len()) as usize),
        ),
        events[k] < trades.len() ==> {
            let kind = trades[events[k] as int].transaction_type@;
            let quantity = Quantity::Trade(events[k]);
            let step = event_steps(trades, events)[k];
            &&& kind == "BUY"@ || kind == "OPEN"@ || kind == "TRANSFER_IN"@ <==> step
                == ShareStep::Gain(quantity)
            &&& kind == "SELL"@ || kind == "TRANSFER_OUT"@ <==> step == ShareStep::Lose(quantity)
            &&& kind != "BUY"@ && kind != "OPEN"@ && kind != "TRANSFER_IN"@ && kind != "SELL"@
                && kind != "TRANSFER_OUT"@ <==> step == ShareStep::Keep(quantity)
        },
{
    kinds_by_name();
}

/// The shares of a security held at a time are what its trades up to then, in any account,
/// brought in and took out: each of them counts once and by its type, each split of the
/// security multiplies once, and nothing else counts. Records count in the order of time;
/// at one time splits come first, and what brings shares in comes before what takes them
/// out.
pub proof fn held_shares_come_from_the_records(
    trades: Seq<Transaction>,
    splits: Seq<SplitEvent>,
    symbol: Seq<char>,
    timestamp: int,
)
    requires
        trades.len() + splits.len() <= usize::MAX,
    ensures
        ({
            let steps = held_steps(trades, splits, symbol, timestamp);
            &&& steps.no_duplicates()
            &&& forall|i: int|
                0 <= i < trades.len() ==> {
                    let kind = (#[trigger] trades[i]).transaction_type@;
                    let counts = trades[i].timestamp <= timestamp && text::alike(
                        trades[i].provider_symbol@,
                        symbol,
                    );
                    let quantity = Quantity::Trade(i as usize);
                    &&& steps.contains(ShareStep::Gain(quantity)) <==> counts && (kind == "BUY"@
                        || kind == "OPEN"@ || kind == "TRANSFER_IN"@)
                    &&& steps.contains(ShareStep::Lose(quantity)) <==> counts && (kind == "SELL"@
                        || kind == "TRANSFER_OUT"@)
                    &&& !steps.contains(ShareStep::Multiply(quantity))
                }
            &&& forall|j: int|
                0 <= j < splits.len() ==> {
                    let quantity = Quantity::Split(j as usize);
                    &&& steps.contains(ShareStep::Multiply(quantity)) <==> (
                    #[trigger] splits[j]).timestamp <= timestamp && text::alike(
                        splits[j].provider_symbol@,
                        symbol,
                    )
                    &&& !steps.contains(ShareStep::Gain(quantity))
                    &&& !steps.contains(ShareStep::Lose(quantity))
                }
            &&& forall|a: int, b: int|
                0 <= a < b < steps.len() ==> step_time(trades, splits, #[trigger] steps[a])
                    <= step_time(trades, splits, #[trigger] steps[b])
            &&& forall|a: int, b: int|
                0 <= a < b < steps.len() && step_time(trades, splits, #[trigger] steps[a])
                    == step_time(trades, splits, #[trigger] steps[b]) ==> (steps[b] is Multiply
                    ==> !(steps[a] is Gain) && !(steps[a] is Lose)) && (steps[b] is Gain ==> !(
                steps[a] is Lose))
        }),
{
    let len = (trades.len() + splits.len()) as int;
    let keep = concerns_by_then(trades, splits, symbol, timestamp);
    let keys = event_keys(trades, splits);
    order::arrangement_sorts_kept_positions(len, keep, keys);
    let events = order::arrangement(len, keep, keys);
    replay_of_events(trades, splits, events);
    let steps = held_steps(trades, splits, symbol, timestamp);
    assert(steps == event_steps(trades, events));
    assert forall|i: int| 0 <= i < trades.len() implies {
        let counts = (#[trigger] trades[i]).timestamp <= timestamp && text::alike(
            trades[i].provider_symbol@,
            symbol,
        );
        events.contains(i as usize) <==> counts
    } by {
        assert(events.contains(i as usize) <==> keep(i));
    }
    assert forall|j: int| 0 <= j < splits.len() implies {
        let counts = (#[trigger] splits[j]).timestamp <= timestamp && text::alike(
            splits[j].provider_symbol@,
            symbol,
        );
        events.contains((trades.len() + j) as usize) <==> counts
    } by {
        assert(events.contains((trades.len() + j) as usize) <==> keep(trades.len() + j));
    }
    assert forall|a: int, b: int| 0 <= a < b < steps.len() implies {
        &&& step_time(trades, splits, #[trigger] steps[a]) <= step_time(
            trades,
            splits,
            #[trigger] steps[b],
        )
        &&& step_time(trades, splits, steps[a]) == step_time(trades, splits, steps[b]) ==> (steps[b] is Multiply
            ==> !(steps[a] is Gain) && !(steps[a] is Lose)) && (steps[b] is Gain ==> !(
        steps[a] is Lose))
    } by {
        kinds_by_name();
        let x = events[a];
        let y = events[b];
        assert(events.contains(x) && events.contains(y));
        assert(steps[a] == event_step(trades, x as int));
        assert(steps[b] == event_step(trades, y as int));
    }
}

/// The steps of a list of events that names none twice: one for each event, by its type.
pub(crate) proof fn replay_of_events(trades: Seq<Transaction>, splits: Seq<SplitEvent>, events: Seq<usize>)
    requires
        trades.len() + splits.len() <= usize::MAX,
        events.no_duplicates(),
        forall|i: usize| #[trigger] events.contains(i) ==> i < trades.len() + splits.len(),
    ensures
        ({
            let steps = event_steps(trades, events);
            &&& steps.no_duplicates()
            &&& forall|i: int|
                0 <= i < trades.len() ==> {
                    let kind = (#[trigger] trades[i]).transaction_type@;
                    let counts = events.contains(i as usize);
                    let quantity = Quantity::Trade(i as usize);
                    &&& steps.contains(ShareStep::Gain(quantity)) <==> counts && (kind == "BUY"@
                        || kind == "OPEN"@ || kind == "TRANSFER_IN"@)
                    &&& steps.contains(ShareStep::Lose(quantity)) <==> counts && (kind == "SELL"@
                        || kind == "TRANSFER_OUT"@)
                    &&& !steps.contains(ShareStep::Multiply(quantity))
                }
            &&& forall|j: int|
                #![trigger steps.contains(ShareStep::Multiply(Quantity::Split(j as usize)))]
                0 <= j < splits.len() ==> {
                    let quantity = Quantity::Split(j as usize);
                    &&& steps.contains(ShareStep::Multiply(quantity)) <==> events.contains(
                        (trades.len() + j) as usize,
                    )
                    &&& !steps.contains(ShareStep::Gain(quantity))
                    &&& !steps.contains(ShareStep::Lose(quantity))
                }
        }),
{
    kinds_by_name();
    let steps = event_steps(trades, events);
    assert forall|k: int| 0 <= k < events.len() implies events[k] < trades.len() + splits.len() by {
        assert(events.contains(events[k]));
    }
    assert forall|a: int, b: int|
        0 <= a < steps.len() && 0 <= b < steps.len() && a != b implies steps[a] != steps[b] by {
        assert(events[a] != events[b]);
        assert(steps[a] == event_step(trades, events[a] as int));
        assert(steps[b] == event_step(trades, events[b] as int));
    }
    assert(steps.no_duplicates());
    assert forall|i: int| 0 <= i < trades.len() implies {
        let kind = (#[trigger] trades[i]).transaction_type@;
        let counts = events.contains(i as usize);
        let quantity = Quantity::Trade(i as usize);
        &&& steps.contains(ShareStep::Gain(quantity)) <==> counts && (kind == "BUY"@ || kind
            == "OPEN"@ || kind == "TRANSFER_IN"@)
        &&& steps.contains(ShareStep::Lose(quantity)) <==> counts && (kind == "SELL"@ || kind
            == "TRANSFER_OUT"@)
        &&& !steps.contains(ShareStep::Multiply(quantity))
    } by {
        let kind = trades[i].transaction_type@;
        if events.contains(i as usize) {
            let k = choose|k: int| 0 <= k < events.len() && events[k] == i as usize;
            assert(steps[k] == event_step(trades, i));
        }
        assert forall|k: int|
            0 <= k < steps.len() && (#[trigger] steps[k] == ShareStep::Gain(
                Quantity::Trade(i as usize),
            ) || steps[k] == ShareStep::Lose(Quantity::Trade(i as usize)) || steps[k]
                == ShareStep::Multiply(Quantity::Trade(i as usize))) implies events[k] == i as usize
            && steps[k] == event_step(trades, i) by {
            assert(steps[k] == event_step(trades, events[k] as int));
        }
    }
    assert forall|j: int|
        #![trigger steps.contains(ShareStep::Multiply(Quantity::Split(j as usize)))]
        0 <= j < splits.len() implies {
        let quantity = Quantity::Split(j as usize);
        &&& steps.contains(ShareStep::Multiply(quantity)) <==> events.contains(
            (trades.len() + j) as usize,
        )
        &&& !steps.contains(ShareStep::Gain(quantity))
        &&& !steps.contains(ShareStep::Lose(quantity))
    } by {
        let e = (trades.len() + j) as usize;
        if events.contains(e) {
            let k = choose|k: int| 0 <= k < events.len() && events[k] == e;
            assert(steps[k] == event_step(trades, e as int));
        }
        assert forall|k: int| 0 <= k < steps.len() implies (#[trigger] steps[k]
            == ShareStep::Multiply(Quantity::Split(j as usize)) ==> events[k] == e) && steps[k]
            != ShareStep::Gain(Quantity::Split(j as usize)) && steps[k] != ShareStep::Lose(
            Quantity::Split(j as usize),
        ) by {
            assert(steps[k] == event_step(trades, events[k] as int));
        }
    }
}

/// Records take effect in the order of time. At one time a split comes before every trade
/// of a known type, trades come by their ranks, and trades of one type in the order in which
/// they were entered.
pub proof fn records_take_effect_in_order(
    trades: Seq<Transaction>,
    splits: Seq<SplitEvent>,
    keep: spec_fn(int) -> bool,
)
    requires
        trades.len() + splits.len() <= usize::MAX,
    ensures
        ({
            let events = order::arrangement(
                (trades.len() + splits.len()) as int,
                keep,
                event_keys(trades, splits),
            );
            forall|a: int, b: int|
                0 <= a < b < events.len() ==> {
                    let x = #[trigger] events[a];
                    let y = #[trigger] events[b];
                    let n = trades.len();
                    &&& x < n && y < n ==> {
                        let s = trades[x as int];
                        let t = trades[y as int];
                        &&& s.timestamp <= t.timestamp
                        &&& s.timestamp == t.timestamp ==> priority(kind_of(s.transaction_type@))
                            <= priority(kind_of(t.transaction_type@))
                        &&& s.timestamp == t.timestamp && s.transaction_type@ == t.transaction_type@
                            ==> s.id <= t.id
                    }
                    &&& x < n && y >= n ==> {
                        let s = trades[x as int];
                        let kind = s.transaction_type@;
                        s.timestamp < splits[y - n].timestamp || (s.timestamp == splits[y
                            - n].timestamp && kind != "BUY"@ && kind != "OPEN"@ && kind != "SELL"@
                            && kind != "TRANSFER_IN"@ && kind != "TRANSFER_OUT"@)
                    }
                    &&& x >= n && y < n ==> splits[x - n].timestamp <= trades[y as int].timestamp
                    &&& x >= n && y >= n ==> splits[x - n].timestamp <= splits[y - n].timestamp
                }
        }),
{
    kinds_by_name();
    let len = (trades.len() + splits.len()) as int;
    let keys = event_keys(trades, splits);
    order::arrangement_sorts_kept_positions(len, keep, keys);
    let events = order::arrangement(len, keep, keys);
    assert forall|k: int| 0 <= k < events.len() implies #[trigger] events[k] < len by {
        assert(events.contains(events[k]));
    }
}

/// Trades alone take effect in the same order: by time, then by rank, then by entry. And
/// every one of them is listed once.
pub proof fn trades_take_effect_in_order(trades: Seq<Transaction>)
    requires
        trades.len() <= usize::MAX,
    ensures
        ({
            let list = order::arrangement(
                trades.len() as int,
                |i: int| true,
                trade_keys(trades),
            );
            &&& list.no_duplicates()
            &&& forall|i: usize| #[trigger] list.contains(i) <==> i < trades.len()
            &&& forall|a: int, b: int|
                0 <= a < b < list.len() ==> {
                    let s = trades[#[trigger] list[a] as int];
                    let t = trades[#[trigger] list[b] as int];
                    &&& s.timestamp <= t.timestamp
                    &&& s.timestamp == t.timestamp ==> priority(kind_of(s.transaction_type@))
                        <= priority(kind_of(t.transaction_type@))
                    &&& s.timestamp == t.timestamp && s.transaction_type@ == t.transaction_type@
                        ==> s.id <= t.id
                }
        }),
{
    order::arrangement_sorts_kept_positions(
        trades.len() as int,
        |i: int| true,
        trade_keys(trades),
    );
}

/// The selector of types offers purchases, sales and opening positions, in this order.
pub proof fn types_have_their_entries(index: int)
    ensures
        kind_at(0) == "BUY"@,
        kind_at(1) == "SELL"@,
        kind_at(2) == "OPEN"@,
        kind_position("BUY"@) == 0,
        kind_position("SELL"@) == 1,
        kind_position("OPEN"@) == 2,
        0 <= index <= 2 ==> kind_position(kind_at(index)) == index,
{
    kinds_by_name();
}

} // verus!
