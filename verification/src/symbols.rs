//! Lists of symbols, each named once.

use vstd::prelude::*;
use crate::model::Transaction;
use crate::text;

verus! {

pub open spec fn names(list: Seq<String>, name: Seq<char>) -> bool {
    exists|i: int| 0 <= i < list.len() && (#[trigger] list[i])@ == name
}

/// The texts stand in their order, and none of them twice.
pub open spec fn sorted_texts(list: Seq<String>) -> bool {
    forall|a: int, b: int|
        0 <= a < b < list.len() ==> text::sorts_before(
            (#[trigger] list[a])@,
            (#[trigger] list[b])@,
        )
}

/// Adds a text at its place, unless it is there.
#[verifier::loop_isolation(false)]
pub fn insert_sorted(list: &mut Vec<String>, name: String)
    requires
        sorted_texts(old(list)@),
    ensures
        sorted_texts(final(list)@),
        forall|n: Seq<char>| #[trigger]
            names(final(list)@, n) <==> names(old(list)@, n) || n == name@,
{
    let ghost before = list@;
    let mut at: usize = 0;
    while at < list.len() && text::is_sorted_before(list[at].as_str(), name.as_str())
        invariant
            at <= list@.len(),
            list@ == before,
            forall|k: int| 0 <= k < at ==> text::sorts_before((#[trigger] list@[k])@, name@),
        decreases list@.len() - at,
    {
        at += 1;
    }
    if at < list.len() && text::same_text(list[at].as_str(), name.as_str()) {
        assert(names(list@, name@));
        return;
    }
    proof {
        assert forall|k: int| at <= k < before.len() implies text::sorts_before(
            name@,
            (#[trigger] before[k])@,
        ) by {
            text::texts_are_comparable(before[at as int]@, name@);
            if k > at {
                text::text_order_is_transitive(name@, before[at as int]@, before[k]@);
            }
        }
    }
    let ghost added = name@;
    list.insert(at, name);
    proof {
        let after = list@;
        assert forall|a: int, b: int| 0 <= a < b < after.len() implies text::sorts_before(
            (#[trigger] after[a])@,
            (#[trigger] after[b])@,
        ) by {
            let ka = if a < at {
                a
            } else {
                a - 1
            };
            let kb = if b < at {
                b
            } else {
                b - 1
            };
            if a == at {
                assert(after[b] == before[kb]);
            } else if b == at {
                assert(after[a] == before[ka]);
            } else {
                assert(after[a] == before[ka] && after[b] == before[kb]);
            }
        }
        assert forall|n: Seq<char>| #[trigger]
            names(after, n) <==> names(before, n) || n == added by {
            if names(after, n) {
                let i = choose|i: int| 0 <= i < after.len() && (#[trigger] after[i])@ == n;
                if i < at {
                    assert(before[i]@ == n);
                } else if i > at {
                    assert(before[i - 1]@ == n);
                }
            }
            if names(before, n) {
                let i = choose|i: int| 0 <= i < before.len() && (#[trigger] before[i])@ == n;
                if i < at {
                    assert(after[i]@ == n);
                } else {
                    assert(after[i + 1]@ == n);
                }
            }
            if n == added {
                assert(after[at as int]@ == n);
            }
        }
    }
}

/// A trade of the account is in the security with this symbol, in upper case.
pub open spec fn traded_symbol(
    trades: Seq<Transaction>,
    account_id: int,
    trim: bool,
    symbol: Seq<char>,
) -> bool {
    exists|i: int|
        0 <= i < trades.len() && (#[trigger] trades[i]).account_id == account_id && symbol
            == text::uppercase(
            if trim {
                text::trimmed(trades[i].provider_symbol@)
            } else {
                trades[i].provider_symbol@
            },
        )
}

/// The symbols that a report on an account needs prices for, sorted.
#[verifier::loop_isolation(false)]
pub fn report_symbols(transactions: &[Transaction], account_id: i64) -> (r: Vec<String>)
    ensures
        sorted_texts(r@),
        forall|n: Seq<char>| #[trigger]
            names(r@, n) <==> n.len() > 0 && traded_symbol(
                transactions@,
                account_id as int,
                true,
                n,
            ),
{
    let mut r: Vec<String> = Vec::new();
    let mut i: usize = 0;
    while i < transactions.len()
        invariant
            i <= transactions@.len(),
            sorted_texts(r@),
            forall|n: Seq<char>| #[trigger]
                names(r@, n) <==> n.len() > 0 && traded_symbol(
                    transactions@.take(i as int),
                    account_id as int,
                    true,
                    n,
                ),
        decreases transactions@.len() - i,
    {
        let t = &transactions[i];
        let ghost before = r@;
        let ghost head = transactions@.take(i as int);
        let ghost longer = transactions@.take(i + 1);
        let symbol = text::to_upper(text::trim(t.provider_symbol.as_str()).as_str());
        let ghost own = symbol@;
        let chars = text::chars_of(symbol.as_str());
        let counts = t.account_id == account_id && chars.len() > 0;
        if counts {
            insert_sorted(&mut r, symbol);
        }
        proof {
            assert forall|n: Seq<char>| #[trigger]
                names(r@, n) <==> n.len() > 0 && traded_symbol(
                    longer,
                    account_id as int,
                    true,
                    n,
                ) by {
                assert(names(before, n) <==> n.len() > 0 && traded_symbol(
                    head,
                    account_id as int,
                    true,
                    n,
                ));
                if traded_symbol(head, account_id as int, true, n) {
                    let k = choose|k: int|
                        0 <= k < head.len() && (#[trigger] head[k]).account_id == account_id && n
                            == text::uppercase(text::trimmed(head[k].provider_symbol@));
                    assert(longer[k] == head[k]);
                }
                if traded_symbol(longer, account_id as int, true, n) {
                    let k = choose|k: int|
                        0 <= k < longer.len() && (#[trigger] longer[k]).account_id == account_id
                            && n == text::uppercase(text::trimmed(longer[k].provider_symbol@));
                    if k < i {
                        assert(head[k] == longer[k]);
                    } else {
                        assert(n == own);
                    }
                }
                if counts && n == own {
                    assert(longer[i as int].account_id == account_id);
                }
            }
        }
        i += 1;
    }
    assert(transactions@.take(i as int) =~= transactions@);
    r
}

/// The symbols of all trades of an account, sorted.
#[verifier::loop_isolation(false)]
pub fn traded_symbols(transactions: &[Transaction], account_id: i64) -> (r: Vec<String>)
    ensures
        sorted_texts(r@),
        forall|n: Seq<char>| #[trigger]
            names(r@, n) <==> traded_symbol(transactions@, account_id as int, false, n),
{
    let mut r: Vec<String> = Vec::new();
    let mut i: usize = 0;
    while i < transactions.len()
        invariant
            i <= transactions@.len(),
            sorted_texts(r@),
            forall|n: Seq<char>| #[trigger]
                names(r@, n) <==> traded_symbol(
                    transactions@.take(i as int),
                    account_id as int,
                    false,
                    n,
                ),
        decreases transactions@.len() - i,
    {
        let t = &transactions[i];
        let ghost before = r@;
        let ghost head = transactions@.take(i as int);
        let ghost longer = transactions@.take(i + 1);
        let symbol = text::to_upper(t.provider_symbol.as_str());
        let ghost own = symbol@;
        let counts = t.account_id == account_id;
        if counts {
            insert_sorted(&mut r, symbol);
        }
        proof {
            assert forall|n: Seq<char>| #[trigger]
                names(r@, n) <==> traded_symbol(longer, account_id as int, false, n) by {
                assert(names(before, n) <==> traded_symbol(head, account_id as int, false, n));
                if traded_symbol(head, account_id as int, false, n) {
                    let k = choose|k: int|
                        0 <= k < head.len() && (#[trigger] head[k]).account_id == account_id && n
                            == text::uppercase(head[k].provider_symbol@);
                    assert(longer[k] == head[k]);
                }
                if traded_symbol(longer, account_id as int, false, n) {
                    let k = choose|k: int|
                        0 <= k < longer.len() && (#[trigger] longer[k]).account_id == account_id
                            && n == text::uppercase(longer[k].provider_symbol@);
                    if k < i {
                        assert(head[k] == longer[k]);
                    } else {
                        assert(n == own);
                    }
                }
                if counts && n == own {
                    assert(longer[i as int].account_id == account_id);
                }
            }
        }
        i += 1;
    }
    assert(transactions@.take(i as int) =~= transactions@);
    r
}

/// The symbols, in upper case, in the order in which they first occur.
pub open spec fn first_named(symbols: Seq<Seq<char>>) -> Seq<Seq<char>>
    decreases symbols.len(),
{
    if symbols.len() == 0 {
        Seq::empty()
    } else {
        let before = first_named(symbols.drop_last());
        let last = text::uppercase(symbols.last());
        if before.contains(last) {
            before
        } else {
            before.push(last)
        }
    }
}

pub open spec fn trade_symbols(trades: Seq<Transaction>) -> Seq<Seq<char>> {
    Seq::new(trades.len(), |i: int| trades[i].provider_symbol@)
}

fn is_named(list: &Vec<String>, name: &str) -> (r: bool)
    ensures
        r == text::views(list@).contains(name@),
{
    let mut i: usize = 0;
    while i < list.len()
        invariant
            i <= list@.len(),
            forall|k: int| 0 <= k < i ==> (#[trigger] list@[k])@ != name@,
        decreases list@.len() - i,
    {
        if text::same_text(list[i].as_str(), name) {
            assert(text::views(list@)[i as int] == name@);
            return true;
        }
        i += 1;
    }
    proof {
        if text::views(list@).contains(name@) {
            let k = choose|k: int| 0 <= k < list@.len() && text::views(list@)[k] == name@;
            assert(list@[k]@ == name@);
        }
    }
    false
}

/// The symbols of all trades, in upper case, each once.
#[verifier::loop_isolation(false)]
pub fn history_symbols(transactions: &[Transaction]) -> (r: Vec<String>)
    ensures
        text::views(r@) == first_named(trade_symbols(transactions@)),
{
    let ghost all = trade_symbols(transactions@);
    let mut r: Vec<String> = Vec::new();
    let mut i: usize = 0;
    assert(all.take(0) =~= Seq::empty());
    assert(text::views(r@) =~= Seq::empty());
    while i < transactions.len()
        invariant
            i <= transactions@.len(),
            text::views(r@) == first_named(all.take(i as int)),
        decreases transactions@.len() - i,
    {
        assert(all.take(i + 1).drop_last() =~= all.take(i as int));
        assert(all.take(i + 1).last() == transactions@[i as int].provider_symbol@);
        let symbol = text::to_upper(transactions[i].provider_symbol.as_str());
        let ghost own = symbol@;
        let ghost before = text::views(r@);
        if !is_named(&r, symbol.as_str()) {
            r.push(symbol);
            assert(text::views(r@) =~= before.push(own));
        }
        i += 1;
    }
    assert(all.take(i as int) =~= all);
    r
}

/// Every symbol that occurs is named, and named once.
pub proof fn symbols_are_named_once(symbols: Seq<Seq<char>>)
    ensures
        first_named(symbols).no_duplicates(),
        forall|i: int|
            0 <= i < symbols.len() ==> first_named(symbols).contains(
                text::uppercase(#[trigger] symbols[i]),
            ),
    decreases symbols.len(),
{
    if symbols.len() > 0 {
        let shorter = symbols.drop_last();
        symbols_are_named_once(shorter);
        let before = first_named(shorter);
        let after = first_named(symbols);
        assert forall|i: int| 0 <= i < symbols.len() implies after.contains(
            text::uppercase(#[trigger] symbols[i]),
        ) by {
            let name = text::uppercase(symbols[i]);
            if i < shorter.len() {
                assert(shorter[i] == symbols[i]);
                assert(before.contains(name));
            }
            if before.contains(name) {
                let k = choose|k: int| 0 <= k < before.len() && before[k] == name;
                assert(after[k] == name);
            } else {
                assert(after.last() == name);
                assert(after[after.len() - 1] == name);
            }
        }
    }
}

/// The symbol at a place of the list is the one named at `i`, and all that are named before
/// that stand before it.
pub open spec fn stands_first(symbols: Seq<Seq<char>>, k: int, i: int) -> bool {
    &&& 0 <= i < symbols.len()
    &&& first_named(symbols)[k] == text::uppercase(symbols[i])
    &&& forall|j: int|
        0 <= j < i ==> first_named(symbols).take(k).contains(text::uppercase(#[trigger] symbols[j]))
}

/// The symbols of the histories, in upper case, stand in the order in which they are first
/// named, and no other stands among them.
pub proof fn symbols_stand_as_first_named(symbols: Seq<Seq<char>>, k: int)
    requires
        0 <= k < first_named(symbols).len(),
    ensures
        exists|i: int| #[trigger] stands_first(symbols, k, i),
    decreases symbols.len(),
{
    let before = symbols.drop_last();
    let n = symbols.len() - 1;
    let last = text::uppercase(symbols.last());
    let list = first_named(symbols);
    let old_list = first_named(before);
    assert(list.take(k) =~= old_list.take(k));
    if k < old_list.len() {
        symbols_stand_as_first_named(before, k);
        let i = choose|i: int| #[trigger] stands_first(before, k, i);
        assert(list[k] == old_list[k]);
        assert forall|j: int| 0 <= j < i implies list.take(k).contains(
            text::uppercase(#[trigger] symbols[j]),
        ) by {
            assert(before[j] == symbols[j]);
        }
        assert(stands_first(symbols, k, i));
    } else {
        symbols_are_named_once(before);
        assert(list.take(k) =~= old_list);
        assert forall|j: int| 0 <= j < n implies list.take(k).contains(
            text::uppercase(#[trigger] symbols[j]),
        ) by {
            assert(before[j] == symbols[j]);
        }
        assert(stands_first(symbols, k, n));
    }
}

/// A symbol counts as traded in an account where one of the trades of that account names it,
/// whatever the case of its letters; where blanks are left aside, whatever blanks stand round
/// it.
pub proof fn trades_name_their_symbols(
    trades: Seq<Transaction>,
    account_id: int,
    i: int,
    symbol: Seq<char>,
)
    ensures
        0 <= i < trades.len() && trades[i].account_id == account_id ==> {
            &&& traded_symbol(
                trades,
                account_id,
                false,
                text::uppercase(trades[i].provider_symbol@),
            )
            &&& traded_symbol(
                trades,
                account_id,
                true,
                text::uppercase(text::trimmed(trades[i].provider_symbol@)),
            )
        },
        traded_symbol(trades, account_id, false, symbol) ==> exists|k: int|
            0 <= k < trades.len() && (#[trigger] trades[k]).account_id == account_id && text::alike(
                trades[k].provider_symbol@,
                symbol,
            ),
        traded_symbol(trades, account_id, true, symbol) ==> exists|k: int|
            0 <= k < trades.len() && (#[trigger] trades[k]).account_id == account_id && text::alike(
                text::trimmed(trades[k].provider_symbol@),
                symbol,
            ),
{
    if traded_symbol(trades, account_id, false, symbol) {
        let k = choose|k: int|
            0 <= k < trades.len() && (#[trigger] trades[k]).account_id == account_id && symbol
                == text::uppercase(trades[k].provider_symbol@);
        text::upper_case_is_alike(trades[k].provider_symbol@);
    }
    if traded_symbol(trades, account_id, true, symbol) {
        let k = choose|k: int|
            0 <= k < trades.len() && (#[trigger] trades[k]).account_id == account_id && symbol
                == text::uppercase(text::trimmed(trades[k].provider_symbol@));
        text::upper_case_is_alike(text::trimmed(trades[k].provider_symbol@));
    }
}

/// A list names what stands in it, and a list in order names each symbol once.
pub proof fn lists_name_what_stands_in_them(list: Seq<String>, name: Seq<char>)
    ensures
        names(list, name) <==> text::views(list).contains(name),
        sorted_texts(list) ==> text::views(list).no_duplicates(),
{
    let all = text::views(list);
    if names(list, name) {
        let i = choose|i: int| 0 <= i < list.len() && (#[trigger] list[i])@ == name;
        assert(all[i] == name);
    }
    if all.contains(name) {
        let i = choose|i: int| 0 <= i < list.len() && all[i] == name;
        assert(list[i]@ == name);
    }
    if sorted_texts(list) {
        assert forall|a: int, b: int|
            0 <= a < list.len() && 0 <= b < list.len() && a != b implies all[a] != all[b] by {
            text::texts_are_comparable(all[a], all[b]);
            if a < b {
                assert(text::sorts_before(list[a]@, list[b]@));
            } else {
                assert(text::sorts_before(list[b]@, list[a]@));
            }
        }
    }
}

} // verus!
