//! How the portfolio is divided among securities, and the colours of the parts.

use vstd::prelude::*;
use crate::model::Position;
use crate::text;

verus! {

/// The holdings of one security.
pub struct SecurityGroup {
    pub symbol: String,
    pub label: String,
    pub name: String,
    pub members: Vec<usize>,
}

/// The securities of the counted holdings, in the order in which they first occur.
pub open spec fn securities(positions: Seq<Position>, counted: Seq<bool>, n: int) -> Seq<Seq<char>>
    decreases n,
{
    if n <= 0 {
        Seq::empty()
    } else {
        let before = securities(positions, counted, n - 1);
        let symbol = positions[n - 1].provider_symbol@;
        if !counted[n - 1] || before.contains(symbol) {
            before
        } else {
            before.push(symbol)
        }
    }
}

/// The counted holdings of a security.
pub open spec fn members(
    positions: Seq<Position>,
    counted: Seq<bool>,
    symbol: Seq<char>,
    n: int,
) -> Seq<usize>
    decreases n,
{
    if n <= 0 {
        Seq::empty()
    } else {
        let before = members(positions, counted, symbol, n - 1);
        if counted[n - 1] && positions[n - 1].provider_symbol@ == symbol {
            before.push((n - 1) as usize)
        } else {
            before
        }
    }
}

/// Every counted holding belongs to its security, and no security is listed twice: small
/// parts are not thrown together.
pub proof fn every_holding_has_its_part(
    positions: Seq<Position>,
    counted: Seq<bool>,
    n: int,
    i: int,
)
    requires
        0 <= i < n <= positions.len(),
        n <= usize::MAX,
        counted[i],
    ensures
        securities(positions, counted, n).contains(positions[i].provider_symbol@),
        securities(positions, counted, n).no_duplicates(),
        members(positions, counted, positions[i].provider_symbol@, n).contains(i as usize),
    decreases n,
{
    let symbol = positions[i].provider_symbol@;
    let before = securities(positions, counted, n - 1);
    let list = members(positions, counted, symbol, n - 1);
    securities_are_distinct(positions, counted, n);
    if i == n - 1 {
        assert(before.push(symbol).last() == symbol);
        assert(list.push(i as usize).last() == i as usize);
    } else {
        every_holding_has_its_part(positions, counted, n - 1, i);
        let a = choose|a: int| 0 <= a < before.len() && before[a] == symbol;
        assert(before.push(positions[n - 1].provider_symbol@)[a] == symbol);
        let b = choose|b: int| 0 <= b < list.len() && list[b] == i as usize;
        assert(list.push((n - 1) as usize)[b] == i as usize);
    }
}

proof fn securities_are_distinct(positions: Seq<Position>, counted: Seq<bool>, n: int)
    ensures
        securities(positions, counted, n).no_duplicates(),
    decreases n,
{
    if n > 0 {
        securities_are_distinct(positions, counted, n - 1);
    }
}

/// The name of a security: the first one that is not blank, or else the first one.
pub open spec fn group_name(positions: Seq<Position>, list: Seq<usize>) -> Seq<char>
    decreases list.len(),
{
    if list.len() == 0 {
        Seq::empty()
    } else if list.len() == 1 {
        positions[list[0] as int].name@
    } else {
        let before = group_name(positions, list.drop_last());
        let last = positions[list.last() as int].name@;
        if text::nothing_but_blanks(before) && !text::nothing_but_blanks(last) {
            last
        } else {
            before
        }
    }
}

pub open spec fn group_is(
    g: SecurityGroup,
    positions: Seq<Position>,
    counted: Seq<bool>,
    n: int,
) -> bool {
    let list = members(positions, counted, g.symbol@, n);
    &&& list.len() > 0
    &&& g.members@ == list
    &&& g.label@ == positions[list[0] as int].code@
    &&& g.name@ == group_name(positions, list)
}

pub open spec fn group_symbols(groups: Seq<SecurityGroup>) -> Seq<Seq<char>> {
    Seq::new(groups.len(), |k: int| groups[k].symbol@)
}

fn find_group(groups: &Vec<SecurityGroup>, symbol: &str) -> (r: Option<usize>)
    ensures
        match r {
            Some(k) => k < groups@.len() && groups@[k as int].symbol@ == symbol@,
            None => !group_symbols(groups@).contains(symbol@),
        },
{
    let mut k: usize = 0;
    while k < groups.len()
        invariant
            k <= groups@.len(),
            forall|q: int| 0 <= q < k ==> (#[trigger] groups@[q]).symbol@ != symbol@,
        decreases groups@.len() - k,
    {
        if text::same_text(groups[k].symbol.as_str(), symbol) {
            return Some(k);
        }
        k += 1;
    }
    proof {
        if group_symbols(groups@).contains(symbol@) {
            let q = choose|q: int|
                0 <= q < groups@.len() && group_symbols(groups@)[q] == symbol@;
            assert(groups@[q].symbol@ == symbol@);
        }
    }
    None
}

proof fn uncounted_security_has_no_members(
    positions: Seq<Position>,
    counted: Seq<bool>,
    symbol: Seq<char>,
    n: int,
)
    requires
        !securities(positions, counted, n).contains(symbol),
    ensures
        members(positions, counted, symbol, n) == Seq::<usize>::empty(),
    decreases n,
{
    if n > 0 {
        let before = securities(positions, counted, n - 1);
        let now = securities(positions, counted, n);
        if before.contains(symbol) {
            let q = choose|q: int| 0 <= q < before.len() && before[q] == symbol;
            assert(now[q] == symbol);
        }
        uncounted_security_has_no_members(positions, counted, symbol, n - 1);
        if counted[n - 1] && positions[n - 1].provider_symbol@ == symbol {
            assert(now[now.len() - 1] == symbol);
        }
    }
}

/// Gathers the holdings by security. `counted` says of each holding whether it has a
/// value.
#[verifier::loop_isolation(false)]
#[verifier::rlimit(40)]
pub fn security_groups(positions: &[Position], counted: &Vec<bool>) -> (r: Vec<SecurityGroup>)
    requires
        positions@.len() == counted@.len(),
    ensures
        group_symbols(r@) == securities(positions@, counted@, positions@.len() as int),
        forall|k: int|
            0 <= k < r@.len() ==> group_is(
                #[trigger] r@[k],
                positions@,
                counted@,
                positions@.len() as int,
            ),
{
    let ghost p = positions@;
    let ghost c = counted@;
    let mut r: Vec<SecurityGroup> = Vec::new();
    let mut i: usize = 0;
    assert(group_symbols(r@) =~= Seq::empty());
    while i < positions.len()
        invariant
            i <= p.len(),
            group_symbols(r@) == securities(p, c, i as int),
            group_symbols(r@).no_duplicates(),
            forall|k: int| 0 <= k < r@.len() ==> group_is(#[trigger] r@[k], p, c, i as int),
        decreases p.len() - i,
    {
        let position = &positions[i];
        let ghost before = r@;
        let ghost symbol = position.provider_symbol@;
        if counted[i] {
            match find_group(&r, position.provider_symbol.as_str()) {
                Some(k) => {
                    assert(group_symbols(before)[k as int] == symbol);
                    let ghost list = before[k as int].members@;
                    let mut grown: Vec<usize> = Vec::new();
                    let mut q: usize = 0;
                    while q < r[k].members.len()
                        invariant
                            k < r@.len(),
                            r@ == before,
                            q <= r@[k as int].members@.len(),
                            grown@ == r@[k as int].members@.take(q as int),
                        decreases r@[k as int].members@.len() - q,
                    {
                        grown.push(r[k].members[q]);
                        q += 1;
                    }
                    assert(grown@ =~= list);
                    grown.push(i);
                    assert(grown@.drop_last() =~= list);
                    let name = if text::is_only_blank(r[k].name.as_str()) && !text::is_only_blank(
                        position.name.as_str(),
                    ) {
                        position.name.clone()
                    } else {
                        r[k].name.clone()
                    };
                    let label = r[k].label.clone();
                    let key = r[k].symbol.clone();
                    r[k] = SecurityGroup { symbol: key, label, name, members: grown };
                    proof {
                        assert(group_symbols(r@) =~= group_symbols(before));
                        assert(members(p, c, symbol, i + 1) == list.push(i));
                        assert forall|g: int| 0 <= g < r@.len() implies group_is(
                            #[trigger] r@[g],
                            p,
                            c,
                            i + 1,
                        ) by {
                            assert(group_is(before[g], p, c, i as int));
                            if g != k {
                                assert(group_symbols(before)[g] != group_symbols(before)[k as int]);
                                assert(r@[g] == before[g]);
                            } else {
                                assert(r@[g].members@[0] == list[0]);
                            }
                        }
                    }
                },
                None => {
                    let mut list: Vec<usize> = Vec::new();
                    list.push(i);
                    proof {
                        uncounted_security_has_no_members(p, c, symbol, i as int);
                    }
                    r.push(
                        SecurityGroup {
                            symbol: position.provider_symbol.clone(),
                            label: position.code.clone(),
                            name: position.name.clone(),
                            members: list,
                        },
                    );
                    proof {
                        assert(group_symbols(r@) =~= group_symbols(before).push(symbol));
                        assert forall|g: int| 0 <= g < r@.len() implies group_is(
                            #[trigger] r@[g],
                            p,
                            c,
                            i + 1,
                        ) by {
                            if g < before.len() {
                                assert(r@[g] == before[g]);
                                assert(group_is(before[g], p, c, i as int));
                                assert(group_symbols(before)[g] == before[g].symbol@);
                            } else {
                                assert(members(p, c, symbol, i + 1) =~= seq![i]);
                            }
                        }
                    }
                },
            }
        } else {
            assert forall|g: int| 0 <= g < r@.len() implies group_is(
                #[trigger] r@[g],
                p,
                c,
                i + 1,
            ) by {
                assert(group_is(before[g], p, c, i as int));
            }
        }
        i += 1;
    }
    r
}

/// The first colour that is still free, of those that a picture offers.
pub fn first_free_color(free: &Vec<bool>) -> (r: Option<usize>)
    ensures
        match r {
            Some(k) => k < free@.len() && free@[k as int] && forall|q: int|
                0 <= q < k ==> !free@[q],
            None => forall|q: int| 0 <= q < free@.len() ==> !free@[q],
        },
{
    let mut k: usize = 0;
    while k < free.len()
        invariant
            k <= free@.len(),
            forall|q: int| 0 <= q < k ==> !free@[q],
        decreases free@.len() - k,
    {
        if free[k] {
            return Some(k);
        }
        k += 1;
    }
    None
}

/// The palette for securities without a picture colour: its colours are tried one after
/// the other.
pub struct FallbackPalette {
    pub next: usize,
}

impl FallbackPalette {
    pub fn new() -> (r: Self)
        ensures
            r.next == 0,
    {
        FallbackPalette { next: 0 }
    }

    /// Tries the next colour; `free` says whether it differs enough from all colours in
    /// use. A colour that was tried is not tried again.
    pub fn try_next(&mut self, free: bool) -> (r: Option<usize>)
        requires
            old(self).next < usize::MAX,
        ensures
            final(self).next == old(self).next + 1,
            r == if free {
                Some(old(self).next)
            } else {
                None
            },
    {
        let tried: usize = self.next;
        self.next = tried + 1;
        if free {
            Some(tried)
        } else {
            None
        }
    }
}

/// The members of a security are the counted holdings with its symbol, in their order.
pub proof fn members_are_the_counted_holdings(
    positions: Seq<Position>,
    counted: Seq<bool>,
    symbol: Seq<char>,
    n: int,
)
    requires
        0 <= n <= positions.len(),
        n <= usize::MAX,
    ensures
        ({
            let list = members(positions, counted, symbol, n);
            &&& forall|i: usize|
                #[trigger] list.contains(i) <==> i < n && counted[i as int]
                    && positions[i as int].provider_symbol@ == symbol
            &&& forall|a: int, b: int|
                0 <= a < b < list.len() ==> (#[trigger] list[a]) < (#[trigger] list[b])
            &&& forall|a: int| 0 <= a < list.len() ==> (#[trigger] list[a]) < n
        }),
    decreases n,
{
    if n > 0 {
        members_are_the_counted_holdings(positions, counted, symbol, n - 1);
        let before = members(positions, counted, symbol, n - 1);
        let list = members(positions, counted, symbol, n);
        let last = (n - 1) as usize;
        if counted[n - 1] && positions[n - 1].provider_symbol@ == symbol {
            assert(list =~= before.push(last));
            assert(list[before.len() as int] == last);
            assert forall|i: usize|
                #[trigger] list.contains(i) <==> i < n && counted[i as int]
                    && positions[i as int].provider_symbol@ == symbol by {
                if before.contains(i) {
                    let k = choose|k: int| 0 <= k < before.len() && before[k] == i;
                    assert(list[k] == i);
                }
                if list.contains(i) && i != last {
                    let k = choose|k: int| 0 <= k < list.len() && list[k] == i;
                    assert(before[k] == i);
                    assert(before.contains(i));
                }
                if i < n - 1 && counted[i as int] && positions[i as int].provider_symbol@ == symbol {
                    assert(before.contains(i));
                }
            }
        } else {
            assert forall|i: usize|
                #[trigger] list.contains(i) <==> i < n && counted[i as int]
                    && positions[i as int].provider_symbol@ == symbol by {
                assert(list.contains(i) == before.contains(i));
            }
        }
    }
}

/// The securities are the symbols of the counted holdings, each once.
pub proof fn securities_are_of_counted_holdings(
    positions: Seq<Position>,
    counted: Seq<bool>,
    n: int,
    symbol: Seq<char>,
)
    requires
        0 <= n <= positions.len(),
    ensures
        securities(positions, counted, n).no_duplicates(),
        securities(positions, counted, n).contains(symbol) <==> exists|i: int|
            0 <= i < n && (#[trigger] positions[i]).provider_symbol@ == symbol && counted[i],
    decreases n,
{
    securities_are_distinct(positions, counted, n);
    if n > 0 {
        securities_are_of_counted_holdings(positions, counted, n - 1, symbol);
        let before = securities(positions, counted, n - 1);
        let list = securities(positions, counted, n);
        let last = positions[n - 1].provider_symbol@;
        if counted[n - 1] && !before.contains(last) {
            assert(list =~= before.push(last));
            assert(list[before.len() as int] == last);
            if before.contains(symbol) {
                let k = choose|k: int| 0 <= k < before.len() && before[k] == symbol;
                assert(list[k] == symbol);
            }
            if list.contains(symbol) && symbol != last {
                let k = choose|k: int| 0 <= k < list.len() && list[k] == symbol;
                assert(before[k] == symbol);
                assert(before.contains(symbol));
            }
        }
        if exists|i: int|
            0 <= i < n && (#[trigger] positions[i]).provider_symbol@ == symbol && counted[i] {
            let i = choose|i: int|
                0 <= i < n && (#[trigger] positions[i]).provider_symbol@ == symbol && counted[i];
            if i < n - 1 {
                assert(positions[i].provider_symbol@ == symbol && counted[i]);
            }
        }
    }
}

/// A security is named by the first of its holdings that has a name, and labelled by the code
/// of the first of them.
pub proof fn security_has_the_first_name(positions: Seq<Position>, list: Seq<usize>)
    requires
        list.len() > 0,
    ensures
        exists|k: int|
            0 <= k < list.len() && group_name(positions, list) == positions[
            #[trigger] list[k] as int].name@ && (k > 0 ==> text::trimmed(
                group_name(positions, list),
            ).len() > 0) && forall|j: int|
                0 <= j < list.len() && (j < k || text::trimmed(group_name(positions, list)).len()
                    == 0) ==> text::trimmed(positions[#[trigger] list[j] as int].name@).len() == 0,
    decreases list.len(),
{
    if list.len() == 1 {
        assert(group_name(positions, list) == positions[list[0] as int].name@);
    } else {
        let before = list.drop_last();
        security_has_the_first_name(positions, before);
        let n = list.len() - 1;
        let old_name = group_name(positions, before);
        let name = group_name(positions, list);
        assert(list.last() == list[n]);
        assert forall|j: int| 0 <= j < n implies #[trigger] list[j] == before[j] by {}
        let k = choose|k: int|
            0 <= k < before.len() && old_name == positions[#[trigger] before[k] as int].name@ && (k
                > 0 ==> text::trimmed(old_name).len() > 0) && forall|j: int|
                0 <= j < before.len() && (j < k || text::trimmed(old_name).len() == 0)
                    ==> text::trimmed(positions[#[trigger] before[j] as int].name@).len() == 0;
        assert(list[k] == before[k]);
        if text::nothing_but_blanks(old_name) && !text::nothing_but_blanks(
            positions[list.last() as int].name@,
        ) {
            assert(name == positions[list[n] as int].name@);
            assert forall|j: int|
                0 <= j < list.len() && (j < n || text::trimmed(name).len()
                    == 0) implies text::trimmed(positions[#[trigger] list[j] as int].name@).len()
                == 0 by {
                assert(before[j] == list[j]);
            }
        } else {
            assert(name == old_name);
            assert forall|j: int|
                0 <= j < list.len() && (j < k || text::trimmed(name).len()
                    == 0) implies text::trimmed(positions[#[trigger] list[j] as int].name@).len()
                == 0 by {
                if j < n {
                    assert(before[j] == list[j]);
                }
            }
        }
    }
}

/// A security of the allocation is made of the counted holdings with its symbol, at least one
/// of them; it has the code of the first and the first name that is not blank.
pub proof fn group_is_made_of_its_holdings(
    g: SecurityGroup,
    positions: Seq<Position>,
    counted: Seq<bool>,
    n: int,
    i: usize,
)
    requires
        group_is(g, positions, counted, n),
        0 <= n <= positions.len(),
        n <= usize::MAX,
        i < n,
    ensures
        g.members@.len() > 0,
        g.members@.contains(i) <==> counted[i as int] && positions[i as int].provider_symbol@
            == g.symbol@,
        g.members@.contains(i) ==> g.members@[0] <= i,
        g.label@ == positions[g.members@[0] as int].code@,
        text::trimmed(positions[g.members@[0] as int].name@).len() > 0 ==> g.name@
            == positions[g.members@[0] as int].name@,
        g.members@.contains(i) && text::trimmed(positions[i as int].name@).len() > 0
            ==> text::trimmed(g.name@).len() > 0,
{
    members_are_the_counted_holdings(positions, counted, g.symbol@, n);
    let list = g.members@;
    if list.contains(i) {
        let k = choose|k: int| 0 <= k < list.len() && list[k] == i;
        if k > 0 {
            assert(list[0] < list[k]);
        }
    }
    security_has_the_first_name(positions, list);
    let name = group_name(positions, list);
    let k = choose|k: int|
        0 <= k < list.len() && name == positions[#[trigger] list[k] as int].name@ && (k > 0
            ==> text::trimmed(name).len() > 0) && forall|j: int|
            0 <= j < list.len() && (j < k || text::trimmed(name).len() == 0) ==> text::trimmed(
                positions[#[trigger] list[j] as int].name@,
            ).len() == 0;
    assert(list[0] < n);
    if list.contains(i) {
        let at = choose|at: int| 0 <= at < list.len() && list[at] == i;
        assert(list[at] == i);
    }
}

} // verus!
