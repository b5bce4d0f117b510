//! Picking records by their positions and putting them in order.
//!
//! A list of records stays where it is; what moves are positions in it. An order is a
//! sequence of positions, and ties are broken by the position itself, so that records
//! with equal keys keep the order they had.

use vstd::prelude::*;

verus! {

/// What a record is ordered by: the first field that differs decides.
#[derive(Clone, Copy)]
pub struct SortKey {
    pub first: i128,
    pub second: i128,
    pub third: i128,
}

/// A position together with the key of the record that stands there.
#[derive(Clone, Copy)]
pub struct Keyed {
    pub key: SortKey,
    pub position: usize,
}

pub open spec fn key_below(a: SortKey, b: SortKey) -> bool {
    ||| a.first < b.first
    ||| a.first == b.first && a.second < b.second
    ||| a.first == b.first && a.second == b.second && a.third < b.third
}

/// `a` comes before `b`: by key, and by position where the keys are equal.
pub open spec fn comes_before(a: Keyed, b: Keyed) -> bool {
    key_below(a.key, b.key) || (a.key == b.key && a.position < b.position)
}

pub open spec fn keyed(keys: spec_fn(int) -> SortKey, position: usize) -> Keyed {
    Keyed { key: keys(position as int), position }
}

/// `order` lists the positions below `len` that `keep` holds of, each once, by
/// ascending key, and by ascending position among equal keys.
pub open spec fn arranged(
    order: Seq<usize>,
    len: int,
    keep: spec_fn(int) -> bool,
    keys: spec_fn(int) -> SortKey,
) -> bool {
    &&& forall|a: int| 0 <= a < order.len() ==> #[trigger] order[a] < len && keep(order[a] as int)
    &&& forall|i: usize| i < len && keep(i as int) ==> #[trigger] order.contains(i)
    &&& forall|a: int, b: int|
        0 <= a < b < order.len() ==> comes_before(
            #[trigger] keyed(keys, order[a]),
            #[trigger] keyed(keys, order[b]),
        )
}

/// The arrangement of the positions below `len` that `keep` holds of.
pub open spec fn arrangement(
    len: int,
    keep: spec_fn(int) -> bool,
    keys: spec_fn(int) -> SortKey,
) -> Seq<usize> {
    choose|order: Seq<usize>| arranged(order, len, keep, keys)
}

/// The positions below `len` that `keep` holds of, ascending.
pub open spec fn selection(len: int, keep: spec_fn(int) -> bool) -> Seq<usize> {
    choose|order: Seq<usize>| selected(order, len, keep)
}

/// `order` lists the positions below `len` that `keep` holds of, ascending.
pub open spec fn selected(order: Seq<usize>, len: int, keep: spec_fn(int) -> bool) -> bool {
    &&& forall|a: int| 0 <= a < order.len() ==> #[trigger] order[a] < len && keep(order[a] as int)
    &&& forall|i: usize| i < len && keep(i as int) ==> #[trigger] order.contains(i)
    &&& forall|a: int, b: int| 0 <= a < b < order.len() ==> order[a] < order[b]
}

/// At most one sequence of positions is the arrangement of given keys.
pub proof fn arrangement_is_unique(
    x: Seq<usize>,
    y: Seq<usize>,
    len: int,
    keep: spec_fn(int) -> bool,
    keys: spec_fn(int) -> SortKey,
)
    requires
        arranged(x, len, keep, keys),
        arranged(y, len, keep, keys),
    ensures
        x == y,
    decreases x.len(),
{
    if x.len() == 0 {
        if y.len() > 0 {
            assert(x.contains(y[0]));
        }
        assert(x =~= y);
    } else {
        let last = x.last();
        assert(y.contains(last));
        let at = choose|k: int| 0 <= k < y.len() && y[k] == last;
        assert(y.len() > 0);
        assert(x.contains(y.last()));
        let other = choose|k: int| 0 <= k < x.len() && x[k] == y.last();
        if at < y.len() - 1 {
            assert(comes_before(keyed(keys, y[at]), keyed(keys, y[y.len() - 1])));
            if other < x.len() - 1 {
                assert(comes_before(keyed(keys, x[other]), keyed(keys, x[x.len() - 1])));
            }
        }
        assert(y.last() == last);
        let rest = |i: int| keep(i) && i != last as int;
        drop_last_arranged(x, len, keep, keys);
        drop_last_arranged(y, len, keep, keys);
        arrangement_is_unique(x.drop_last(), y.drop_last(), len, rest, keys);
        assert(x =~= x.drop_last().push(last));
        assert(y =~= y.drop_last().push(last));
    }
}

proof fn drop_last_arranged(
    x: Seq<usize>,
    len: int,
    keep: spec_fn(int) -> bool,
    keys: spec_fn(int) -> SortKey,
)
    requires
        x.len() > 0,
        arranged(x, len, keep, keys),
    ensures
        arranged(x.drop_last(), len, |i: int| keep(i) && i != x.last() as int, keys),
{
    let s = x.drop_last();
    let n = s.len() as int;
    assert forall|a: int| 0 <= a < s.len() implies #[trigger] s[a] < len && keep(s[a] as int) && s[a]
        != x.last() by {
        assert(s[a] == x[a]);
        assert(comes_before(keyed(keys, x[a]), keyed(keys, x[n])));
    }
    assert forall|i: usize| i < len && keep(i as int) && i != x.last() implies #[trigger] s.contains(
        i,
    ) by {
        assert(x.contains(i));
        let k = choose|k: int| 0 <= k < x.len() && x[k] == i;
        assert(s[k] == i);
    }
    assert forall|a: int, b: int| 0 <= a < b < s.len() implies comes_before(
        #[trigger] keyed(keys, s[a]),
        #[trigger] keyed(keys, s[b]),
    ) by {
        assert(s[a] == x[a] && s[b] == x[b]);
        assert(comes_before(keyed(keys, x[a]), keyed(keys, x[b])));
    }
}

/// At most one sequence of positions is the selection by a given condition.
pub proof fn selection_is_unique(
    x: Seq<usize>,
    y: Seq<usize>,
    len: int,
    keep: spec_fn(int) -> bool,
)
    requires
        selected(x, len, keep),
        selected(y, len, keep),
    ensures
        x == y,
{
    let same = |i: int| SortKey { first: 0, second: 0, third: 0 };
    arrangement_is_unique(x, y, len, keep, same);
}

fn is_before(a: &Keyed, b: &Keyed) -> (r: bool)
    ensures
        r == comes_before(*a, *b),
{
    if a.key.first != b.key.first {
        a.key.first < b.key.first
    } else if a.key.second != b.key.second {
        a.key.second < b.key.second
    } else if a.key.third != b.key.third {
        a.key.third < b.key.third
    } else {
        a.position < b.position
    }
}

pub open spec fn in_order(items: Seq<Keyed>) -> bool {
    forall|a: int, b: int|
        0 <= a < b < items.len() ==> comes_before(#[trigger] items[a], #[trigger] items[b])
}

/// Every position that is listed carries its own key, and none is listed twice.
pub open spec fn carries(items: Seq<Keyed>, keys: spec_fn(int) -> SortKey) -> bool {
    &&& forall|a: int|
        0 <= a < items.len() ==> #[trigger] items[a] == keyed(keys, items[a].position)
    &&& forall|a: int, b: int|
        0 <= a < b < items.len() ==> (#[trigger] items[a]).position != (#[trigger] items[b]).position
}

/// Puts the items in order.
pub fn sort_keyed(items: &mut Vec<Keyed>)
    requires
        forall|a: int, b: int|
            0 <= a < b < old(items)@.len() ==> (#[trigger] old(items)@[a]).position != (
            #[trigger] old(items)@[b]).position,
    ensures
        final(items)@.len() == old(items)@.len(),
        forall|x: Keyed| final(items)@.contains(x) <==> #[trigger] old(items)@.contains(x),
        in_order(final(items)@),
{
    let mut sorted: Vec<Keyed> = Vec::new();
    let mut i: usize = 0;
    let ghost input = items@;
    while i < items.len()
        invariant
            i <= items@.len(),
            items@ == input,
            sorted@.len() == i,
            in_order(sorted@),
            forall|a: int, b: int|
                0 <= a < b < input.len() ==> (#[trigger] input[a]).position != (
                #[trigger] input[b]).position,
            forall|x: Keyed| sorted@.contains(x) <==> #[trigger] input.take(i as int).contains(x),
        decreases items@.len() - i,
    {
        let item: Keyed = items[i];
        let mut at: usize = sorted.len();
        while at > 0 && is_before(&item, &sorted[at - 1])
            invariant
                at <= sorted@.len(),
                forall|k: int| at <= k < sorted@.len() ==> comes_before(item, #[trigger] sorted@[k]),
            decreases at,
        {
            at -= 1;
        }
        let ghost before = sorted@;
        proof {
            assert forall|k: int| 0 <= k < at implies comes_before(#[trigger] before[k], item) by {
                assert(before.contains(before[k]));
                assert(input.take(i as int).contains(before[k]));
                let p = choose|p: int| 0 <= p < i && input.take(i as int)[p] == before[k];
                assert(input[p] == before[k]);
                assert(input[p].position != input[i as int].position);
                if k < at - 1 {
                    assert(comes_before(before[k], before[at - 1]));
                }
            }
        }
        sorted.insert(at, item);
        proof {
            let after = sorted@;
            assert(after == before.insert(at as int, item));
            assert forall|a: int, b: int| 0 <= a < b < after.len() implies comes_before(
                #[trigger] after[a],
                #[trigger] after[b],
            ) by {
                let ka = if a < at {
                    a
                } else {
                    a - 1
                };
                let kb = if b < at {
                    b
                } else {
                    b - 1
                };
                if a == at {
                    assert(after[b] == before[kb]);
                } else if b == at {
                    assert(after[a] == before[ka]);
                } else {
                    assert(after[a] == before[ka] && after[b] == before[kb]);
                }
            }
            assert(input.take(i + 1) =~= input.take(i as int).push(item));
            assert forall|x: Keyed| after.contains(x) <==> #[trigger] input.take(i + 1).contains(x) by {
                if after.contains(x) {
                    let p = choose|p: int| 0 <= p < after.len() && after[p] == x;
                    if p == at {
                        assert(input.take(i + 1)[i as int] == x);
                    } else {
                        let q = if p < at {
                            p
                        } else {
                            p - 1
                        };
                        assert(before[q] == x);
                        assert(before.contains(x));
                        assert(input.take(i as int).contains(x));
                        let r = choose|r: int| 0 <= r < i && input.take(i as int)[r] == x;
                        assert(input.take(i + 1)[r] == x);
                    }
                }
                if input.take(i + 1).contains(x) {
                    let longer = input.take(i + 1);
                    let r = choose|r: int| 0 <= r < longer.len() && longer[r] == x;
                    if r == i {
                        assert(after[at as int] == x);
                    } else {
                        assert(input.take(i as int)[r] == x);
                        assert(input.take(i as int).contains(x));
                        assert(before.contains(x));
                        let q = choose|q: int| 0 <= q < before.len() && before[q] == x;
                        if q < at {
                            assert(after[q] == x);
                        } else {
                            assert(after[q + 1] == x);
                        }
                    }
                }
            }
        }
        i += 1;
    }
    assert(input.take(i as int) =~= input);
    *items = sorted;
}

/// The positions of the items in order.
fn order_of(
    items: Vec<Keyed>,
    Ghost(len): Ghost<int>,
    Ghost(keep): Ghost<spec_fn(int) -> bool>,
    Ghost(keys): Ghost<spec_fn(int) -> SortKey>,
) -> (r: Vec<usize>)
    requires
        carries(items@, keys),
        forall|a: int|
            0 <= a < items@.len() ==> (#[trigger] items@[a]).position < len && keep(
                items@[a].position as int,
            ),
        forall|i: usize|
            i < len && #[trigger] keep(i as int) ==> exists|a: int|
                0 <= a < items@.len() && (#[trigger] items@[a]).position == i,
    ensures
        arranged(r@, len, keep, keys),
        r@.len() == items@.len(),
{
    let mut sorted = items;
    sort_keyed(&mut sorted);
    proof {
        assert forall|a: int| 0 <= a < sorted@.len() implies (#[trigger] sorted@[a]) == keyed(
            keys,
            sorted@[a].position,
        ) && sorted@[a].position < len && keep(sorted@[a].position as int) by {
            assert(sorted@.contains(sorted@[a]));
            assert(items@.contains(sorted@[a]));
        }
        assert forall|i: usize| i < len && #[trigger] keep(i as int) implies exists|a: int|
            0 <= a < sorted@.len() && (#[trigger] sorted@[a]).position == i by {
            let a = choose|a: int| 0 <= a < items@.len() && (#[trigger] items@[a]).position == i;
            assert(items@.contains(items@[a]));
            assert(sorted@.contains(items@[a]));
            let b = choose|b: int| 0 <= b < sorted@.len() && sorted@[b] == items@[a];
            assert(sorted@[b].position == i);
        }
    }
    let mut r: Vec<usize> = Vec::new();
    let mut i: usize = 0;
    while i < sorted.len()
        invariant
            i <= sorted@.len(),
            r@.len() == i,
            forall|a: int| 0 <= a < i ==> #[trigger] r@[a] == sorted@[a].position,
        decreases sorted@.len() - i,
    {
        r.push(sorted[i].position);
        i += 1;
    }
    proof {
        assert forall|i: usize| i < len && keep(i as int) implies #[trigger] r@.contains(i) by {
            let b = choose|b: int| 0 <= b < sorted@.len() && (#[trigger] sorted@[b]).position == i;
            assert(r@[b] == i);
        }
        assert forall|a: int, b: int| 0 <= a < b < r@.len() implies comes_before(
            #[trigger] keyed(keys, r@[a]),
            #[trigger] keyed(keys, r@[b]),
        ) by {
            assert(r@[a] == sorted@[a].position && r@[b] == sorted@[b].position);
            assert(comes_before(sorted@[a], sorted@[b]));
        }
    }
    r
}

/// Two descriptions of what is kept and by what it is ordered that agree below `len`
/// describe the same arrangement.
pub proof fn arrangement_by_equals(
    order: Seq<usize>,
    len: int,
    keep: spec_fn(int) -> bool,
    keys: spec_fn(int) -> SortKey,
    keep2: spec_fn(int) -> bool,
    keys2: spec_fn(int) -> SortKey,
)
    requires
        arranged(order, len, keep, keys),
        forall|i: int| 0 <= i < len ==> #[trigger] keep(i) == keep2(i),
        forall|i: int| 0 <= i < len ==> #[trigger] keys(i) == keys2(i),
    ensures
        arranged(order, len, keep2, keys2),
{
    assert forall|a: int| 0 <= a < order.len() implies #[trigger] order[a] < len && keep2(
        order[a] as int,
    ) by {
        assert(keep(order[a] as int));
    }
    assert forall|i: usize| i < len && keep2(i as int) implies #[trigger] order.contains(i) by {
        assert(keep(i as int));
    }
    assert forall|a: int, b: int| 0 <= a < b < order.len() implies comes_before(
        #[trigger] keyed(keys2, order[a]),
        #[trigger] keyed(keys2, order[b]),
    ) by {
        assert(comes_before(keyed(keys, order[a]), keyed(keys, order[b])));
        assert(keys(order[a] as int) == keys2(order[a] as int));
        assert(keys(order[b] as int) == keys2(order[b] as int));
    }
}

/// Lists the positions that are kept, in the order of their keys.
pub fn arrange(keep: &Vec<bool>, keys: &Vec<SortKey>) -> (r: Vec<usize>)
    requires
        keep@.len() == keys@.len(),
    ensures
        arranged(r@, keep@.len() as int, |i: int| keep@[i], |i: int| keys@[i]),
{
    let mut items: Vec<Keyed> = Vec::new();
    let mut i: usize = 0;
    let ghost chosen = |i: int| keep@[i];
    let ghost sort_keys = |i: int| keys@[i];
    while i < keep.len()
        invariant
            i <= keep@.len(),
            keep@.len() == keys@.len(),
            chosen == (|i: int| keep@[i]),
            sort_keys == (|i: int| keys@[i]),
            carries(items@, sort_keys),
            forall|a: int|
                0 <= a < items@.len() ==> (#[trigger] items@[a]).position < i && chosen(
                    items@[a].position as int,
                ),
            forall|k: usize|
                k < i && #[trigger] chosen(k as int) ==> exists|a: int|
                    0 <= a < items@.len() && (#[trigger] items@[a]).position == k,
        decreases keep@.len() - i,
    {
        let ghost before = items@;
        if keep[i] {
            items.push(Keyed { key: keys[i], position: i });
            assert(items@[before.len() as int].position == i);
        }
        proof {
            assert forall|k: usize| k < i + 1 && #[trigger] chosen(k as int) implies exists|a: int|
                0 <= a < items@.len() && (#[trigger] items@[a]).position == k by {
                if k < i {
                    let a = choose|a: int|
                        0 <= a < before.len() && (#[trigger] before[a]).position == k;
                    assert(items@[a].position == k);
                }
            }
        }
        i += 1;
    }
    order_of(items, Ghost(keep@.len() as int), Ghost(chosen), Ghost(sort_keys))
}

/// Lists the positions that are kept, ascending.
pub fn select(keep: &Vec<bool>) -> (r: Vec<usize>)
    ensures
        selected(r@, keep@.len() as int, |i: int| keep@[i]),
{
    let mut r: Vec<usize> = Vec::new();
    let mut i: usize = 0;
    while i < keep.len()
        invariant
            i <= keep@.len(),
            selected(r@, i as int, |i: int| keep@[i]),
        decreases keep@.len() - i,
    {
        let ghost before = r@;
        if keep[i] {
            r.push(i);
            assert(r@[before.len() as int] == i);
        }
        proof {
            assert forall|k: usize| k < i + 1 && keep@[k as int] implies #[trigger] r@.contains(k) by {
                if k < i {
                    assert(before.contains(k));
                    let a = choose|a: int| 0 <= a < before.len() && before[a] == k;
                    assert(r@[a] == k);
                }
            }
        }
        i += 1;
    }
    r
}

/// A selection by conditions that agree below `len` is the same.
pub proof fn selection_by_equals(
    order: Seq<usize>,
    len: int,
    keep: spec_fn(int) -> bool,
    keep2: spec_fn(int) -> bool,
)
    requires
        selected(order, len, keep),
        forall|i: int| 0 <= i < len ==> #[trigger] keep(i) == keep2(i),
    ensures
        selected(order, len, keep2),
{
    assert forall|a: int| 0 <= a < order.len() implies #[trigger] order[a] < len && keep2(
        order[a] as int,
    ) by {
        assert(keep(order[a] as int));
    }
    assert forall|i: usize| i < len && keep2(i as int) implies #[trigger] order.contains(i) by {
        assert(keep(i as int));
    }
}

/// What was arranged by conditions and keys that agree with the given ones is the
/// arrangement by these.
pub proof fn is_arrangement(
    order: Seq<usize>,
    len: int,
    keep: spec_fn(int) -> bool,
    keys: spec_fn(int) -> SortKey,
    keep2: spec_fn(int) -> bool,
    keys2: spec_fn(int) -> SortKey,
)
    requires
        arranged(order, len, keep, keys),
        forall|i: int| 0 <= i < len ==> #[trigger] keep(i) == keep2(i),
        forall|i: int| 0 <= i < len ==> #[trigger] keys(i) == keys2(i),
    ensures
        order == arrangement(len, keep2, keys2),
        arranged(order, len, keep2, keys2),
{
    arrangement_by_equals(order, len, keep, keys, keep2, keys2);
    arrangement_is_unique(order, arrangement(len, keep2, keys2), len, keep2, keys2);
}

/// What was selected by a condition that agrees with the given one is the selection by
/// this.
pub proof fn is_selection(
    order: Seq<usize>,
    len: int,
    keep: spec_fn(int) -> bool,
    keep2: spec_fn(int) -> bool,
)
    requires
        selected(order, len, keep),
        forall|i: int| 0 <= i < len ==> #[trigger] keep(i) == keep2(i),
    ensures
        order == selection(len, keep2),
        selected(order, len, keep2),
{
    selection_by_equals(order, len, keep, keep2);
    selection_is_unique(order, selection(len, keep2), len, keep2);
}

/// There is a selection for every condition.
pub proof fn every_selection_exists(len: int, keep: spec_fn(int) -> bool)
    requires
        0 <= len <= usize::MAX,
    ensures
        selected(selection(len, keep), len, keep),
{
    let order = select_below(len, keep);
    assert(selected(order, len, keep));
}

proof fn select_below(len: int, keep: spec_fn(int) -> bool) -> (order: Seq<usize>)
    requires
        0 <= len <= usize::MAX,
    ensures
        selected(order, len, keep),
    decreases len,
{
    if len == 0 {
        Seq::empty()
    } else {
        let before = select_below(len - 1, keep);
        if !keep(len - 1) {
            before
        } else {
            let order = before.push((len - 1) as usize);
            assert forall|i: usize| i < len && keep(i as int) implies #[trigger] order.contains(
                i,
            ) by {
                if i < len - 1 {
                    assert(before.contains(i));
                    let k = choose|k: int| 0 <= k < before.len() && before[k] == i;
                    assert(order[k] == i);
                } else {
                    assert(order[before.len() as int] == i);
                }
            }
            order
        }
    }
}

/// There is an arrangement for every condition and every choice of keys.
pub proof fn every_arrangement_exists(
    len: int,
    keep: spec_fn(int) -> bool,
    keys: spec_fn(int) -> SortKey,
)
    requires
        0 <= len <= usize::MAX,
    ensures
        arranged(arrangement(len, keep, keys), len, keep, keys),
{
    let order = arrange_below(len, keep, keys);
    assert(arranged(order, len, keep, keys));
}

proof fn arrange_below(
    len: int,
    keep: spec_fn(int) -> bool,
    keys: spec_fn(int) -> SortKey,
) -> (order: Seq<usize>)
    requires
        0 <= len <= usize::MAX,
    ensures
        arranged(order, len, keep, keys),
    decreases len,
{
    if len == 0 {
        Seq::empty()
    } else {
        let before = arrange_below(len - 1, keep, keys);
        let item = (len - 1) as usize;
        if !keep(len - 1) {
            before
        } else {
            let at = place_for(before, keyed(keys, item), keys, before.len() as int);
            place_is_right(before, len - 1, keep, keyed(keys, item), keys, before.len() as int);
            let order = before.insert(at, item);
            assert forall|a: int| 0 <= a < order.len() implies #[trigger] order[a] < len && keep(
                order[a] as int,
            ) by {
                if a < at {
                    assert(order[a] == before[a]);
                } else if a > at {
                    assert(order[a] == before[a - 1]);
                }
            }
            assert forall|i: usize| i < len && keep(i as int) implies #[trigger] order.contains(
                i,
            ) by {
                if i == item {
                    assert(order[at] == i);
                } else {
                    assert(before.contains(i));
                    let k = choose|k: int| 0 <= k < before.len() && before[k] == i;
                    if k < at {
                        assert(order[k] == i);
                    } else {
                        assert(order[k + 1] == i);
                    }
                }
            }
            assert forall|a: int, b: int| 0 <= a < b < order.len() implies comes_before(
                #[trigger] keyed(keys, order[a]),
                #[trigger] keyed(keys, order[b]),
            ) by {
                let ka = if a < at {
                    a
                } else {
                    a - 1
                };
                let kb = if b < at {
                    b
                } else {
                    b - 1
                };
                if a == at {
                    assert(order[b] == before[kb]);
                } else if b == at {
                    assert(order[a] == before[ka]);
                } else {
                    assert(order[a] == before[ka] && order[b] == before[kb]);
                    assert(comes_before(keyed(keys, before[ka]), keyed(keys, before[kb])));
                }
            }
            order
        }
    }
}

spec fn place_for(order: Seq<usize>, item: Keyed, keys: spec_fn(int) -> SortKey, at: int) -> int
    decreases at,
{
    if at > 0 && comes_before(item, keyed(keys, order[at - 1])) {
        place_for(order, item, keys, at - 1)
    } else {
        at
    }
}

proof fn place_is_right(
    order: Seq<usize>,
    len: int,
    keep: spec_fn(int) -> bool,
    item: Keyed,
    keys: spec_fn(int) -> SortKey,
    at: int,
)
    requires
        arranged(order, len, keep, keys),
        item == keyed(keys, item.position),
        item.position >= len,
        0 <= at <= order.len(),
        forall|k: int| at <= k < order.len() ==> comes_before(item, keyed(keys, #[trigger] order[k])),
    ensures
        0 <= place_for(order, item, keys, at) <= at,
        forall|k: int|
            place_for(order, item, keys, at) <= k < order.len() ==> comes_before(
                item,
                keyed(keys, #[trigger] order[k]),
            ),
        forall|k: int|
            0 <= k < place_for(order, item, keys, at) ==> comes_before(
                keyed(keys, #[trigger] order[k]),
                item,
            ),
    decreases at,
{
    if at > 0 && comes_before(item, keyed(keys, order[at - 1])) {
        place_is_right(order, len, keep, item, keys, at - 1);
    } else {
        assert forall|k: int| 0 <= k < at implies comes_before(
            keyed(keys, #[trigger] order[k]),
            item,
        ) by {
            assert(order[k] < len);
            assert(order[at - 1] < len);
            if k < at - 1 {
                assert(comes_before(keyed(keys, order[k]), keyed(keys, order[at - 1])));
            }
        }
    }
}

/// Conditions and keys that agree below `len` give one arrangement.
pub proof fn same_arrangement(
    len: int,
    keep: spec_fn(int) -> bool,
    keys: spec_fn(int) -> SortKey,
    keep2: spec_fn(int) -> bool,
    keys2: spec_fn(int) -> SortKey,
)
    requires
        0 <= len <= usize::MAX,
        forall|i: int| 0 <= i < len ==> #[trigger] keep(i) == keep2(i),
        forall|i: int| 0 <= i < len ==> #[trigger] keys(i) == keys2(i),
    ensures
        arrangement(len, keep, keys) == arrangement(len, keep2, keys2),
{
    every_arrangement_exists(len, keep, keys);
    is_arrangement(arrangement(len, keep, keys), len, keep, keys, keep2, keys2);
}

/// Conditions that agree below `len` give one selection.
pub proof fn same_selection(len: int, keep: spec_fn(int) -> bool, keep2: spec_fn(int) -> bool)
    requires
        0 <= len <= usize::MAX,
        forall|i: int| 0 <= i < len ==> #[trigger] keep(i) == keep2(i),
    ensures
        selection(len, keep) == selection(len, keep2),
{
    every_selection_exists(len, keep);
    is_selection(selection(len, keep), len, keep, keep2);
}

/// One more record is selected behind those before it, if at all.
pub proof fn selection_of_one_more(
    len: int,
    keep: spec_fn(int) -> bool,
    keep2: spec_fn(int) -> bool,
)
    requires
        0 <= len < usize::MAX,
        forall|i: int| 0 <= i < len ==> #[trigger] keep(i) == keep2(i),
    ensures
        selection(len + 1, keep2) == if keep2(len) {
            selection(len, keep).push(len as usize)
        } else {
            selection(len, keep)
        },
{
    every_selection_exists(len, keep);
    let before = selection(len, keep);
    let after = if keep2(len) {
        before.push(len as usize)
    } else {
        before
    };
    assert forall|a: int| 0 <= a < after.len() implies #[trigger] after[a] < len + 1 && keep2(
        after[a] as int,
    ) by {
        if a < before.len() {
            assert(after[a] == before[a]);
            assert(keep(before[a] as int));
        }
    }
    assert forall|i: usize| i < len + 1 && keep2(i as int) implies #[trigger] after.contains(i) by {
        if i < len {
            assert(keep(i as int));
            assert(before.contains(i));
            let k = choose|k: int| 0 <= k < before.len() && before[k] == i;
            assert(after[k] == i);
        } else {
            assert(after[before.len() as int] == i);
        }
    }
    assert(selected(after, len + 1, keep2));
    selection_is_unique(after, selection(len + 1, keep2), len + 1, keep2);
}

/// Without one of its records, an arrangement is as it was but for that record.
pub proof fn arrangement_without(
    len: int,
    keep: spec_fn(int) -> bool,
    keys: spec_fn(int) -> SortKey,
    keep2: spec_fn(int) -> bool,
    record: usize,
) -> (at: int)
    requires
        0 <= len <= usize::MAX,
        record < len,
        keep(record as int),
        forall|i: int| 0 <= i < len ==> #[trigger] keep2(i) == (keep(i) && i != record),
    ensures
        0 <= at < arrangement(len, keep, keys).len(),
        arrangement(len, keep, keys)[at] == record,
        arrangement(len, keep2, keys) == arrangement(len, keep, keys).remove(at),
        forall|a: int|
            0 <= a < arrangement(len, keep, keys).len() ==> #[trigger] arrangement(len, keep, keys)[a]
                < len,
{
    every_arrangement_exists(len, keep, keys);
    let order = arrangement(len, keep, keys);
    assert(order.contains(record));
    let at = choose|at: int| 0 <= at < order.len() && order[at] == record;
    let rest = order.remove(at);
    let from = |a: int| if a < at {
        a
    } else {
        a + 1
    };
    assert(forall|a: int| 0 <= a < rest.len() ==> #[trigger] rest[a] == order[from(a)]);
    assert forall|a: int| 0 <= a < rest.len() implies #[trigger] rest[a] < len && keep2(
        rest[a] as int,
    ) by {
        assert(rest[a] == order[from(a)]);
        if from(a) < at {
            assert(comes_before(keyed(keys, order[from(a)]), keyed(keys, order[at])));
        } else {
            assert(comes_before(keyed(keys, order[at]), keyed(keys, order[from(a)])));
        }
    }
    assert forall|i: usize| i < len && keep2(i as int) implies #[trigger] rest.contains(i) by {
        assert(keep(i as int));
        assert(order.contains(i));
        let k = choose|k: int| 0 <= k < order.len() && order[k] == i;
        if k < at {
            assert(rest[k] == i);
        } else {
            assert(rest[k - 1] == i);
        }
    }
    assert forall|a: int, b: int| 0 <= a < b < rest.len() implies comes_before(
        #[trigger] keyed(keys, rest[a]),
        #[trigger] keyed(keys, rest[b]),
    ) by {
        assert(comes_before(keyed(keys, order[from(a)]), keyed(keys, order[from(b)])));
    }
    assert(arranged(rest, len, keep2, keys));
    arrangement_is_unique(rest, arrangement(len, keep2, keys), len, keep2, keys);
    at
}

/// What stands before a bound on the leading key is itself an arrangement: the one of the
/// records within the bound.
pub proof fn arrangement_up_to(
    order: Seq<usize>,
    len: int,
    keep: spec_fn(int) -> bool,
    keys: spec_fn(int) -> SortKey,
    bound: int,
    early: Seq<usize>,
)
    requires
        arranged(order, len, keep, keys),
        arranged(early, len, |i: int| keep(i) && keys(i).first <= bound, keys),
    ensures
        early.len() <= order.len(),
        early == order.take(early.len() as int),
        forall|k: int|
            early.len() <= k < order.len() ==> keys((#[trigger] order[k]) as int).first > bound,
{
    let n = leading(order, keys, bound);
    leading_is_prefix(order, len, keep, keys, bound);
    let head = order.take(n);
    let near = |i: int| keep(i) && keys(i).first <= bound;
    assert forall|a: int| 0 <= a < head.len() implies #[trigger] head[a] < len && near(
        head[a] as int,
    ) by {
        assert(head[a] == order[a]);
    }
    assert forall|i: usize| i < len && near(i as int) implies #[trigger] head.contains(i) by {
        assert(order.contains(i));
        let k = choose|k: int| 0 <= k < order.len() && order[k] == i;
        assert(k < n);
        assert(head[k] == i);
    }
    assert forall|a: int, b: int| 0 <= a < b < head.len() implies comes_before(
        #[trigger] keyed(keys, head[a]),
        #[trigger] keyed(keys, head[b]),
    ) by {
        assert(head[a] == order[a] && head[b] == order[b]);
        assert(comes_before(keyed(keys, order[a]), keyed(keys, order[b])));
    }
    arrangement_is_unique(early, head, len, near, keys);
}

spec fn leading(order: Seq<usize>, keys: spec_fn(int) -> SortKey, bound: int) -> int
    decreases order.len(),
{
    if order.len() == 0 {
        0
    } else if keys(order.last() as int).first <= bound {
        order.len() as int
    } else {
        leading(order.drop_last(), keys, bound)
    }
}

proof fn leading_is_prefix(
    order: Seq<usize>,
    len: int,
    keep: spec_fn(int) -> bool,
    keys: spec_fn(int) -> SortKey,
    bound: int,
)
    requires
        arranged(order, len, keep, keys),
    ensures
        0 <= leading(order, keys, bound) <= order.len(),
        forall|k: int|
            0 <= k < leading(order, keys, bound) ==> keys((#[trigger] order[k]) as int).first
                <= bound,
        forall|k: int|
            leading(order, keys, bound) <= k < order.len() ==> keys(
                (#[trigger] order[k]) as int,
            ).first > bound,
    decreases order.len(),
{
    if order.len() > 0 {
        let last = order.len() - 1;
        if keys(order.last() as int).first <= bound {
            assert forall|k: int| 0 <= k < order.len() implies keys(
                (#[trigger] order[k]) as int,
            ).first <= bound by {
                if k < last {
                    assert(comes_before(keyed(keys, order[k]), keyed(keys, order[last])));
                }
            }
        } else {
            drop_last_arranged(order, len, keep, keys);
            leading_is_prefix(
                order.drop_last(),
                len,
                |i: int| keep(i) && i != order.last() as int,
                keys,
                bound,
            );
            let n = leading(order, keys, bound);
            assert forall|k: int| n <= k < order.len() implies keys(
                (#[trigger] order[k]) as int,
            ).first > bound by {
                if k < last {
                    assert(order.drop_last()[k] == order[k]);
                }
            }
            assert forall|k: int| 0 <= k < n implies keys((#[trigger] order[k]) as int).first
                <= bound by {
                assert(order.drop_last()[k] == order[k]);
            }
        }
    }
}

pub open spec fn ascending(values: Seq<i64>) -> bool {
    forall|a: int, b: int| 0 <= a < b < values.len() ==> values[a] < values[b]
}

/// The values, each once, from the smallest to the largest.
#[verifier::loop_isolation(false)]
pub fn ascending_distinct(values: &Vec<i64>) -> (r: Vec<i64>)
    ensures
        ascending(r@),
        forall|v: i64| r@.contains(v) <==> #[trigger] values@.contains(v),
{
    let mut r: Vec<i64> = Vec::new();
    let mut i: usize = 0;
    while i < values.len()
        invariant
            i <= values@.len(),
            ascending(r@),
            forall|k: int| 0 <= k < i ==> r@.contains(#[trigger] values@[k]),
            forall|a: int| 0 <= a < r@.len() ==> values@.contains(#[trigger] r@[a]),
        decreases values@.len() - i,
    {
        let v: i64 = values[i];
        let mut at: usize = 0;
        while at < r.len() && r[at] < v
            invariant
                at <= r@.len(),
                forall|k: int| 0 <= k < at ==> r@[k] < v,
            decreases r@.len() - at,
        {
            at += 1;
        }
        let ghost before = r@;
        if at < r.len() && r[at] == v {
            assert(r@.contains(v));
        } else {
            r.insert(at, v);
            proof {
                assert(r@[at as int] == v);
                assert forall|k: int| 0 <= k < i implies r@.contains(#[trigger] values@[k]) by {
                    assert(before.contains(values@[k]));
                    let q = choose|q: int| 0 <= q < before.len() && before[q] == values@[k];
                    if q < at {
                        assert(r@[q] == values@[k]);
                    } else {
                        assert(r@[q + 1] == values@[k]);
                    }
                }
                assert forall|a: int| 0 <= a < r@.len() implies values@.contains(
                    #[trigger] r@[a],
                ) by {
                    if a < at {
                        assert(r@[a] == before[a]);
                    } else if a > at {
                        assert(r@[a] == before[a - 1]);
                    }
                }
                assert forall|a: int, b: int| 0 <= a < b < r@.len() implies r@[a] < r@[b] by {
                    if b > at {
                        assert(r@[b] == before[b - 1]);
                        assert(before[b - 1] > v);
                    }
                }
            }
        }
        i += 1;
    }
    r
}

/// The first `n` of a list, or all of it where it is shorter.
pub open spec fn at_most<A>(list: Seq<A>, n: int) -> Seq<A> {
    if list.len() > n {
        list.take(n)
    } else {
        list
    }
}

pub fn first_of(order: &Vec<usize>, n: usize) -> (r: Vec<usize>)
    ensures
        r@ == at_most(order@, n as int),
{
    let mut r: Vec<usize> = Vec::new();
    let mut k: usize = 0;
    while k < order.len() && k < n
        invariant
            k <= order@.len(),
            k <= n,
            r@ == order@.take(k as int),
        decreases order@.len() - k,
    {
        r.push(order[k]);
        k += 1;
    }
    assert(order@.len() <= n ==> order@.take(k as int) =~= order@);
    r
}

/// An arrangement lists every kept position once and nothing else: by the first number of
/// its key, among equals by the second, among equals by the third, and where all three are
/// equal the earlier position stays ahead.
pub proof fn arrangement_sorts_kept_positions(
    len: int,
    keep: spec_fn(int) -> bool,
    keys: spec_fn(int) -> SortKey,
)
    requires
        0 <= len <= usize::MAX,
    ensures
        ({
            let order = arrangement(len, keep, keys);
            &&& order.no_duplicates()
            &&& forall|i: usize| #[trigger] order.contains(i) <==> i < len && keep(i as int)
            &&& forall|a: int, b: int|
                0 <= a < b < order.len() ==> {
                    let x = keys(#[trigger] order[a] as int);
                    let y = keys(#[trigger] order[b] as int);
                    x.first < y.first || (x.first == y.first && (x.second < y.second || (x.second
                        == y.second && (x.third < y.third || (x.third == y.third && order[a]
                        < order[b])))))
                }
        }),
{
    every_arrangement_exists(len, keep, keys);
    let order = arrangement(len, keep, keys);
    assert forall|a: int, b: int| 0 <= a < b < order.len() implies {
        let x = keys(#[trigger] order[a] as int);
        let y = keys(#[trigger] order[b] as int);
        order[a] != order[b] && (x.first < y.first || (x.first == y.first && (x.second < y.second
            || (x.second == y.second && (x.third < y.third || (x.third == y.third && order[a]
            < order[b]))))))
    } by {
        assert(comes_before(keyed(keys, order[a]), keyed(keys, order[b])));
    }
}

/// A selection lists every kept position once and nothing else, from the first to the last.
pub proof fn selection_lists_kept_positions(len: int, keep: spec_fn(int) -> bool)
    requires
        0 <= len <= usize::MAX,
    ensures
        ({
            let order = selection(len, keep);
            &&& order.no_duplicates()
            &&& forall|i: usize| #[trigger] order.contains(i) <==> i < len && keep(i as int)
            &&& forall|a: int, b: int|
                0 <= a < b < order.len() ==> #[trigger] order[a] < #[trigger] order[b]
        }),
{
    every_selection_exists(len, keep);
}

/// A list that is cut off keeps its head, and loses nothing where it was short enough.
pub proof fn cut_list_keeps_its_head<A>(list: Seq<A>, n: int, k: int)
    requires
        0 <= n,
    ensures
        at_most(list, n).len() == if list.len() < n {
            list.len() as int
        } else {
            n
        },
        0 <= k < at_most(list, n).len() ==> at_most(list, n)[k] == list[k],
{
}

} // verus!
