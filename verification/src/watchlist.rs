//! The watchlist, and the star that puts a security on it.

use vstd::prelude::*;
use crate::model::WatchlistItem;
use crate::text;
use crate::wording;

verus! {

/// The first item for a security.
pub open spec fn is_first_item(items: Seq<WatchlistItem>, symbol: Seq<char>, i: int) -> bool {
    &&& 0 <= i < items.len()
    &&& text::alike(items[i].provider_symbol@, symbol)
    &&& forall|k: int|
        0 <= k < i ==> !text::alike((#[trigger] items[k]).provider_symbol@, symbol)
}

pub open spec fn not_listed(items: Seq<WatchlistItem>, symbol: Seq<char>) -> bool {
    forall|k: int|
        0 <= k < items.len() ==> !text::alike((#[trigger] items[k]).provider_symbol@, symbol)
}

/// The id of the item for a security, the case of its symbol aside.
pub fn watchlist_item_id_for_symbol(items: &[WatchlistItem], provider_symbol: &str) -> (r: Option<
    i64,
>)
    ensures
        match r {
            Some(id) => exists|i: int| #[trigger]
                is_first_item(items@, provider_symbol@, i) && items@[i].id == id,
            None => not_listed(items@, provider_symbol@),
        },
{
    let mut i: usize = 0;
    while i < items.len()
        invariant
            i <= items@.len(),
            forall|k: int|
                0 <= k < i ==> !text::alike(
                    (#[trigger] items@[k]).provider_symbol@,
                    provider_symbol@,
                ),
        decreases items@.len() - i,
    {
        if text::same_letters(items[i].provider_symbol.as_str(), provider_symbol) {
            assert(is_first_item(items@, provider_symbol@, i as int));
            return Some(items[i].id);
        }
        i += 1;
    }
    None
}

/// The star of a security: the id of its item while it is on the watchlist.
pub struct Star {
    pub item: Option<i64>,
}

/// What a click on the star asks for.
#[derive(Clone, Copy, PartialEq, Eq, Structural)]
pub enum StarRequest {
    Remove(i64),
    Add,
}

/// How the request ended.
#[derive(Clone, Copy, PartialEq, Eq, Structural)]
pub enum StarReply {
    Removed,
    /// There was nothing to remove.
    Absent,
    Added(i64),
    /// Another item for the security was there; this is its id, if it is found.
    Duplicate(Option<i64>),
    Failed,
}

impl Star {
    pub fn click(&self) -> (r: StarRequest)
        ensures
            r == match self.item {
                Some(id) => StarRequest::Remove(id),
                None => StarRequest::Add,
            },
    {
        match self.item {
            Some(id) => StarRequest::Remove(id),
            None => StarRequest::Add,
        }
    }

    /// The request ended. Says whether the pages are to be brought up to date.
    pub fn reply(&mut self, reply: StarReply) -> (r: bool)
        ensures
            final(self).item == match reply {
                StarReply::Removed | StarReply::Absent => None,
                StarReply::Added(id) => Some(id),
                StarReply::Duplicate(found) => found,
                StarReply::Failed => old(self).item,
            },
            r == match reply {
                StarReply::Removed | StarReply::Absent | StarReply::Added(_) => true,
                _ => false,
            },
    {
        match reply {
            StarReply::Removed | StarReply::Absent => {
                self.item = None;
                true
            },
            StarReply::Added(id) => {
                self.item = Some(id);
                true
            },
            StarReply::Duplicate(found) => {
                self.item = found;
                false
            },
            StarReply::Failed => false,
        }
    }

    pub fn icon(&self) -> (r: &'static str)
        ensures
            r@ == if self.item is Some {
                "starred-symbolic"@
            } else {
                "non-starred-symbolic"@
            },
    {
        if self.item.is_some() {
            "starred-symbolic"
        } else {
            "non-starred-symbolic"
        }
    }

    pub fn tooltip(&self) -> (r: &'static str)
        ensures
            r@ == if self.item is Some {
                "Remove from Watchlist"@
            } else {
                "Add to Watchlist"@
            },
    {
        if self.item.is_some() {
            "Remove from Watchlist"
        } else {
            "Add to Watchlist"
        }
    }
}

pub open spec fn toggled_text(code: Seq<char>, added: bool) -> Seq<char> {
    if added {
        "Added "@ + code + " to watchlist"@
    } else {
        "Removed "@ + code + " from watchlist"@
    }
}

/// What is said after a change.
pub fn star_message(code: &str, added: bool) -> (r: String)
    ensures
        r@ == toggled_text(code@, added),
{
    let mut r = if added {
        "Added ".to_owned()
    } else {
        "Removed ".to_owned()
    };
    r.append(code);
    r.append(
        if added {
            " to watchlist"
        } else {
            " from watchlist"
        },
    );
    r
}

/// The line under the name of a watched security.
pub fn item_caption(item: &WatchlistItem) -> (r: String)
    ensures
        r@ == wording::exchange_text(item.exchange@) + " · "@ + item.currency@,
{
    let mut r = wording::friendly_exchange(item.exchange.as_str()).to_owned();
    r.append(" · ");
    r.append(item.currency.as_str());
    r
}

/// What is said of a security that was put on the list or taken off it.
pub proof fn change_of_the_list_is_told(code: Seq<char>)
    ensures
        toggled_text(code, true) == "Added "@ + code + " to watchlist"@,
        toggled_text(code, false) == "Removed "@ + code + " from watchlist"@,
{
}

/// A security is on the list exactly where one of its items has the same symbol, whatever the
/// case of its letters.
pub proof fn symbol_is_listed_or_not(items: Seq<WatchlistItem>, symbol: Seq<char>, k: int)
    ensures
        0 <= k < items.len() && text::alike(items[k].provider_symbol@, symbol) ==> !not_listed(
            items,
            symbol,
        ),
        0 <= k < items.len() && is_first_item(items, symbol, k) ==> !not_listed(items, symbol),
        !not_listed(items, symbol) ==> exists|i: int| #[trigger] is_first_item(items, symbol, i),
    decreases items.len(),
{
    if !not_listed(items, symbol) {
        let before = items.drop_last();
        let n = items.len() - 1;
        if not_listed(before, symbol) {
            assert forall|j: int| 0 <= j < n implies !text::alike(
                (#[trigger] items[j]).provider_symbol@,
                symbol,
            ) by {
                assert(before[j] == items[j]);
            }
            assert(is_first_item(items, symbol, n));
        } else {
            symbol_is_listed_or_not(before, symbol, 0);
            let i = choose|i: int| #[trigger] is_first_item(before, symbol, i);
            assert forall|j: int| 0 <= j < i implies !text::alike(
                (#[trigger] items[j]).provider_symbol@,
                symbol,
            ) by {
                assert(before[j] == items[j]);
            }
            assert(items[i] == before[i]);
            assert(is_first_item(items, symbol, i));
        }
    }
}

} // verus!
