//! The search page: what is shown for what is typed.

use vstd::prelude::*;
use crate::text;
use crate::wording;

verus! {

/// The state of the search page.
pub struct SearchState {
    /// What stands in the entry.
    pub entry: String,
    /// The number of results.
    pub count: usize,
    /// The result chosen by the keyboard.
    pub highlighted: Option<usize>,
    pub searching: bool,
    pub list_visible: bool,
    pub status: String,
    pub status_visible: bool,
}

/// How a search ended.
pub enum SearchOutcome {
    Found(usize),
    Failed(String),
}

#[derive(Clone, Copy, PartialEq, Eq, Structural)]
pub enum SearchKey {
    Down,
    Up,
    Enter,
    Other,
}

/// What a key does.
#[derive(Clone, Copy, PartialEq, Eq, Structural)]
pub enum KeyEffect {
    /// The key is not for the results.
    Passed,
    /// This result is now chosen.
    Chosen(usize),
    /// This result is opened.
    Opened(usize),
}

/// The result chosen after a key, for one result or more.
pub open spec fn chosen_after(key: SearchKey, highlighted: Option<usize>, count: int) -> int {
    if key == SearchKey::Down {
        match highlighted {
            Some(i) => if i + 1 < count {
                i + 1
            } else {
                count - 1
            },
            None => 0,
        }
    } else {
        match highlighted {
            Some(i) => if i > 0 {
                i - 1
            } else {
                0
            },
            None => count - 1,
        }
    }
}

impl SearchState {
    /// The keyboard has chosen none but an existing result.
    pub open spec fn well_formed(self) -> bool {
        self.highlighted matches Some(i) ==> i < self.count
    }

    /// The text in the entry changed. Gives the words to search for, if there are any.
    pub fn changed(&mut self, entry: &str) -> (r: Option<String>)
        ensures
            final(self).well_formed(),
            final(self).entry@ == entry@,
            final(self).count == 0,
            final(self).highlighted is None,
            match r {
                Some(query) => query@ == text::trimmed(entry@) && query@.len() > 0
                    && final(self).searching && final(self).status@ == "Searching"@
                    && final(self).status_visible && final(self).list_visible
                    == old(self).list_visible,
                None => text::trimmed(entry@).len() == 0 && !final(self).searching
                    && final(self).status@ == ""@ && !final(self).status_visible
                    && !final(self).list_visible,
            },
    {
        self.entry = entry.to_owned();
        self.count = 0;
        self.highlighted = None;
        let query = text::trim(entry);
        let chars = text::chars_of(query.as_str());
        if chars.len() == 0 {
            self.searching = false;
            self.list_visible = false;
            self.status = "".to_owned();
            self.status_visible = false;
            return None;
        }
        self.searching = true;
        self.status = "Searching".to_owned();
        self.status_visible = true;
        Some(query)
    }

    /// A search ended. Only the one for what stands in the entry counts.
    pub fn completed(&mut self, query: &str, outcome: SearchOutcome) -> (r: bool)
        requires
            old(self).well_formed(),
        ensures
            final(self).well_formed(),
            final(self).entry == old(self).entry,
            r == (text::trimmed(old(self).entry@) == query@),
            !r ==> *final(self) == *old(self),
            r ==> !final(self).searching && final(self).highlighted is None && match outcome {
                SearchOutcome::Found(count) => {
                    &&& final(self).count == count
                    &&& final(self).list_visible == (count > 0)
                    &&& final(self).status_visible == (count == 0)
                    &&& count == 0 ==> final(self).status@ == "No matching stocks or ETFs"@
                    &&& count > 0 ==> final(self).status == old(self).status
                },
                SearchOutcome::Failed(error) => {
                    &&& final(self).count == 0
                    &&& !final(self).list_visible
                    &&& final(self).status_visible
                    &&& final(self).status@ == error@
                },
            },
    {
        if !text::same_text(text::trim(self.entry.as_str()).as_str(), query) {
            return false;
        }
        self.searching = false;
        self.highlighted = None;
        match outcome {
            SearchOutcome::Found(count) => {
                self.count = count;
                self.list_visible = count > 0;
                if count == 0 {
                    self.status = "No matching stocks or ETFs".to_owned();
                    self.status_visible = true;
                } else {
                    self.status_visible = false;
                }
            },
            SearchOutcome::Failed(error) => {
                self.count = 0;
                self.list_visible = false;
                self.status = error;
                self.status_visible = true;
            },
        }
        true
    }

    /// A key was pressed in the entry.
    pub fn key(&mut self, key: SearchKey) -> (r: KeyEffect)
        requires
            old(self).well_formed(),
        ensures
            final(self).well_formed(),
            final(self).count == old(self).count,
            final(self).entry == old(self).entry,
            final(self).searching == old(self).searching,
            final(self).list_visible == old(self).list_visible,
            final(self).status == old(self).status,
            final(self).status_visible == old(self).status_visible,
            r == if old(self).count == 0 || key == SearchKey::Other {
                KeyEffect::Passed
            } else if key == SearchKey::Enter {
                KeyEffect::Opened(
                    match old(self).highlighted {
                        Some(i) => i,
                        None => 0,
                    },
                )
            } else {
                KeyEffect::Chosen(
                    chosen_after(key, old(self).highlighted, old(self).count as int) as usize,
                )
            },
            match r {
                KeyEffect::Passed => *final(self) == *old(self),
                KeyEffect::Opened(_) => final(self).highlighted is None,
                KeyEffect::Chosen(i) => final(self).highlighted == Some(i),
            },
    {
        if self.count == 0 {
            return KeyEffect::Passed;
        }
        match key {
            SearchKey::Down => {
                let next: usize = match self.highlighted {
                    Some(i) => if i < self.count - 1 {
                        i + 1
                    } else {
                        self.count - 1
                    },
                    None => 0,
                };
                self.highlighted = Some(next);
                KeyEffect::Chosen(next)
            },
            SearchKey::Up => {
                let next: usize = match self.highlighted {
                    Some(i) => if i > 0 {
                        i - 1
                    } else {
                        0
                    },
                    None => self.count - 1,
                };
                self.highlighted = Some(next);
                KeyEffect::Chosen(next)
            },
            SearchKey::Enter => {
                let chosen: usize = match self.highlighted {
                    Some(i) => i,
                    None => 0,
                };
                self.highlighted = None;
                KeyEffect::Opened(chosen)
            },
            SearchKey::Other => KeyEffect::Passed,
        }
    }

    /// A row of the results was activated.
    pub fn activated(&mut self, index: i32) -> (r: Option<usize>)
        requires
            old(self).well_formed(),
        ensures
            final(self).well_formed(),
            final(self).count == old(self).count,
            final(self).entry == old(self).entry,
            final(self).searching == old(self).searching,
            final(self).list_visible == old(self).list_visible,
            final(self).status == old(self).status,
            final(self).status_visible == old(self).status_visible,
            r == if 0 <= index && index < old(self).count {
                Some(index as usize)
            } else {
                None
            },
            r is Some ==> final(self).highlighted is None,
            r is None ==> *final(self) == *old(self),
    {
        if index < 0 {
            return None;
        }
        let at: usize = index as usize;
        if at >= self.count {
            return None;
        }
        self.highlighted = None;
        Some(at)
    }
}

/// Down and then up leads back, except at the last result, where down does not move.
pub proof fn down_then_up_returns(i: usize, count: usize)
    requires
        i + 1 < count,
    ensures
        chosen_after(
            SearchKey::Up,
            Some(chosen_after(SearchKey::Down, Some(i), count as int) as usize),
            count as int,
        ) == i,
{
}

/// The line under a result. `change` is the change of the day in percent, with its sign.
pub fn search_result_details(
    exchange: &str,
    currency: &str,
    asset_type: &str,
    change: Option<&str>,
) -> (r: String)
    ensures
        r@ == ({
            let line = wording::exchange_text(exchange@) + " · "@ + currency@ + " · "@
                + wording::asset_type_text(asset_type@);
            match change {
                Some(change) => line + (" · "@ + change@ + "% today"@),
                None => line,
            }
        }),
{
    let mut r = wording::friendly_exchange(exchange).to_owned();
    r.append(" · ");
    r.append(currency);
    r.append(" · ");
    r.append(wording::friendly_asset_type(asset_type));
    match change {
        Some(change) => {
            let mut t = " · ".to_owned();
            t.append(change);
            t.append("% today");
            r.append(t.as_str());
        },
        None => {},
    }
    r
}

/// The keys move through the results one by one and stop at both ends; the first of them
/// chooses the first result from above and the last one from below.
pub proof fn keys_move_one_by_one(i: usize, count: usize)
    requires
        i < count,
    ensures
        i + 1 < count ==> chosen_after(SearchKey::Down, Some(i), count as int) == i + 1,
        i + 1 == count ==> chosen_after(SearchKey::Down, Some(i), count as int) == i,
        i > 0 ==> chosen_after(SearchKey::Up, Some(i), count as int) == i - 1,
        chosen_after(SearchKey::Up, Some(0), count as int) == 0,
        chosen_after(SearchKey::Down, None, count as int) == 0,
        chosen_after(SearchKey::Up, None, count as int) == count - 1,
{
}

} // verus!
