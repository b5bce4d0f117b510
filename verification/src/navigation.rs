//! Pages and rows: where a choice leads.

use vstd::prelude::*;
use crate::numbers;
use crate::refresh;
use crate::text;

verus! {

/// The place of a page in the row of pages.
pub open spec fn page_place(page: Seq<char>) -> u32 {
    if page == "dividends"@ {
        1
    } else if page == "search"@ {
        2
    } else if page == "watchlist"@ {
        3
    } else if page == "accounts"@ {
        4
    } else {
        0
    }
}

pub fn page_index(page: &str) -> (r: u32)
    ensures
        r == page_place(page@),
{
    if text::same_text(page, "dividends") {
        1
    } else if text::same_text(page, "search") {
        2
    } else if text::same_text(page, "watchlist") {
        3
    } else if text::same_text(page, "accounts") {
        4
    } else {
        0
    }
}

/// How a page comes in.
#[derive(Clone, Copy, PartialEq, Eq, Structural)]
pub enum Slide {
    Left,
    Right,
    Up,
    Down,
}

/// Pages lie side by side on a small screen and one under the other on a large one; a
/// page slides in from its side.
pub open spec fn slide_to(old_place: u32, new_place: u32, mobile: bool) -> Option<Slide> {
    if new_place == old_place {
        None
    } else if mobile {
        if new_place > old_place {
            Some(Slide::Left)
        } else {
            Some(Slide::Right)
        }
    } else if new_place > old_place {
        Some(Slide::Up)
    } else {
        Some(Slide::Down)
    }
}

pub open spec fn opposite(slide: Slide) -> Slide {
    match slide {
        Slide::Left => Slide::Right,
        Slide::Right => Slide::Left,
        Slide::Up => Slide::Down,
        Slide::Down => Slide::Up,
    }
}

/// Going back moves the other way.
pub proof fn way_back_is_opposite(a: u32, b: u32, mobile: bool)
    ensures
        match (slide_to(a, b, mobile), slide_to(b, a, mobile)) {
            (Some(there), Some(back)) => back == opposite(there),
            (None, None) => a == b,
            _ => false,
        },
{
}

/// The page that is shown.
pub struct PageState {
    pub place: u32,
    pub page: String,
    /// The number of the newest visit of a page.
    pub visits: refresh::Requests,
}

/// What a visit of a page does.
pub struct PageVisit {
    pub slide: Option<Slide>,
    /// The number under which the page is brought up to date once it has come in.
    pub visit: u64,
}

impl PageState {
    /// A page is shown; without a name it is the overview.
    pub fn visit(&mut self, name: Option<&str>, mobile: bool) -> (r: PageVisit)
        ensures
            final(self).page@ == match name {
                Some(page) => page@,
                None => "overview"@,
            },
            final(self).place == page_place(final(self).page@),
            r.slide == slide_to(old(self).place, final(self).place, mobile),
            r.visit == refresh::next_number(old(self).visits.generation),
            final(self).visits.generation == r.visit,
    {
        let page = match name {
            Some(page) => page.to_owned(),
            None => "overview".to_owned(),
        };
        let place: u32 = page_index(page.as_str());
        let slide = if place == self.place {
            None
        } else if mobile {
            if place > self.place {
                Some(Slide::Left)
            } else {
                Some(Slide::Right)
            }
        } else if place > self.place {
            Some(Slide::Up)
        } else {
            Some(Slide::Down)
        };
        let number: u64 = self.visits.start();
        self.place = place;
        self.page = page;
        PageVisit { slide, visit: number }
    }
}

/// Pages whose data is looked at once, when they are first shown.
pub struct FirstVisits {
    pub dividends_checked: bool,
    pub watchlist_checked: bool,
}

#[derive(Clone, Copy, PartialEq, Eq, Structural)]
pub enum FirstCheck {
    Dividends,
    Watchlist,
    Nothing,
}

impl FirstVisits {
    pub fn visit(&mut self, page: &str) -> (r: FirstCheck)
        ensures
            r == if page@ == "dividends"@ && !old(self).dividends_checked {
                FirstCheck::Dividends
            } else if page@ == "watchlist"@ && !old(self).watchlist_checked {
                FirstCheck::Watchlist
            } else {
                FirstCheck::Nothing
            },
            final(self).dividends_checked == (old(self).dividends_checked || page@
                == "dividends"@),
            final(self).watchlist_checked == (old(self).watchlist_checked || page@
                == "watchlist"@),
    {
        proof {
            reveal_strlit("dividends");
            reveal_strlit("watchlist");
            assert("dividends"@[0] == 'd' && "watchlist"@[0] == 'w');
        }
        if text::same_text(page, "dividends") {
            if !self.dividends_checked {
                self.dividends_checked = true;
                return FirstCheck::Dividends;
            }
        } else if text::same_text(page, "watchlist") {
            if !self.watchlist_checked {
                self.watchlist_checked = true;
                return FirstCheck::Watchlist;
            }
        }
        FirstCheck::Nothing
    }
}

/// The name of a row: what it shows, and the id of that.
pub open spec fn row_name(prefix: Seq<char>, id: int) -> Seq<char> {
    prefix + numbers::integer_text(id)
}

pub fn row_key(prefix: &str, id: i64) -> (r: String)
    ensures
        r@ == row_name(prefix@, id as int),
{
    let mut r = prefix.to_owned();
    r.append(numbers::print_integer(id).as_str());
    r
}

/// The id in the name of a row that begins as given.
pub open spec fn row_id(key: Seq<char>, prefix: Seq<char>) -> Option<int> {
    if text::begins_with(key, prefix) {
        numbers::denoted_within(
            key.skip(prefix.len() as int),
            true,
            i64::MIN as int,
            i64::MAX as int,
        )
    } else {
        None
    }
}

fn read_row_id(key: &str, prefix: &str) -> (r: Option<i64>)
    ensures
        match r {
            Some(id) => row_id(key@, prefix@) == Some(id as int),
            None => row_id(key@, prefix@) is None,
        },
{
    match text::strip_front(key, prefix) {
        Some(rest) => numbers::parse_integer(rest.as_str(), true),
        None => None,
    }
}

/// The name of a row gives back the id that it was made from.
pub proof fn row_names_read_back(prefix: Seq<char>, id: i64)
    ensures
        row_id(row_name(prefix, id as int), prefix) == Some(id as int),
{
    let key = row_name(prefix, id as int);
    assert(key.subrange(0, prefix.len() as int) =~= prefix);
    assert(key.skip(prefix.len() as int) =~= numbers::integer_text(id as int));
    numbers::printed_integer_reads_back(id as int);
}

/// What a row of the overview opens.
#[derive(Clone, Copy, PartialEq, Eq, Structural)]
pub enum OverviewRow {
    Position(i64),
    Cash(i64),
    Nothing,
}

pub open spec fn overview_target(key: Seq<char>) -> OverviewRow {
    match row_id(key, "position-"@) {
        Some(id) => OverviewRow::Position(id as i64),
        None => match row_id(key, "cash-"@) {
            Some(id) => OverviewRow::Cash(id as i64),
            None => OverviewRow::Nothing,
        },
    }
}

pub fn overview_row(key: &str) -> (r: OverviewRow)
    ensures
        r == overview_target(key@),
{
    match read_row_id(key, "position-") {
        Some(id) => OverviewRow::Position(id),
        None => match read_row_id(key, "cash-") {
            Some(id) => OverviewRow::Cash(id),
            None => OverviewRow::Nothing,
        },
    }
}

/// The account that a row of the accounts page opens.
pub fn account_row(key: &str) -> (r: Option<i64>)
    ensures
        match r {
            Some(id) => row_id(key@, "account-"@) == Some(id as int),
            None => row_id(key@, "account-"@) is None,
        },
{
    read_row_id(key, "account-")
}

/// The item of a list that a row opens.
pub fn list_row(index: i32, count: usize) -> (r: Option<usize>)
    ensures
        r == {
            let at = if index < 0 {
                0int
            } else {
                index as int
            };
            if at < count {
                Some(at as usize)
            } else {
                None
            }
        },
{
    let at: usize = if index < 0 {
        0
    } else {
        index as usize
    };
    if at < count {
        Some(at)
    } else {
        None
    }
}

/// The id that came with an action.
pub fn variant_id(value: Option<&str>) -> (r: Option<i64>)
    ensures
        match r {
            Some(id) => value is Some && numbers::denoted_within(
                value->0@,
                true,
                i64::MIN as int,
                i64::MAX as int,
            ) == Some(id as int),
            None => value is None || numbers::denoted_within(
                value->0@,
                true,
                i64::MIN as int,
                i64::MAX as int,
            ) is None,
        },
{
    match value {
        Some(value) => numbers::parse_integer(value, true),
        None => None,
    }
}

/// The pages of the window have names of their own.
pub(crate) proof fn pages_by_name()
    ensures
        "overview"@ != "accounts"@,
        "overview"@ != "dividends"@,
        "overview"@ != "search"@,
        "overview"@ != "watchlist"@,
        "accounts"@ != "dividends"@,
        "accounts"@ != "search"@,
        "accounts"@ != "watchlist"@,
        "dividends"@ != "search"@,
        "dividends"@ != "watchlist"@,
        "search"@ != "watchlist"@,
{
    reveal_strlit("overview");
    reveal_strlit("accounts");
    reveal_strlit("dividends");
    reveal_strlit("search");
    reveal_strlit("watchlist");
    assert("overview"@[0] == 'o' && "accounts"@[0] == 'a');
    assert("dividends"@[0] == 'd' && "watchlist"@[0] == 'w' && "search"@[0] == 's');
}

/// The pages follow one another as overview, dividends, search, watchlist and accounts.
pub proof fn pages_have_their_order()
    ensures
        page_place("overview"@) < page_place("dividends"@),
        page_place("dividends"@) < page_place("search"@),
        page_place("search"@) < page_place("watchlist"@),
        page_place("watchlist"@) < page_place("accounts"@),
        forall|page: Seq<char>|
            page != "dividends"@ && page != "search"@ && page != "watchlist"@ && page != "accounts"@
                ==> #[trigger] page_place(page) == page_place("overview"@),
{
    pages_by_name();
}

/// A later page comes in from the right on a narrow window and from below on a wide one; an
/// earlier page comes the other way, and the same page does not move.
pub proof fn later_pages_come_from_the_end(a: u32, b: u32)
    requires
        a < b,
    ensures
        slide_to(a, b, true) == Some(Slide::Left),
        slide_to(b, a, true) == Some(Slide::Right),
        slide_to(a, b, false) == Some(Slide::Up),
        slide_to(b, a, false) == Some(Slide::Down),
        slide_to(a, a, true) is None,
        slide_to(a, a, false) is None,
{
}

/// A row of the overview leads to the position or the cash that it is named after, and a row
/// with another name leads nowhere.
pub proof fn overview_rows_lead_to_their_records(id: i64, key: Seq<char>)
    ensures
        overview_target("position-"@ + numbers::integer_text(id as int)) == OverviewRow::Position(
            id,
        ),
        overview_target("cash-"@ + numbers::integer_text(id as int)) == OverviewRow::Cash(id),
        !text::stands_at(key, "position-"@, 0) && !text::stands_at(key, "cash-"@, 0)
            ==> overview_target(key) == OverviewRow::Nothing,
{
    let number = numbers::integer_text(id as int);
    reveal_strlit("position-");
    reveal_strlit("cash-");
    let a = "position-"@ + number;
    let b = "cash-"@ + number;
    numbers::printed_integer_reads_back(id as int);
    assert(a.subrange(0, 9) =~= "position-"@);
    assert(a.skip(9) =~= number);
    assert(b.subrange(0, 5) =~= "cash-"@);
    assert(b.skip(5) =~= number);
    assert(b[0] == 'c' && "position-"@[0] == 'p');
    assert(!text::stands_at(b, "position-"@, 0)) by {
        if text::stands_at(b, "position-"@, 0) {
            assert(b.subrange(0, 9)[0] == b[0]);
        }
    }
}

} // verus!
