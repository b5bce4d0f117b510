//! What the pages show, and the lines of their rows.

use vstd::prelude::*;
use crate::charts;
use crate::model::{Account, AmountSign, Position};
use crate::rates;
use crate::rates::Conversion;
use crate::text;
use crate::wording;

verus! {

/// Which side of each page is shown.
pub struct PageSides {
    /// The portfolio, in place of the invitation to begin one.
    pub portfolio: bool,
    pub accounts: bool,
    pub watchlist: bool,
}

pub fn page_sides(
    positions: usize,
    transactions: usize,
    has_cash: bool,
    accounts: usize,
    watchlist: usize,
) -> (r: PageSides)
    ensures
        r.portfolio == (positions > 0 || transactions > 0 || has_cash),
        r.accounts == (accounts > 0),
        r.watchlist == (watchlist > 0),
{
    PageSides {
        portfolio: positions > 0 || transactions > 0 || has_cash,
        accounts: accounts > 0,
        watchlist: watchlist > 0,
    }
}

/// The page whose rows are built anew: the visible one alone.
#[derive(Clone, Copy, PartialEq, Eq, Structural)]
pub enum Rebuild {
    Overview,
    Accounts,
    Watchlist,
    Dividends,
    Nothing,
}

pub open spec fn rebuild_of(page: Seq<char>) -> Rebuild {
    if page == "overview"@ {
        Rebuild::Overview
    } else if page == "accounts"@ {
        Rebuild::Accounts
    } else if page == "watchlist"@ {
        Rebuild::Watchlist
    } else if page == "dividends"@ {
        Rebuild::Dividends
    } else {
        Rebuild::Nothing
    }
}

pub fn page_to_rebuild(page: &str) -> (r: Rebuild)
    ensures
        r == rebuild_of(page@),
{
    if text::same_text(page, "overview") {
        Rebuild::Overview
    } else if text::same_text(page, "accounts") {
        Rebuild::Accounts
    } else if text::same_text(page, "watchlist") {
        Rebuild::Watchlist
    } else if text::same_text(page, "dividends") {
        Rebuild::Dividends
    } else {
        Rebuild::Nothing
    }
}

/// The line under the total. `market_status` is the line about prices.
pub open spec fn portfolio_note(
    has_positions: bool,
    has_cash: bool,
    has_transactions: bool,
    market_status: Seq<char>,
) -> Seq<char> {
    if has_positions {
        market_status
    } else if has_cash {
        "Cash balance"@
    } else if has_transactions {
        "No current holdings"@
    } else {
        "No holdings yet"@
    }
}

pub fn quote_note(
    has_positions: bool,
    has_cash: bool,
    has_transactions: bool,
    market_status: &str,
) -> (r: String)
    ensures
        r@ == portfolio_note(has_positions, has_cash, has_transactions, market_status@),
{
    if has_positions {
        market_status.to_owned()
    } else if has_cash {
        "Cash balance".to_owned()
    } else if has_transactions {
        "No current holdings".to_owned()
    } else {
        "No holdings yet".to_owned()
    }
}

/// The style class of a gain or a loss; none for neither.
pub open spec fn sign_class(sign: AmountSign) -> Option<Seq<char>> {
    match sign {
        AmountSign::Positive => Some("success"@),
        AmountSign::Negative => Some("error"@),
        _ => None,
    }
}

pub fn gain_class(sign: AmountSign) -> (r: Option<&'static str>)
    ensures
        charts::label_view(r) == sign_class(sign),
{
    match sign {
        AmountSign::Positive => Some("success"),
        AmountSign::Negative => Some("error"),
        _ => None,
    }
}

/// The line under a holding. `shares` is its number of shares with the word for them.
pub fn position_subtitle(position: &Position, shares: &str) -> (r: String)
    ensures
        r@ == position.name@ + " · "@ + wording::exchange_text(position.exchange@) + " · "@
            + shares@ + " · "@ + position.account_name@,
{
    let mut r = position.name.clone();
    r.append(" · ");
    r.append(wording::friendly_exchange(position.exchange.as_str()));
    r.append(" · ");
    r.append(shares);
    r.append(" · ");
    r.append(position.account_name.as_str());
    r
}

/// A holding's value in its own currency is shown beside the one in the base currency
/// where the two differ.
pub fn shows_native_value(position: &Position, base: &str, has_value: bool) -> (r: bool)
    ensures
        r == (position.currency@ != base@ && has_value),
{
    !text::same_text(position.currency.as_str(), base) && has_value
}

/// The line under the cash of an account. `native` is the balance in its own currency.
pub open spec fn cash_line(account: Account, base: Seq<char>, native: Seq<char>) -> Seq<char> {
    let line = account.name@ + " · "@ + account.currency@;
    if account.currency@ != base {
        line + (" · "@ + native + " native"@)
    } else {
        line
    }
}

pub fn cash_subtitle(account: &Account, base: &str, native: &str) -> (r: String)
    ensures
        r@ == cash_line(*account, base@, native@),
{
    let mut r = account.name.clone();
    r.append(" · ");
    r.append(account.currency.as_str());
    if !text::same_text(account.currency.as_str(), base) {
        let mut t = " · ".to_owned();
        t.append(native);
        t.append(" native");
        r.append(t.as_str());
    }
    r
}

/// The line under an account. `cash` is its balance.
pub fn account_subtitle(account: &Account, cash: &str, holdings: usize) -> (r: String)
    ensures
        r@ == account.currency@ + " · "@ + cash@ + " cash · "@ + (if holdings == 1 {
            "1 holding"@
        } else {
            crate::numbers::natural_text(holdings as nat) + " holdings"@
        }),
{
    let mut r = account.currency.clone();
    r.append(" · ");
    r.append(cash);
    r.append(" cash · ");
    r.append(wording::holding_count_text(holdings).as_str());
    r
}

/// The gain from a holding, on its row. The texts are the signed gain and the signed
/// percentage.
pub open spec fn gain_line_of(gain: Option<Seq<char>>, percent: Seq<char>) -> Seq<char> {
    match gain {
        Some(amount) => amount + " ("@ + percent + "%) total"@,
        None => "Total return unavailable"@,
    }
}

pub fn gain_line(gain: Option<&str>, percent: &str) -> (r: String)
    ensures
        r@ == gain_line_of(charts::label_view(gain), percent@),
{
    match gain {
        Some(amount) => {
            let mut r = amount.to_owned();
            r.append(" (");
            r.append(percent);
            r.append("%) total");
            r
        },
        None => "Total return unavailable".to_owned(),
    }
}

/// The value of a holding in its own currency, on its row.
pub fn native_line(value: &str) -> (r: String)
    ensures
        r@ == value@ + " native"@,
{
    let mut r = value.to_owned();
    r.append(" native");
    r
}

/// The holdings of an account.
pub open spec fn in_account(positions: Seq<Position>, account_id: int) -> spec_fn(int) -> bool {
    |i: int| positions[i].account_id == account_id
}

#[verifier::loop_isolation(false)]
pub fn account_positions(positions: &[Position], account_id: i64) -> (r: Vec<usize>)
    ensures
        r@ == crate::order::selection(
            positions@.len() as int,
            in_account(positions@, account_id as int),
        ),
{
    let mut keep: Vec<bool> = Vec::new();
    let mut i: usize = 0;
    while i < positions.len()
        invariant
            i <= positions@.len(),
            keep@.len() == i,
            forall|k: int|
                0 <= k < i ==> #[trigger] keep@[k] == in_account(positions@, account_id as int)(k),
        decreases positions@.len() - i,
    {
        keep.push(positions[i].account_id == account_id);
        i += 1;
    }
    let r = crate::order::select(&keep);
    proof {
        crate::order::is_selection(
            r@,
            positions@.len() as int,
            |i: int| keep@[i],
            in_account(positions@, account_id as int),
        );
    }
    r
}

pub open spec fn with_cash(accounts: Seq<Account>) -> spec_fn(int) -> bool {
    |i: int| accounts[i].holds_cash
}

/// The accounts whose cash stands among the holdings. Every holding stands there as well.
#[verifier::loop_isolation(false)]
pub fn cash_rows(accounts: &[Account]) -> (r: Vec<usize>)
    ensures
        r@ == crate::order::selection(accounts@.len() as int, with_cash(accounts@)),
{
    let mut keep: Vec<bool> = Vec::new();
    let mut i: usize = 0;
    while i < accounts.len()
        invariant
            i <= accounts@.len(),
            keep@.len() == i,
            forall|k: int| 0 <= k < i ==> #[trigger] keep@[k] == with_cash(accounts@)(k),
        decreases accounts@.len() - i,
    {
        keep.push(accounts[i].holds_cash);
        i += 1;
    }
    let r = crate::order::select(&keep);
    proof {
        crate::order::is_selection(
            r@,
            accounts@.len() as int,
            |i: int| keep@[i],
            with_cash(accounts@),
        );
    }
    r
}

/// How the market value of a holding is converted by the current rate; nothing where it
/// has no price.
pub open spec fn holding_conversion(
    position: Position,
    base: Seq<char>,
    current: Option<bool>,
) -> Option<Conversion> {
    if position.priced {
        rates::current_conversion(position.currency@, base, current)
    } else {
        None
    }
}

pub open spec fn holding_parts(
    positions: Seq<Position>,
    places: Seq<usize>,
    base: Seq<char>,
    current: Option<bool>,
) -> Seq<Option<Conversion>> {
    Seq::new(
        places.len(),
        |k: int| holding_conversion(positions[places[k] as int], base, current),
    )
}

/// What the value of an account is made of: the conversions of its holdings, and that of
/// its cash.
pub struct AccountValue {
    pub holdings: Vec<Conversion>,
    pub cash: Conversion,
}

/// Finds what the value of an account is made of. It is unknown as soon as one holding has
/// no market value, or one holding or the cash cannot be converted.
pub fn value_account(
    account: &Account,
    positions: &[Position],
    base: &str,
    current: Option<bool>,
) -> (r: Option<AccountValue>)
    ensures
        r is Some <==> (forall|i: int|
            0 <= i < positions@.len() && (#[trigger] positions@[i]).account_id == account.id
                ==> holding_conversion(positions@[i], base@, current) is Some)
            && rates::current_conversion(account.currency@, base@, current) is Some,
        r matches Some(value) ==> rates::are_whole(
            Some(value.holdings@),
            holding_parts(
                positions@,
                crate::order::selection(
                    positions@.len() as int,
                    in_account(positions@, account.id as int),
                ),
                base@,
                current,
            ),
        ),
        r matches Some(value) ==> rates::current_conversion(account.currency@, base@, current)
            == Some(value.cash),
{
    let count: usize = positions.len();
    let places = account_positions(positions, account.id);
    let ghost whole = holding_parts(positions@, places@, base@, current);
    proof {
        assert(count == positions@.len());
        crate::order::every_selection_exists(
            positions@.len() as int,
            in_account(positions@, account.id as int),
        );
    }
    let mut known: Vec<bool> = Vec::new();
    let mut currencies: Vec<String> = Vec::new();
    let mut k: usize = 0;
    while k < places.len()
        invariant
            k <= places@.len(),
            known@.len() == k,
            currencies@.len() == k,
            forall|p: int| 0 <= p < places@.len() ==> #[trigger] places@[p] < positions@.len(),
            forall|p: int|
                0 <= p < k ==> #[trigger] known@[p] == positions@[places@[p] as int].priced,
            forall|p: int|
                0 <= p < k ==> (#[trigger] currencies@[p])@ == positions@[places@[p] as int].currency@,
        decreases places@.len() - k,
    {
        let position = &positions[places[k]];
        known.push(position.priced);
        currencies.push(position.currency.as_str().to_owned());
        k += 1;
    }
    let holdings = rates::sum_optional_converted(&known, &currencies, base, current);
    let cash = rates::report_convert_at(account.currency.as_str(), base, None, 0, current);
    proof {
        assert(rates::current_parts(known@, currencies@, base@, current) =~= whole);
        assert forall|i: int|
            0 <= i < positions@.len() && (#[trigger] positions@[i]).account_id == account.id
                && holdings is Some implies holding_conversion(
            positions@[i],
            base@,
            current,
        ) is Some by {
            assert(in_account(positions@, account.id as int)(i));
            assert(places@.contains(i as usize));
            let p = choose|p: int| 0 <= p < places@.len() && places@[p] == i;
            assert(whole[p] == holding_conversion(positions@[i], base@, current));
        }
        if holdings is None {
            let p = choose|p: int| 0 <= p < whole.len() && (#[trigger] whole[p]) is None;
            assert(in_account(positions@, account.id as int)(places@[p] as int));
            assert(positions@[places@[p] as int].account_id == account.id);
        }
    }
    match (holdings, cash) {
        (Some(holdings), Some(cash)) => Some(AccountValue { holdings, cash }),
        _ => None,
    }
}

/// What the totals of the portfolio are made of, where each of them is known.
pub struct PortfolioTotals {
    pub market: Option<Vec<Conversion>>,
    pub basis: Option<Vec<Conversion>>,
    pub cash: Option<Vec<Conversion>>,
}

impl PortfolioTotals {
    /// The value of the portfolio is known where that of its holdings and its cash is.
    pub fn value_is_known(&self) -> (r: bool)
        ensures
            r == (self.market is Some && self.cash is Some),
    {
        self.market.is_some() && self.cash.is_some()
    }

    /// The gain is known where the value of the holdings and their cost is.
    pub fn gain_is_known(&self) -> (r: bool)
        ensures
            r == (self.market is Some && self.basis is Some),
    {
        self.market.is_some() && self.basis.is_some()
    }
}

/// Finds what the totals of the portfolio are made of. Each of them is unknown as soon as
/// one of its parts is: a holding without a price, or an amount that cannot be converted.
#[verifier::loop_isolation(false)]
pub fn value_portfolio(
    positions: &[Position],
    accounts: &[Account],
    base: &str,
    current: Option<bool>,
) -> (r: PortfolioTotals)
    ensures
        rates::are_whole(
            rates::list_view(r.market),
            Seq::new(
                positions@.len(),
                |i: int| holding_conversion(positions@[i], base@, current),
            ),
        ),
        rates::are_whole(
            rates::list_view(r.basis),
            Seq::new(
                positions@.len(),
                |i: int| rates::current_conversion(positions@[i].currency@, base@, current),
            ),
        ),
        rates::are_whole(
            rates::list_view(r.cash),
            Seq::new(
                accounts@.len(),
                |i: int| rates::current_conversion(accounts@[i].currency@, base@, current),
            ),
        ),
{
    let mut priced: Vec<bool> = Vec::new();
    let mut currencies: Vec<String> = Vec::new();
    let mut i: usize = 0;
    while i < positions.len()
        invariant
            i <= positions@.len(),
            priced@.len() == i,
            currencies@.len() == i,
            forall|k: int| 0 <= k < i ==> #[trigger] priced@[k] == positions@[k].priced,
            forall|k: int|
                0 <= k < i ==> (#[trigger] currencies@[k])@ == positions@[k].currency@,
        decreases positions@.len() - i,
    {
        priced.push(positions[i].priced);
        currencies.push(positions[i].currency.as_str().to_owned());
        i += 1;
    }
    let mut own: Vec<String> = Vec::new();
    let mut j: usize = 0;
    while j < accounts.len()
        invariant
            j <= accounts@.len(),
            own@.len() == j,
            forall|k: int| 0 <= k < j ==> (#[trigger] own@[k])@ == accounts@[k].currency@,
        decreases accounts@.len() - j,
    {
        own.push(accounts[j].currency.as_str().to_owned());
        j += 1;
    }
    proof {
        assert(rates::current_parts(priced@, currencies@, base@, current) =~= Seq::new(
            positions@.len(),
            |i: int| holding_conversion(positions@[i], base@, current),
        ));
        assert(Seq::new(
            currencies@.len(),
            |i: int| rates::current_conversion(currencies@[i]@, base@, current),
        ) =~= Seq::new(
            positions@.len(),
            |i: int| rates::current_conversion(positions@[i].currency@, base@, current),
        ));
        assert(Seq::new(
            own@.len(),
            |i: int| rates::current_conversion(own@[i]@, base@, current),
        ) =~= Seq::new(
            accounts@.len(),
            |i: int| rates::current_conversion(accounts@[i].currency@, base@, current),
        ));
    }
    PortfolioTotals {
        market: rates::sum_optional_converted(&priced, &currencies, base, current),
        basis: rates::sum_converted(&currencies, base, current),
        cash: rates::sum_converted(&own, base, current),
    }
}

/// A page is built anew where it shows what changed: each by its own name, and no other.
pub proof fn pages_are_rebuilt_by_name(page: Seq<char>)
    ensures
        rebuild_of(page) == Rebuild::Overview <==> page == "overview"@,
        rebuild_of(page) == Rebuild::Accounts <==> page == "accounts"@,
        rebuild_of(page) == Rebuild::Watchlist <==> page == "watchlist"@,
        rebuild_of(page) == Rebuild::Dividends <==> page == "dividends"@,
{
    crate::navigation::pages_by_name();
}

/// The note under the portfolio tells of the market where something is held, and otherwise
/// what is left: cash, former holdings or nothing.
pub proof fn note_tells_what_is_held(
    has_cash: bool,
    has_transactions: bool,
    market_status: Seq<char>,
)
    ensures
        portfolio_note(true, has_cash, has_transactions, market_status) == market_status,
        portfolio_note(false, true, has_transactions, market_status) == "Cash balance"@,
        portfolio_note(false, false, true, market_status) == "No current holdings"@,
        portfolio_note(false, false, false, market_status) == "No holdings yet"@,
{
}

/// A gain is marked as success and a loss as error; nothing else is marked.
pub proof fn gains_and_losses_are_marked(sign: AmountSign)
    ensures
        sign is Positive ==> sign_class(sign) == Some("success"@),
        sign is Negative ==> sign_class(sign) == Some("error"@),
        sign_class(sign) is Some <==> sign is Positive || sign is Negative,
{
}

/// Cash in another currency than the base shows its native amount too.
pub proof fn foreign_cash_shows_its_amount(account: Account, base: Seq<char>, native: Seq<char>)
    ensures
        account.currency@ == base ==> cash_line(account, base, native) == account.name@ + " · "@
            + base,
        account.currency@ != base ==> cash_line(account, base, native) == account.name@ + " · "@
            + account.currency@ + (" · "@ + native + " native"@),
{
}

/// A total return is shown with its share, or not at all.
pub proof fn gain_is_shown_whole_or_not(amount: Seq<char>, percent: Seq<char>)
    ensures
        gain_line_of(Some(amount), percent) == amount + " ("@ + percent + "%) total"@,
        gain_line_of(None, percent) == "Total return unavailable"@,
{
}

/// The rows of an account are its positions; the rows of cash are the accounts that hold some.
pub proof fn rows_are_of_their_account(
    positions: Seq<Position>,
    accounts: Seq<Account>,
    account_id: int,
    i: int,
    a: int,
)
    requires
        positions.len() <= usize::MAX,
        accounts.len() <= usize::MAX,
        0 <= i < positions.len(),
        0 <= a < accounts.len(),
    ensures
        crate::order::selection(positions.len() as int, in_account(positions, account_id)).contains(
            i as usize,
        ) <==> positions[i].account_id == account_id,
        crate::order::selection(accounts.len() as int, with_cash(accounts)).contains(a as usize)
            <==> accounts[a].holds_cash,
{
    crate::order::selection_lists_kept_positions(
        positions.len() as int,
        in_account(positions, account_id),
    );
    crate::order::selection_lists_kept_positions(accounts.len() as int, with_cash(accounts));
    assert(in_account(positions, account_id)(i) <==> positions[i].account_id == account_id);
    assert(with_cash(accounts)(a) <==> accounts[a].holds_cash);
}

/// A holding without a price has no value; one in the base currency needs no rate; one in
/// dollars of the other kind needs the current rate; any other has none.
pub proof fn holdings_need_price_and_rate(position: Position, base: Seq<char>, positive: bool)
    ensures
        !position.priced ==> holding_conversion(position, base, Some(positive)) is None
            && holding_conversion(position, base, None) is None,
        position.priced && text::alike(position.currency@, base) ==> holding_conversion(
            position,
            base,
            None,
        ) == Some(Conversion::Same),
        position.priced && text::alike(position.currency@, "USD"@) && text::alike(base, "CAD"@)
            ==> holding_conversion(position, base, Some(positive)) is Some && holding_conversion(
            position,
            base,
            None,
        ) is None,
        position.priced && !text::alike(position.currency@, base) && !(text::alike(
            position.currency@,
            "USD"@,
        ) && text::alike(base, "CAD"@)) && !(text::alike(position.currency@, "CAD"@) && text::alike(
            base,
            "USD"@,
        )) ==> holding_conversion(position, base, Some(positive)) is None,
{
    rates::only_dollars_are_exchanged(
        position.currency@,
        base,
        rates::Rate::Current,
        positive,
    );
    reveal_strlit("USD");
    reveal_strlit("CAD");
    if text::alike(position.currency@, "USD"@) && text::alike(base, "CAD"@) {
        text::only_case_may_differ("USD"@, "CAD"@);
        assert("USD"@[0] == 'U' && "CAD"@[0] == 'C');
    }
}

} // verus!
