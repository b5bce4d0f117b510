//! The forms of the dialogs: what they accept, and what they say against the rest.

use vstd::prelude::*;
use crate::activity_rules;
use crate::calendar;
use crate::charts;
use crate::ledger::ShareStep;
use crate::model::{
    Account, AmountSign, Position, SearchResult, SplitEvent, Transaction, WatchlistItem,
};
use crate::numbers;
use crate::order;
use crate::settings;
use crate::text;

verus! {

/// An account to be made.
pub struct NewAccount {
    pub name: String,
    pub currency: String,
}

pub open spec fn account_form_fault(name: Seq<char>, currency_index: int) -> Option<Seq<char>> {
    if text::nothing_but_blanks(name) {
        Some("Enter an account name"@)
    } else if currency_index > 1 {
        Some("Choose CAD or USD"@)
    } else {
        None
    }
}

/// Reads the form of a new account.
pub fn new_account(name: &str, currency_index: u32) -> (r: Result<NewAccount, &'static str>)
    ensures
        match r {
            Ok(account) => {
                &&& account_form_fault(name@, currency_index as int) is None
                &&& account.name@ == text::trimmed(name@)
                &&& account.currency@ == settings::currency_choice(currency_index as int)
            },
            Err(message) => account_form_fault(name@, currency_index as int) == Some(message@),
        },
{
    if text::is_only_blank(name) {
        return Err("Enter an account name");
    }
    if currency_index > 1 {
        return Err("Choose CAD or USD");
    }
    Ok(
        NewAccount {
            name: text::trim(name),
            currency: settings::currency_at(currency_index).to_owned(),
        },
    )
}

/// The button of the first form is usable.
pub fn sync_setup_create_button(name: &str, currency_index: u32) -> (r: bool)
    ensures
        r == (account_form_fault(name@, currency_index as int) is None),
{
    !text::is_only_blank(name) && currency_index <= 1
}

/// Reads the form in which an account is changed.
pub fn edited_account(name: &str, currency_index: u32) -> (r: Result<NewAccount, &'static str>)
    ensures
        match r {
            Ok(account) => {
                &&& !text::nothing_but_blanks(name@)
                &&& account.name@ == text::trimmed(name@)
                &&& account.currency@ == settings::currency_choice(currency_index as int)
            },
            Err(message) => text::nothing_but_blanks(name@) && message@
                == "Enter an account name"@,
        },
{
    if text::is_only_blank(name) {
        return Err("Enter an account name");
    }
    Ok(
        NewAccount {
            name: text::trim(name),
            currency: settings::currency_at(currency_index).to_owned(),
        },
    )
}

pub open spec fn in_future(date: Seq<char>, today: Seq<char>) -> bool {
    match (calendar::read_timestamp(date), calendar::read_timestamp(today)) {
        (Some(date), Some(now)) => date > now,
        _ => false,
    }
}

/// What stands against a date: it cannot be read, or it lies ahead.
pub open spec fn date_fault(date: Seq<char>, today: Seq<char>, ahead: Seq<char>) -> Option<Seq<char>> {
    if calendar::read_timestamp(date) is None {
        Some("Choose a valid date"@)
    } else if in_future(date, today) {
        Some(ahead)
    } else {
        None
    }
}

fn checked_date(date: &str, today: &str, ahead: &'static str) -> (r: Result<i64, &'static str>)
    ensures
        match r {
            Ok(timestamp) => date_fault(date@, today@, ahead@) is None && calendar::read_timestamp(
                date@,
            ) == Some(timestamp as int),
            Err(message) => date_fault(date@, today@, ahead@) == Some(message@),
        },
{
    match calendar::activity_timestamp(date) {
        Err(_) => Err("Choose a valid date"),
        Ok(timestamp) => if calendar::date_is_future(date, today) {
            Err(ahead)
        } else {
            Ok(timestamp)
        },
    }
}

pub open spec fn cash_form_fault(positive: bool, date: Seq<char>, today: Seq<char>) -> Option<Seq<char>> {
    if !positive {
        Some("Cash amount must be greater than zero"@)
    } else {
        date_fault(date, today, "Cash date cannot be in the future"@)
    }
}

/// Reads the form in which cash is added, withdrawn or changed. `positive` says that the
/// amount is a number above zero. Gives the time of the movement.
pub fn cash_form(positive: bool, date: &str, today: &str) -> (r: Result<i64, &'static str>)
    ensures
        match r {
            Ok(timestamp) => cash_form_fault(positive, date@, today@) is None
                && calendar::read_timestamp(date@) == Some(timestamp as int),
            Err(message) => cash_form_fault(positive, date@, today@) == Some(message@),
        },
{
    if !positive {
        return Err("Cash amount must be greater than zero");
    }
    checked_date(date, today, "Cash date cannot be in the future")
}

/// The entry of the selector between deposits and withdrawals that a movement shows.
pub fn cash_kind_index(sign: AmountSign) -> (r: u32)
    ensures
        r == cash_entry_place(sign),
{
    match sign {
        AmountSign::Negative => 1,
        _ => 0,
    }
}

pub open spec fn cash_entry_place(sign: AmountSign) -> u32 {
    if sign is Negative {
        1
    } else {
        0
    }
}

/// Whether an amount goes out under an entry of the selector between deposits and
/// withdrawals.
pub fn takes_cash_out(kind_index: u32) -> (r: bool)
    ensures
        r == goes_out(kind_index),
{
    kind_index == 1
}

pub open spec fn goes_out(kind_index: u32) -> bool {
    kind_index == 1
}

/// A movement that is saved as it was shown keeps its direction.
pub proof fn shown_direction_is_kept(sign: AmountSign)
    ensures
        goes_out(cash_entry_place(sign)) <==> sign is Negative,
{
}

/// The currency of an account is fixed once there is cash or activity in it.
pub fn currency_is_fixed(cash_entries: i64, transactions: i64) -> (r: bool)
    ensures
        r == (cash_entries > 0 || transactions > 0),
{
    cash_entries > 0 || transactions > 0
}

/// The accounts other than the one a transfer comes from.
pub open spec fn is_another(accounts: Seq<Account>, from: int) -> spec_fn(int) -> bool {
    |i: int| accounts[i].id != from
}

/// Where a transfer can go. It is refused where there is no other account.
#[verifier::loop_isolation(false)]
pub fn transfer_destinations(accounts: &[Account], from: i64) -> (r: Result<
    Vec<usize>,
    &'static str,
>)
    ensures
        match r {
            Ok(places) => places@ == order::selection(
                accounts@.len() as int,
                is_another(accounts@, from as int),
            ) && places@.len() > 0,
            Err(message) => message@ == "Create another account before transferring"@ && forall|
                i: int,
            |
                0 <= i < accounts@.len() ==> (#[trigger] accounts@[i]).id == from,
        },
{
    let mut keep: Vec<bool> = Vec::new();
    let mut i: usize = 0;
    while i < accounts.len()
        invariant
            i <= accounts@.len(),
            keep@.len() == i,
            forall|k: int|
                0 <= k < i ==> #[trigger] keep@[k] == is_another(accounts@, from as int)(k),
        decreases accounts@.len() - i,
    {
        keep.push(accounts[i].id != from);
        i += 1;
    }
    let places = order::select(&keep);
    proof {
        order::is_selection(
            places@,
            accounts@.len() as int,
            |i: int| keep@[i],
            is_another(accounts@, from as int),
        );
    }
    if places.len() == 0 {
        proof {
            assert forall|i: int| 0 <= i < accounts@.len() implies (#[trigger] accounts@[i]).id
                == from by {
                if accounts@[i].id != from {
                    assert(is_another(accounts@, from as int)(i as usize as int));
                    assert(places@.contains(i as usize));
                }
            }
        }
        return Err("Create another account before transferring");
    }
    Ok(places)
}

/// A transfer never goes to the account it comes from, and every other account can be
/// chosen.
pub proof fn destinations_are_the_others(accounts: Seq<Account>, from: int, i: usize)
    requires
        accounts.len() <= usize::MAX,
        i < accounts.len(),
    ensures
        order::selection(accounts.len() as int, is_another(accounts, from)).contains(i)
            <==> accounts[i as int].id != from,
{
    let places = order::selection(accounts.len() as int, is_another(accounts, from));
    order::every_selection_exists(accounts.len() as int, is_another(accounts, from));
    if accounts[i as int].id != from {
        assert(is_another(accounts, from)(i as int));
    }
    if places.contains(i) {
        let a = choose|a: int| 0 <= a < places.len() && places[a] == i;
        assert(is_another(accounts, from)(places[a] as int));
    }
}

/// What is transferred, and where to.
#[derive(Clone, Copy, PartialEq, Eq, Structural)]
pub enum TransferRequest {
    Cash { destination: usize, timestamp: i64 },
    Holding { destination: usize, position: usize, timestamp: i64 },
}

/// The form of a transfer.
pub struct TransferForm<'a> {
    pub destinations: usize,
    pub destination: usize,
    pub date: &'a str,
    pub today: &'a str,
    /// The first entry of the selector stands for cash.
    pub kind: u32,
    /// The amount is a number above zero.
    pub positive: bool,
    pub positions: usize,
    pub position: usize,
    /// The number of shares is a number above zero.
    pub shares_valid: bool,
}

pub open spec fn transfer_fault(f: TransferForm) -> Option<Seq<char>> {
    if f.destination >= f.destinations {
        Some("Choose a destination account"@)
    } else {
        match date_fault(f.date@, f.today@, "Transfer date cannot be in the future"@) {
            Some(fault) => Some(fault),
            None => if f.kind == 0 {
                if f.positive {
                    None
                } else {
                    Some("Transfer amount must be greater than zero"@)
                }
            } else if f.positions == 0 {
                Some("This account has no holdings to transfer"@)
            } else if f.position >= f.positions {
                Some("Choose a holding"@)
            } else if !f.shares_valid {
                Some("Enter a valid number of shares"@)
            } else {
                None
            },
        }
    }
}

/// Reads the form of a transfer.
pub fn transfer_form(form: &TransferForm) -> (r: Result<TransferRequest, &'static str>)
    ensures
        match r {
            Err(message) => transfer_fault(*form) == Some(message@),
            Ok(TransferRequest::Cash { destination, timestamp }) => transfer_fault(*form) is None
                && form.kind == 0 && destination == form.destination && calendar::read_timestamp(
                form.date@,
            ) == Some(timestamp as int),
            Ok(TransferRequest::Holding { destination, position, timestamp }) => transfer_fault(
                *form,
            ) is None && form.kind != 0 && destination == form.destination && position
                == form.position && calendar::read_timestamp(form.date@) == Some(timestamp as int),
        },
{
    if form.destination >= form.destinations {
        return Err("Choose a destination account");
    }
    let timestamp: i64 = match checked_date(
        form.date,
        form.today,
        "Transfer date cannot be in the future",
    ) {
        Ok(timestamp) => timestamp,
        Err(message) => {
            return Err(message);
        },
    };
    if form.kind == 0 {
        if !form.positive {
            return Err("Transfer amount must be greater than zero");
        }
        Ok(TransferRequest::Cash { destination: form.destination, timestamp })
    } else if form.positions == 0 {
        Err("This account has no holdings to transfer")
    } else if form.position >= form.positions {
        Err("Choose a holding")
    } else if !form.shares_valid {
        Err("Enter a valid number of shares")
    } else {
        Ok(
            TransferRequest::Holding {
                destination: form.destination,
                position: form.position,
                timestamp,
            },
        )
    }
}

/// The place of an account in a list, or the first place.
pub open spec fn place_of(ids: Seq<i64>, id: Option<i64>, place: int) -> bool {
    match id {
        Some(id) if ids.contains(id) => 0 <= place < ids.len() && ids[place] == id && forall|k: int|
            0 <= k < place ==> ids[k] != id,
        _ => place == 0,
    }
}

/// The account that a form begins with: the one it was opened for, or else the one last
/// used; the first one where that is not there.
#[verifier::loop_isolation(false)]
pub fn initial_account(ids: &Vec<i64>, preferred: Option<i64>, last_used: Option<&str>) -> (r: usize)
    ensures
        place_of(
            ids@,
            match preferred {
                Some(id) => Some(id),
                None => match last_used {
                    Some(value) => match numbers::denoted_within(
                        value@,
                        true,
                        i64::MIN as int,
                        i64::MAX as int,
                    ) {
                        Some(id) => Some(id as i64),
                        None => None,
                    },
                    None => None,
                },
            },
            r as int,
        ),
{
    let wanted: Option<i64> = match preferred {
        Some(id) => Some(id),
        None => match last_used {
            Some(value) => numbers::parse_integer(value, true),
            None => None,
        },
    };
    match wanted {
        None => 0,
        Some(id) => {
            let mut k: usize = 0;
            while k < ids.len()
                invariant
                    k <= ids@.len(),
                    forall|q: int| 0 <= q < k ==> ids@[q] != id,
                decreases ids@.len() - k,
            {
                if ids[k] == id {
                    assert(ids@.contains(id));
                    return k;
                }
                k += 1;
            }
            0
        },
    }
}

/// The switch that settles a trade against the cash of its account.
pub enum SettlementRow {
    Hidden,
    Shown { title: &'static str, usable: bool, subtitle: String },
}

pub open spec fn settlement_title(kind: Seq<char>) -> Seq<char> {
    if kind == "SELL"@ {
        "Add Proceeds to Account Cash"@
    } else {
        "Use Account Cash"@
    }
}

/// The switch, and the line under it, for a trade; nothing where it is hidden. `cash` is
/// the balance of the account as text.
pub open spec fn settlement(
    account: Option<Account>,
    kind: Seq<char>,
    asset_currency: Option<Seq<char>>,
    cash: Seq<char>,
) -> Option<(bool, Seq<char>)> {
    match asset_currency {
        None => None,
        Some(currency) => if kind == "OPEN"@ {
            None
        } else {
            match account {
                None => Some((false, "Choose an account"@)),
                Some(account) => if text::alike(account.currency@, currency) {
                    Some((true, "Current cash: "@ + cash))
                } else {
                    Some((false, "Account cash is "@ + account.currency@))
                },
            }
        },
    }
}

pub open spec fn row_is(row: SettlementRow, kind: Seq<char>, expected: Option<(bool, Seq<char>)>) -> bool {
    match (row, expected) {
        (SettlementRow::Hidden, None) => true,
        (SettlementRow::Shown { title, usable, subtitle }, Some((can, line))) => title@
            == settlement_title(kind) && usable == can && subtitle@ == line,
        _ => false,
    }
}

pub open spec fn account_at(accounts: Seq<Account>, index: int) -> Option<Account> {
    if 0 <= index < accounts.len() {
        Some(accounts[index])
    } else {
        None
    }
}

fn title_of_settlement(kind: &str) -> (r: &'static str)
    ensures
        r@ == settlement_title(kind@),
{
    if text::same_text(kind, "SELL") {
        "Add Proceeds to Account Cash"
    } else {
        "Use Account Cash"
    }
}

pub fn update_cash_settlement_row(
    accounts: &[Account],
    account_index: u32,
    kind: &str,
    asset_currency: Option<&str>,
    cash: &str,
) -> (r: SettlementRow)
    ensures
        row_is(
            r,
            kind@,
            settlement(
                account_at(accounts@, account_index as int),
                kind@,
                charts::text_view(asset_currency),
                cash@,
            ),
        ),
{
    let currency = match asset_currency {
        Some(currency) => currency,
        None => {
            return SettlementRow::Hidden;
        },
    };
    if text::same_text(kind, "OPEN") {
        return SettlementRow::Hidden;
    }
    let title = title_of_settlement(kind);
    let index: usize = account_index as usize;
    if index >= accounts.len() {
        return SettlementRow::Shown {
            title,
            usable: false,
            subtitle: "Choose an account".to_owned(),
        };
    }
    let account = &accounts[index];
    if !text::same_letters(account.currency.as_str(), currency) {
        let mut subtitle = "Account cash is ".to_owned();
        subtitle.append(account.currency.as_str());
        return SettlementRow::Shown { title, usable: false, subtitle };
    }
    let mut subtitle = "Current cash: ".to_owned();
    subtitle.append(cash);
    SettlementRow::Shown { title, usable: true, subtitle }
}

/// What is known of a purchase that is being entered.
pub struct PurchaseFacts<'a> {
    /// The account holds more than half a cent.
    pub has_cash: bool,
    pub shares_valid: bool,
    pub price_valid: bool,
    pub fees_valid: bool,
    /// The total is a number above zero.
    pub total_valid: bool,
    /// The total is not above the balance of the account.
    pub affordable: bool,
    pub total: &'a str,
    pub cash: &'a str,
}

/// What stands against paying for a purchase from the account.
pub open spec fn purchase_fault(f: PurchaseFacts) -> Option<Seq<char>> {
    if !f.has_cash {
        Some("No account cash available"@)
    } else if !f.shares_valid {
        Some("Enter a valid number of shares"@)
    } else if !f.price_valid {
        Some("Enter a valid price"@)
    } else if !f.fees_valid {
        Some("Enter valid fees"@)
    } else if !f.total_valid {
        Some("Enter a valid purchase amount"@)
    } else if !f.affordable {
        Some("Needs "@ + f.total@ + " · available "@ + f.cash@)
    } else {
        None
    }
}

/// The switch in the form of a new activity: a purchase must be covered by the account.
pub open spec fn new_activity_settlement(
    account: Option<Account>,
    kind: Seq<char>,
    asset_currency: Option<Seq<char>>,
    f: PurchaseFacts,
) -> Option<(bool, Seq<char>)> {
    match settlement(account, kind, asset_currency, f.cash@) {
        Some((true, line)) => if kind == "BUY"@ {
            match purchase_fault(f) {
                Some(fault) => Some((false, fault)),
                None => Some((true, line)),
            }
        } else {
            Some((true, line))
        },
        other => other,
    }
}

fn check_purchase(facts: &PurchaseFacts) -> (r: Option<String>)
    ensures
        match r {
            Some(fault) => purchase_fault(*facts) == Some(fault@),
            None => purchase_fault(*facts) is None,
        },
{
    if !facts.has_cash {
        Some("No account cash available".to_owned())
    } else if !facts.shares_valid {
        Some("Enter a valid number of shares".to_owned())
    } else if !facts.price_valid {
        Some("Enter a valid price".to_owned())
    } else if !facts.fees_valid {
        Some("Enter valid fees".to_owned())
    } else if !facts.total_valid {
        Some("Enter a valid purchase amount".to_owned())
    } else if !facts.affordable {
        let mut fault = "Needs ".to_owned();
        fault.append(facts.total);
        fault.append(" · available ");
        fault.append(facts.cash);
        Some(fault)
    } else {
        None
    }
}

pub fn update_add_activity_cash_settlement_row(
    accounts: &[Account],
    account_index: u32,
    kind: &str,
    asset_currency: Option<&str>,
    facts: &PurchaseFacts,
) -> (r: SettlementRow)
    ensures
        row_is(
            r,
            kind@,
            new_activity_settlement(
                account_at(accounts@, account_index as int),
                kind@,
                charts::text_view(asset_currency),
                *facts,
            ),
        ),
{
    let row = update_cash_settlement_row(
        accounts,
        account_index,
        kind,
        asset_currency,
        facts.cash,
    );
    match row {
        SettlementRow::Shown { title, usable, subtitle } => {
            if usable && text::same_text(kind, "BUY") {
                match check_purchase(facts) {
                    Some(fault) => SettlementRow::Shown { title, usable: false, subtitle: fault },
                    None => SettlementRow::Shown { title, usable, subtitle },
                }
            } else {
                SettlementRow::Shown { title, usable, subtitle }
            }
        },
        SettlementRow::Hidden => SettlementRow::Hidden,
    }
}

/// A switch that cannot be used is switched off; one that can keeps its position.
pub fn settlement_stays_active(row: &SettlementRow, active: bool) -> (r: bool)
    ensures
        r == (active && (row matches SettlementRow::Shown { usable, .. } && *usable)),
{
    match row {
        SettlementRow::Shown { usable, .. } => active && *usable,
        SettlementRow::Hidden => false,
    }
}

/// A trade settles against the cash of its account where the switch is on; an opening
/// position never does.
pub fn settles_cash(kind: &str, active: bool) -> (r: bool)
    ensures
        r == (kind@ != "OPEN"@ && active),
{
    !text::same_text(kind, "OPEN") && active
}

/// An activity whose date and holding have been checked.
pub struct ActivityDraft {
    pub timestamp: i64,
    /// The steps that the holding goes through with it.
    pub steps: Vec<ShareStep>,
}

/// What stands against an activity before its holding is replayed.
pub open spec fn draft_fault(
    trades: Seq<Transaction>,
    account_id: int,
    symbol: Seq<char>,
    editing_id: Option<i64>,
    kind: Seq<char>,
    date: Seq<char>,
    today: Seq<char>,
    shares_valid: bool,
) -> Option<Seq<char>> {
    match date_fault(date, today, "Transaction date cannot be in the future"@) {
        Some(fault) => Some(fault),
        None => if !shares_valid {
            Some("Enter a valid number of shares"@)
        } else {
            activity_rules::change_refusal(
                trades,
                account_id,
                symbol,
                editing_id,
                kind,
                calendar::read_timestamp(date)->0,
                false,
            )
        },
    }
}

/// Checks the form of an activity up to the replay of its holding. `shares_valid` says
/// that the number of shares is a number above zero.
pub fn begin_activity(
    transactions: &[Transaction],
    splits: &[SplitEvent],
    account_id: i64,
    provider_symbol: &str,
    editing_id: Option<i64>,
    kind: &str,
    date: &str,
    today: &str,
    shares_valid: bool,
) -> (r: Result<ActivityDraft, &'static str>)
    requires
        transactions@.len() + splits@.len() < usize::MAX,
    ensures
        ({
            let fault = draft_fault(
                transactions@,
                account_id as int,
                provider_symbol@,
                editing_id,
                kind@,
                date@,
                today@,
                shares_valid,
            );
            match r {
                Ok(draft) => fault is None && calendar::read_timestamp(date@) == Some(
                    draft.timestamp as int,
                ) && draft.steps@ == activity_rules::change_steps(
                    transactions@,
                    splits@,
                    account_id as int,
                    provider_symbol@,
                    editing_id,
                    kind@,
                    draft.timestamp,
                ),
                Err(message) => fault == Some(message@),
            }
        }),
{
    let timestamp: i64 = match checked_date(
        date,
        today,
        "Transaction date cannot be in the future",
    ) {
        Ok(timestamp) => timestamp,
        Err(message) => {
            return Err(message);
        },
    };
    if !shares_valid {
        return Err("Enter a valid number of shares");
    }
    match activity_rules::validate_transaction_change(
        transactions,
        splits,
        account_id,
        provider_symbol,
        editing_id,
        kind,
        timestamp,
        false,
    ) {
        Ok(steps) => Ok(ActivityDraft { timestamp, steps }),
        Err(message) => Err(message),
    }
}

/// Decides on an activity once its holding has been replayed. `short` says of each step
/// whether fewer shares than none are held after it.
pub fn finish_activity(
    draft: &ActivityDraft,
    short: &Vec<bool>,
    price_valid: bool,
    fees_valid: bool,
) -> (r: Result<(), &'static str>)
    requires
        draft.steps@.len() == short@.len(),
    ensures
        ({
            let fault = if activity_rules::oversold(draft.steps@, short@) {
                Some("Activity exceeds the shares held on that date"@)
            } else if !price_valid {
                Some("Enter a valid price"@)
            } else if !fees_valid {
                Some("Enter valid fees"@)
            } else {
                None
            };
            match r {
                Ok(_) => fault is None,
                Err(message) => fault == Some(message@),
            }
        }),
{
    match activity_rules::change_verdict(&draft.steps, short) {
        Err(message) => Err(message),
        Ok(_) => if !price_valid {
            Err("Enter a valid price")
        } else if !fees_valid {
            Err("Enter valid fees")
        } else {
            Ok(())
        },
    }
}

/// The dialog in which an activity is entered: first a security is searched for, then
/// the form is filled in.
pub struct AddActivityFlow {
    /// The dialog was opened for a security.
    pub contextual: bool,
    pub chosen: bool,
    pub on_form: bool,
    pub can_record: bool,
    pub back_visible: bool,
}

impl AddActivityFlow {
    /// The form is shown and can be recorded for a chosen security, and the way back is
    /// open where the security was chosen in this dialog.
    pub open spec fn well_formed(self) -> bool {
        &&& self.can_record == self.chosen
        &&& self.chosen ==> self.on_form
        &&& self.back_visible ==> self.on_form
        &&& self.contextual ==> self.chosen && !self.back_visible
    }

    pub fn new(contextual: bool) -> (r: Self)
        ensures
            r.well_formed(),
            r.contextual == contextual,
            r.chosen == contextual,
            r.on_form == contextual,
            !r.back_visible,
    {
        AddActivityFlow {
            contextual,
            chosen: contextual,
            on_form: contextual,
            can_record: contextual,
            back_visible: false,
        }
    }

    /// A result was chosen. Says which one, if it is there.
    pub fn choose_result(&mut self, index: i32, count: usize) -> (r: Option<usize>)
        requires
            old(self).well_formed(),
            !old(self).contextual,
        ensures
            final(self).well_formed(),
            final(self).contextual == old(self).contextual,
            r == if 0 <= index && index < count {
                Some(index as usize)
            } else {
                None
            },
            r is Some ==> final(self).chosen && final(self).on_form && final(self).can_record
                && final(self).back_visible,
            r is None ==> *final(self) == *old(self),
    {
        if index < 0 {
            return None;
        }
        let at: usize = index as usize;
        if at >= count {
            return None;
        }
        self.chosen = true;
        self.on_form = true;
        self.can_record = true;
        self.back_visible = true;
        Some(at)
    }

    /// The words of the search changed: nothing is chosen.
    pub fn search_changed(&mut self)
        requires
            old(self).well_formed(),
            !old(self).contextual,
        ensures
            final(self).well_formed(),
            final(self).contextual == old(self).contextual,
            !final(self).chosen,
            !final(self).can_record,
            final(self).on_form == old(self).on_form,
            final(self).back_visible == old(self).back_visible,
    {
        self.chosen = false;
        self.can_record = false;
    }

    /// Back to the search: nothing is chosen.
    pub fn back(&mut self)
        requires
            old(self).well_formed(),
            !old(self).contextual,
        ensures
            final(self).well_formed(),
            final(self).contextual == old(self).contextual,
            !final(self).chosen,
            !final(self).on_form,
            !final(self).can_record,
            !final(self).back_visible,
    {
        self.chosen = false;
        self.on_form = false;
        self.can_record = false;
        self.back_visible = false;
    }
}

/// The switch for the cash of the account is there from the start: a security is given,
/// and a kind other than an opening position.
pub fn settlement_visible_at_start(has_asset: bool, kind: Option<&str>) -> (r: bool)
    ensures
        r == (has_asset && (kind is Some && !text::alike(kind->0@, "OPEN"@))),
{
    match kind {
        Some(kind) => has_asset && !text::same_letters(kind, "OPEN"),
        None => false,
    }
}

pub open spec fn is_asset(
    r: SearchResult,
    symbol: Seq<char>,
    code: Seq<char>,
    exchange: Seq<char>,
    name: Seq<char>,
    asset_type: Seq<char>,
    currency: Seq<char>,
) -> bool {
    &&& r.provider_symbol@ == symbol
    &&& r.code@ == code
    &&& r.exchange@ == exchange
    &&& r.name@ == name
    &&& r.asset_type@ == asset_type
    &&& r.currency@ == currency
}

/// The security of a holding.
pub fn activity_asset_from_position(position: &Position) -> (r: SearchResult)
    ensures
        is_asset(
            r,
            position.provider_symbol@,
            position.code@,
            position.exchange@,
            position.name@,
            Seq::empty(),
            position.currency@,
        ),
{
    SearchResult {
        provider_symbol: position.provider_symbol.clone(),
        code: position.code.clone(),
        exchange: position.exchange.clone(),
        name: position.name.clone(),
        asset_type: String::new(),
        currency: position.currency.clone(),
    }
}

/// The security of an item of the watchlist.
pub fn activity_asset_from_watchlist(item: &WatchlistItem) -> (r: SearchResult)
    ensures
        is_asset(
            r,
            item.provider_symbol@,
            item.code@,
            item.exchange@,
            item.name@,
            item.asset_type@,
            item.currency@,
        ),
{
    SearchResult {
        provider_symbol: item.provider_symbol.clone(),
        code: item.code.clone(),
        exchange: item.exchange.clone(),
        name: item.name.clone(),
        asset_type: item.asset_type.clone(),
        currency: item.currency.clone(),
    }
}

/// What the removal of an account asks or says.
pub enum RemovalDialog {
    /// The last account stays.
    KeepOne,
    Confirm { heading: String, warning: String },
}

pub open spec fn removal_warning(holdings: int) -> Seq<char> {
    if holdings > 0 {
        "This permanently removes the account, its "@ + numbers::integer_text(holdings)
            + " holding"@ + (if holdings == 1 {
            ""@
        } else {
            "s"@
        }) + ", and all activity and cash history. This cannot be undone."@
    } else {
        "This permanently removes the account and all activity and cash history. This cannot be undone."@
    }
}

pub fn remove_account_dialog(accounts: usize, name: &str, holdings: i64) -> (r: RemovalDialog)
    ensures
        match r {
            RemovalDialog::KeepOne => accounts <= 1,
            RemovalDialog::Confirm { heading, warning } => accounts > 1 && heading@ == "Remove "@
                + name@ + "?"@ && warning@ == removal_warning(holdings as int),
        },
{
    if accounts <= 1 {
        return RemovalDialog::KeepOne;
    }
    let mut heading = "Remove ".to_owned();
    heading.append(name);
    heading.append("?");
    let warning = if holdings > 0 {
        let mut w = "This permanently removes the account, its ".to_owned();
        w.append(numbers::print_integer(holdings).as_str());
        w.append(" holding");
        w.append(
            if holdings == 1 {
                ""
            } else {
                "s"
            },
        );
        w.append(", and all activity and cash history. This cannot be undone.");
        w
    } else {
        "This permanently removes the account and all activity and cash history. This cannot be undone.".to_owned()
    };
    RemovalDialog::Confirm { heading, warning }
}

/// What the removal of a holding asks.
pub struct HoldingRemoval {
    pub heading: String,
    pub warning: String,
}

pub fn remove_holding_dialog(position: &Position) -> (r: HoldingRemoval)
    ensures
        r.heading@ == "Remove "@ + position.code@ + "?"@,
        r.warning@ == "Removes this holding and its activity history from "@
            + position.account_name@,
{
    let mut heading = "Remove ".to_owned();
    heading.append(position.code.as_str());
    heading.append("?");
    let mut warning = "Removes this holding and its activity history from ".to_owned();
    warning.append(position.account_name.as_str());
    HoldingRemoval { heading, warning }
}

/// What is said once a holding is removed; `removed` counts the records that went with it.
pub fn holding_removed_text(code: &str, removed: usize) -> (r: Option<String>)
    ensures
        match r {
            Some(message) => removed > 0 && message@ == "Removed "@ + code@,
            None => removed == 0,
        },
{
    if removed == 0 {
        return None;
    }
    let mut message = "Removed ".to_owned();
    message.append(code);
    Some(message)
}

/// An account needs a name and one of the two currencies, and nothing else. The name is asked
/// for first.
pub proof fn account_needs_name_and_currency(name: Seq<char>, currency_index: int)
    ensures
        text::trimmed(name).len() == 0 ==> account_form_fault(name, currency_index) == Some(
            "Enter an account name"@,
        ),
        text::trimmed(name).len() > 0 && currency_index >= 2 ==> account_form_fault(
            name,
            currency_index,
        ) == Some("Choose CAD or USD"@),
        text::trimmed(name).len() > 0 && (currency_index == 0 || currency_index == 1)
            ==> account_form_fault(name, currency_index) is None,
{
}

/// A date that is entered is one that can be read and that does not come after today.
pub proof fn entered_date_is_not_ahead(
    date: Seq<char>,
    ahead: Seq<char>,
    y: int,
    m: int,
    d: int,
    ty: int,
    tm: int,
    td: int,
)
    requires
        calendar::valid_date(y, m, d),
        calendar::valid_date(ty, tm, td),
        0 <= y <= i32::MAX,
        0 <= ty <= i32::MAX,
    ensures
        calendar::read_date(date) is None ==> date_fault(
            date,
            calendar::date_text(ty, tm, td),
            ahead,
        ) == Some("Choose a valid date"@),
        ({
            let later = y > ty || y == ty && (m > tm || m == tm && d > td);
            date_fault(calendar::date_text(y, m, d), calendar::date_text(ty, tm, td), ahead)
                == if later {
                Some(ahead)
            } else {
                None
            }
        }),
{
    calendar::printed_date_reads_back(y, m, d);
    calendar::printed_date_reads_back(ty, tm, td);
    if y > ty || y == ty && (m > tm || m == tm && d > td) {
        calendar::dates_are_ordered(ty, tm, td, y, m, d);
    } else if y != ty || m != tm || d != td {
        calendar::dates_are_ordered(y, m, d, ty, tm, td);
    }
}

/// Cash is recorded with an amount above zero, on a date that is not ahead.
pub proof fn cash_needs_amount_and_date(date: Seq<char>, today: Seq<char>)
    ensures
        cash_form_fault(false, date, today) == Some("Cash amount must be greater than zero"@),
        calendar::read_date(date) is None ==> cash_form_fault(true, date, today) == Some(
            "Choose a valid date"@,
        ),
        calendar::read_date(date) is Some && calendar::read_date(today) is Some ==> {
            let day = calendar::read_date(date)->0;
            let now = calendar::read_date(today)->0;
            cash_form_fault(true, date, today) == if calendar::day_number(day.0, day.1, day.2)
                > calendar::day_number(now.0, now.1, now.2) {
                Some("Cash date cannot be in the future"@)
            } else {
                None
            }
        },
{
}

/// Cash comes in at the first place of its selector and goes out at the second.
pub proof fn cash_goes_out_at_the_second_place(place: u32)
    ensures
        goes_out(place) <==> place == 1,
        cash_entry_place(AmountSign::Positive) == 0,
        cash_entry_place(AmountSign::Zero) == 0,
        cash_entry_place(AmountSign::Negative) == 1,
{
}

/// What a transfer needs: a destination, a date that is not ahead, and either an amount above
/// zero or a number of shares of a holding.
pub proof fn transfer_needs_its_parts(f: TransferForm)
    ensures
        f.destination >= f.destinations ==> transfer_fault(f) == Some(
            "Choose a destination account"@,
        ),
        f.destination < f.destinations && calendar::read_date(f.date@) is None ==> transfer_fault(f)
            == Some("Choose a valid date"@),
        f.destination < f.destinations && in_future(f.date@, f.today@) ==> transfer_fault(f) == Some(
            "Transfer date cannot be in the future"@,
        ),
        f.destination < f.destinations && calendar::read_date(f.date@) is Some && !in_future(
            f.date@,
            f.today@,
        ) ==> {
            &&& f.kind == 0 && f.positive ==> transfer_fault(f) is None
            &&& f.kind == 0 && !f.positive ==> transfer_fault(f) == Some(
                "Transfer amount must be greater than zero"@,
            )
            &&& f.kind != 0 && f.positions == 0 ==> transfer_fault(f) == Some(
                "This account has no holdings to transfer"@,
            )
            &&& f.kind != 0 && 0 < f.positions <= f.position ==> transfer_fault(f) == Some(
                "Choose a holding"@,
            )
            &&& f.kind != 0 && f.position < f.positions && !f.shares_valid ==> transfer_fault(f)
                == Some("Enter a valid number of shares"@)
            &&& f.kind != 0 && f.position < f.positions && f.shares_valid ==> transfer_fault(
                f,
            ) is None
        },
{
}

/// The account that is shown first is the one asked for where it is among them, and the first
/// of them otherwise.
pub proof fn asked_account_is_shown(ids: Seq<i64>, id: i64, place: int)
    ensures
        place_of(ids, None, place) <==> place == 0,
        !ids.contains(id) ==> (place_of(ids, Some(id), place) <==> place == 0),
        ids.contains(id) && place_of(ids, Some(id), place) ==> 0 <= place < ids.len() && ids[place]
            == id && !ids.take(place).contains(id),
{
    if ids.contains(id) && place_of(ids, Some(id), place) {
        if ids.take(place).contains(id) {
            let k = choose|k: int| 0 <= k < place && ids.take(place)[k] == id;
            assert(ids[k] == id);
        }
    }
}

/// Cash of an account settles a trade where it is in the currency of the security. An opening
/// position is never settled so, and without a security there is nothing to settle.
pub proof fn cash_settles_in_its_currency(
    account: Account,
    kind: Seq<char>,
    currency: Seq<char>,
    cash: Seq<char>,
)
    ensures
        settlement(Some(account), kind, None, cash) is None,
        settlement(Some(account), "OPEN"@, Some(currency), cash) is None,
        kind != "OPEN"@ ==> settlement(None, kind, Some(currency), cash) == Some(
            (false, "Choose an account"@),
        ),
        kind != "OPEN"@ && text::alike(account.currency@, currency) ==> settlement(
            Some(account),
            kind,
            Some(currency),
            cash,
        ) == Some((true, "Current cash: "@ + cash)),
        kind != "OPEN"@ && !text::alike(account.currency@, currency) ==> settlement(
            Some(account),
            kind,
            Some(currency),
            cash,
        ) == Some((false, "Account cash is "@ + account.currency@)),
        settlement_title("SELL"@) == "Add Proceeds to Account Cash"@,
        kind != "SELL"@ ==> settlement_title(kind) == "Use Account Cash"@,
{
}

/// The row shows what was settled: nothing, or the title of its kind with what can be used.
pub proof fn row_shows_the_settlement(row: SettlementRow, kind: Seq<char>, usable: bool, line: Seq<char>)
    ensures
        row_is(row, kind, None) <==> row is Hidden,
        row_is(row, kind, Some((usable, line))) <==> (row is Shown && row->title@
            == settlement_title(kind) && row->usable == usable && row->subtitle@ == line),
{
}

/// An index leads to the account at that place, and to none beyond the last.
pub proof fn index_leads_to_its_account(accounts: Seq<Account>, index: int)
    ensures
        0 <= index < accounts.len() ==> account_at(accounts, index) == Some(accounts[index]),
        index >= accounts.len() ==> account_at(accounts, index) is None,
{
}

/// A purchase can be paid with cash where there is some, every number is valid and the cash is
/// enough. The first thing that is missing is the one told.
pub proof fn purchase_needs_enough_cash(f: PurchaseFacts)
    ensures
        purchase_fault(f) is None <==> f.has_cash && f.shares_valid && f.price_valid && f.fees_valid
            && f.total_valid && f.affordable,
        !f.has_cash ==> purchase_fault(f) == Some("No account cash available"@),
        f.has_cash && !f.shares_valid ==> purchase_fault(f) == Some(
            "Enter a valid number of shares"@,
        ),
        f.has_cash && f.shares_valid && !f.price_valid ==> purchase_fault(f) == Some(
            "Enter a valid price"@,
        ),
        f.has_cash && f.shares_valid && f.price_valid && !f.fees_valid ==> purchase_fault(f) == Some(
            "Enter valid fees"@,
        ),
        f.has_cash && f.shares_valid && f.price_valid && f.fees_valid && !f.total_valid
            ==> purchase_fault(f) == Some("Enter a valid purchase amount"@),
        f.has_cash && f.shares_valid && f.price_valid && f.fees_valid && f.total_valid
            && !f.affordable ==> purchase_fault(f) == Some(
            "Needs "@ + f.total@ + " · available "@ + f.cash@,
        ),
{
}

/// Only a purchase can ask for more cash than there is: a sale, or anything else that cash
/// settles, does so wherever the currency fits.
pub proof fn only_purchases_need_cash(
    account: Account,
    kind: Seq<char>,
    currency: Seq<char>,
    f: PurchaseFacts,
)
    requires
        text::alike(account.currency@, currency),
    ensures
        kind != "OPEN"@ && kind != "BUY"@ ==> new_activity_settlement(
            Some(account),
            kind,
            Some(currency),
            f,
        ) == Some((true, "Current cash: "@ + f.cash@)),
        f.has_cash && f.shares_valid && f.price_valid && f.fees_valid && f.total_valid
            && f.affordable ==> new_activity_settlement(Some(account), "BUY"@, Some(currency), f)
            == Some((true, "Current cash: "@ + f.cash@)),
        f.has_cash && f.shares_valid && f.price_valid && f.fees_valid && f.total_valid
            && !f.affordable ==> new_activity_settlement(Some(account), "BUY"@, Some(currency), f)
            == Some((false, "Needs "@ + f.total@ + " · available "@ + f.cash@)),
        !f.has_cash ==> new_activity_settlement(Some(account), "BUY"@, Some(currency), f) == Some(
            (false, "No account cash available"@),
        ),
        new_activity_settlement(Some(account), "OPEN"@, Some(currency), f) is None,
{
    crate::ledger::kinds_by_name();
}

/// An activity is refused for its date first, for its shares next, and then for its place
/// among the activities of the holding.
pub proof fn activity_needs_date_and_shares(
    trades: Seq<Transaction>,
    account_id: int,
    symbol: Seq<char>,
    editing_id: Option<i64>,
    kind: Seq<char>,
    date: Seq<char>,
    today: Seq<char>,
    shares_valid: bool,
)
    ensures
        ({
            let fault = draft_fault(
                trades,
                account_id,
                symbol,
                editing_id,
                kind,
                date,
                today,
                shares_valid,
            );
            &&& calendar::read_date(date) is None ==> fault == Some("Choose a valid date"@)
            &&& in_future(date, today) ==> fault == Some("Transaction date cannot be in the future"@)
            &&& calendar::read_date(date) is Some && !in_future(date, today) && !shares_valid
                ==> fault == Some("Enter a valid number of shares"@)
            &&& fault is None ==> calendar::read_date(date) is Some && !in_future(date, today)
                && shares_valid
            &&& calendar::read_date(date) is Some && !in_future(date, today) && shares_valid ==> {
                let day = calendar::read_date(date)->0;
                fault == activity_rules::change_refusal(
                    trades,
                    account_id,
                    symbol,
                    editing_id,
                    kind,
                    calendar::day_number(day.0, day.1, day.2) * 86_400,
                    false,
                )
            }
        }),
{
}

/// The warning before an account is removed counts its holdings, one in the singular.
pub proof fn warning_counts_the_holdings(holdings: int)
    ensures
        holdings <= 0 ==> removal_warning(holdings)
            == "This permanently removes the account and all activity and cash history. This cannot be undone."@,
        holdings == 1 ==> removal_warning(holdings)
            == "This permanently removes the account, its "@ + numbers::integer_text(1)
            + " holding"@ + ", and all activity and cash history. This cannot be undone."@,
        holdings > 1 ==> removal_warning(holdings) == "This permanently removes the account, its "@
            + numbers::integer_text(holdings) + " holdings"@
            + ", and all activity and cash history. This cannot be undone."@,
{
    reveal_strlit("");
    reveal_strlit("s");
    reveal_strlit(" holding");
    reveal_strlit(" holdings");
    let head = "This permanently removes the account, its "@ + numbers::integer_text(holdings);
    assert(head + " holding"@ + ""@ =~= head + " holding"@);
    assert(head + " holding"@ + "s"@ =~= head + " holdings"@);
}

/// What is recorded under is the security that was chosen, in each of its parts.
pub proof fn asset_is_the_one_chosen(
    r: SearchResult,
    symbol: Seq<char>,
    code: Seq<char>,
    exchange: Seq<char>,
    name: Seq<char>,
    asset_type: Seq<char>,
    currency: Seq<char>,
)
    ensures
        is_asset(
            r,
            r.provider_symbol@,
            r.code@,
            r.exchange@,
            r.name@,
            r.asset_type@,
            r.currency@,
        ),
        is_asset(r, symbol, code, exchange, name, asset_type, currency) ==> r.provider_symbol@
            == symbol && r.code@ == code && r.exchange@ == exchange && r.name@ == name
            && r.asset_type@ == asset_type && r.currency@ == currency,
{
}

} // verus!
