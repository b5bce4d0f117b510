//! Forms and dialogs.

use aureus::forms::{
    activity_asset_from_position, activity_asset_from_watchlist, begin_activity, cash_form,
    cash_kind_index, currency_is_fixed, edited_account, finish_activity, holding_removed_text,
    initial_account, new_account, remove_account_dialog, remove_holding_dialog,
    settlement_stays_active, settlement_visible_at_start, settles_cash, sync_setup_create_button,
    takes_cash_out, transfer_destinations, transfer_form, update_add_activity_cash_settlement_row,
    update_cash_settlement_row, AddActivityFlow, PurchaseFacts, RemovalDialog, SettlementRow,
    TransferForm, TransferRequest,
};
use aureus::ledger::{Quantity, ShareStep};
use aureus::model::{Account, AmountSign, Position, WatchlistItem};

const TODAY: &str = "2024-03-01";
const DAY: i64 = 86_400;

fn account(id: i64, currency: &str) -> Account {
    Account { id, name: "TFSA".to_owned(), currency: currency.to_owned(), holds_cash: true }
}

#[test]
fn accounts_need_a_name_and_a_currency() {
    let made = new_account("  TFSA ", 1).ok().unwrap();
    assert_eq!((made.name.as_str(), made.currency.as_str()), ("TFSA", "USD"));
    assert_eq!(new_account(" ", 0).err(), Some("Enter an account name"));
    assert_eq!(new_account("TFSA", 2).err(), Some("Choose CAD or USD"));
    assert!(sync_setup_create_button("a", 0));
    assert!(!sync_setup_create_button("", 0));
    assert!(!sync_setup_create_button("a", 2));
    let changed = edited_account(" RRSP", 9).ok().unwrap();
    assert_eq!((changed.name.as_str(), changed.currency.as_str()), ("RRSP", "CAD"));
    assert_eq!(edited_account("\t", 0).err(), Some("Enter an account name"));
}

#[test]
fn cash_has_an_amount_and_a_date() {
    assert_eq!(cash_form(true, "2024-02-29", TODAY), Ok(19_782 * DAY));
    assert_eq!(cash_form(true, TODAY, TODAY), Ok(19_783 * DAY));
    assert_eq!(cash_form(false, TODAY, TODAY), Err("Cash amount must be greater than zero"));
    assert_eq!(cash_form(true, "2024-02-30", TODAY), Err("Choose a valid date"));
    assert_eq!(cash_form(true, "2024-03-02", TODAY), Err("Cash date cannot be in the future"));
}

fn transfer() -> TransferForm<'static> {
    TransferForm {
        destinations: 2,
        destination: 1,
        date: "2024-02-29",
        today: TODAY,
        kind: 0,
        positive: true,
        positions: 1,
        position: 0,
        shares_valid: true,
    }
}

#[test]
fn transfers_are_read() {
    let cash = transfer_form(&transfer()).ok().unwrap();
    assert!(cash == TransferRequest::Cash { destination: 1, timestamp: 19_782 * DAY });
    let holding = transfer_form(&TransferForm { kind: 1, positive: false, ..transfer() });
    assert!(
        holding.ok().unwrap()
            == TransferRequest::Holding { destination: 1, position: 0, timestamp: 19_782 * DAY }
    );
}

#[test]
fn transfers_are_refused() {
    let refused = |form: TransferForm| transfer_form(&form).err();
    let none = TransferForm { destination: 2, ..transfer() };
    assert_eq!(refused(none), Some("Choose a destination account"));
    assert_eq!(refused(TransferForm { date: "x", ..transfer() }), Some("Choose a valid date"));
    assert_eq!(
        refused(TransferForm { date: "2024-03-02", ..transfer() }),
        Some("Transfer date cannot be in the future")
    );
    assert_eq!(
        refused(TransferForm { positive: false, ..transfer() }),
        Some("Transfer amount must be greater than zero")
    );
    assert_eq!(
        refused(TransferForm { kind: 1, positions: 0, ..transfer() }),
        Some("This account has no holdings to transfer")
    );
    assert_eq!(
        refused(TransferForm { kind: 1, position: 1, ..transfer() }),
        Some("Choose a holding")
    );
    assert_eq!(
        refused(TransferForm { kind: 1, shares_valid: false, ..transfer() }),
        Some("Enter a valid number of shares")
    );
}

#[test]
fn a_form_begins_with_the_account_last_used() {
    let ids = vec![4, 7, 9];
    assert_eq!(initial_account(&ids, Some(9), Some("7")), 2);
    assert_eq!(initial_account(&ids, None, Some("7")), 1);
    assert_eq!(initial_account(&ids, None, Some("x")), 0);
    assert_eq!(initial_account(&ids, Some(5), Some("7")), 0);
    assert_eq!(initial_account(&ids, None, None), 0);
}

fn line(row: SettlementRow) -> Option<(&'static str, bool, String)> {
    match row {
        SettlementRow::Hidden => None,
        SettlementRow::Shown { title, usable, subtitle } => Some((title, usable, subtitle)),
    }
}

#[test]
fn trades_settle_with_cash_of_their_currency() {
    let accounts = vec![account(1, "CAD")];
    let row = |kind: &str, index: u32, currency: Option<&str>| {
        line(update_cash_settlement_row(&accounts, index, kind, currency, "C$5.00"))
    };
    assert_eq!(
        row("BUY", 0, Some("cad")),
        Some(("Use Account Cash", true, "Current cash: C$5.00".to_owned()))
    );
    assert_eq!(
        row("SELL", 0, Some("USD")),
        Some(("Add Proceeds to Account Cash", false, "Account cash is CAD".to_owned()))
    );
    assert_eq!(
        row("BUY", 3, Some("CAD")),
        Some(("Use Account Cash", false, "Choose an account".to_owned()))
    );
    assert_eq!(row("OPEN", 0, Some("CAD")), None);
    assert_eq!(row("BUY", 0, None), None);
}

fn facts() -> PurchaseFacts<'static> {
    PurchaseFacts {
        has_cash: true,
        shares_valid: true,
        price_valid: true,
        fees_valid: true,
        total_valid: true,
        affordable: true,
        total: "C$9.00",
        cash: "C$5.00",
    }
}

#[test]
fn purchases_must_be_affordable() {
    let accounts = vec![account(1, "CAD")];
    let row = |kind: &str, facts: PurchaseFacts| {
        line(update_add_activity_cash_settlement_row(&accounts, 0, kind, Some("CAD"), &facts))
            .map(|(_, usable, subtitle)| (usable, subtitle))
    };
    let refused = |facts: PurchaseFacts| row("BUY", facts).unwrap();
    assert_eq!(row("BUY", facts()), Some((true, "Current cash: C$5.00".to_owned())));
    assert_eq!(
        refused(PurchaseFacts { has_cash: false, ..facts() }),
        (false, "No account cash available".to_owned())
    );
    assert_eq!(
        refused(PurchaseFacts { shares_valid: false, ..facts() }),
        (false, "Enter a valid number of shares".to_owned())
    );
    assert_eq!(
        refused(PurchaseFacts { price_valid: false, ..facts() }),
        (false, "Enter a valid price".to_owned())
    );
    assert_eq!(
        refused(PurchaseFacts { fees_valid: false, ..facts() }),
        (false, "Enter valid fees".to_owned())
    );
    assert_eq!(
        refused(PurchaseFacts { total_valid: false, ..facts() }),
        (false, "Enter a valid purchase amount".to_owned())
    );
    assert_eq!(
        refused(PurchaseFacts { affordable: false, ..facts() }),
        (false, "Needs C$9.00 · available C$5.00".to_owned())
    );
    assert_eq!(
        row("SELL", PurchaseFacts { affordable: false, ..facts() }),
        Some((true, "Current cash: C$5.00".to_owned()))
    );
}

#[test]
fn settlement_goes_off_with_its_row() {
    let shown = SettlementRow::Shown { title: "", usable: true, subtitle: String::new() };
    let unusable = SettlementRow::Shown { title: "", usable: false, subtitle: String::new() };
    assert!(settlement_stays_active(&shown, true));
    assert!(!settlement_stays_active(&shown, false));
    assert!(!settlement_stays_active(&unusable, true));
    assert!(!settlement_stays_active(&SettlementRow::Hidden, true));
    assert!(settles_cash("BUY", true));
    assert!(!settles_cash("OPEN", true));
    assert!(settlement_visible_at_start(true, Some("BUY")));
    assert!(!settlement_visible_at_start(true, Some("open")));
    assert!(!settlement_visible_at_start(true, None));
    assert!(!settlement_visible_at_start(false, Some("BUY")));
}

#[test]
fn activities_are_checked_in_order() {
    let begin = |date: &str, shares: bool| {
        begin_activity(&[], &[], 1, "A", None, "SELL", date, TODAY, shares)
    };
    assert_eq!(begin("", true).err(), Some("Choose a valid date"));
    assert_eq!(begin("2024-03-02", true).err(), Some("Transaction date cannot be in the future"));
    assert_eq!(begin(TODAY, false).err(), Some("Enter a valid number of shares"));
    let draft = begin(TODAY, true).ok().unwrap();
    assert_eq!(draft.timestamp, 19_783 * DAY);
    assert!(draft.steps == vec![ShareStep::Lose(Quantity::Proposed)]);
    assert_eq!(
        finish_activity(&draft, &vec![true], true, true),
        Err("Activity exceeds the shares held on that date")
    );
    assert_eq!(finish_activity(&draft, &vec![false], false, true), Err("Enter a valid price"));
    assert_eq!(finish_activity(&draft, &vec![false], true, false), Err("Enter valid fees"));
    assert!(finish_activity(&draft, &vec![false], true, true).is_ok());
}

#[test]
fn a_security_is_chosen_before_its_activity() {
    let mut flow = AddActivityFlow::new(false);
    assert!(!flow.chosen && !flow.on_form);
    assert_eq!(flow.choose_result(3, 3), None);
    assert_eq!(flow.choose_result(-1, 3), None);
    assert_eq!(flow.choose_result(1, 3), Some(1));
    assert!(flow.on_form && flow.can_record && flow.back_visible);
    flow.search_changed();
    assert!(!flow.chosen && !flow.can_record);
    flow.back();
    assert!(!flow.on_form && !flow.back_visible);
    let direct = AddActivityFlow::new(true);
    assert!(direct.chosen && direct.on_form && !direct.back_visible);
}

#[test]
fn securities_are_taken_from_elsewhere() {
    let position = Position {
        id: 1,
        account_id: 2,
        account_name: "TFSA".to_owned(),
        code: "VFV".to_owned(),
        name: "Index".to_owned(),
        exchange: "TOR".to_owned(),
        provider_symbol: "VFV.TO".to_owned(),
        currency: "CAD".to_owned(),
        quote_updated_at: None,
        priced: true,
    };
    let asset = activity_asset_from_position(&position);
    assert_eq!((asset.provider_symbol.as_str(), asset.asset_type.as_str()), ("VFV.TO", ""));
    let item = WatchlistItem {
        id: 1,
        code: "VFV".to_owned(),
        name: "Index".to_owned(),
        exchange: "TOR".to_owned(),
        provider_symbol: "VFV.TO".to_owned(),
        currency: "CAD".to_owned(),
        asset_type: "ETF".to_owned(),
    };
    let watched = activity_asset_from_watchlist(&item);
    assert_eq!((watched.code.as_str(), watched.asset_type.as_str()), ("VFV", "ETF"));
}

#[test]
fn the_last_account_stays() {
    assert!(matches!(remove_account_dialog(1, "TFSA", 0), RemovalDialog::KeepOne));
    match remove_account_dialog(2, "TFSA", 1) {
        RemovalDialog::Confirm { heading, warning } => {
            assert_eq!(heading, "Remove TFSA?");
            assert!(warning.contains("its 1 holding, and all activity"));
        }
        RemovalDialog::KeepOne => panic!("an account was kept"),
    }
    match remove_account_dialog(2, "TFSA", 0) {
        RemovalDialog::Confirm { warning, .. } => assert!(warning.contains("account and all")),
        RemovalDialog::KeepOne => panic!("an account was kept"),
    }
}

#[test]
fn a_transfer_goes_to_another_account() {
    let accounts = [account(4, "CAD"), account(7, "USD"), account(9, "CAD")];
    assert_eq!(transfer_destinations(&accounts, 7), Ok(vec![0, 2]));
    assert_eq!(transfer_destinations(&accounts, 1), Ok(vec![0, 1, 2]));
    let alone = Err("Create another account before transferring");
    assert_eq!(transfer_destinations(&accounts[..1], 4), alone);
    assert_eq!(transfer_destinations(&[], 4), alone);
}

#[test]
fn a_movement_keeps_its_direction() {
    assert_eq!(cash_kind_index(AmountSign::Negative), 1);
    assert_eq!(cash_kind_index(AmountSign::Positive), 0);
    assert_eq!(cash_kind_index(AmountSign::Zero), 0);
    assert!(takes_cash_out(1));
    assert!(!takes_cash_out(0));
    assert!(!takes_cash_out(2));
}

#[test]
fn a_used_account_keeps_its_currency() {
    assert!(!currency_is_fixed(0, 0));
    assert!(currency_is_fixed(1, 0));
    assert!(currency_is_fixed(0, 2));
}

#[test]
fn a_holding_is_removed_with_its_activity() {
    let position = Position {
        id: 1,
        account_id: 2,
        account_name: "TFSA".to_owned(),
        code: "VFV".to_owned(),
        name: "Index".to_owned(),
        exchange: "TOR".to_owned(),
        provider_symbol: "VFV.TO".to_owned(),
        currency: "CAD".to_owned(),
        quote_updated_at: None,
        priced: false,
    };
    let asked = remove_holding_dialog(&position);
    assert_eq!(asked.heading, "Remove VFV?");
    assert_eq!(asked.warning, "Removes this holding and its activity history from TFSA");
    assert_eq!(holding_removed_text("VFV", 3), Some("Removed VFV".to_owned()));
    assert_eq!(holding_removed_text("VFV", 0), None);
}
