//! Trades and splits in order, and the rules for recording them.

use aureus::activity_rules::{
    change_verdict, removal_verdict, validate_transaction_change, validate_transaction_removal,
};
use aureus::cost_basis::{
    gain_is_covered, ledger_key, realized_gain_from_transactions, report_holding_states_as_of,
    report_realized_gain_for_period, split_applies, value_period_gain, value_total_gain,
    LedgerStep,
};
use aureus::holdings::{balances, holdings, named_by, Scope};
use aureus::ledger::{
    activity_kind, activity_sort_priority, dividend_shares_held_at, report_shares_held_at,
    trades_in_order, transaction_kind_from_index, transaction_kind_index, ActivityKind, Quantity,
    ShareStep,
};
use aureus::model::{AmountSign, CashEntry, PricePoint, SplitEvent, Transaction};
use aureus::rates::{Conversion, Rate};

fn trade(id: i64, account_id: i64, symbol: &str, kind: &str, timestamp: i64) -> Transaction {
    Transaction {
        id,
        account_id,
        account_name: "TFSA".to_owned(),
        code: symbol.to_owned(),
        name: symbol.to_owned(),
        provider_symbol: symbol.to_owned(),
        transaction_type: kind.to_owned(),
        trade_date: "2024-03-01".to_owned(),
        timestamp,
        currency: "CAD".to_owned(),
        settle_cash: false,
        priced: true,
    }
}

fn split(symbol: &str, timestamp: i64) -> SplitEvent {
    SplitEvent { provider_symbol: symbol.to_owned(), timestamp }
}

fn cash(id: i64, account_id: i64, currency: &str, occurred_at: i64) -> CashEntry {
    CashEntry {
        id,
        account_id,
        kind: "DEPOSIT".to_owned(),
        description: String::new(),
        currency: currency.to_owned(),
        occurred_at,
        sign: AmountSign::Positive,
    }
}

fn gain(position: usize) -> ShareStep {
    ShareStep::Gain(Quantity::Trade(position))
}

fn lose(position: usize) -> ShareStep {
    ShareStep::Lose(Quantity::Trade(position))
}

fn multiply(position: usize) -> ShareStep {
    ShareStep::Multiply(Quantity::Split(position))
}

#[test]
fn kinds_have_ranks() {
    let ranks: Vec<u8> = ["SPLIT", "OPEN", "BUY", "TRANSFER_IN", "SELL", "TRANSFER_OUT", "DRIP"]
        .iter()
        .map(|kind| activity_sort_priority(kind))
        .collect();
    assert_eq!(ranks, vec![0, 1, 2, 3, 4, 5, 6]);
    assert!(activity_kind("BUY") == ActivityKind::Buy);
    assert!(activity_kind("buy") == ActivityKind::Other);
}

#[test]
fn the_kind_selector_and_the_kinds_agree() {
    for index in 0..3 {
        assert_eq!(transaction_kind_index(transaction_kind_from_index(index)), index);
    }
    assert_eq!(transaction_kind_from_index(1), "SELL");
    assert_eq!(transaction_kind_from_index(9), "BUY");
    assert_eq!(transaction_kind_index("TRANSFER_IN"), 0);
}

#[test]
fn events_of_one_time_are_ranked() {
    let trades = vec![
        trade(1, 1, "VFV.TO", "SELL", 100),
        trade(2, 1, "vfv.to", "BUY", 100),
        trade(3, 1, "XEQT.TO", "BUY", 100),
        trade(4, 1, "VFV.TO", "OPEN", 50),
        trade(5, 1, "VFV.TO", "BUY", 101),
    ];
    let splits = vec![split("VFV.TO", 100), split("XEQT.TO", 90)];
    let steps = report_shares_held_at(&trades, &splits, "VFV.TO", 100);
    assert!(steps == vec![gain(3), multiply(0), gain(1), lose(0)]);
}

#[test]
fn trades_of_one_time_are_ranked() {
    let trades = vec![
        trade(3, 1, "A", "SELL", 10),
        trade(2, 1, "A", "BUY", 10),
        trade(1, 1, "A", "BUY", 10),
        trade(9, 1, "A", "SELL", 5),
    ];
    assert_eq!(trades_in_order(&trades), vec![3, 2, 1, 0]);
}

#[test]
fn looking_ahead_only_adds_steps() {
    let trades = vec![trade(1, 1, "A", "BUY", 10), trade(2, 1, "A", "SELL", 30)];
    let splits = vec![split("A", 20)];
    let early = report_shares_held_at(&trades, &splits, "A", 20);
    let late = report_shares_held_at(&trades, &splits, "A", 40);
    assert!(early == vec![gain(0), multiply(0)]);
    assert!(late[..2] == early[..]);
    assert!(late[2] == lose(1));
}

#[test]
fn dividends_take_the_splits_given() {
    let trades = vec![trade(1, 1, "A", "BUY", 10), trade(2, 1, "B", "BUY", 10)];
    let splits = vec![split("renamed", 20), split("renamed", 50)];
    assert!(dividend_shares_held_at(&trades, &splits, "a", 40) == vec![gain(0), multiply(0)]);
}

#[test]
fn a_recorded_split_changes_no_report() {
    let trades = vec![trade(1, 1, "A", "SPLIT", 10), trade(2, 1, "A", "DRIP", 11)];
    let steps = report_shares_held_at(&trades, &[], "A", 40);
    let keep = [ShareStep::Keep(Quantity::Trade(0)), ShareStep::Keep(Quantity::Trade(1))];
    assert!(steps[..] == keep[..]);
}

#[test]
fn a_change_is_replayed_with_the_others() {
    let trades = vec![trade(1, 1, "A", "BUY", 10), trade(2, 2, "A", "BUY", 10)];
    let splits = vec![split("A", 20)];
    let steps =
        validate_transaction_change(&trades, &splits, 1, "a", None, "SELL", 20, false).unwrap();
    assert!(steps == vec![gain(0), multiply(0), ShareStep::Lose(Quantity::Proposed)]);
    assert!(change_verdict(&steps, &vec![false, false, false]).is_ok());
    assert_eq!(
        change_verdict(&steps, &vec![false, false, true]),
        Err("Activity exceeds the shares held on that date")
    );
}

#[test]
fn an_edited_activity_replaces_the_old_one() {
    let trades = vec![trade(1, 1, "A", "BUY", 10), trade(2, 1, "A", "SELL", 30)];
    let steps =
        validate_transaction_change(&trades, &[], 1, "A", Some(2), "SELL", 5, false).unwrap();
    assert!(steps == vec![ShareStep::Lose(Quantity::Proposed), gain(0)]);
}

#[test]
fn changes_are_refused() {
    let held = vec![trade(1, 1, "A", "OPEN", 50), trade(2, 1, "A", "BUY", 60)];
    let refused = |kind: &str, time: i64, editing: Option<i64>, none: bool| {
        validate_transaction_change(&held, &[], 1, "A", editing, kind, time, none).err()
    };
    assert_eq!(refused("BUY", 70, None, true), Some("Shares must be greater than zero"));
    assert_eq!(
        refused("OPEN", 40, None, false),
        Some("Only one opening position can be recorded for a holding")
    );
    assert_eq!(
        refused("OPEN", 61, Some(1), false),
        Some("Opening position must be dated before the other activity")
    );
    assert_eq!(refused("OPEN", 60, Some(1), false), None);
    assert_eq!(
        refused("SELL", 49, None, false),
        Some("Activity cannot be dated before the opening position")
    );
    assert_eq!(refused("SELL", 50, None, false), None);
    let twice = vec![trade(1, 1, "A", "OPEN", 50), trade(2, 1, "A", "OPEN", 50)];
    assert_eq!(
        validate_transaction_change(&twice, &[], 1, "A", None, "BUY", 60, false).err(),
        Some("Only one opening position can be recorded for a holding")
    );
}

#[test]
fn removals_are_replayed_without_the_activity() {
    let trades = vec![
        trade(1, 1, "A", "OPEN", 50),
        trade(2, 1, "A", "SELL", 60),
        trade(3, 1, "B", "BUY", 60),
    ];
    let removed = trade(3, 1, "B", "BUY", 60);
    assert!(validate_transaction_removal(&trades, &[], &removed).unwrap().is_empty());
    let steps = validate_transaction_removal(&trades, &[], &trade(1, 1, "A", "OPEN", 50)).unwrap();
    assert!(steps == vec![lose(1)]);
    assert_eq!(removal_verdict(&steps, &vec![true]), Err("Delete later sell transactions first"));
    assert!(removal_verdict(&steps, &vec![false]).is_ok());
    let early = vec![trade(1, 1, "A", "OPEN", 50), trade(2, 1, "A", "BUY", 40), removed];
    assert_eq!(
        validate_transaction_removal(&early, &[], &trade(9, 1, "A", "SELL", 60)).err(),
        Some("Delete or move the earlier transaction first")
    );
    assert!(validate_transaction_removal(&early, &[], &trade(1, 1, "A", "OPEN", 50)).is_ok());
}

#[test]
fn ledgers_follow_the_kinds() {
    let trades = vec![
        trade(1, 1, "A", "SELL", 40),
        trade(2, 1, "A", "BUY", 10),
        trade(3, 1, "A", "TRANSFER_IN", 20),
        trade(4, 1, "A", "TRANSFER_OUT", 50),
        trade(5, 1, "A", "SELL", 20),
        trade(6, 1, "A", "DRIP", 60),
    ];
    let splits = vec![split("A", 30), split("A", 70)];
    let report = report_realized_gain_for_period(&trades, &splits, 40, 60).steps;
    let expected = [
        LedgerStep::Purchase(1),
        LedgerStep::TransferIn(2),
        LedgerStep::Removal(4),
        LedgerStep::Split(0),
        LedgerStep::Sale(0),
        LedgerStep::Removal(3),
        LedgerStep::Note(5),
    ];
    assert!(report[..] == expected[..]);
    let states = report_holding_states_as_of(&trades, &splits, 40).steps;
    assert!(states.len() == 5 && states[4] == LedgerStep::Removal(0));
    assert!(realized_gain_from_transactions(&trades, &splits).is_none());
    let known = realized_gain_from_transactions(&trades[..5], &splits).unwrap().steps;
    assert!(known.len() == 7 && known[2] == LedgerStep::Sale(4));
}

#[test]
fn splits_reach_the_ledgers_of_their_security() {
    assert_eq!(ledger_key(7, "vfv.to"), "7|VFV.TO");
    assert_eq!(ledger_key(-3, "A"), "-3|A");
    assert!(split_applies(&ledger_key(7, "vfv.to"), "VFV.to"));
    assert!(split_applies(&ledger_key(8, "VFV.TO"), "vfv.to"));
    assert!(!split_applies(&ledger_key(7, "XVFV.TO"), "VFV.TO"));
}

#[test]
fn every_trade_belongs_to_one_holding() {
    let trades = vec![
        trade(1, 1, "A", "BUY", 10),
        trade(2, 2, "A", "BUY", 11),
        trade(3, 1, "a", "SELL", 12),
        trade(4, 1, "B", "BUY", 13),
    ];
    let splits = vec![split("A", 5), split("A", 12), split("B", 9)];
    let events = vec![4, 6, 0, 1, 5, 2, 3];
    let plans = holdings(Scope::Account, &trades, &splits, &events);
    let openings: Vec<usize> = plans.iter().map(|plan| plan.opening).collect();
    assert_eq!(openings, vec![2, 3, 6]);
    assert_eq!(plans[0].places, vec![2, 4, 5]);
    assert!(plans[0].steps == vec![gain(0), multiply(1), lose(2)]);
    assert_eq!(plans[1].places, vec![3, 4]);
    assert_eq!(plans[2].places, vec![6]);
    assert_eq!(named_by(&trades, &events, &plans[0], 2), None);
    assert_eq!(named_by(&trades, &events, &plans[0], 5), Some(0));
    assert_eq!(named_by(&trades, &events, &plans[0], 6), Some(2));
}

#[test]
fn an_early_split_concerns_no_holding() {
    let trades = vec![trade(1, 1, "A", "BUY", 10)];
    let splits = vec![split("A", 5)];
    let plans = holdings(Scope::Account, &trades, &splits, &vec![1, 0]);
    assert_eq!(plans.len(), 1);
    assert_eq!(plans[0].places, vec![1]);
}

#[test]
fn every_movement_counts_to_one_balance() {
    let entries =
        vec![cash(1, 1, "CAD", 1), cash(2, 1, "USD", 2), cash(3, 2, "CAD", 3), cash(4, 1, "cad", 4)];
    let plans = balances(&entries, &vec![0, 1, 2, 3]);
    let places: Vec<Vec<usize>> = plans.iter().map(|plan| plan.places.clone()).collect();
    assert_eq!(places, vec![vec![0, 3], vec![1], vec![2]]);
}

#[test]
fn every_account_keeps_its_own_ledger() {
    let trades = vec![trade(1, 1, "AAA", "BUY", 1), trade(2, 2, "AAA", "SELL", 2)];
    let plan = realized_gain_from_transactions(&trades, &[]).unwrap();
    assert!(plan.steps == vec![LedgerStep::Purchase(0), LedgerStep::Sale(1)]);
    let names: Vec<&str> = plan.ledgers.iter().map(|ledger| ledger.name.as_str()).collect();
    assert_eq!(names, vec!["1|AAA", "2|AAA"]);
    assert_eq!(plan.ledgers[0].places, vec![0]);
    assert_eq!(plan.ledgers[1].places, vec![1]);
    assert!(!gain_is_covered(&plan.steps, &vec![false, true]));
    assert!(gain_is_covered(&plan.steps, &vec![true, false]));
}

#[test]
fn a_gain_is_known_where_every_sale_converts() {
    let mut trades = vec![
        trade(1, 1, "A", "BUY", 1),
        trade(2, 1, "A", "SELL", 5),
        trade(3, 1, "A", "SELL", 7),
    ];
    trades[2].currency = "USD".to_owned();
    let steps = report_realized_gain_for_period(&trades, &[], 2, 9).steps;
    let fx = vec![PricePoint { timestamp: 6, positive: true }];
    let all = vec![true, true, true];
    let gain = value_period_gain(&steps, &trades, &all, "CAD", Some(&fx), None).unwrap();
    let by_rate = Some(Conversion::Multiply(Rate::Historical(0)));
    assert!(gain == vec![None, Some(Conversion::Same), by_rate]);
    assert!(value_period_gain(&steps, &trades, &all, "CAD", None, None).is_none());
    let without = vec![true, true, false];
    let gain = value_period_gain(&steps, &trades, &without, "CAD", None, None).unwrap();
    assert!(gain == vec![None, Some(Conversion::Same), None]);

    let steps = realized_gain_from_transactions(&trades, &[]).unwrap().steps;
    let covered = vec![false; 3];
    let gain = value_total_gain(&steps, &trades, &covered, "CAD", Some(true)).unwrap();
    assert!(gain[2] == Some(Conversion::Multiply(Rate::Current)));
    assert!(value_total_gain(&steps, &trades, &covered, "CAD", None).is_none());
    assert!(value_total_gain(&steps, &trades, &vec![false, true, false], "CAD", Some(true))
        .is_none());
}

#[test]
fn a_report_keeps_one_ledger_for_each_security() {
    let trades = vec![
        trade(1, 1, "aaa", "BUY", 1),
        trade(2, 1, "BBB", "BUY", 2),
        trade(3, 1, "AAA", "SELL", 4),
    ];
    let splits = vec![split("BBB", 1), split("Aaa", 3), split("CCC", 3)];
    let plan = report_holding_states_as_of(&trades, &splits, 9);
    let ledgers: Vec<(&str, &[usize])> =
        plan.ledgers.iter().map(|ledger| (ledger.name.as_str(), &ledger.places[..])).collect();
    assert!(plan.steps[0] == LedgerStep::Split(0) && plan.steps[3] == LedgerStep::Split(1));
    assert_eq!(ledgers, vec![("AAA", &[1, 3, 5][..]), ("BBB", &[2][..])]);
}

#[test]
fn adjacent_periods_share_no_sale() {
    let trades = vec![
        trade(1, 1, "A", "BUY", 1),
        trade(2, 1, "A", "SELL", 5),
        trade(3, 1, "A", "SELL", 6),
    ];
    let whole = report_realized_gain_for_period(&trades, &[], 2, 9).steps;
    let first = report_realized_gain_for_period(&trades, &[], 2, 5).steps;
    let second = report_realized_gain_for_period(&trades, &[], 6, 9).steps;
    assert!(whole == [LedgerStep::Purchase(0), LedgerStep::Sale(1), LedgerStep::Sale(2)]);
    assert!(first == whole[..2]);
    assert!(second == [LedgerStep::Purchase(0), LedgerStep::Removal(1), LedgerStep::Sale(2)]);
}

#[test]
fn distributions_and_reports_agree_on_shares() {
    let trades = vec![trade(1, 1, "A", "BUY", 1), trade(2, 1, "A", "SELL", 9)];
    let all = vec![split("B", 2), split("a", 3), split("A", 5)];
    let own = vec![split("a", 3), split("A", 5)];
    assert!(report_shares_held_at(&trades, &all, "A", 9)
        == vec![gain(0), multiply(1), multiply(2), lose(1)]);
    assert!(dividend_shares_held_at(&trades, &own, "A", 9)
        == vec![gain(0), multiply(0), multiply(1), lose(1)]);
}
