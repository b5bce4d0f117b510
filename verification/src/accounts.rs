//! Accounts and how they are named and chosen.

use vstd::prelude::*;
use crate::model::Account;

verus! {

/// The first of the accounts that has the id.
pub open spec fn first_account(accounts: Seq<Account>, id: int, i: int) -> bool {
    &&& 0 <= i < accounts.len()
    &&& accounts[i].id == id
    &&& forall|k: int| 0 <= k < i ==> (#[trigger] accounts[k]).id != id
}

/// Looks an account up by its id. Where several have it, the first of them is meant.
pub fn find_account(accounts: &[Account], id: i64) -> (r: Option<usize>)
    ensures
        match r {
            Some(i) => first_account(accounts@, id as int, i as int),
            None => forall|k: int| 0 <= k < accounts@.len() ==> (#[trigger] accounts@[k]).id != id,
        },
{
    let mut i: usize = 0;
    while i < accounts.len()
        invariant
            i <= accounts@.len(),
            forall|k: int| 0 <= k < i ==> (#[trigger] accounts@[k]).id != id,
        decreases accounts@.len() - i,
    {
        if accounts[i].id == id {
            return Some(i);
        }
        i += 1;
    }
    None
}

/// The account that an id leads to in a table of accounts by id: where several have it,
/// the last of them.
pub open spec fn account_with(accounts: Seq<Account>, id: int) -> Option<int>
    decreases accounts.len(),
{
    if accounts.len() == 0 {
        None
    } else if accounts.last().id == id {
        Some(accounts.len() - 1)
    } else {
        account_with(accounts.drop_last(), id)
    }
}

fn latest_account(accounts: &[Account], id: i64) -> (r: Option<usize>)
    ensures
        match r {
            Some(i) => i < accounts@.len() && account_with(accounts@, id as int) == Some(i as int)
                && accounts@[i as int].id == id,
            None => account_with(accounts@, id as int) is None,
        },
{
    let mut n: usize = accounts.len();
    assert(accounts@.take(n as int) =~= accounts@);
    while n > 0
        invariant
            n <= accounts@.len(),
            account_with(accounts@.take(n as int), id as int) == account_with(accounts@, id as int),
        decreases n,
    {
        assert(accounts@.take(n as int).last() == accounts@[n - 1]);
        if accounts[n - 1].id == id {
            return Some(n - 1);
        }
        assert(accounts@.take(n as int).drop_last() =~= accounts@.take(n - 1));
        n -= 1;
    }
    None
}

/// The name of an account; one that is not known is just an account.
pub open spec fn account_name(accounts: Seq<Account>, id: int) -> Seq<char> {
    match account_with(accounts, id) {
        Some(i) => accounts[i].name@,
        None => "Account"@,
    }
}

pub fn name_of_account(accounts: &[Account], id: i64) -> (r: String)
    ensures
        r@ == account_name(accounts@, id as int),
{
    match latest_account(accounts, id) {
        Some(i) => accounts[i].name.clone(),
        None => "Account".to_owned(),
    }
}

/// The currency of a cash amount: that of its account, or its own where the account is
/// not known.
pub fn currency_of_cash(accounts: &[Account], account_id: i64, own: &str) -> (r: String)
    ensures
        r@ == match account_with(accounts@, account_id as int) {
            Some(i) => accounts@[i].currency@,
            None => own@,
        },
{
    match latest_account(accounts, account_id) {
        Some(i) => accounts[i].currency.clone(),
        None => own.to_owned(),
    }
}

/// Where no two accounts share an id, both ways of looking one up lead to the same account.
pub proof fn ids_lead_to_one_account(accounts: Seq<Account>, id: int, i: int)
    requires
        forall|a: int, b: int|
            0 <= a < b < accounts.len() ==> (#[trigger] accounts[a]).id != (
            #[trigger] accounts[b]).id,
        first_account(accounts, id, i),
    ensures
        account_with(accounts, id) == Some(i),
    decreases accounts.len(),
{
    if accounts.last().id == id {
        assert(accounts[accounts.len() - 1].id == id);
    } else {
        assert(i < accounts.len() - 1);
        let before = accounts.drop_last();
        assert(forall|k: int| 0 <= k < before.len() ==> #[trigger] before[k] == accounts[k]);
        ids_lead_to_one_account(before, id, i);
    }
}

/// An id leads to the last account that has it, and to none where no account has it.
pub proof fn id_leads_to_the_last_account(accounts: Seq<Account>, id: int)
    ensures
        match account_with(accounts, id) {
            Some(i) => 0 <= i < accounts.len() && accounts[i].id == id && forall|k: int|
                i < k < accounts.len() ==> (#[trigger] accounts[k]).id != id,
            None => forall|k: int| 0 <= k < accounts.len() ==> (#[trigger] accounts[k]).id != id,
        },
        account_with(accounts, id) matches Some(i) ==> account_name(accounts, id)
            == accounts[i].name@,
        account_with(accounts, id) is None ==> account_name(accounts, id) == "Account"@,
    decreases accounts.len(),
{
    if accounts.len() > 0 {
        let before = accounts.drop_last();
        id_leads_to_the_last_account(before, id);
        assert(accounts.last() == accounts[accounts.len() - 1]);
        assert forall|k: int| 0 <= k < before.len() implies #[trigger] accounts[k] == before[k] by {}
    }
}

/// An account is found by its id exactly where one has it, and the first of them is the one.
pub proof fn id_is_found_or_not(accounts: Seq<Account>, id: int, k: int)
    requires
        0 <= k < accounts.len(),
        accounts[k].id == id,
    ensures
        exists|i: int| #[trigger] first_account(accounts, id, i) && i <= k,
    decreases k,
{
    if forall|j: int| 0 <= j < k ==> (#[trigger] accounts[j]).id != id {
        assert(first_account(accounts, id, k));
    } else {
        let j = choose|j: int| 0 <= j < k && (#[trigger] accounts[j]).id == id;
        id_is_found_or_not(accounts, id, j);
    }
}

} // verus!
