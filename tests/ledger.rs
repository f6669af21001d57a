use governance::account::Account;
use governance::ledger::{CheckPoint, Ledger, TxError};

fn acct(b: u8) -> Account {
    Account::from_bytes(&[b])
}

fn ledger(supply: u64, fee: u64) -> Ledger {
    Ledger::new("logo".to_string(), "Gov".to_string(), "GOV".to_string(), 8, supply, acct(1), fee, acct(9), 100)
}

fn sum(l: &Ledger, who: &[u8]) -> u64 {
    who.iter().map(|b| l.balance_of(&acct(*b))).sum()
}

fn history(l: &Ledger, b: u8) -> Vec<CheckPoint> {
    l.checkpoints.get(&acct(b)).cloned().unwrap_or_default()
}

#[test]
fn supply_is_conserved() {
    let mut l = ledger(1_000, 2);
    let all = [1u8, 2, 3, 9];
    l.transfer(&acct(1), &acct(2), 100, 101).unwrap();
    assert_eq!(sum(&l, &all), l.total_supply);
    l.approve(&acct(2), &acct(3), 20, 102).unwrap();
    l.transfer_from(&acct(3), &acct(2), &acct(3), 10, 103).unwrap();
    assert_eq!(sum(&l, &all), l.total_supply);
    l.mint(&acct(1), &acct(3), 50, 104).unwrap();
    assert_eq!(l.total_supply, 1_050);
    l.burn(&acct(3), 5, 105).unwrap();
    assert_eq!(l.total_supply, 1_045);
    assert_eq!(sum(&l, &all), 1_045);
}

#[test]
fn transfer_charges_fee() {
    let mut l = ledger(1_000, 2);
    assert_eq!(l.transfer(&acct(1), &acct(2), 999, 101), Err(TxError::InsufficientBalance));
    l.transfer(&acct(1), &acct(2), 998, 101).unwrap();
    assert_eq!(l.balance_of(&acct(1)), 0);
    assert_eq!(l.balance_of(&acct(2)), 998);
    assert_eq!(l.balance_of(&acct(9)), 2);
    assert!(l.balances.get(&acct(1)).is_none());
}

#[test]
fn votes_follow_balances_without_delegation() {
    let mut l = ledger(1_000, 0);
    assert_eq!(l.get_current_votes(&acct(1)), 1_000);
    l.transfer(&acct(1), &acct(2), 300, 110).unwrap();
    assert_eq!(l.get_current_votes(&acct(1)), 700);
    assert_eq!(l.get_current_votes(&acct(2)), 300);
}

#[test]
fn delegation_moves_whole_balance() {
    let mut l = ledger(1_000, 0);
    l.transfer(&acct(1), &acct(2), 300, 110).unwrap();
    assert_eq!(l.delegate(&acct(2), &acct(5), 120), Ok(300));
    assert_eq!(l.get_current_votes(&acct(2)), 0);
    assert_eq!(l.get_current_votes(&acct(5)), 300);
    l.transfer(&acct(1), &acct(2), 100, 130).unwrap();
    assert_eq!(l.get_current_votes(&acct(5)), 400);
    assert_eq!(l.get_current_votes(&acct(1)), 600);
    assert_eq!(l.delegate(&acct(2), &acct(6), 140), Ok(400));
    assert_eq!(l.get_current_votes(&acct(5)), 0);
    assert_eq!(l.get_current_votes(&acct(6)), 400);
    assert_eq!(l.delegate(&acct(7), &acct(6), 150), Err(TxError::InsufficientBalance));
}

#[test]
fn checkpoints_one_per_timestamp() {
    let mut l = ledger(1_000, 0);
    l.transfer(&acct(1), &acct(2), 10, 200).unwrap();
    l.transfer(&acct(1), &acct(2), 10, 200).unwrap();
    l.transfer(&acct(1), &acct(2), 10, 300).unwrap();
    let h = history(&l, 2);
    assert_eq!(h, vec![CheckPoint { timestamp: 200, votes: 20 }, CheckPoint { timestamp: 300, votes: 30 }]);
    let h1 = history(&l, 1);
    assert!(h1.windows(2).all(|w| w[0].timestamp < w[1].timestamp));
}

#[test]
fn prior_votes_lookup() {
    let mut l = ledger(1_000, 0);
    for (i, t) in [200u64, 300, 400, 500].iter().enumerate() {
        l.transfer(&acct(1), &acct(2), 10 * (i as u64 + 1), *t).unwrap();
    }
    assert_eq!(l.get_prior_votes(&acct(2), 199), 0);
    assert_eq!(l.get_prior_votes(&acct(2), 200), 10);
    assert_eq!(l.get_prior_votes(&acct(2), 350), 30);
    assert_eq!(l.get_prior_votes(&acct(2), 400), 60);
    assert_eq!(l.get_prior_votes(&acct(2), 450), 60);
    assert_eq!(l.get_prior_votes(&acct(2), 10_000), 100);
    assert_eq!(l.get_prior_votes(&acct(8), 10_000), 0);
    assert_eq!(l.get_prior_votes(&acct(1), 99), 0);
}

#[test]
fn allowance_rules() {
    let mut l = ledger(1_000, 1);
    l.approve(&acct(1), &acct(3), 50, 101).unwrap();
    assert_eq!(l.allowance(&acct(1), &acct(3)), 51);
    assert_eq!(l.balance_of(&acct(1)), 999);
    assert_eq!(l.transfer_from(&acct(3), &acct(1), &acct(4), 51, 102), Err(TxError::InsufficientAllowance));
    l.transfer_from(&acct(3), &acct(1), &acct(4), 50, 102).unwrap();
    assert_eq!(l.allowance(&acct(1), &acct(3)), 0);
    assert!(l.allowances.get(&acct(1)).is_none());
    assert_eq!(l.balance_of(&acct(4)), 50);
    assert_eq!(l.balance_of(&acct(9)), 2);
    let mut poor = ledger(0, 1);
    assert_eq!(poor.approve(&acct(1), &acct(3), 5, 101), Err(TxError::InsufficientBalance));
    let mut l2 = ledger(100, 0);
    l2.approve(&acct(1), &acct(3), 500, 101).unwrap();
    assert_eq!(l2.transfer_from(&acct(3), &acct(1), &acct(4), 200, 102), Err(TxError::InsufficientBalance));
    let mut l3 = ledger(100, 1);
    assert_eq!(l3.approve(&acct(1), &acct(3), u64::MAX, 101), Err(TxError::LedgerTrap));
}

#[test]
fn mint_and_burn_rules() {
    let mut l = ledger(1_000, 0);
    assert_eq!(l.mint(&acct(2), &acct(2), 5, 101), Err(TxError::Unauthorized));
    assert_eq!(l.mint(&acct(1), &acct(2), u64::MAX, 101), Err(TxError::LedgerTrap));
    l.mint(&acct(1), &acct(2), 5, 101).unwrap();
    assert_eq!(l.get_current_votes(&acct(2)), 5);
    assert_eq!(l.burn(&acct(2), 6, 102), Err(TxError::InsufficientBalance));
    l.burn(&acct(2), 5, 102).unwrap();
    assert_eq!(l.get_current_votes(&acct(2)), 0);
    assert_eq!(l.total_supply, 1_000);
}

#[test]
fn owner_only_settings() {
    let mut l = ledger(1_000, 0);
    assert_eq!(l.set_fee(&acct(2), 3), Err(TxError::Unauthorized));
    l.set_fee(&acct(1), 3).unwrap();
    l.set_fee_to(&acct(1), acct(8)).unwrap();
    l.set_name(&acct(1), "New".to_string()).unwrap();
    l.set_logo(&acct(1), "L".to_string()).unwrap();
    l.set_owner(&acct(1), acct(2)).unwrap();
    assert_eq!(l.set_fee(&acct(1), 4), Err(TxError::Unauthorized));
    assert_eq!((l.fee, l.name.as_str(), l.logo.as_str()), (3, "New", "L"));
    l.transfer(&acct(1), &acct(3), 10, 101).unwrap();
    assert_eq!(l.balance_of(&acct(8)), 3);
}

#[test]
fn user_approvals_listed_in_order() {
    let mut l = ledger(1_000, 0);
    l.approve(&acct(1), &acct(5), 7, 101).unwrap();
    l.approve(&acct(1), &acct(3), 9, 102).unwrap();
    l.approve(&acct(1), &acct(5), 8, 103).unwrap();
    let v = l.get_user_approvals(&acct(1));
    assert_eq!(v.len(), 2);
    assert_eq!((v[0].0.as_bytes(), v[0].1), (&[5u8][..], 8));
    assert_eq!((v[1].0.as_bytes(), v[1].1), (&[3u8][..], 9));
    assert!(l.get_user_approvals(&acct(2)).is_empty());
}

#[test]
fn holders_ranked_by_balance() {
    let mut l = ledger(2_000, 0);
    l.transfer(&acct(1), &acct(2), 300, 101).unwrap();
    l.transfer(&acct(1), &acct(3), 300, 102).unwrap();
    l.transfer(&acct(1), &acct(4), 700, 103).unwrap();
    let all: Vec<(u8, u64)> = l.get_holders(0, 10).iter().map(|(a, b)| (a.as_bytes()[0], *b)).collect();
    assert_eq!(all, vec![(1, 700), (4, 700), (2, 300), (3, 300)]);
    let page: Vec<(u8, u64)> = l.get_holders(1, 2).iter().map(|(a, b)| (a.as_bytes()[0], *b)).collect();
    assert_eq!(page, vec![(4, 700), (2, 300)]);
    assert_eq!(l.get_holders(3, 10).len(), 1);
    assert!(l.get_holders(4, 1).is_empty());
}

#[test]
fn emptied_entries_leave_the_tables() {
    let mut l = ledger(1_000, 0);
    l.transfer(&acct(1), &acct(2), 40, 101).unwrap();
    l.burn(&acct(2), 40, 102).unwrap();
    assert!(l.balances.get(&acct(2)).is_none());
    l.approve(&acct(1), &acct(3), 5, 103).unwrap();
    l.approve(&acct(1), &acct(4), 6, 104).unwrap();
    assert_eq!(l.get_allowance_size(), 2);
    l.approve(&acct(1), &acct(3), 0, 105).unwrap();
    assert_eq!(l.get_allowance_size(), 1);
    assert!(l.allowances.get(&acct(1)).unwrap().get(&acct(3)).is_none());
    l.approve(&acct(1), &acct(4), 0, 106).unwrap();
    assert!(l.allowances.get(&acct(1)).is_none());
    assert_eq!(l.get_allowance_size(), 0);
}

#[test]
fn delegation_touches_only_the_two_delegates() {
    let mut l = ledger(1_000, 0);
    l.transfer(&acct(1), &acct(2), 300, 110).unwrap();
    let before = history(&l, 1);
    assert_eq!(l.delegate(&acct(2), &acct(2), 120), Ok(300));
    assert_eq!(l.delegates.get(&acct(2)).unwrap().as_bytes(), &[2u8]);
    assert_eq!(l.get_current_votes(&acct(2)), 300);
    assert_eq!(history(&l, 1), before);
}
