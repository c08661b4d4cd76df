use ic_token::account::Account;
use ic_token::allowances::Allowances;
use ic_token::balances::Balances;
use ic_token::history::{OpRecord, Operation, Ops};
use ic_token::receipt::TxError;
use ic_token::table::AccountTable;

fn account(byte: u8) -> Account {
    Account::from_bytes(vec![byte])
}

#[test]
fn balance_defaults_to_zero() {
    let balances = Balances::new();
    assert_eq!(balances.balance_of(&account(1)), 0);
    assert_eq!(balances.holders(), 0);
    assert_eq!(balances.total(), Some(0));
}

#[test]
fn credit_creates_and_raises_an_entry() {
    let mut balances = Balances::new();
    balances.credit(&account(1), 5);
    assert_eq!(balances.balance_of(&account(1)), 5);
    assert_eq!(balances.holders(), 1);
    balances.credit(&account(1), 7);
    assert_eq!(balances.balance_of(&account(1)), 12);
    assert_eq!(balances.holders(), 1);
    balances.credit(&account(2), 1);
    assert_eq!(balances.balance_of(&account(2)), 1);
    assert_eq!(balances.balance_of(&account(1)), 12);
    assert_eq!(balances.holders(), 2);
    assert_eq!(balances.total(), Some(13));
}

#[test]
fn credit_of_nothing_creates_no_entry() {
    let mut balances = Balances::new();
    balances.credit(&account(1), 0);
    assert_eq!(balances.balance_of(&account(1)), 0);
    assert_eq!(balances.holders(), 0);
}

#[test]
fn credit_stops_at_the_largest_amount() {
    let mut balances = Balances::new();
    balances.credit(&account(1), u64::MAX - 1);
    balances.credit(&account(1), 5);
    assert_eq!(balances.balance_of(&account(1)), u64::MAX);
    balances.credit(&account(2), 1);
    assert_eq!(balances.total(), None);
}

#[test]
fn debit_lowers_and_removes_an_entry() {
    let mut balances = Balances::new();
    balances.credit(&account(1), 10);
    assert_eq!(balances.debit(&account(1), 4), Ok(()));
    assert_eq!(balances.balance_of(&account(1)), 6);
    assert_eq!(balances.holders(), 1);
    assert_eq!(balances.debit(&account(1), 6), Ok(()));
    assert_eq!(balances.balance_of(&account(1)), 0);
    assert_eq!(balances.holders(), 0);
}

#[test]
fn debit_beyond_the_balance_is_rejected() {
    let mut balances = Balances::new();
    balances.credit(&account(1), 10);
    assert_eq!(balances.debit(&account(1), 11), Err(TxError::InsufficientBalance));
    assert_eq!(balances.balance_of(&account(1)), 10);
    assert_eq!(balances.debit(&account(2), 1), Err(TxError::InsufficientBalance));
    assert_eq!(balances.balance_of(&account(2)), 0);
    assert_eq!(balances.holders(), 1);
    assert_eq!(balances.debit(&account(2), 0), Ok(()));
    assert_eq!(balances.holders(), 1);
}

#[test]
fn accounts_are_told_apart_by_their_bytes_alone() {
    let mut balances = Balances::new();
    balances.credit(&Account::from_bytes(vec![1]), 1);
    balances.credit(&Account::from_bytes(vec![1, 0]), 2);
    balances.credit(&Account::from_bytes(vec![0, 1]), 3);
    balances.credit(&Account::from_bytes(vec![]), 4);
    assert_eq!(balances.balance_of(&Account::from_bytes(vec![1])), 1);
    assert_eq!(balances.balance_of(&Account::from_bytes(vec![1, 0])), 2);
    assert_eq!(balances.balance_of(&Account::from_bytes(vec![0, 1])), 3);
    assert_eq!(balances.balance_of(&Account::from_bytes(vec![])), 4);
    assert_eq!(balances.balance_of(&Account::from_bytes(vec![0])), 0);
    assert_eq!(balances.holders(), 4);
}

#[test]
fn balances_pairs_round_trip() {
    let mut balances = Balances::new();
    for byte in 0..20u8 {
        balances.credit(&account(byte), u64::from(byte) * 3 + 1);
    }
    assert_eq!(balances.debit(&account(7), 22), Ok(()));
    let pairs = balances.to_pairs();
    assert_eq!(pairs.len(), 19);
    let restored = Balances::from_pairs(&pairs);
    for byte in 0..25u8 {
        assert_eq!(
            restored.balance_of(&account(byte)),
            balances.balance_of(&account(byte))
        );
    }
    assert_eq!(restored.holders(), 19);
    assert_eq!(restored.total(), balances.total());
}

#[test]
fn later_pair_of_an_account_counts() {
    let pairs = vec![(account(1), 5), (account(2), 6), (account(1), 9)];
    let balances = Balances::from_pairs(&pairs);
    assert_eq!(balances.balance_of(&account(1)), 9);
    assert_eq!(balances.balance_of(&account(2)), 6);
    assert_eq!(balances.holders(), 2);
    assert_eq!(balances.total(), Some(15));
}

#[test]
fn allowance_defaults_to_zero() {
    let allowances = Allowances::new();
    assert_eq!(allowances.allowance_of(&account(1), &account(2)), 0);
    assert!(allowances.to_grants().is_empty());
}

#[test]
fn set_allowance_overwrites() {
    let mut allowances = Allowances::new();
    allowances.set_allowance(&account(1), &account(2), 50);
    assert_eq!(allowances.allowance_of(&account(1), &account(2)), 50);
    assert_eq!(allowances.allowance_of(&account(2), &account(1)), 0);
    allowances.set_allowance(&account(1), &account(2), 30);
    assert_eq!(allowances.allowance_of(&account(1), &account(2)), 30);
    allowances.set_allowance(&account(1), &account(3), 8);
    assert_eq!(allowances.allowance_of(&account(1), &account(2)), 30);
    assert_eq!(allowances.allowance_of(&account(1), &account(3)), 8);
    allowances.set_allowance(&account(1), &account(2), 0);
    assert_eq!(allowances.allowance_of(&account(1), &account(2)), 0);
    assert_eq!(allowances.allowance_of(&account(1), &account(3)), 8);
    allowances.set_allowance(&account(1), &account(3), 0);
    assert!(allowances.to_grants().is_empty());
}

#[test]
fn consume_allowance_lowers_the_limit() {
    let mut allowances = Allowances::new();
    allowances.set_allowance(&account(1), &account(2), 50);
    assert_eq!(allowances.consume_allowance(&account(1), &account(2), 20), Ok(()));
    assert_eq!(allowances.allowance_of(&account(1), &account(2)), 30);
    assert_eq!(
        allowances.consume_allowance(&account(1), &account(2), 31),
        Err(TxError::InsufficientAllowance)
    );
    assert_eq!(allowances.allowance_of(&account(1), &account(2)), 30);
    assert_eq!(
        allowances.consume_allowance(&account(2), &account(1), 1),
        Err(TxError::InsufficientAllowance)
    );
    assert_eq!(allowances.consume_allowance(&account(1), &account(2), 30), Ok(()));
    assert_eq!(allowances.allowance_of(&account(1), &account(2)), 0);
    assert!(allowances.to_grants().is_empty());
    assert_eq!(allowances.consume_allowance(&account(1), &account(2), 0), Ok(()));
}

#[test]
fn allowances_grants_round_trip() {
    let mut allowances = Allowances::new();
    for owner in 0..6u8 {
        for spender in 0..6u8 {
            if (owner + spender) % 3 != 0 {
                allowances.set_allowance(
                    &account(owner),
                    &account(spender),
                    u64::from(owner) * 10 + u64::from(spender),
                );
            }
        }
    }
    let grants = allowances.to_grants();
    assert_eq!(grants.len(), 6);
    let restored = Allowances::from_grants(&grants);
    for owner in 0..7u8 {
        for spender in 0..7u8 {
            assert_eq!(
                restored.allowance_of(&account(owner), &account(spender)),
                allowances.allowance_of(&account(owner), &account(spender))
            );
        }
    }
}

#[test]
fn later_block_of_an_owner_counts() {
    let grants = vec![
        (account(1), vec![(account(2), 5), (account(3), 6)]),
        (account(4), vec![(account(2), 7), (account(2), 8)]),
        (account(1), vec![(account(3), 9)]),
    ];
    let allowances = Allowances::from_grants(&grants);
    assert_eq!(allowances.allowance_of(&account(1), &account(2)), 0);
    assert_eq!(allowances.allowance_of(&account(1), &account(3)), 9);
    assert_eq!(allowances.allowance_of(&account(4), &account(2)), 8);
}

#[test]
fn add_record_returns_the_position() {
    let mut ops = Ops::new();
    assert_eq!(ops.len(), 0);
    assert!(ops.get(0).is_none());
    let first = ops.add_record(
        None,
        Operation::Mint,
        Account::system(),
        account(1),
        10,
        0,
        100,
    );
    assert_eq!(first, 0);
    let second = ops.add_record(
        Some(account(1)),
        Operation::Transfer,
        account(1),
        account(2),
        3,
        1,
        200,
    );
    assert_eq!(second, 1);
    assert_eq!(ops.len(), 2);
    let record = ops.get(1).unwrap();
    assert_eq!(record.index, 1);
    assert_eq!(record.caller, Some(account(1)));
    assert_eq!(record.op, Operation::Transfer);
    assert_eq!(record.from, account(1));
    assert_eq!(record.to, account(2));
    assert_eq!(record.amount, 3);
    assert_eq!(record.fee, 1);
    assert_eq!(record.timestamp, 200);
    assert_eq!(ops.get(0).unwrap().caller, None);
    assert!(ops.get(2).is_none());
    ops.indices_dense();
}

#[test]
fn records_round_trip() {
    let mut ops = Ops::new();
    for n in 0..5u64 {
        ops.add_record(
            Some(account(n as u8)),
            Operation::Approve,
            account(n as u8),
            account(9),
            n,
            0,
            n * 10,
        );
    }
    let records = ops.to_records();
    assert_eq!(records.len(), 5);
    let restored = Ops::from_records(records).unwrap();
    assert_eq!(restored.len(), 5);
    for index in 0..5usize {
        let kept = ops.get(index).unwrap();
        let back = restored.get(index).unwrap();
        assert_eq!(back.index, index);
        assert_eq!(back.caller, kept.caller);
        assert_eq!(back.amount, kept.amount);
        assert_eq!(back.timestamp, kept.timestamp);
    }
}

#[test]
fn records_with_a_gap_are_refused() {
    let record = |index: usize| OpRecord {
        caller: None,
        op: Operation::Transfer,
        index,
        from: account(1),
        to: account(2),
        amount: 1,
        fee: 0,
        timestamp: 0,
    };
    assert!(Ops::from_records(vec![record(0), record(1), record(2)]).is_some());
    assert!(Ops::from_records(vec![record(0), record(2)]).is_none());
    assert!(Ops::from_records(vec![record(1)]).is_none());
    assert!(Ops::from_records(vec![record(0), record(0)]).is_none());
    assert!(Ops::from_records(Vec::new()).is_some());
}

#[test]
fn table_keeps_one_value_for_each_account() {
    let mut table: AccountTable<String> = AccountTable::new();
    assert_eq!(table.len(), 0);
    table.insert(account(1), String::from("one"));
    table.insert(account(2), String::from("two"));
    table.insert(account(3), String::from("three"));
    table.insert(account(2), String::from("second"));
    assert_eq!(table.len(), 3);
    assert_eq!(table.get(&account(2)), Some(&String::from("second")));
    assert!(table.contains_key(&account(1)));
    assert!(!table.contains_key(&account(4)));
    assert_eq!(table.get(&account(4)), None);
    assert_eq!(table.remove(&account(1)), Some(String::from("one")));
    assert_eq!(table.remove(&account(1)), None);
    assert_eq!(table.len(), 2);
    assert_eq!(table.get(&account(3)), Some(&String::from("three")));
    assert_eq!(table.get(&account(2)), Some(&String::from("second")));
    let mut seen = Vec::new();
    for place in 0..table.len() {
        let (key, value) = table.entry_at(place).unwrap();
        seen.push((key.as_bytes().clone(), value.clone()));
    }
    assert!(table.entry_at(table.len()).is_none());
    seen.sort();
    assert_eq!(
        seen,
        vec![
            (vec![2u8], String::from("second")),
            (vec![3u8], String::from("three"))
        ]
    );
}
