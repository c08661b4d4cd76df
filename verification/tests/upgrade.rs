use ic_token::account::Account;
use ic_token::history::{OpRecord, Operation};
use ic_token::token::{Metadata, Token, UpgradePayload};

fn account(byte: u8) -> Account {
    Account::from_bytes(vec![byte, byte])
}

fn used_token() -> Token {
    let owner = account(1);
    let mut token = Token::init(
        String::from("logo"),
        String::from("Kept"),
        String::from("KPT"),
        4,
        9_000,
        owner.clone(),
        5,
        10,
    );
    assert_eq!(token.transfer(&owner, &account(2), 1_000, 11), Ok(1));
    assert_eq!(token.transfer(&owner, &account(3), 2_000, 12), Ok(2));
    assert_eq!(token.approve(&account(2), &account(3), 300, 13), Ok(3));
    assert_eq!(token.approve(&account(2), &account(4), 200, 14), Ok(4));
    assert_eq!(token.approve(&account(3), &account(2), 100, 15), Ok(5));
    assert_eq!(
        token.transfer_from(&account(3), &account(2), &account(5), 120, 16),
        Ok(6)
    );
    token
}

fn blank_payload() -> UpgradePayload {
    UpgradePayload {
        metadata: Metadata::default(),
        balance: Vec::new(),
        allow: Vec::new(),
        ops: Vec::new(),
        deploy_time: 0,
    }
}

#[test]
fn restored_token_answers_as_before() {
    let token = used_token();
    let restored = Token::post_upgrade(token.pre_upgrade()).unwrap();
    for byte in 0..8u8 {
        assert_eq!(
            restored.balance_of(&account(byte)),
            token.balance_of(&account(byte))
        );
        for other in 0..8u8 {
            assert_eq!(
                restored.allowance(&account(byte), &account(other)),
                token.allowance(&account(byte), &account(other))
            );
        }
    }
    assert_eq!(
        restored.balance_of(&Account::anonymous()),
        token.balance_of(&Account::anonymous())
    );
    assert_eq!(restored.balance_of(&account(2)), 875);
    assert_eq!(restored.allowance(&account(2), &account(3)), 180);
    let (kept, back) = (token.metadata(), restored.metadata());
    assert_eq!(back.logo, kept.logo);
    assert_eq!(back.name, kept.name);
    assert_eq!(back.symbol, kept.symbol);
    assert_eq!(back.decimals, kept.decimals);
    assert_eq!(back.total_supply, kept.total_supply);
    assert_eq!(back.owner, kept.owner);
    assert_eq!(back.fee, kept.fee);
    assert_eq!(back.fee_to, kept.fee_to);
    assert_eq!(restored.history_size(), token.history_size());
    assert_eq!(restored.token_info(0).deploy_time, 10);
    assert_eq!(
        restored.token_info(0).holder_number,
        token.token_info(0).holder_number
    );
    for index in 0..token.history_size() {
        let kept = token.get_transaction(index).unwrap();
        let back = restored.get_transaction(index).unwrap();
        assert_eq!(back.caller, kept.caller);
        assert_eq!(back.op, kept.op);
        assert_eq!(back.index, kept.index);
        assert_eq!(back.from, kept.from);
        assert_eq!(back.to, kept.to);
        assert_eq!(back.amount, kept.amount);
        assert_eq!(back.fee, kept.fee);
        assert_eq!(back.timestamp, kept.timestamp);
    }
}

#[test]
fn restored_token_goes_on_with_the_next_index() {
    let token = used_token();
    let size = token.history_size();
    let mut restored = Token::post_upgrade(token.pre_upgrade()).unwrap();
    assert_eq!(
        restored.transfer(&account(1), &account(6), 1, 20),
        Ok(size)
    );
    assert_eq!(restored.approve(&account(6), &account(1), 1, 21), Ok(size + 1));
    assert_eq!(restored.history_size(), size + 2);
}

#[test]
fn payload_holds_the_whole_state() {
    let token = used_token();
    let payload = token.pre_upgrade();
    assert_eq!(payload.metadata.total_supply, 9_000);
    assert_eq!(payload.deploy_time, 10);
    assert_eq!(payload.ops.len(), 7);
    let mut balance: Vec<(Vec<u8>, u64)> = payload
        .balance
        .iter()
        .map(|pair| (pair.0.as_bytes().clone(), pair.1))
        .collect();
    balance.sort();
    assert_eq!(
        balance,
        vec![
            (vec![1, 1], 5_990),
            (vec![2, 2], 875),
            (vec![3, 3], 2_000),
            (vec![4], 15),
            (vec![5, 5], 120),
        ]
    );
    let mut allow: Vec<(Vec<u8>, Vec<(Vec<u8>, u64)>)> = payload
        .allow
        .iter()
        .map(|block| {
            let mut limits: Vec<(Vec<u8>, u64)> = block
                .1
                .iter()
                .map(|pair| (pair.0.as_bytes().clone(), pair.1))
                .collect();
            limits.sort();
            (block.0.as_bytes().clone(), limits)
        })
        .collect();
    allow.sort();
    assert_eq!(
        allow,
        vec![
            (vec![2, 2], vec![(vec![3, 3], 180), (vec![4, 4], 200)]),
            (vec![3, 3], vec![(vec![2, 2], 100)]),
        ]
    );
}

#[test]
fn blank_payload_gives_a_blank_token() {
    let token = Token::post_upgrade(blank_payload()).unwrap();
    assert_eq!(token.history_size(), 0);
    assert_eq!(token.metadata().total_supply, 0);
    let again = Token::post_upgrade(Token::default().pre_upgrade()).unwrap();
    assert_eq!(again.history_size(), 0);
}

#[test]
fn payload_whose_balances_miss_the_total_supply_is_refused() {
    let mut payload = used_token().pre_upgrade();
    payload.metadata.total_supply = 9_001;
    assert!(Token::post_upgrade(payload).is_none());

    let mut payload = used_token().pre_upgrade();
    payload.balance.push((account(9), 1));
    assert!(Token::post_upgrade(payload).is_none());

    let mut payload = blank_payload();
    payload.balance = vec![(account(1), u64::MAX), (account(2), 1)];
    payload.metadata.total_supply = 0;
    assert!(Token::post_upgrade(payload).is_none());
}

#[test]
fn payload_with_a_repeated_account_counts_its_later_pair() {
    let mut payload = blank_payload();
    payload.metadata.total_supply = 15;
    payload.balance = vec![(account(1), 100), (account(2), 5), (account(1), 10)];
    let token = Token::post_upgrade(payload).unwrap();
    assert_eq!(token.balance_of(&account(1)), 10);
    assert_eq!(token.balance_of(&account(2)), 5);
}

#[test]
fn payload_whose_records_are_out_of_place_is_refused() {
    let mut payload = used_token().pre_upgrade();
    payload.ops.remove(2);
    assert!(Token::post_upgrade(payload).is_none());

    let mut payload = blank_payload();
    payload.ops = vec![OpRecord {
        caller: None,
        op: Operation::Mint,
        index: 3,
        from: Account::system(),
        to: account(1),
        amount: 0,
        fee: 0,
        timestamp: 0,
    }];
    assert!(Token::post_upgrade(payload).is_none());
}
