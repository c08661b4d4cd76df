use ic_token::account::Account;
use ic_token::token::{Metadata, Token};

#[test]
fn anonymous_account_is_the_byte_four() {
    assert_eq!(Account::anonymous().as_bytes(), &vec![4u8]);
}

#[test]
fn system_account_has_no_bytes() {
    assert_eq!(Account::system().as_bytes(), &Vec::<u8>::new());
    assert_eq!(Account::from_text("aaaaa-aa"), Some(Account::system()));
}

#[test]
fn text_is_decoded_to_bytes() {
    let account = Account::from_text("2chl6-4hpzw-vqaaa-aaaaa-c").unwrap();
    assert_eq!(
        account.as_bytes(),
        &vec![0xef, 0xcd, 0xab, 0x00, 0x00, 0x00, 0x00, 0x00, 0x01]
    );
    assert_ne!(account.as_bytes(), &"2chl6-4hpzw-vqaaa-aaaaa-c".as_bytes().to_vec());
    assert_eq!(Account::from_text("2vxsx-fae"), Some(Account::anonymous()));
}

#[test]
fn text_that_is_no_identifier_is_refused() {
    assert_eq!(Account::from_text(""), None);
    assert_eq!(Account::from_text("aaaaa-ab"), None);
    assert_eq!(Account::from_text("not an identifier"), None);
    assert_eq!(Account::from_text("2chl64hpzwvqaaaaaaaac"), None);
}

#[test]
fn accounts_are_equal_by_value() {
    let a = Account::from_bytes(vec![1, 2, 3]);
    let b = Account::from_bytes(vec![1, 2, 3]);
    assert_eq!(a, b);
    assert_eq!(a, a.clone());
    assert_ne!(a, Account::from_bytes(vec![1, 2]));
    assert_ne!(a, Account::from_bytes(vec![1, 2, 4]));
    assert_ne!(a, Account::from_bytes(vec![1, 2, 3, 0]));
    assert_ne!(Account::from_bytes(vec![]), Account::from_bytes(vec![0]));
    assert_eq!(a.as_bytes(), &vec![1u8, 2, 3]);
}

#[test]
fn default_metadata_is_blank() {
    let metadata = Metadata::default();
    assert_eq!(metadata.logo, "");
    assert_eq!(metadata.name, "");
    assert_eq!(metadata.symbol, "");
    assert_eq!(metadata.decimals, 0);
    assert_eq!(metadata.total_supply, 0);
    assert_eq!(metadata.owner, Account::anonymous());
    assert_eq!(metadata.fee, 0);
    assert_eq!(metadata.fee_to, Account::anonymous());
}

#[test]
fn default_token_is_blank() {
    let token = Token::default();
    assert_eq!(token.history_size(), 0);
    assert_eq!(token.metadata().total_supply, 0);
    assert_eq!(token.balance_of(&Account::anonymous()), 0);
    let info = token.token_info(0);
    assert_eq!(info.holder_number, 0);
    assert_eq!(info.deploy_time, 0);
}

#[test]
fn init_sets_the_metadata() {
    let owner = Account::from_bytes(vec![7; 29]);
    let token = Token::init(
        String::from("data:image/png"),
        String::from("Example"),
        String::from("EXM"),
        6,
        21_000_000,
        owner.clone(),
        25,
        1_650_000_000,
    );
    let metadata = token.metadata();
    assert_eq!(metadata.logo, "data:image/png");
    assert_eq!(metadata.name, "Example");
    assert_eq!(metadata.symbol, "EXM");
    assert_eq!(metadata.decimals, 6);
    assert_eq!(metadata.total_supply, 21_000_000);
    assert_eq!(metadata.owner, owner);
    assert_eq!(metadata.fee, 25);
    assert_eq!(metadata.fee_to, Account::anonymous());
}

#[test]
fn token_info_reports_the_state() {
    let owner = Account::from_bytes(vec![1]);
    let a = Account::from_bytes(vec![2]);
    let b = Account::from_bytes(vec![3]);
    let mut token = Token::init(
        String::new(),
        String::from("Example"),
        String::from("EXM"),
        6,
        500,
        owner.clone(),
        2,
        77,
    );
    assert_eq!(token.transfer(&owner, &a, 10, 80), Ok(1));
    assert_eq!(token.transfer(&owner, &b, 10, 81), Ok(2));
    assert_eq!(token.transfer(&a, &b, 8, 82), Ok(3));
    let info = token.token_info(123_456);
    assert_eq!(info.metadata.name, "Example");
    assert_eq!(info.metadata.total_supply, 500);
    assert_eq!(info.fee_to, Account::anonymous());
    assert_eq!(info.history_size, 4);
    assert_eq!(info.deploy_time, 77);
    assert_eq!(info.holder_number, 3);
    assert_eq!(info.cycles, 123_456);
}
