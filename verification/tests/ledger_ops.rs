use token_ledger::ledger::{Account, LedgerError, Mint, TokenLedger};

#[test]
fn test_initialize() {
    let mut l = TokenLedger::new();
    let m = l.create_mint(1, 10).unwrap();
    assert_eq!(m, Mint { id: 1, authority: 10, total_supply: 0 });
    assert_eq!(l.mint(), Some(m));
    assert_eq!(l.account(7), None);
}

#[test]
fn test_mint_token() {
    let mut l = TokenLedger::new();
    l.create_mint(1, 10).unwrap();
    l.open_account(1, 7, 10).unwrap();
    assert!(l.mint_to(1, 7, 100, 10).is_ok());
    assert_eq!(l.account(7).unwrap().balance, 100);
}

#[test]
fn test_transfer_token() {
    let mut l = TokenLedger::new();
    l.create_mint(1, 10).unwrap();
    l.open_account(1, 7, 10).unwrap();
    l.open_account(1, 8, 10).unwrap();
    l.mint_to(1, 7, 100, 10).unwrap();
    assert!(l.transfer(1, 7, 8, 50, 10).is_ok());
    assert_eq!(l.account(7).unwrap().balance, 50);
    assert_eq!(l.account(8).unwrap().balance, 50);
}

#[test]
fn full_issuance_flow() {
    let a: u64 = 10;
    let mut l = TokenLedger::new();
    let m = l.create_mint(1, a).unwrap();
    assert_eq!(m.total_supply, 0);
    let acc1 = l.open_account(1, 7, a).unwrap();
    assert_eq!(acc1, Account { id: 7, mint_id: 1, owner: a, balance: 0 });
    assert!(l.mint_to(1, 7, 100, a).is_ok());
    assert_eq!(l.mint().unwrap().total_supply, 100);
    assert_eq!(l.account(7).unwrap().balance, 100);
    let acc2 = l.open_account(1, 8, a).unwrap();
    assert_eq!(acc2.balance, 0);
    assert!(l.transfer(1, 7, 8, 50, a).is_ok());
    assert_eq!(l.account(7).unwrap().balance, 50);
    assert_eq!(l.account(8).unwrap().balance, 50);
    assert_eq!(l.mint().unwrap().total_supply, 100);
}

#[test]
fn mint_by_non_authority_rejected() {
    let a: u64 = 10;
    let b: u64 = 11;
    let mut l = TokenLedger::new();
    l.create_mint(1, a).unwrap();
    l.open_account(1, 7, a).unwrap();
    assert_eq!(l.mint_to(1, 7, 100, b), Err(LedgerError::Unauthorized));
    assert_eq!(l.account(7).unwrap().balance, 0);
    assert_eq!(l.mint().unwrap().total_supply, 0);
}

#[test]
fn second_mint_rejected() {
    let mut l = TokenLedger::new();
    l.create_mint(1, 10).unwrap();
    assert_eq!(l.create_mint(1, 10), Err(LedgerError::AlreadyInitialized));
    assert_eq!(l.create_mint(2, 11), Err(LedgerError::AlreadyInitialized));
    assert_eq!(l.mint(), Some(Mint { id: 1, authority: 10, total_supply: 0 }));
}

#[test]
fn duplicate_account_rejected() {
    let mut l = TokenLedger::new();
    l.create_mint(1, 10).unwrap();
    l.open_account(1, 7, 10).unwrap();
    assert_eq!(l.open_account(1, 7, 12), Err(LedgerError::DuplicateAccount));
    assert_eq!(l.account(7).unwrap().owner, 10);
}

#[test]
fn several_accounts_per_owner() {
    let mut l = TokenLedger::new();
    l.create_mint(1, 10).unwrap();
    l.open_account(1, 7, 10).unwrap();
    l.open_account(1, 8, 10).unwrap();
    assert_eq!(l.account(7).unwrap().owner, 10);
    assert_eq!(l.account(8).unwrap().owner, 10);
    assert_ne!(l.account(7).unwrap().id, l.account(8).unwrap().id);
}

#[test]
fn wrong_mint_rejected() {
    let mut l = TokenLedger::new();
    l.create_mint(1, 10).unwrap();
    assert_eq!(l.open_account(2, 7, 10), Err(LedgerError::AccountMintMismatch));
    l.open_account(1, 7, 10).unwrap();
    assert_eq!(l.mint_to(2, 7, 5, 10), Err(LedgerError::AccountMintMismatch));
    assert_eq!(l.transfer(2, 7, 7, 0, 10), Err(LedgerError::AccountMintMismatch));
    assert_eq!(l.account(7).unwrap().balance, 0);
}

#[test]
fn missing_account_rejected() {
    let mut l = TokenLedger::new();
    l.create_mint(1, 10).unwrap();
    l.open_account(1, 7, 10).unwrap();
    assert_eq!(l.mint_to(1, 9, 5, 10), Err(LedgerError::AccountMintMismatch));
    assert_eq!(l.transfer(1, 9, 7, 0, 10), Err(LedgerError::AccountMintMismatch));
    assert_eq!(l.transfer(1, 7, 9, 0, 10), Err(LedgerError::AccountMintMismatch));
}

#[test]
fn uninitialized_ledger_rejects_operations() {
    let mut l = TokenLedger::new();
    assert_eq!(l.open_account(1, 7, 10), Err(LedgerError::AccountMintMismatch));
    assert_eq!(l.mint_to(1, 7, 5, 10), Err(LedgerError::AccountMintMismatch));
    assert_eq!(l.transfer(1, 7, 8, 5, 10), Err(LedgerError::AccountMintMismatch));
    assert_eq!(l.mint(), None);
}

#[test]
fn supply_overflow_rejected() {
    let mut l = TokenLedger::new();
    l.create_mint(1, 10).unwrap();
    l.open_account(1, 7, 10).unwrap();
    assert!(l.mint_to(1, 7, u64::MAX, 10).is_ok());
    assert_eq!(l.mint_to(1, 7, 1, 10), Err(LedgerError::Overflow));
    assert_eq!(l.account(7).unwrap().balance, u64::MAX);
    assert_eq!(l.mint().unwrap().total_supply, u64::MAX);
}

#[test]
fn insufficient_funds_rejected() {
    let mut l = TokenLedger::new();
    l.create_mint(1, 10).unwrap();
    l.open_account(1, 7, 10).unwrap();
    l.open_account(1, 8, 11).unwrap();
    l.mint_to(1, 7, 30, 10).unwrap();
    assert_eq!(l.transfer(1, 7, 8, 31, 10), Err(LedgerError::InsufficientFunds));
    assert_eq!(l.account(7).unwrap().balance, 30);
    assert_eq!(l.account(8).unwrap().balance, 0);
    assert_eq!(l.mint().unwrap().total_supply, 30);
}

#[test]
fn transfer_by_non_owner_rejected() {
    let mut l = TokenLedger::new();
    l.create_mint(1, 10).unwrap();
    l.open_account(1, 7, 11).unwrap();
    l.open_account(1, 8, 12).unwrap();
    l.mint_to(1, 7, 30, 10).unwrap();
    assert_eq!(l.transfer(1, 7, 8, 5, 12), Err(LedgerError::Unauthorized));
    assert_eq!(l.account(7).unwrap().balance, 30);
    assert_eq!(l.account(8).unwrap().balance, 0);
}

#[test]
fn self_transfer_changes_nothing() {
    let mut l = TokenLedger::new();
    l.create_mint(1, 10).unwrap();
    l.open_account(1, 7, 10).unwrap();
    l.mint_to(1, 7, 30, 10).unwrap();
    assert!(l.transfer(1, 7, 7, 20, 10).is_ok());
    assert_eq!(l.account(7).unwrap().balance, 30);
    assert_eq!(l.mint().unwrap().total_supply, 30);
}

#[test]
fn balances_always_sum_to_supply() {
    let mut l = TokenLedger::new();
    l.create_mint(1, 10).unwrap();
    let ids: [u64; 3] = [7, 8, 9];
    for (k, id) in ids.iter().enumerate() {
        l.open_account(1, *id, 10 + k as u64).unwrap();
    }
    l.mint_to(1, 7, 1000, 10).unwrap();
    l.transfer(1, 7, 8, 300, 10).unwrap();
    l.transfer(1, 8, 9, 100, 11).unwrap();
    let _ = l.transfer(1, 9, 7, 500, 12);
    let mut sum: u64 = 0;
    for id in ids.iter() {
        sum += l.account(*id).unwrap().balance;
    }
    assert_eq!(sum, l.mint().unwrap().total_supply);
    assert_eq!(l.account(7).unwrap().balance, 700);
    assert_eq!(l.account(8).unwrap().balance, 200);
    assert_eq!(l.account(9).unwrap().balance, 100);
}
