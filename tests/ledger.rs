use dft_basic::block::{Block, TxRecord};
use dft_basic::fee::Fee;
use dft_basic::holder::TokenHolder;
use dft_basic::ledger::{ArchiveOutcome, BlockQuery, LedgerError, TokenLedger};
use dft_basic::types::{ApproveResult, BurnResult, TransferResult};

fn user(n: u8) -> TokenHolder {
    TokenHolder::Principal(vec![n, n, n, 2])
}

fn owner() -> TokenHolder {
    TokenHolder::Principal(vec![9, 9, 9, 2])
}

fn cashier() -> TokenHolder {
    TokenHolder::Principal(vec![7, 7, 7, 2])
}

fn ledger_with(fee: Fee, trigger: usize, batch: usize) -> TokenLedger {
    let mut l = TokenLedger::new(trigger, batch);
    l.initialize(owner(), cashier(), "Token".to_string(), "TKN".to_string(), 8, fee).unwrap();
    l
}

fn funded(fee: Fee, amount: u128) -> TokenLedger {
    let mut l = ledger_with(fee, 1000, 10);
    l.mint(&owner(), &user(1), amount, None, 1).unwrap();
    l
}

fn sha256(data: &[u8]) -> Vec<u8> {
    <sha2::Sha256 as sha2::Digest>::digest(data).to_vec()
}

#[test]
fn fee_rate_with_floor_takes_rate() {
    assert_eq!(Fee::RateWithLowestLimit(100, 50_000).compute(1_000_000), 500);
}

#[test]
fn fee_rate_with_floor_takes_floor() {
    assert_eq!(Fee::RateWithLowestLimit(100, 50_000).compute(1_000), 100);
}

#[test]
fn fee_fixed_ignores_amount() {
    assert_eq!(Fee::Fixed(10).compute(0), 10);
    assert_eq!(Fee::Fixed(10).compute(123_456_789), 10);
    assert_eq!(Fee::Fixed(10).compute(u128::MAX), 10);
}

#[test]
fn fee_rate_truncates() {
    // 999 * 50_000 / 100_000_000 = 0.4995
    assert_eq!(Fee::RateWithLowestLimit(0, 50_000).compute(999), 0);
    assert_eq!(Fee::RateWithLowestLimit(0, 100_000_000).compute(12345), 12345);
}

#[test]
fn fee_rate_on_largest_amount() {
    let expected = u128::MAX / 100_000_000 * 50_000 + (u128::MAX % 100_000_000) * 50_000 / 100_000_000;
    assert_eq!(Fee::RateWithLowestLimit(0, 50_000).compute(u128::MAX), expected);
    assert_eq!(Fee::RateWithLowestLimit(0, u32::MAX).compute(u128::MAX), u128::MAX);
}

#[test]
fn fee_text_forms() {
    assert_eq!(Fee::Fixed(10).to_text(), "10");
    assert_eq!(Fee::RateWithLowestLimit(100, 50_000).to_text(), "{lowest:100,rate:50000}");
}

#[test]
fn holder_text_round_trip_principal() {
    let h = TokenHolder::Principal(vec![]);
    let text = h.to_text();
    assert_eq!(text, "aaaaa-aa");
    let back = TokenHolder::from_str(&text).unwrap();
    assert!(matches!(back, TokenHolder::Principal(ref b) if b.is_empty()));
}

#[test]
fn holder_text_round_trip_canister() {
    let text = "ryjl3-tyaaa-aaaaa-aaaba-cai";
    let h = TokenHolder::from_str(text).unwrap();
    match &h {
        TokenHolder::Canister(b) => assert_eq!(b, &vec![0, 0, 0, 0, 0, 0, 0, 2, 1, 1]),
        other => panic!("expected a canister, got {:?}", other),
    }
    assert_eq!(h.to_text(), text);
}

#[test]
fn holder_text_round_trip_account() {
    let bytes: Vec<u8> = (0u8..32).collect();
    let h = TokenHolder::Account(bytes.clone());
    let text = h.to_text();
    assert_eq!(text, "000102030405060708090a0b0c0d0e0f101112131415161718191a1b1c1d1e1f");
    match TokenHolder::from_str(&text).unwrap() {
        TokenHolder::Account(b) => assert_eq!(b, bytes),
        other => panic!("expected an account, got {:?}", other),
    }
}

#[test]
fn holder_round_trip_user_principal() {
    let h = user(5);
    let back = TokenHolder::from_str(&h.to_text()).unwrap();
    match back {
        TokenHolder::Principal(b) => assert_eq!(b, vec![5, 5, 5, 2]),
        other => panic!("expected a principal, got {:?}", other),
    }
}

#[test]
fn holder_parse_accepts_upper_case() {
    let h = TokenHolder::from_str("RYJL3-TYAAA-AAAAA-AAABA-CAI").unwrap();
    assert!(matches!(h, TokenHolder::Canister(_)));
}

#[test]
fn holder_parse_rejects_garbage() {
    assert!(TokenHolder::from_str("not a holder").is_err());
    assert!(TokenHolder::from_str("").is_err());
    assert!(TokenHolder::from_str("0011").is_err());
}

#[test]
fn mint_from_zero_supply() {
    let mut l = ledger_with(Fee::Fixed(1), 1000, 10);
    assert_eq!(l.total_supply(), 0);
    let r = l.mint(&owner(), &user(1), 1000, None, 5).unwrap();
    assert_eq!(l.balance_of(&user(1)), 1000);
    assert_eq!(l.total_supply(), 1000);
    assert_eq!(r.height, 0);
    assert_eq!(l.chain_length(), 1);
}

#[test]
fn transfer_with_fixed_fee() {
    let mut l = funded(Fee::Fixed(1), 1000);
    let r = l.transfer(&user(1), &user(1), &user(2), 100, None, 7).unwrap();
    assert_eq!(l.balance_of(&user(1)), 899);
    assert_eq!(l.balance_of(&user(2)), 100);
    assert_eq!(l.balance_of(&cashier()), 1);
    assert_eq!(r.height, 1);
    assert_eq!(l.total_supply(), 1000);
}

#[test]
fn transfer_insufficient_balance_changes_nothing() {
    let mut l = funded(Fee::Fixed(1), 50);
    let r = l.transfer(&user(1), &user(1), &user(2), 100, None, 7);
    assert_eq!(r.unwrap_err(), LedgerError::InsufficientBalance);
    assert_eq!(l.balance_of(&user(1)), 50);
    assert_eq!(l.balance_of(&user(2)), 0);
    assert_eq!(l.chain_length(), 1);
}

#[test]
fn transfer_fee_counts_against_balance() {
    let mut l = funded(Fee::Fixed(1), 100);
    assert_eq!(l.transfer(&user(1), &user(1), &user(2), 100, None, 7).unwrap_err(), LedgerError::InsufficientBalance);
    assert!(l.transfer(&user(1), &user(1), &user(2), 99, None, 7).is_ok());
    assert_eq!(l.balance_of(&user(1)), 0);
}

#[test]
fn transfer_twice_is_refused_as_duplicate() {
    let mut l = funded(Fee::Fixed(1), 1000);
    let first = l.transfer(&user(1), &user(1), &user(2), 10, Some(42), 7);
    assert!(first.is_ok());
    let second = l.transfer(&user(1), &user(1), &user(2), 10, Some(42), 7);
    assert_eq!(second.unwrap_err(), LedgerError::DuplicateTransaction);
    assert_eq!(l.chain_length(), 2);
    assert_eq!(l.balance_of(&user(2)), 10);
    assert!(l.transfer(&user(1), &user(1), &user(2), 10, Some(43), 7).is_ok());
}

#[test]
fn approve_then_transfer_from() {
    let mut l = funded(Fee::Fixed(1), 1000);
    l.approve(&user(1), &user(1), &user(2), 200, None, 8).unwrap();
    assert_eq!(l.allowance(&user(1), &user(2)), 200);
    assert_eq!(l.balance_of(&user(1)), 999);
    l.transfer_from(&user(2), &user(1), &user(2), &user(3), 150, None, 9).unwrap();
    assert_eq!(l.allowance(&user(1), &user(2)), 49);
    assert_eq!(l.balance_of(&user(3)), 150);
    assert_eq!(l.balance_of(&user(1)), 848);
    assert_eq!(l.balance_of(&cashier()), 2);
}

#[test]
fn approve_is_last_write_wins() {
    let mut l = funded(Fee::Fixed(0), 1000);
    l.approve(&user(1), &user(1), &user(2), 200, None, 8).unwrap();
    l.approve(&user(1), &user(1), &user(2), 30, None, 8).unwrap();
    assert_eq!(l.allowance(&user(1), &user(2)), 30);
    assert_eq!(l.allowance(&user(2), &user(1)), 0);
}

#[test]
fn transfer_from_beyond_allowance() {
    let mut l = funded(Fee::Fixed(1), 1000);
    l.approve(&user(1), &user(1), &user(2), 100, None, 8).unwrap();
    let r = l.transfer_from(&user(2), &user(1), &user(2), &user(3), 100, None, 9);
    assert_eq!(r.unwrap_err(), LedgerError::InsufficientAllowance);
    assert_eq!(l.allowance(&user(1), &user(2)), 100);
}

#[test]
fn transfer_from_beyond_balance() {
    let mut l = funded(Fee::Fixed(0), 10);
    l.approve(&user(1), &user(1), &user(2), 100, None, 8).unwrap();
    let r = l.transfer_from(&user(2), &user(1), &user(2), &user(3), 50, None, 9);
    assert_eq!(r.unwrap_err(), LedgerError::InsufficientBalance);
}

#[test]
fn approve_needs_the_fee() {
    let mut l = ledger_with(Fee::Fixed(5), 1000, 10);
    let r = l.approve(&user(1), &user(1), &user(2), 100, None, 8);
    assert_eq!(r.unwrap_err(), LedgerError::InsufficientBalance);
}

#[test]
fn owner_gated_operations() {
    let mut l = ledger_with(Fee::Fixed(0), 1000, 10);
    assert_eq!(l.mint(&user(1), &user(1), 5, None, 1).unwrap_err(), LedgerError::Unauthorized);
    assert_eq!(l.approve(&user(2), &user(1), &user(2), 5, None, 1).unwrap_err(), LedgerError::Unauthorized);
    assert_eq!(
        l.transfer_from(&user(1), &user(1), &user(2), &user(3), 5, None, 1).unwrap_err(),
        LedgerError::Unauthorized
    );
}

#[test]
fn mint_amount_checks() {
    let mut l = ledger_with(Fee::Fixed(0), 1000, 10);
    assert_eq!(l.mint(&owner(), &user(1), 0, None, 1).unwrap_err(), LedgerError::InvalidAmount);
    l.mint(&owner(), &user(1), u128::MAX, None, 1).unwrap();
    assert_eq!(l.mint(&owner(), &user(2), 1, None, 1).unwrap_err(), LedgerError::InvalidAmount);
    assert_eq!(l.total_supply(), u128::MAX);
}

#[test]
fn burn_reduces_supply() {
    let mut l = funded(Fee::Fixed(0), 100);
    l.burn(&user(1), &user(1), 40, 3).unwrap();
    assert_eq!(l.balance_of(&user(1)), 60);
    assert_eq!(l.total_supply(), 60);
    assert_eq!(l.burn(&user(1), &user(1), 61, 3).unwrap_err(), LedgerError::InsufficientBalance);
}

#[test]
fn uninitialized_and_double_initialization() {
    let mut l = TokenLedger::new(10, 5);
    assert_eq!(l.transfer(&user(1), &user(1), &user(2), 1, None, 1).unwrap_err(), LedgerError::NotInitialized);
    assert_eq!(l.mint(&owner(), &user(1), 1, None, 1).unwrap_err(), LedgerError::NotInitialized);
    l.initialize(owner(), cashier(), "A".to_string(), "B".to_string(), 2, Fee::Fixed(0)).unwrap();
    let again = l.initialize(owner(), cashier(), "C".to_string(), "D".to_string(), 3, Fee::Fixed(1));
    assert_eq!(again.unwrap_err(), LedgerError::AlreadyInitialized);
    assert_eq!(l.name(), "A");
    assert_eq!(l.symbol(), "B");
    assert_eq!(l.decimals(), 2);
    assert_eq!(l.fee(), Fee::Fixed(0));
}

#[test]
fn blocks_are_hash_chained() {
    let mut l = funded(Fee::Fixed(1), 1000);
    l.transfer(&user(1), &user(1), &user(2), 5, None, 2).unwrap();
    let b0 = match l.block_by_height(0) {
        BlockQuery::Found(b) => b,
        other => panic!("{:?}", other),
    };
    let b1 = match l.block_by_height(1) {
        BlockQuery::Found(b) => b,
        other => panic!("{:?}", other),
    };
    assert_eq!(b0.parent_hash, vec![0u8; 32]);
    assert_eq!(b1.parent_hash, b0.hash);
    assert_eq!(l.tip_hash(), b1.hash);
    let mut data = b1.parent_hash.clone();
    data.extend(b1.record.encode());
    data.extend(1u64.to_le_bytes());
    assert_eq!(b1.hash, sha256(&data));
    assert!(matches!(l.block_by_height(2), BlockQuery::NotFound));
}

#[test]
fn receipt_hashes() {
    let mut l = funded(Fee::Fixed(1), 1000);
    let r = l.transfer(&user(1), &user(1), &user(2), 5, None, 2).unwrap();
    assert_eq!(r.block_hash, l.tip_hash());
    let record = TxRecord::Transfer(user(1), user(1), user(2), 5, 1, 2);
    assert_eq!(r.tx_hash, sha256(&record.encode()));
}

#[test]
fn sealed_block_hash() {
    let record = TxRecord::Mint(owner(), user(1), 3, 4);
    let parent = vec![1u8; 32];
    let b = Block::seal(&parent, record, 7);
    assert_eq!(b.height, 7);
    let mut data = parent.clone();
    data.extend(b.record.encode());
    data.extend(7u64.to_le_bytes());
    assert_eq!(b.hash, sha256(&data));
}

#[test]
fn archive_migrates_oldest_batch() {
    let mut l = ledger_with(Fee::Fixed(0), 3, 2);
    l.mint(&owner(), &user(1), 100, None, 1).unwrap();
    for i in 0..3u64 {
        l.transfer(&user(1), &user(1), &user(2), 1, None, i).unwrap();
    }
    assert_eq!(l.archive_due(), Some((0, 2)));
    let (start, count) = l.start_archive().unwrap();
    assert_eq!((start, count), (0, 2));
    assert_eq!(l.archive_due(), None);
    assert_eq!(l.start_archive(), None);
    let batch = l.blocks_to_archive(count);
    assert_eq!(batch.len(), 2);
    assert_eq!(batch[0].height, 0);
    let moved_hash = batch[1].hash.clone();
    assert!(l.finish_archive(start, count, 77, ArchiveOutcome::Committed));
    assert_eq!(l.archive_cursor, 2);
    assert_eq!(l.archives().len(), 1);
    match l.block_by_height(1) {
        BlockQuery::Archived(a) => {
            assert_eq!((a.start, a.end, a.unit), (0, 2, 77));
            assert_eq!(batch[1].height, 1);
            assert_eq!(batch[1].hash, moved_hash);
        }
        other => panic!("{:?}", other),
    }
    match l.block_by_height(2) {
        BlockQuery::Found(b) => assert_eq!(b.parent_hash, moved_hash),
        other => panic!("{:?}", other),
    }
    assert!(l.archive_due().is_none());
}

#[test]
fn archive_failure_keeps_state_and_retries() {
    let mut l = ledger_with(Fee::Fixed(0), 1, 1);
    l.mint(&owner(), &user(1), 100, None, 1).unwrap();
    let r = l.transfer(&user(1), &user(1), &user(2), 1, None, 2);
    assert!(r.is_ok());
    let due = l.start_archive().unwrap();
    assert!(l.finish_archive(due.0, due.1, 5, ArchiveOutcome::Failed));
    assert_eq!(l.archive_cursor, 0);
    assert!(l.archives().is_empty());
    assert_eq!(l.archive_due(), Some(due));
    assert!(matches!(l.block_by_height(0), BlockQuery::Found(_)));
    assert_eq!(l.balance_of(&user(2)), 1);
}

#[test]
fn range_query_is_clamped() {
    let mut l = funded(Fee::Fixed(0), 1000);
    for i in 0..5u64 {
        l.transfer(&user(1), &user(1), &user(2), 1, None, i).unwrap();
    }
    let (first, blocks) = l.blocks_by_range(2, 10);
    assert_eq!(first, 2);
    assert_eq!(blocks.len(), 4);
    assert_eq!(blocks[0].height, 2);
    assert_eq!(blocks[3].height, 5);
    let (_, none) = l.blocks_by_range(9, 3);
    assert!(none.is_empty());
    let (_, all) = l.blocks_by_range(0, u64::MAX);
    assert_eq!(all.len(), 6);
}

#[test]
fn result_conversions() {
    let mut l = funded(Fee::Fixed(0), 10);
    let ok = l.transfer(&user(1), &user(1), &user(2), 1, None, 1);
    assert!(matches!(TransferResult::from_outcome(&ok, None), TransferResult::Succeeded(1, None)));
    let err = l.transfer(&user(1), &user(1), &user(2), 100, None, 1);
    match TransferResult::from_outcome(&err, None) {
        TransferResult::Failed(m) => assert_eq!(m, "InsufficientBalance"),
        other => panic!("{:?}", other),
    }
    assert!(matches!(BurnResult::from_outcome(&ok), BurnResult::Succeeded));
    match ApproveResult::from_outcome(&err, None) {
        ApproveResult::Failed(m) => assert_eq!(m, "InsufficientBalance"),
        other => panic!("{:?}", other),
    }
}

#[test]
fn allowances_of_lists_nonzero_spenders() {
    let mut l = funded(Fee::Fixed(0), 1000);
    l.approve(&user(1), &user(1), &user(2), 200, None, 8).unwrap();
    l.approve(&user(1), &user(1), &user(3), 0, None, 8).unwrap();
    l.approve(&user(1), &user(1), &TokenHolder::Account(vec![4u8; 32]), 7, None, 8).unwrap();
    l.mint(&owner(), &user(5), 10, None, 1).unwrap();
    l.approve(&user(5), &user(5), &user(2), 9, None, 8).unwrap();
    let list = l.allowances_of(&user(1));
    assert_eq!(list.len(), 2);
    assert!(matches!(&list[0], (TokenHolder::Principal(b), 200) if b == &vec![2, 2, 2, 2]));
    assert!(matches!(&list[1], (TokenHolder::Account(b), 7) if b == &vec![4u8; 32]));
    assert!(l.allowances_of(&user(9)).is_empty());
}

#[test]
fn holder_from_principal_classifies() {
    assert!(matches!(TokenHolder::from_principal(vec![0, 0, 0, 0, 0, 0, 0, 2, 1, 1]), TokenHolder::Canister(_)));
    assert!(matches!(TokenHolder::from_principal(vec![3, 2]), TokenHolder::Principal(_)));
    assert!(matches!(TokenHolder::from_principal(vec![]), TokenHolder::Principal(_)));
}

#[test]
fn tx_id_is_hex_of_tx_hash() {
    let mut l = funded(Fee::Fixed(0), 1000);
    let r = l.transfer(&user(1), &user(1), &user(2), 5, None, 2).unwrap();
    let id = r.tx_id();
    assert_eq!(id.len(), 64);
    let expected: String = r.tx_hash.iter().map(|b| format!("{:02x}", b)).collect();
    assert_eq!(id, expected);
}

#[test]
fn metadata_reflects_supply() {
    let l = funded(Fee::RateWithLowestLimit(1, 2), 77);
    let m = l.metadata();
    assert_eq!(m.name, "Token");
    assert_eq!(m.symbol, "TKN");
    assert_eq!(m.decimals, 8);
    assert_eq!(m.total_supply, 77);
    assert_eq!(m.fee, Fee::RateWithLowestLimit(1, 2));
}

#[test]
fn setup_mints_initial_supply() {
    let mut l = TokenLedger::new(10, 5);
    let r = l.setup(owner(), "Token".to_string(), "TKN".to_string(), 8, Fee::Fixed(1), 1000, 3).unwrap();
    assert_eq!(r.unwrap().height, 0);
    assert_eq!(l.balance_of(&owner()), 1000);
    assert_eq!(l.total_supply(), 1000);
    assert_eq!(l.chain_length(), 1);
    let again = l.setup(owner(), "X".to_string(), "Y".to_string(), 1, Fee::Fixed(0), 5, 3);
    assert_eq!(again.unwrap_err(), LedgerError::AlreadyInitialized);
}

#[test]
fn setup_with_zero_supply_writes_no_block() {
    let mut l = TokenLedger::new(10, 5);
    assert!(l.setup(owner(), "Token".to_string(), "TKN".to_string(), 8, Fee::Fixed(1), 0, 3).unwrap().is_none());
    assert_eq!(l.chain_length(), 0);
    assert_eq!(l.total_supply(), 0);
    assert_eq!(l.tip_hash(), vec![0u8; 32]);
}

#[test]
fn migration_runs_one_at_a_time() {
    let mut l = ledger_with(Fee::Fixed(0), 1, 1);
    l.mint(&owner(), &user(1), 100, None, 1).unwrap();
    l.transfer(&user(1), &user(1), &user(2), 1, None, 2).unwrap();
    let batch = l.start_archive().unwrap();
    assert_eq!(batch, (0, 1));
    // a write while the archive call is pending starts no second migration
    l.transfer(&user(1), &user(1), &user(2), 1, None, 3).unwrap();
    assert_eq!(l.start_archive(), None);
    // only the batch under way can be finished
    assert!(!l.finish_archive(0, 2, 9, ArchiveOutcome::Committed));
    assert!(!l.finish_archive(1, 1, 9, ArchiveOutcome::Committed));
    assert_eq!(l.archive_cursor, 0);
    assert!(l.finish_archive(0, 1, 9, ArchiveOutcome::Committed));
    assert!(!l.finish_archive(0, 1, 9, ArchiveOutcome::Committed));
    assert_eq!(l.archive_cursor, 1);
    assert_eq!(l.archives().len(), 1);
    assert_eq!(l.chain_length(), 3);
    assert_eq!(l.start_archive(), Some((1, 1)));
}

#[test]
fn only_the_holder_moves_or_burns_its_tokens() {
    let mut l = funded(Fee::Fixed(0), 100);
    assert_eq!(l.transfer(&user(2), &user(1), &user(2), 10, None, 1).unwrap_err(), LedgerError::Unauthorized);
    assert_eq!(l.burn(&user(2), &user(1), 10, 1).unwrap_err(), LedgerError::Unauthorized);
    assert_eq!(l.balance_of(&user(1)), 100);
    assert_eq!(l.chain_length(), 1);
}

#[test]
fn setup_twice_after_positive_supply() {
    let mut l = TokenLedger::new(10, 5);
    l.setup(owner(), "Token".to_string(), "TKN".to_string(), 8, Fee::Fixed(1), 1000, 3).unwrap();
    let again = l.setup(owner(), "X".to_string(), "Y".to_string(), 1, Fee::Fixed(0), 5, 3);
    assert_eq!(again.unwrap_err(), LedgerError::AlreadyInitialized);
    assert_eq!(l.total_supply(), 1000);
    assert_eq!(l.name(), "Token");
    assert_eq!(l.chain_length(), 1);
}

#[test]
fn setup_receipt_certifies_first_block() {
    let mut l = TokenLedger::new(10, 5);
    let receipt = l.setup(owner(), "Token".to_string(), "TKN".to_string(), 8, Fee::Fixed(1), 1000, 3).unwrap().unwrap();
    match l.block_by_height(0) {
        BlockQuery::Found(b) => {
            assert_eq!(b.hash, receipt.block_hash);
            assert!(matches!(b.record, TxRecord::Mint(_, _, 1000, 3)));
        }
        other => panic!("{:?}", other),
    }
}
