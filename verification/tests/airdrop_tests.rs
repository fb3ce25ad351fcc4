use airdrop_program::batch::airdrop;
use airdrop_program::batch::checked_sum;
use airdrop_program::batch::AirdropError;
use airdrop_program::identity::Identity;
use airdrop_program::ledger::RecipientLedger;
use airdrop_program::state::get_total_airdropped;
use airdrop_program::state::initialize;
use airdrop_program::state::AirdropState;

fn ident(n: u64) -> Identity {
    Identity { w0: n, w1: n ^ 0xABCD, w2: 3 * n, w3: n + 17 }
}

#[test]
fn initialize_zeroes_state() {
    let owner = ident(1);
    let state = initialize(owner);
    assert_eq!(state.owner, owner);
    assert_eq!(state.total_airdropped, 0);
    assert_eq!(state.total_airdrops, 0);
}

#[test]
fn batch_distributes_and_counts() {
    let owner = ident(1);
    let r1 = ident(10);
    let r2 = ident(20);
    let r3 = ident(30);
    let mut state = initialize(owner);
    let mut ledger = RecipientLedger::new();
    let recipients = vec![r1, r2, r3];
    let amounts = vec![1_000_000_000u64, 2_000_000_000, 1_500_000_000];
    let result = airdrop(&mut state, &mut ledger, owner, 5_000_000_000, &recipients, &amounts, 1_700_000_000);
    let (receipt, event) = result.unwrap();
    assert_eq!(receipt.count, 3);
    assert_eq!(receipt.total_amount, 4_500_000_000);
    assert_eq!(event.total_recipients, 3);
    assert_eq!(event.total_amount, 4_500_000_000);
    assert_eq!(event.timestamp, 1_700_000_000);
    assert_eq!(state.owner, owner);
    assert_eq!(state.total_airdropped, 4_500_000_000);
    assert_eq!(state.total_airdrops, 1);
    assert_eq!(ledger.amount_received_of(r1), 1_000_000_000);
    assert_eq!(ledger.amount_received_of(r2), 2_000_000_000);
    assert_eq!(ledger.amount_received_of(r3), 1_500_000_000);
    assert_eq!(ledger.record_count(), 3);
}

#[test]
fn unauthorized_caller_changes_nothing() {
    let owner = ident(1);
    let intruder = ident(2);
    let mut state = initialize(owner);
    let mut ledger = RecipientLedger::new();
    let recipients = vec![ident(10), ident(20), ident(30)];
    let amounts = vec![1_000_000_000u64, 2_000_000_000, 1_500_000_000];
    let result = airdrop(&mut state, &mut ledger, intruder, 5_000_000_000, &recipients, &amounts, 0);
    assert_eq!(result.unwrap_err(), AirdropError::Unauthorized);
    assert_eq!(state, AirdropState { owner, total_airdropped: 0, total_airdrops: 0 });
    assert_eq!(ledger.record_count(), 0);
    assert!(!ledger.has_recipient(ident(10)));
}

#[test]
fn length_mismatch_rejected() {
    let owner = ident(1);
    let mut state = initialize(owner);
    let mut ledger = RecipientLedger::new();
    let recipients = vec![ident(10), ident(20)];
    let amounts = vec![5u64];
    let result = airdrop(&mut state, &mut ledger, owner, 100, &recipients, &amounts, 0);
    assert_eq!(result.unwrap_err(), AirdropError::ArrayLengthMismatch);
    assert_eq!(state.total_airdropped, 0);
    assert_eq!(state.total_airdrops, 0);
    assert_eq!(ledger.record_count(), 0);
}

#[test]
fn length_mismatch_is_checked_first() {
    let owner = ident(1);
    let intruder = ident(2);
    let mut state = initialize(owner);
    let mut ledger = RecipientLedger::new();
    let recipients = vec![ident(10), ident(20)];
    let amounts = vec![5u64];
    let result = airdrop(&mut state, &mut ledger, intruder, 0, &recipients, &amounts, 0);
    assert_eq!(result.unwrap_err(), AirdropError::ArrayLengthMismatch);
}

#[test]
fn empty_batch_rejected() {
    let owner = ident(1);
    let mut state = initialize(owner);
    let mut ledger = RecipientLedger::new();
    let recipients: Vec<Identity> = vec![];
    let amounts: Vec<u64> = vec![];
    let result = airdrop(&mut state, &mut ledger, owner, 100, &recipients, &amounts, 0);
    assert_eq!(result.unwrap_err(), AirdropError::NoRecipients);
    assert_eq!(state.total_airdropped, 0);
    assert_eq!(state.total_airdrops, 0);
}

#[test]
fn insufficient_funds_rejected() {
    let owner = ident(1);
    let mut state = initialize(owner);
    let mut ledger = RecipientLedger::new();
    let recipients = vec![ident(10), ident(20)];
    let amounts = vec![60u64, 41];
    let result = airdrop(&mut state, &mut ledger, owner, 100, &recipients, &amounts, 0);
    assert_eq!(result.unwrap_err(), AirdropError::InsufficientFunds);
    assert_eq!(state.total_airdropped, 0);
    assert_eq!(state.total_airdrops, 0);
    assert_eq!(ledger.record_count(), 0);
}

#[test]
fn batch_sum_overflow_rejected() {
    let owner = ident(1);
    let mut state = initialize(owner);
    let mut ledger = RecipientLedger::new();
    let recipients = vec![ident(10), ident(20)];
    let amounts = vec![u64::MAX, 1];
    let result = airdrop(&mut state, &mut ledger, owner, u64::MAX, &recipients, &amounts, 0);
    assert_eq!(result.unwrap_err(), AirdropError::AmountOverflow);
    assert_eq!(state.total_airdropped, 0);
    assert_eq!(state.total_airdrops, 0);
    assert_eq!(ledger.record_count(), 0);
}

#[test]
fn total_counter_overflow_rejected() {
    let owner = ident(1);
    let mut state = AirdropState { owner, total_airdropped: u64::MAX - 5, total_airdrops: 3 };
    let mut ledger = RecipientLedger::new();
    let recipients = vec![ident(10)];
    let amounts = vec![10u64];
    let result = airdrop(&mut state, &mut ledger, owner, 100, &recipients, &amounts, 0);
    assert_eq!(result.unwrap_err(), AirdropError::AmountOverflow);
    assert_eq!(state.total_airdropped, u64::MAX - 5);
    assert_eq!(state.total_airdrops, 3);
    assert_eq!(ledger.record_count(), 0);
}

#[test]
fn batch_count_overflow_rejected() {
    let owner = ident(1);
    let mut state = AirdropState { owner, total_airdropped: 0, total_airdrops: u64::MAX };
    let mut ledger = RecipientLedger::new();
    let recipients = vec![ident(10)];
    let amounts = vec![10u64];
    let result = airdrop(&mut state, &mut ledger, owner, 100, &recipients, &amounts, 0);
    assert_eq!(result.unwrap_err(), AirdropError::AmountOverflow);
    assert_eq!(state.total_airdrops, u64::MAX);
    assert_eq!(state.total_airdropped, 0);
}

#[test]
fn recipient_accumulation_overflow_rejected() {
    let owner = ident(1);
    let target = ident(10);
    let mut ledger = RecipientLedger::new();
    let mut first_state = initialize(owner);
    let recipients = vec![target];
    let first_amounts = vec![u64::MAX - 1];
    airdrop(&mut first_state, &mut ledger, owner, u64::MAX, &recipients, &first_amounts, 0).unwrap();
    assert_eq!(ledger.amount_received_of(target), u64::MAX - 1);

    let mut second_state = initialize(owner);
    let second_amounts = vec![2u64];
    let result = airdrop(&mut second_state, &mut ledger, owner, 100, &recipients, &second_amounts, 0);
    assert_eq!(result.unwrap_err(), AirdropError::AmountOverflow);
    assert_eq!(second_state.total_airdropped, 0);
    assert_eq!(second_state.total_airdrops, 0);
    assert_eq!(ledger.amount_received_of(target), u64::MAX - 1);
}

#[test]
fn resubmitted_batch_doubles_everything() {
    let owner = ident(1);
    let r1 = ident(10);
    let r2 = ident(20);
    let mut state = initialize(owner);
    let mut ledger = RecipientLedger::new();
    let recipients = vec![r1, r2];
    let amounts = vec![500u64, 250];
    airdrop(&mut state, &mut ledger, owner, 1_000, &recipients, &amounts, 0).unwrap();
    airdrop(&mut state, &mut ledger, owner, 1_000, &recipients, &amounts, 0).unwrap();
    assert_eq!(state.total_airdropped, 1_500);
    assert_eq!(state.total_airdrops, 2);
    assert_eq!(ledger.amount_received_of(r1), 1_000);
    assert_eq!(ledger.amount_received_of(r2), 500);
    assert_eq!(ledger.record_count(), 2);
}

#[test]
fn same_recipient_accumulates_across_batches() {
    let owner = ident(1);
    let target = ident(10);
    let bystander = ident(20);
    let mut state = initialize(owner);
    let mut ledger = RecipientLedger::new();
    let first = airdrop(&mut state, &mut ledger, owner, 100, &vec![bystander], &vec![7u64], 0);
    first.unwrap();
    let batch = vec![target];
    let amounts = vec![40u64];
    airdrop(&mut state, &mut ledger, owner, 100, &batch, &amounts, 0).unwrap();
    airdrop(&mut state, &mut ledger, owner, 100, &batch, &amounts, 0).unwrap();
    assert_eq!(ledger.amount_received_of(target), 80);
    assert_eq!(ledger.amount_received_of(bystander), 7);
    assert_eq!(ledger.record_count(), 2);
}

#[test]
fn duplicate_recipient_within_one_batch_accumulates() {
    let owner = ident(1);
    let target = ident(10);
    let mut state = initialize(owner);
    let mut ledger = RecipientLedger::new();
    let recipients = vec![target, target];
    let amounts = vec![5u64, 7];
    let (receipt, _event) = airdrop(&mut state, &mut ledger, owner, 100, &recipients, &amounts, 0).unwrap();
    assert_eq!(receipt.count, 2);
    assert_eq!(receipt.total_amount, 12);
    assert_eq!(ledger.amount_received_of(target), 12);
    assert_eq!(ledger.record_count(), 1);
}

#[test]
fn checked_sum_is_exact() {
    assert_eq!(checked_sum(&vec![1u64, 2, 3]), Some(6));
    assert_eq!(checked_sum(&vec![]), Some(0));
    assert_eq!(checked_sum(&vec![u64::MAX, 1]), None);
    assert_eq!(checked_sum(&vec![u64::MAX]), Some(u64::MAX));
}

#[test]
fn stats_accessor_reads_total() {
    let owner = ident(1);
    let mut state = initialize(owner);
    let mut ledger = RecipientLedger::new();
    assert_eq!(get_total_airdropped(&state), 0);
    airdrop(&mut state, &mut ledger, owner, 100, &vec![ident(10)], &vec![25u64], 0).unwrap();
    assert_eq!(get_total_airdropped(&state), 25);
}

#[test]
fn absent_recipient_reads_zero() {
    let ledger = RecipientLedger::new();
    assert_eq!(ledger.amount_received_of(ident(99)), 0);
    assert!(!ledger.has_recipient(ident(99)));
}
