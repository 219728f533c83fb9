use stream_ledger::{fee_amount, AccountId, Contract, StreamError, TransferKind, MAX_RATE};

const T: u64 = 100;

fn alice() -> AccountId {
    AccountId::new("alice".to_string())
}

fn bob() -> AccountId {
    AccountId::new("bob".to_string())
}

fn owner() -> AccountId {
    AccountId::new("owner".to_string())
}

fn fee_receiver() -> AccountId {
    AccountId::new("fees".to_string())
}

fn usdc() -> AccountId {
    AccountId::new("usdc.near".to_string())
}

fn ledger(fee_rate: u64) -> Contract {
    Contract::new(owner(), AccountId::new("manager".to_string()), fee_receiver(), fee_rate, 200).unwrap()
}

fn native_fees(c: &Contract) -> u128 {
    let fees = c.view_claimable_fee();
    fees[fees.len() - 1].amount
}

fn token_fees(c: &Contract, token: &AccountId) -> u128 {
    c.view_claimable_fee().iter().filter(|e| e.token == *token).map(|e| e.amount).next().unwrap_or(0)
}

#[test]
fn receiver_then_sender_scenario() {
    let mut c = ledger(0);
    let id = c.create_stream(&alice(), &bob(), 1, T, T + 10, false, false, 10, T).unwrap();
    let t = c.withdraw(id, &bob(), T + 2).unwrap();
    assert_eq!(t.amount, 2);
    assert!(t.recipient == bob());
    let s = c.get_stream(id).unwrap();
    assert_eq!(s.balance, 8);
    assert_eq!(s.withdraw_time, T + 2);
    assert_eq!(c.internal_resolve_withdraw_stream(id, true), Ok(true));
    assert_eq!(c.withdraw(id, &alice(), T + 11).err(), Some(StreamError::AlreadyWithdrawn));
}

#[test]
fn paused_interval_is_refunded_to_sender() {
    let mut c = ledger(0);
    let id = c.create_stream(&alice(), &bob(), 1, T, T + 20, false, false, 20, T).unwrap();
    c.pause(id, &alice(), T + 4).unwrap();
    c.resume(id, &alice(), T + 6).unwrap();
    assert_eq!(c.get_stream(id).unwrap().withdraw_time, T + 2);
    let t = c.withdraw(id, &alice(), T + 21).unwrap();
    assert_eq!(t.amount, 2);
    assert!(t.recipient == alice());
    assert_eq!(c.get_stream(id).unwrap().balance, 18);
    assert_eq!(c.get_stream(id).unwrap().withdrawable_by_receiver(T + 21), 18);
}

#[test]
fn cancel_before_start_keeps_everything_for_sender() {
    let mut c = ledger(25);
    let id = c.create_stream(&alice(), &bob(), 3, T + 10, T + 20, true, false, 30, T).unwrap();
    assert!(c.cancel(id, &alice(), T + 5).unwrap().is_none());
    let s = c.get_stream(id).unwrap();
    assert_eq!(s.balance, 30);
    assert_eq!(s.withdrawn_amount, 0);
    assert!(s.is_cancelled && !s.locked);
    assert_eq!(native_fees(&c), 0);
    let t = c.claim(id, &alice()).unwrap();
    assert_eq!(t.amount, 30);
    assert!(t.recipient == alice());
    assert_eq!(c.get_stream(id).unwrap().balance, 0);
}

#[test]
fn fee_is_rounded_down() {
    assert_eq!(fee_amount(9, 25), 0);
    assert_eq!(fee_amount(400, 25), 1);
    assert_eq!(fee_amount(799, 25), 1);
    assert_eq!(fee_amount(u128::MAX, 10_000), u128::MAX);
    assert_eq!(fee_amount(u128::MAX, 25), u128::MAX / 10_000 * 25 + (u128::MAX % 10_000) * 25 / 10_000);
    let mut c = ledger(25);
    let id = c.create_stream(&alice(), &bob(), 1, T, T + 1000, false, false, 1000, T).unwrap();
    let t = c.withdraw(id, &bob(), T + 9).unwrap();
    assert_eq!(t.amount, 9);
    assert_eq!(native_fees(&c), 0);
    c.unlock(id);
    let t = c.withdraw(id, &bob(), T + 809).unwrap();
    assert_eq!(t.amount, 800 - 2);
    assert_eq!(native_fees(&c), 2);
    assert_eq!(c.get_stream(id).unwrap().balance, 1000 - 809);
}

#[test]
fn balance_never_exceeds_deposit() {
    let mut c = ledger(25);
    let id = c.create_stream(&alice(), &bob(), 5, T + 10, T + 20, true, true, 50, T).unwrap();
    c.update(id, &alice(), None, Some(T + 30), None, 60, T + 1).unwrap();
    let s = c.get_stream(id).unwrap();
    assert_eq!(s.balance, 110);
    assert_eq!(s.total_amount, 110);
    c.pause(id, &alice(), T + 15).unwrap();
    c.resume(id, &alice(), T + 18).unwrap();
    c.withdraw(id, &bob(), T + 25).unwrap();
    c.unlock(id);
    let s = c.get_stream(id).unwrap();
    assert!(s.balance <= s.total_amount);
    assert_eq!(s.balance + s.withdrawn_amount, 110);
    assert_eq!(s.paused_amount, 15);
    assert_eq!(s.withdrawn_amount, 60);
}

#[test]
fn failed_withdrawal_is_rolled_back_exactly() {
    let mut c = ledger(200);
    let id = c.create_stream(&alice(), &bob(), 100, T, T + 10, false, false, 1000, T).unwrap();
    let before = c.get_stream(id).unwrap();
    let t = c.withdraw(id, &bob(), T + 4).unwrap();
    assert_eq!(t.amount, 400 - 8);
    assert_eq!(native_fees(&c), 8);
    let during = c.get_stream(id).unwrap();
    assert!(during.locked);
    assert_eq!(during.balance, 600);
    assert_eq!(during.withdrawn_amount, 400);
    assert_eq!(c.internal_resolve_cancel_stream(id, false), Err(StreamError::NoPendingTransfer));
    assert_eq!(c.internal_resolve_withdraw_stream(id, false), Ok(false));
    let after = c.get_stream(id).unwrap();
    assert_eq!(after.balance, before.balance);
    assert_eq!(after.withdraw_time, before.withdraw_time);
    assert_eq!(after.withdrawn_amount, before.withdrawn_amount);
    assert!(!after.locked);
    assert_eq!(native_fees(&c), 0);
    assert_eq!(c.internal_resolve_withdraw_stream(id, false), Err(StreamError::NoPendingTransfer));
}

#[test]
fn failed_cancel_is_rolled_back_exactly() {
    let mut c = ledger(200);
    let id = c.create_stream(&alice(), &bob(), 100, T, T + 10, true, false, 1000, T).unwrap();
    let t = c.cancel(id, &alice(), T + 5).unwrap().unwrap();
    assert_eq!(t.amount, 500 - 10);
    assert!(c.get_stream(id).unwrap().is_cancelled);
    assert_eq!(c.internal_resolve_cancel_stream(id, false), Ok(false));
    let s = c.get_stream(id).unwrap();
    assert!(!s.is_cancelled && !s.locked);
    assert_eq!(s.balance, 1000);
    assert_eq!(s.withdraw_time, T);
    assert_eq!(s.withdrawn_amount, 0);
    assert_eq!(native_fees(&c), 0);
}

#[test]
fn failed_claim_returns_the_balance() {
    let mut c = ledger(0);
    let id = c.create_stream(&alice(), &bob(), 1, T + 10, T + 20, true, false, 10, T).unwrap();
    c.cancel(id, &alice(), T).unwrap();
    assert_eq!(c.claim(id, &bob()).err(), Some(StreamError::Unauthorized));
    c.claim(id, &alice()).unwrap();
    assert_eq!(c.claim(id, &alice()).err(), Some(StreamError::Locked));
    assert_eq!(c.internal_resolve_claim_stream(id, false), Ok(false));
    assert_eq!(c.get_stream(id).unwrap().balance, 10);
    c.claim(id, &alice()).unwrap();
    assert_eq!(c.internal_resolve_claim_stream(id, true), Ok(true));
    assert_eq!(c.claim(id, &alice()).err(), Some(StreamError::NoBalance));
}

#[test]
fn second_withdrawal_in_flight_is_locked() {
    let mut c = ledger(0);
    let id = c.create_stream(&alice(), &bob(), 1, T, T + 10, false, false, 10, T).unwrap();
    c.withdraw(id, &bob(), T + 3).unwrap();
    assert_eq!(c.withdraw(id, &bob(), T + 5).err(), Some(StreamError::Locked));
    assert_eq!(c.pause(id, &alice(), T + 5), Err(StreamError::Locked));
    assert_eq!(c.withdraw(id, &bob(), T + 1).err(), Some(StreamError::ClockWentBackwards));
    assert_eq!(c.get_stream(id).unwrap().balance, 7);
    assert_eq!(c.internal_resolve_withdraw_stream(id, true), Ok(true));
    assert_eq!(c.withdraw(id, &bob(), T + 5).unwrap().amount, 2);
}

#[test]
fn pausing_lowers_lifetime_payout_by_rate_times_pause() {
    let lifetime = |c: &Contract, id: u64| {
        let s = c.get_stream(id).unwrap();
        s.withdrawn_amount + s.rate * (s.end_time - s.withdraw_time) as u128
    };
    let mut c = ledger(0);
    let id = c.create_stream(&alice(), &bob(), 7, T, T + 100, false, false, 700, T).unwrap();
    c.withdraw(id, &bob(), T + 10).unwrap();
    c.unlock(id);
    let before = lifetime(&c, id);
    assert_eq!(before, 700);
    c.pause(id, &alice(), T + 20).unwrap();
    c.resume(id, &alice(), T + 35).unwrap();
    assert_eq!(lifetime(&c, id), before - 7 * 15);
    assert_eq!(c.get_stream(id).unwrap().paused_amount, 7 * 15);
    c.pause(id, &alice(), T + 90).unwrap();
    c.resume(id, &alice(), T + 150).unwrap();
    assert_eq!(lifetime(&c, id), before - 7 * 15 - 7 * 10);
}

#[test]
fn token_stream_fees_and_claims() {
    let mut c = ledger(100);
    assert_eq!(
        c.ft_create_stream(&usdc(), &alice(), 1000, &bob(), 10, T, T + 100, false, false, T),
        Err(StreamError::TokenNotAccepted)
    );
    c.extend_whitelisted_tokens(&owner(), vec![usdc()]).unwrap();
    let id = c.ft_create_stream(&usdc(), &alice(), 1000, &bob(), 10, T, T + 100, false, false, T).unwrap();
    let s = c.get_stream(id).unwrap();
    assert!(!s.is_native);
    assert!(s.contract_id == usdc());
    assert_eq!(
        c.update(id, &alice(), None, None, Some(20), 1000, T),
        Err(StreamError::NotNative)
    );
    let t = c.withdraw(id, &bob(), T + 50).unwrap();
    assert_eq!(t.amount, 500 - 5);
    assert!(!t.is_native);
    assert!(t.contract_id == usdc());
    c.unlock(id);
    assert_eq!(token_fees(&c, &usdc()), 5);
    assert_eq!(native_fees(&c), 0);
    assert_eq!(c.claim_fee_ft(&fee_receiver(), &usdc()), Ok(5));
    assert_eq!(token_fees(&c, &usdc()), 0);
    assert_eq!(c.internal_resolve_claim_fee_ft(&usdc(), 5, false), Ok(false));
    assert_eq!(token_fees(&c, &usdc()), 5);
    assert_eq!(c.internal_resolve_claim_fee_ft(&usdc(), 5, true), Ok(true));
    assert_eq!(token_fees(&c, &usdc()), 5);
}

#[test]
fn native_fee_claim_and_rollback() {
    let mut c = ledger(200);
    let id = c.create_stream(&alice(), &bob(), 100, T, T + 10, false, false, 1000, T).unwrap();
    c.withdraw(id, &bob(), T + 10).unwrap();
    c.unlock(id);
    assert_eq!(native_fees(&c), 20);
    assert_eq!(c.claim_fee_native(&fee_receiver()), Ok(20));
    assert_eq!(native_fees(&c), 0);
    assert_eq!(c.internal_resolve_claim_fee_native(20, false), Ok(false));
    assert_eq!(native_fees(&c), 20);
    assert_eq!(c.internal_resolve_claim_fee_native(u128::MAX, false), Err(StreamError::AmountOverflow));
}

#[test]
fn creation_is_validated_in_order() {
    let mut c = ledger(0);
    let create = |c: &mut Contract, rate: u128, start: u64, end: u64, deposit: u128, now: u64| {
        c.create_stream(&alice(), &bob(), rate, start, end, false, false, deposit, now)
    };
    assert_eq!(create(&mut c, 1, T - 1, T + 10, 11, T), Err(StreamError::StartInPast));
    assert_eq!(create(&mut c, 1, T + 10, T + 9, 0, T), Err(StreamError::EndBeforeStart));
    assert_eq!(create(&mut c, 0, T, T + 10, 0, T), Err(StreamError::ZeroRate));
    assert_eq!(create(&mut c, MAX_RATE, T, T + 10, 0, T), Err(StreamError::RateTooHigh));
    assert_eq!(create(&mut c, MAX_RATE - 1, T, u64::MAX, 0, T), Err(StreamError::AmountOverflow));
    assert_eq!(create(&mut c, 1, T, T + 10, 9, T), Err(StreamError::DepositMismatch));
    assert_eq!(create(&mut c, 1, T, T, 0, T), Ok(1));
    assert_eq!(create(&mut c, 1, T, T + 10, 10, T - 1), Err(StreamError::ClockWentBackwards));
    let s = c.get_stream(1).unwrap();
    assert_eq!(s.balance, 0);
    assert_eq!(c.withdraw(1, &bob(), T + 1).err(), Some(StreamError::NoBalance));
    assert_eq!(c.withdraw(9, &bob(), T + 1).err(), Some(StreamError::StreamNotFound));
}

#[test]
fn update_rules() {
    let mut c = ledger(0);
    let id = c.create_stream(&alice(), &bob(), 2, T + 10, T + 20, false, true, 20, T).unwrap();
    let fixed = c.create_stream(&alice(), &bob(), 2, T + 10, T + 20, false, false, 20, T).unwrap();
    assert_eq!(c.update(fixed, &alice(), None, None, None, 1, T), Err(StreamError::CannotUpdate));
    assert_eq!(c.update(id, &alice(), Some(T + 20), None, None, 1, T), Err(StreamError::StartNotBeforeEnd));
    assert_eq!(c.update(id, &alice(), Some(T + 5), None, None, 1, T + 6), Err(StreamError::StartInPast));
    assert_eq!(c.update(id, &alice(), None, None, Some(0), 1, T), Err(StreamError::ZeroRate));
    assert_eq!(c.update(id, &alice(), None, None, Some(MAX_RATE), 1, T), Err(StreamError::RateTooHigh));
    assert_eq!(c.update(id, &alice(), None, None, Some(5), 29, T), Err(StreamError::InsufficientDeposit));
    assert_eq!(c.update(id, &alice(), None, None, Some(1), 0, T), Err(StreamError::OneUnitRequired));
    c.update(id, &alice(), None, None, Some(1), 1, T).unwrap();
    let s = c.get_stream(id).unwrap();
    assert_eq!((s.rate, s.balance, s.total_amount), (1, 20, 20));
    c.update(id, &alice(), Some(T + 12), Some(T + 14), Some(15), 10, T + 1).unwrap();
    let s = c.get_stream(id).unwrap();
    assert_eq!((s.start_time, s.withdraw_time, s.end_time), (T + 12, T + 12, T + 14));
    assert_eq!((s.rate, s.balance, s.total_amount), (15, 30, 30));
}

#[test]
fn lifecycle_refusals() {
    let mut c = ledger(0);
    let id = c.create_stream(&alice(), &bob(), 1, T + 10, T + 20, true, false, 10, T).unwrap();
    assert_eq!(c.withdraw(id, &bob(), T + 5).err(), Some(StreamError::NotStarted));
    assert_eq!(c.withdraw(id, &owner(), T + 15).err(), Some(StreamError::Unauthorized));
    assert_eq!(c.pause(id, &bob(), T + 15), Err(StreamError::Unauthorized));
    assert_eq!(c.pause(id, &alice(), T + 10), Err(StreamError::OutsidePauseWindow));
    assert_eq!(c.pause(id, &alice(), T + 20), Err(StreamError::OutsidePauseWindow));
    assert_eq!(c.cancel(id, &bob(), T + 15).err(), Some(StreamError::Unauthorized));
    assert_eq!(c.claim(id, &alice()).err(), Some(StreamError::NotCancelled));
    c.withdraw(id, &bob(), T + 15).unwrap();
    c.unlock(id);
    assert_eq!(c.withdraw(id, &bob(), T + 15).err(), Some(StreamError::NothingToWithdraw));
    assert_eq!(c.cancel(id, &alice(), T + 20).err(), Some(StreamError::AlreadyEnded));
    c.cancel(id, &alice(), T + 16).unwrap();
    c.unlock(id);
    assert_eq!(c.cancel(id, &alice(), T + 17).err(), Some(StreamError::AlreadyCancelled));
    assert_eq!(c.withdraw(id, &bob(), T + 17).err(), Some(StreamError::AlreadyCancelled));
    assert!(!c.unlock(id));
    assert_eq!(c.get_stream(id).unwrap().balance, 4);
}

#[test]
fn transfer_kinds_are_distinct() {
    assert!(TransferKind::Withdraw != TransferKind::Cancel);
    assert!(TransferKind::Cancel != TransferKind::Claim);
}
