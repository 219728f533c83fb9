use stream_ledger::{AccountId, Contract, Stream, StreamError};

const NEAR: u128 = 1_000_000_000_000_000_000_000_000;

fn accounts(i: usize) -> AccountId {
    let names = ["alice", "bob", "charlie", "danny", "eugene", "fargo"];
    AccountId::new(names[i].to_string())
}

fn new_contract() -> Contract {
    Contract::new(accounts(2), accounts(3), accounts(4), 25, 200).unwrap()
}

fn stream(contract: &Contract, id: u64) -> Stream {
    contract.get_stream(id).unwrap()
}

#[test]
fn lib_initializes() {
    let contract = new_contract();
    assert_eq!(contract.current_id(), 1);
    assert_eq!(contract.stream_count(), 0);
}

#[test]
fn create_stream_invalid_amount() {
    let start: u64 = 0;
    let mut contract = new_contract();
    let r = contract.create_stream(
        &accounts(0),
        &accounts(1),
        NEAR,
        start,
        start + 172800,
        false,
        false,
        200000 * NEAR,
        0,
    );
    assert_eq!(r, Err(StreamError::DepositMismatch));
    assert_eq!(contract.stream_count(), 0);
}

#[test]
fn create_stream_invalid_receipient() {
    let start: u64 = 0;
    let mut contract = new_contract();
    let r = contract.create_stream(
        &accounts(0),
        &accounts(0),
        NEAR,
        start,
        start + 172800,
        true,
        false,
        172800 * NEAR,
        0,
    );
    assert_eq!(r, Err(StreamError::SameSenderAndReceiver));
}

#[test]
fn create_stream() {
    let start: u64 = 0;
    let sender = accounts(0);
    let mut contract = new_contract();
    let id = contract
        .create_stream(&sender, &accounts(1), NEAR, start, start + 172800, true, false, 172800 * NEAR, 0)
        .unwrap();
    assert_eq!(id, 1);
    assert_eq!(contract.current_id(), 2);
    let stream = stream(&contract, 1);
    assert!(!stream.is_paused);
    assert_eq!(stream.id, 1);
    assert!(stream.sender == sender);
    assert!(stream.receiver == accounts(1));
    assert_eq!(stream.balance, 172800 * NEAR);
    assert_eq!(stream.rate, NEAR);
    assert_eq!(stream.start_time, start);
    assert_eq!(stream.end_time, start + 172800);
    assert_eq!(stream.withdraw_time, start);
    assert_eq!(stream.paused_time, 0);
    assert_eq!(stream.can_update, false);
    assert_eq!(stream.can_cancel, true);
}

/// A stream from alice to bob of one unit per second from 0, created at 0.
fn streaming(contract: &mut Contract, duration: u64, can_cancel: bool, can_update: bool) -> u64 {
    contract
        .create_stream(
            &accounts(0),
            &accounts(1),
            NEAR,
            0,
            duration,
            can_cancel,
            can_update,
            duration as u128 * NEAR,
            0,
        )
        .unwrap()
}

#[test]
fn withdraw_stream_receiver() {
    let mut contract = new_contract();
    let id = streaming(&mut contract, 10, false, false);
    assert_eq!(stream(&contract, id).balance, 10 * NEAR);
    contract.withdraw(id, &accounts(1), 2).unwrap();
    let s = stream(&contract, id);
    assert_eq!(s.balance, 8 * NEAR);
    assert_eq!(s.withdraw_time, 2);
}

#[test]
fn withdraw_stream_sender_before_end() {
    let mut contract = new_contract();
    let id = streaming(&mut contract, 10, false, false);
    assert_eq!(contract.withdraw(id, &accounts(0), 2).err(), Some(StreamError::NotEnded));
}

#[test]
fn withdraw_stream_sender_after_end() {
    let mut contract = new_contract();
    let id = streaming(&mut contract, 10, false, false);
    contract.pause(id, &accounts(0), 2).unwrap();
    contract.resume(id, &accounts(0), 4).unwrap();
    contract.withdraw(id, &accounts(0), 11).unwrap();
    assert_eq!(stream(&contract, id).balance, 8 * NEAR);
}

#[test]
fn withdraw_stream_sender_after_end_paused_stream() {
    let mut contract = new_contract();
    let id = streaming(&mut contract, 10, false, false);
    contract.pause(id, &accounts(0), 4).unwrap();
    contract.withdraw(id, &accounts(0), 11).unwrap();
    assert_eq!(stream(&contract, id).balance, 4 * NEAR);
}

fn three_pauses(contract: &mut Contract, id: u64) {
    contract.pause(id, &accounts(0), 4).unwrap();
    contract.resume(id, &accounts(0), 6).unwrap();
    contract.pause(id, &accounts(0), 9).unwrap();
    contract.resume(id, &accounts(0), 13).unwrap();
    contract.pause(id, &accounts(0), 15).unwrap();
    contract.resume(id, &accounts(0), 17).unwrap();
}

#[test]
fn withdraw_stream_sender_after_end_multiple_pauses() {
    let mut contract = new_contract();
    let id = streaming(&mut contract, 20, false, false);
    three_pauses(&mut contract, id);
    contract.withdraw(id, &accounts(0), 21).unwrap();
    assert_eq!(stream(&contract, id).balance, 12 * NEAR);
}

#[test]
fn withdraw_stream_receiver_after_end_multiple_pauses() {
    let mut contract = new_contract();
    let id = streaming(&mut contract, 20, false, false);
    three_pauses(&mut contract, id);
    contract.withdraw(id, &accounts(1), 21).unwrap();
    assert_eq!(stream(&contract, id).balance, 8 * NEAR);
}

#[test]
fn test_sender_withdraws_before_sender() {
    let mut contract = new_contract();
    let id = streaming(&mut contract, 20, false, false);
    contract.pause(id, &accounts(0), 9).unwrap();
    contract.resume(id, &accounts(0), 13).unwrap();
    contract.withdraw(id, &accounts(0), 21).unwrap();
    assert!(contract.unlock(id));
    assert_eq!(stream(&contract, id).balance, 16 * NEAR);
    contract.withdraw(id, &accounts(1), 25).unwrap();
    assert_eq!(stream(&contract, id).balance, 0);
}

#[test]
fn test_receiver_withdraws_before_sender() {
    let mut contract = new_contract();
    let id = streaming(&mut contract, 20, false, false);
    contract.pause(id, &accounts(0), 9).unwrap();
    contract.resume(id, &accounts(0), 13).unwrap();
    contract.withdraw(id, &accounts(1), 21).unwrap();
    assert!(contract.unlock(id));
    assert_eq!(stream(&contract, id).balance, 4 * NEAR);
    contract.withdraw(id, &accounts(0), 25).unwrap();
    assert!(contract.unlock(id));
    assert_eq!(stream(&contract, id).balance, 0);
}

#[test]
fn test_receiver_tries_multiple_withdraw() {
    let mut contract = new_contract();
    let id = streaming(&mut contract, 20, false, false);
    contract.pause(id, &accounts(0), 9).unwrap();
    contract.resume(id, &accounts(0), 13).unwrap();
    contract.withdraw(id, &accounts(1), 21).unwrap();
    assert!(contract.unlock(id));
    assert_eq!(stream(&contract, id).balance, 4 * NEAR);
    assert_eq!(contract.withdraw(id, &accounts(1), 21).err(), Some(StreamError::AlreadyWithdrawn));
}

#[test]
fn test_sender_pauses_paused_stream() {
    let mut contract = new_contract();
    let id = streaming(&mut contract, 20, false, false);
    contract.pause(id, &accounts(0), 9).unwrap();
    assert_eq!(contract.pause(id, &accounts(0), 13), Err(StreamError::AlreadyPaused));
}

#[test]
fn test_sender_resume_unpaused_stream() {
    let mut contract = new_contract();
    let id = streaming(&mut contract, 20, false, false);
    assert_eq!(contract.resume(id, &accounts(0), 13), Err(StreamError::NotPaused));
}

#[test]
fn test_sender_pauses_cancelled_stream() {
    let mut contract = new_contract();
    let id = streaming(&mut contract, 20, true, true);
    contract.cancel(id, &accounts(0), 9).unwrap();
    assert!(contract.unlock(id));
    assert_eq!(contract.pause(id, &accounts(0), 13), Err(StreamError::AlreadyCancelled));
}

#[test]
fn test_sender_resume_cancelled_stream() {
    let mut contract = new_contract();
    let id = streaming(&mut contract, 20, true, true);
    contract.pause(id, &accounts(0), 8).unwrap();
    contract.cancel(id, &accounts(0), 9).unwrap();
    assert!(contract.unlock(id));
    assert_eq!(contract.resume(id, &accounts(0), 13), Err(StreamError::AlreadyCancelled));
}

#[test]
fn test_sender_tries_multiple_withdraw() {
    let mut contract = new_contract();
    let id = streaming(&mut contract, 20, false, false);
    contract.pause(id, &accounts(0), 9).unwrap();
    contract.resume(id, &accounts(0), 13).unwrap();
    contract.withdraw(id, &accounts(0), 21).unwrap();
    assert!(contract.unlock(id));
    assert_eq!(stream(&contract, id).balance, 16 * NEAR);
    assert_eq!(contract.withdraw(id, &accounts(0), 21).err(), Some(StreamError::AlreadyWithdrawn));
    assert_eq!(stream(&contract, id).balance, 16 * NEAR);
}

#[test]
fn test_withdraw_after_end_on_paused() {
    let mut contract = new_contract();
    let id = streaming(&mut contract, 20, false, false);
    contract.pause(id, &accounts(0), 9).unwrap();
    contract.withdraw(id, &accounts(0), 21).unwrap();
    assert!(contract.unlock(id));
    assert_eq!(stream(&contract, id).balance, 9 * NEAR);
    contract.withdraw(id, &accounts(1), 25).unwrap();
    assert_eq!(stream(&contract, id).balance, 0);
}

#[test]
fn test_withdraw_with_fee() {
    let mut contract = new_contract();
    let id = streaming(&mut contract, 20, false, false);
    contract.withdraw(id, &accounts(1), 9).unwrap();
    let fee_amount = contract.calculate_fee_amount(9 * NEAR);
    let fees = contract.view_claimable_fee();
    assert_eq!(fees[fees.len() - 1].amount, fee_amount);
}

#[test]
fn test_pause() {
    let mut contract = new_contract();
    let id = streaming(&mut contract, 10000, false, false);
    contract.pause(id, &accounts(0), 10).unwrap();
    assert!(stream(&contract, id).is_paused);
}

#[test]
fn double_pause_panic() {
    let mut contract = new_contract();
    let id = streaming(&mut contract, 10000, false, false);
    contract.pause(id, &accounts(0), 10).unwrap();
    assert_eq!(contract.pause(id, &accounts(0), 10), Err(StreamError::AlreadyPaused));
}

#[test]
fn test_resume() {
    let mut contract = new_contract();
    let id = streaming(&mut contract, 10000, false, false);
    contract.pause(id, &accounts(0), 1).unwrap();
    contract.resume(id, &accounts(0), 4).unwrap();
    let s = stream(&contract, id);
    assert!(!s.is_paused);
    assert_eq!(s.withdraw_time, 3);
}

#[test]
fn test_cancel_with_no_cancel() {
    let mut contract = new_contract();
    let id = streaming(&mut contract, 10000, false, false);
    assert_eq!(contract.cancel(id, &accounts(0), 1).err(), Some(StreamError::CannotCancel));
}

#[test]
fn test_cancel() {
    let mut contract = new_contract();
    let id = streaming(&mut contract, 10, true, false);
    contract.cancel(id, &accounts(0), 1).unwrap();
    assert_eq!(stream(&contract, id).balance, 9 * NEAR);
}

/// A stream from alice to bob of one unit per second from 10 to 20, created at 0.
fn scheduled(contract: &mut Contract, can_cancel: bool, can_update: bool) -> u64 {
    contract
        .create_stream(&accounts(0), &accounts(1), NEAR, 10, 20, can_cancel, can_update, 10 * NEAR, 0)
        .unwrap()
}

#[test]
fn test_cancel_before_start() {
    let mut contract = new_contract();
    let id = scheduled(&mut contract, true, false);
    assert!(contract.cancel(id, &accounts(0), 1).unwrap().is_none());
    assert_eq!(stream(&contract, id).balance, 10 * NEAR);
}

#[test]
fn test_update_unauthorized() {
    let mut contract = new_contract();
    let id = scheduled(&mut contract, false, true);
    let r = contract.update(id, &accounts(1), Some(12), Some(14), Some(2 * NEAR), 0, 11);
    assert_eq!(r, Err(StreamError::Unauthorized));
}

#[test]
fn test_update_after_stream_start() {
    let mut contract = new_contract();
    let id = scheduled(&mut contract, false, true);
    let r = contract.update(id, &accounts(0), Some(12), Some(14), Some(2 * NEAR), 0, 11);
    assert_eq!(r, Err(StreamError::AlreadyStarted));
}

#[test]
fn test_updates_withdrawn_balance() {
    let mut contract = new_contract();
    let id = scheduled(&mut contract, false, true);
    contract.withdraw(id, &accounts(1), 15).unwrap();
    let s = stream(&contract, id);
    assert!(!s.is_paused);
    assert_eq!(s.id, 1);
    assert!(s.sender == accounts(0));
    assert!(s.receiver == accounts(1));
    assert_eq!(s.balance, 5 * NEAR);
    assert_eq!(s.withdrawn_amount, 5 * NEAR);
    assert_eq!(s.withdraw_time, 15);
    assert_eq!(s.paused_time, 0);
}
