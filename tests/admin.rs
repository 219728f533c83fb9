use stream_ledger::{AccountId, Contract, StreamError};

const NEAR: u128 = 1_000_000_000_000_000_000_000_000;

fn accounts(i: usize) -> AccountId {
    let names = ["alice", "bob", "charlie", "danny", "eugene", "fargo"];
    AccountId::new(names[i].to_string())
}

fn new_contract() -> Contract {
    Contract::new(accounts(2), accounts(3), accounts(4), 25, 200).unwrap()
}

#[test]
fn utils_initializes() {
    let contract = new_contract();
    assert_eq!(contract.current_id(), 1);
    assert_eq!(contract.stream_count(), 0);
}

#[test]
fn test_delete_stream() {
    let sender = accounts(0);
    let receiver = accounts(1);
    let mut contract = new_contract();
    let id = contract.create_stream(&sender, &receiver, NEAR, 0, 10, false, false, 10 * NEAR, 0).unwrap();
    contract.pause(id, &sender, 2).unwrap();
    contract.resume(id, &sender, 4).unwrap();
    contract.withdraw(id, &sender, 11).unwrap();
    assert!(contract.unlock(id));
    contract.withdraw(id, &receiver, 11).unwrap();
    assert!(contract.unlock(id));
    contract.delete_streams(&accounts(3), vec![id], 11).unwrap();
    assert!(contract.get_stream(id).is_none());
}

#[test]
fn views_initializes() {
    let contract = new_contract();
    assert_eq!(contract.current_id(), 1);
    assert_eq!(contract.stream_count(), 0);
}

#[test]
fn test_get_stream() {
    let start: u64 = 0;
    let sender = accounts(0);
    let mut contract = new_contract();
    contract
        .create_stream(&sender, &accounts(1), NEAR, start, start + 172800, false, false, 172800 * NEAR, 0)
        .unwrap();
    assert_eq!(contract.current_id(), 2);
    let stream = contract.get_stream(1).unwrap();
    assert!(!stream.is_paused);
    assert_eq!(stream.id, 1);
    assert!(stream.sender == sender);
    assert!(stream.receiver == accounts(1));
    assert_eq!(stream.balance, 172800 * NEAR);
    assert_eq!(stream.rate, NEAR);
    assert_eq!(stream.start_time, start);
    assert_eq!(stream.end_time, start + 172800);
    assert_eq!(stream.withdraw_time, start);
    assert_eq!(stream.paused_time, 0);
}

#[test]
fn delete_refuses_running_locked_and_unknown_streams() {
    let sender = accounts(0);
    let receiver = accounts(1);
    let manager = accounts(3);
    let mut contract = new_contract();
    let id = contract.create_stream(&sender, &receiver, NEAR, 0, 10, false, false, 10 * NEAR, 0).unwrap();
    assert_eq!(contract.delete_streams(&sender, vec![id], 11), Err(StreamError::NotManager));
    assert_eq!(contract.delete_streams(&manager, vec![id], 11), Err(StreamError::NotRemovable));
    assert_eq!(contract.delete_streams(&manager, vec![7], 11), Err(StreamError::StreamNotFound));
    contract.withdraw(id, &receiver, 11).unwrap();
    assert_eq!(contract.delete_streams(&manager, vec![id], 11), Err(StreamError::Locked));
    assert!(contract.unlock(id));
    assert_eq!(contract.delete_streams(&manager, vec![id, id], 11), Err(StreamError::StreamNotFound));
    assert!(contract.get_stream(id).is_some());
    assert_eq!(contract.delete_streams(&manager, vec![id], 11), Ok(()));
    assert_eq!(contract.stream_count(), 0);
}

#[test]
fn whitelist_extend_and_remove() {
    let owner = accounts(2);
    let token_a = AccountId::new("usdc.near".to_string());
    let token_b = AccountId::new("dai.near".to_string());
    let mut contract = new_contract();
    assert_eq!(contract.extend_whitelisted_tokens(&accounts(0), vec![token_a.clone()]), Err(StreamError::NotOwner));
    contract.extend_whitelisted_tokens(&owner, vec![token_a.clone(), token_b.clone(), token_a.clone()]).unwrap();
    assert_eq!(contract.get_whitelisted_tokens().len(), 2);
    assert!(contract.valid_ft_sender(&token_a));
    assert!(contract.valid_ft_sender(&token_b));
    assert_eq!(
        contract.remove_whitelisted_tokens(&owner, vec![token_a.clone(), token_a.clone()]),
        Err(StreamError::TokenNotListed)
    );
    assert!(contract.valid_ft_sender(&token_a));
    contract.remove_whitelisted_tokens(&owner, vec![token_a.clone()]).unwrap();
    assert!(!contract.valid_ft_sender(&token_a));
    assert!(contract.valid_ft_sender(&token_b));
    assert_eq!(
        contract.remove_whitelisted_tokens(&owner, vec![token_a.clone()]),
        Err(StreamError::TokenNotListed)
    );
}

#[test]
fn owner_and_fee_settings() {
    let owner = accounts(2);
    let mut contract = new_contract();
    assert!(contract.get_owner() == owner);
    assert_eq!(contract.assert_owner(&owner), Ok(()));
    assert_eq!(contract.assert_owner(&accounts(0)), Err(StreamError::NotOwner));
    assert_eq!(contract.assert_manager(&accounts(3)), Ok(()));
    assert_eq!(contract.assert_manager(&owner), Err(StreamError::NotManager));
    assert_eq!(contract.change_fee_rate(&owner, 201), Err(StreamError::FeeRateAboveMax));
    assert_eq!(contract.change_fee_rate(&accounts(0), 100), Err(StreamError::NotOwner));
    contract.change_fee_rate(&owner, 200).unwrap();
    assert_eq!(contract.calculate_fee_amount(10_000), 200);
    contract.set_owner(&owner, accounts(5)).unwrap();
    assert!(contract.get_owner() == accounts(5));
    assert_eq!(contract.change_fee_rate(&owner, 100), Err(StreamError::NotOwner));
    contract.change_fee_receiver(&accounts(5), accounts(0)).unwrap();
    assert_eq!(contract.claim_fee_native(&accounts(4)), Err(StreamError::NotFeeReceiver));
    assert_eq!(contract.claim_fee_native(&accounts(0)), Ok(0));
}

#[test]
fn fee_rates_above_the_divisor_are_refused() {
    assert!(matches!(
        Contract::new(accounts(2), accounts(3), accounts(4), 25, 10_001),
        Err(StreamError::InvalidFeeRate)
    ));
    assert!(matches!(
        Contract::new(accounts(2), accounts(3), accounts(4), 300, 200),
        Err(StreamError::InvalidFeeRate)
    ));
}

#[test]
fn listings_by_user_in_identifier_order() {
    let (a, b, c) = (accounts(0), accounts(1), accounts(5));
    let mut contract = new_contract();
    contract.create_stream(&a, &b, 1, 0, 10, false, false, 10, 0).unwrap();
    contract.create_stream(&b, &c, 1, 0, 10, false, false, 10, 0).unwrap();
    contract.create_stream(&a, &c, 1, 0, 10, false, false, 10, 0).unwrap();
    let all = contract.get_streams(None, None);
    assert_eq!(all.iter().map(|s| s.id).collect::<Vec<u64>>(), vec![1, 2, 3]);
    let page = contract.get_streams(Some(1), Some(1));
    assert_eq!(page.iter().map(|s| s.id).collect::<Vec<u64>>(), vec![2]);
    assert_eq!(contract.get_streams(Some(5), None).len(), 0);
    assert_eq!(contract.get_streams_by_user_count(&b), 2);
    let by_b = contract.get_streams_by_user(&b, None, None);
    assert_eq!(by_b.iter().map(|s| s.id).collect::<Vec<u64>>(), vec![1, 2]);
    assert_eq!(contract.get_incoming_streams_count(&c), 2);
    let into_c = contract.get_incoming_streams_for_user(&c, Some(1), None);
    assert_eq!(into_c.iter().map(|s| s.id).collect::<Vec<u64>>(), vec![3]);
    assert_eq!(contract.get_outgoing_streams_count(&a), 2);
    let from_a = contract.get_outgoing_streams_for_user(&a, None, Some(1));
    assert_eq!(from_a.iter().map(|s| s.id).collect::<Vec<u64>>(), vec![1]);
}
