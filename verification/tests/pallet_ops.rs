use proportional_asset::balances::Balances;
use proportional_asset::derive_identifier;
use proportional_asset::pallet::Pallet;
use proportional_asset::types::{Error, Event, TOTAL_SUPPLY};

fn get_test_data() -> Vec<u8> {
    let src1: Vec<char> = vec!['j', '{', '"', 'i', 'm', 'm', 'y', '"', '}'];
    src1.iter().map(|c| *c as u8).collect::<Vec<_>>()
}

fn other_test_data() -> Vec<u8> {
    let src1: Vec<char> = vec!['a', 'b', '"', 'i', 'm', 'm', 'y', '"', '}'];
    src1.iter().map(|c| *c as u8).collect::<Vec<_>>()
}

fn new_test_balances() -> Balances {
    let mut balances = Balances::new();
    balances.set_balance(1, 50);
    balances.set_balance(2, 50);
    balances
}

#[test]
fn create_proportional_asset_success() {
    let mut pallet = Pallet::new();
    let share_price = 10;

    let data = get_test_data();

    assert!(pallet.create_proportional_asset(1, data.clone(), share_price).is_ok());

    let id = derive_identifier(&data);

    let expected_event = Event::ProportionalAssetInitialized(id, 1);
    assert_eq!(pallet.events[0], expected_event);

    let owner_id = pallet.get_main_owner_by_asset(id).unwrap();
    assert_eq!(owner_id, 1);

    let owner_metadata = pallet.get_metadata(id, owner_id).unwrap();

    assert_eq!(owner_metadata.offers, 0);
    assert_eq!(owner_metadata.shares, TOTAL_SUPPLY);
    assert_eq!(owner_metadata.price, share_price);
}

#[test]
fn create_proportional_asset_failure_duplicate() {
    let mut pallet = Pallet::new();
    let share_price = 10;

    let data = get_test_data();

    assert!(pallet.create_proportional_asset(1, data.clone(), share_price).is_ok());

    assert_eq!(
        pallet.create_proportional_asset(1, data, share_price),
        Err(Error::AssetAlreadyExists)
    );
}

#[test]
fn offer_shares_success() {
    let mut pallet = Pallet::new();
    let share_price = 10;

    let data = get_test_data();

    assert!(pallet.create_proportional_asset(1, data.clone(), share_price).is_ok());

    let id = derive_identifier(&data);

    let offers = 5;

    let new_share_price = 20;
    assert!(pallet.offer_shares(1, id, offers, new_share_price).is_ok());

    let expected_event = Event::SharesOffered(id, new_share_price);
    assert_eq!(pallet.events[1], expected_event);

    let stored_metadata = pallet.get_metadata(id, 1).unwrap();

    assert_eq!(stored_metadata.offers, offers);
    assert_eq!(new_share_price, stored_metadata.price);
}

#[test]
fn offer_shares_failure_invalid_offers() {
    let mut pallet = Pallet::new();
    let share_price = 10;

    let data = get_test_data();

    assert!(pallet.create_proportional_asset(1, data.clone(), share_price).is_ok());

    let id = derive_identifier(&data);

    let offers = 101;

    let new_share_price = 20;
    assert_eq!(
        pallet.offer_shares(1, id, offers, new_share_price),
        Err(Error::InvalidOffers)
    );
}

#[test]
fn offer_shares_failure_different_account() {
    let mut pallet = Pallet::new();
    let share_price = 10;

    let data = get_test_data();

    assert!(pallet.create_proportional_asset(1, data.clone(), share_price).is_ok());

    let id = derive_identifier(&data);

    let offers = 5;

    let new_share_price = 20;
    assert_eq!(
        pallet.offer_shares(2, id, offers, new_share_price),
        Err(Error::NotMainOwner)
    );
}

#[test]
fn transfer_shares_to_account_success() {
    let mut pallet = Pallet::new();
    let share_price = 10;

    let data = get_test_data();

    assert!(pallet.create_proportional_asset(1, data.clone(), share_price).is_ok());

    let id = derive_identifier(&data);

    let amount = 50;

    assert!(pallet.transfer_shares_to_account(1, id, amount, 2).is_ok());

    let expected_event = Event::SharesTransferred(1, 2, amount);
    assert_eq!(pallet.events[1], expected_event);

    let stored_metadata_1 = pallet.get_metadata(id, 1).unwrap();
    assert_eq!(stored_metadata_1.shares, 100 - amount);

    let stored_metadata_2 = pallet.get_metadata(id, 2).unwrap();
    assert_eq!(stored_metadata_2.shares, amount);
}

#[test]
fn transfer_shares_to_account_failure_invalid_account() {
    let mut pallet = Pallet::new();
    let share_price = 10;

    let data = get_test_data();

    assert!(pallet.create_proportional_asset(1, data.clone(), share_price).is_ok());

    let id = derive_identifier(&data);

    let amount = 50;

    assert_eq!(
        pallet.transfer_shares_to_account(2, id, amount, 2),
        Err(Error::InvalidAccount)
    );
}

#[test]
fn transfer_shares_to_account_failure_incorrect_share_selection() {
    let mut pallet = Pallet::new();
    let share_price = 10;

    let data = get_test_data();

    assert!(pallet.create_proportional_asset(1, data.clone(), share_price).is_ok());

    let id = derive_identifier(&data);

    let amount = 101;

    assert_eq!(
        pallet.transfer_shares_to_account(1, id, amount, 2),
        Err(Error::IncorrectSharesSelection)
    );
}

#[test]
fn buy_shares_success() {
    let mut pallet = Pallet::new();
    let mut balances = new_test_balances();
    let share_price = 10;

    let data = get_test_data();

    assert!(pallet.create_proportional_asset(1, data.clone(), share_price).is_ok());

    let id = derive_identifier(&data);

    let offers = 5;

    let new_share_price = 20;
    assert!(pallet.offer_shares(1, id, offers, new_share_price).is_ok());

    let expected_event = Event::SharesOffered(id, new_share_price);
    assert_eq!(pallet.events[1], expected_event);

    let stored_metadata = pallet.get_metadata(id, 1).unwrap();
    assert_eq!(stored_metadata.offers, offers);
    assert_eq!(stored_metadata.price, new_share_price);

    let shares_to_buy = 2;
    let amount_to_be_transferred = new_share_price.checked_mul(shares_to_buy).unwrap();
    assert!(pallet
        .buy_shares(&mut balances, 2, id, shares_to_buy, amount_to_be_transferred.into(), 1)
        .is_ok());

    let expected_event_pallet = Event::SharesTransferred(1, 2, shares_to_buy);
    assert_eq!(pallet.events[2], expected_event_pallet);

    let initial_balance_1: u128 = 50;
    let initial_balance_2: u128 = 50;

    let new_balance_1 = balances.free_balance(1);
    let new_balance_2 = balances.free_balance(2);

    assert_eq!(
        new_balance_1,
        initial_balance_1.checked_add(amount_to_be_transferred.into()).unwrap()
    );
    assert_eq!(
        new_balance_2,
        initial_balance_2.checked_sub(amount_to_be_transferred.into()).unwrap()
    );

    let stored_metadata_1 = pallet.get_metadata(id, 1).unwrap();
    let stored_metadata_2 = pallet.get_metadata(id, 2).unwrap();

    assert_eq!(stored_metadata_1.shares, 100 - shares_to_buy);
    assert_eq!(stored_metadata_2.shares, shares_to_buy);
}

#[test]
fn buy_shares_failure_incorrect_seller_same_owner() {
    let mut pallet = Pallet::new();
    let mut balances = new_test_balances();
    let share_price = 10;

    let data = get_test_data();

    assert!(pallet.create_proportional_asset(1, data.clone(), share_price).is_ok());

    let id = derive_identifier(&data);

    let offers = 5;

    let new_share_price = 20;
    assert!(pallet.offer_shares(1, id, offers, new_share_price).is_ok());

    let expected_event = Event::SharesOffered(id, new_share_price);
    assert_eq!(pallet.events[1], expected_event);

    let stored_metadata = pallet.get_metadata(id, 1).unwrap();
    assert_eq!(stored_metadata.offers, offers);
    assert_eq!(stored_metadata.price, new_share_price);

    let shares_to_buy = 2;
    let amount_to_be_transferred = new_share_price.checked_mul(shares_to_buy).unwrap();
    assert_eq!(
        pallet.buy_shares(&mut balances, 1, id, shares_to_buy, amount_to_be_transferred.into(), 1),
        Err(Error::IncorrectSeller)
    );
}

#[test]
fn buy_shares_failure_incorrect_seller_not_owner() {
    let mut pallet = Pallet::new();
    let mut balances = new_test_balances();
    let share_price = 10;

    let data = get_test_data();

    assert!(pallet.create_proportional_asset(1, data.clone(), share_price).is_ok());

    let id = derive_identifier(&data);

    let offers = 5;

    let new_share_price = 20;
    assert!(pallet.offer_shares(1, id, offers, new_share_price).is_ok());

    let expected_event = Event::SharesOffered(id, new_share_price);
    assert_eq!(pallet.events[1], expected_event);

    let stored_metadata = pallet.get_metadata(id, 1).unwrap();
    assert_eq!(stored_metadata.offers, offers);
    assert_eq!(stored_metadata.price, new_share_price);

    let shares_to_buy = 2;
    let amount_to_be_transferred = new_share_price.checked_mul(shares_to_buy).unwrap();

    let data = other_test_data();
    let id = derive_identifier(&data);
    assert_eq!(
        pallet.buy_shares(&mut balances, 2, id, shares_to_buy, amount_to_be_transferred.into(), 1),
        Err(Error::IncorrectSeller)
    );
}

#[test]
fn buy_shares_failure_insufficient_balance() {
    let mut pallet = Pallet::new();
    let mut balances = new_test_balances();
    let share_price = 100;

    let data = get_test_data();

    assert!(pallet.create_proportional_asset(1, data.clone(), share_price).is_ok());

    let id = derive_identifier(&data);

    let offers = 5;

    let new_share_price = 100;
    assert!(pallet.offer_shares(1, id, offers, new_share_price).is_ok());

    let expected_event = Event::SharesOffered(id, new_share_price);
    assert_eq!(pallet.events[1], expected_event);

    let stored_metadata = pallet.get_metadata(id, 1).unwrap();
    assert_eq!(stored_metadata.offers, offers);
    assert_eq!(stored_metadata.price, new_share_price);

    let shares_to_buy = 2;
    let amount_to_be_transferred = new_share_price.checked_mul(shares_to_buy).unwrap();
    assert_eq!(
        pallet.buy_shares(&mut balances, 2, id, shares_to_buy, amount_to_be_transferred.into(), 1),
        Err(Error::InsufficientBalance)
    );
}

#[test]
fn claim_onwership_success() {
    let mut pallet = Pallet::new();
    let share_price = 1;

    let data = get_test_data();

    assert!(pallet.create_proportional_asset(1, data.clone(), share_price).is_ok());

    let id = derive_identifier(&data);

    let amount = 51;

    assert!(pallet.transfer_shares_to_account(1, id, amount, 2).is_ok());

    let expected_event = Event::SharesTransferred(1, 2, amount);
    assert_eq!(pallet.events[1], expected_event);

    let stored_metadata_1 = pallet.get_metadata(id, 1).unwrap();
    assert_eq!(stored_metadata_1.shares, 100 - amount);

    let stored_metadata_2 = pallet.get_metadata(id, 2).unwrap();
    assert_eq!(stored_metadata_2.shares, amount);

    assert!(pallet.claim_onwership(2, id).is_ok());

    let expected_main_owner_event = Event::MainOwnerSet(2, id);
    assert_eq!(pallet.events[2], expected_main_owner_event);

    let is_owner = pallet.is_owner_of(2, id);
    assert!(is_owner);
}

#[test]
fn claim_onwership_failure_asset_does_not_exist() {
    let mut pallet = Pallet::new();
    let share_price = 1;

    let data = get_test_data();

    assert!(pallet.create_proportional_asset(1, data.clone(), share_price).is_ok());

    let id = derive_identifier(&data);

    let amount = 51;

    assert!(pallet.transfer_shares_to_account(1, id, amount, 2).is_ok());

    let expected_event = Event::SharesTransferred(1, 2, amount);
    assert_eq!(pallet.events[1], expected_event);

    let stored_metadata_1 = pallet.get_metadata(id, 1).unwrap();
    assert_eq!(stored_metadata_1.shares, 100 - amount);

    let stored_metadata_2 = pallet.get_metadata(id, 2).unwrap();
    assert_eq!(stored_metadata_2.shares, amount);

    let data = other_test_data();
    let wrong_id = derive_identifier(&data);

    assert_eq!(pallet.claim_onwership(2, wrong_id), Err(Error::AssetDoesNotExist));
}

#[test]
fn claim_onwership_failure_already_main_owner() {
    let mut pallet = Pallet::new();
    let share_price = 1;

    let data = get_test_data();

    assert!(pallet.create_proportional_asset(1, data.clone(), share_price).is_ok());

    let id = derive_identifier(&data);

    let amount = 51;

    assert!(pallet.transfer_shares_to_account(1, id, amount, 2).is_ok());

    let expected_event = Event::SharesTransferred(1, 2, amount);
    assert_eq!(pallet.events[1], expected_event);

    let stored_metadata_1 = pallet.get_metadata(id, 1).unwrap();
    assert_eq!(stored_metadata_1.shares, 100 - amount);

    let stored_metadata_2 = pallet.get_metadata(id, 2).unwrap();
    assert_eq!(stored_metadata_2.shares, amount);

    assert_eq!(pallet.claim_onwership(1, id), Err(Error::AlreadyMainOwner));
}

#[test]
fn claim_onwership_failure_not_enough_shares() {
    let mut pallet = Pallet::new();
    let share_price = 1;

    let data = get_test_data();

    assert!(pallet.create_proportional_asset(1, data.clone(), share_price).is_ok());

    let id = derive_identifier(&data);

    let amount = 49;

    assert!(pallet.transfer_shares_to_account(1, id, amount, 2).is_ok());

    let expected_event = Event::SharesTransferred(1, 2, amount);
    assert_eq!(pallet.events[1], expected_event);

    let stored_metadata_1 = pallet.get_metadata(id, 1).unwrap();
    assert_eq!(stored_metadata_1.shares, 100 - amount);

    let stored_metadata_2 = pallet.get_metadata(id, 2).unwrap();
    assert_eq!(stored_metadata_2.shares, amount);

    assert_eq!(pallet.claim_onwership(2, id), Err(Error::NotEnoughShares));
}
