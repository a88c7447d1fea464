//! End-to-end behavior of the exchange: creation, settlement,
//! cancellation, and every error path.

use p2p_swap::AssetLedger;
use p2p_swap::ErrorCode;
use p2p_swap::Exchange;
use p2p_swap::UserProfile;

const ALICE: u64 = 1;
const BOB: u64 = 2;
const CAROL: u64 = 3;
const MINT_A: u64 = 100;
const MINT_B: u64 = 200;

fn funded_pair() -> Exchange {
    let mut ex = Exchange::new();
    ex.initialize_user(ALICE).unwrap();
    ex.deposit(ALICE, MINT_A, 100);
    ex.deposit(BOB, MINT_B, 50);
    ex
}

#[test]
fn full_swap_scenario() {
    // Maker initializes, then offers 100 of A for 50 of B.
    let mut ex = funded_pair();
    let id = ex.create_offer(ALICE, MINT_A, MINT_B, 100, 50, 7, 254, 255).unwrap();
    assert_eq!(id, 0);
    assert_eq!(ex.balance(ALICE, MINT_A), 0);
    let offer = ex.get_offer(ALICE, id).unwrap();
    assert_eq!(offer.escrow, 100);
    assert_eq!(offer.amount_offered, 100);
    assert_eq!(offer.amount_wanted, 50);
    assert_eq!(offer.created_at, 7);

    // Taker accepts: B moves to the maker, the vault's A to the taker.
    ex.accept_offer(BOB, ALICE, id, MINT_A, MINT_B).unwrap();
    assert_eq!(ex.balance(ALICE, MINT_B), 50);
    assert_eq!(ex.balance(BOB, MINT_B), 0);
    assert_eq!(ex.balance(BOB, MINT_A), 100);
    assert!(ex.get_offer(ALICE, id).is_none());
}

#[test]
fn zero_amounts_are_rejected() {
    let mut ex = funded_pair();
    let r = ex.create_offer(ALICE, MINT_A, MINT_B, 0, 50, 0, 0, 0);
    assert_eq!(r, Err(ErrorCode::InvalidAmount));
    let r = ex.create_offer(ALICE, MINT_A, MINT_B, 100, 0, 0, 0, 0);
    assert_eq!(r, Err(ErrorCode::InvalidAmount));
    assert_eq!(ex.balance(ALICE, MINT_A), 100);
    assert!(ex.get_offer(ALICE, 0).is_none());
}

#[test]
fn create_locks_funds_in_vault() {
    let mut ex = funded_pair();
    let id = ex.create_offer(ALICE, MINT_A, MINT_B, 60, 30, 0, 0, 0).unwrap();
    assert_eq!(ex.balance(ALICE, MINT_A), 40);
    assert_eq!(ex.get_offer(ALICE, id).unwrap().escrow, 60);
}

#[test]
fn create_requires_initialized_profile() {
    let mut ex = Exchange::new();
    ex.deposit(CAROL, MINT_A, 10);
    let r = ex.create_offer(CAROL, MINT_A, MINT_B, 10, 5, 0, 0, 0);
    assert_eq!(r, Err(ErrorCode::UninitializedUserProfile));
    assert_eq!(ex.balance(CAROL, MINT_A), 10);
}

#[test]
fn create_requires_funded_balance() {
    let mut ex = funded_pair();
    let r = ex.create_offer(ALICE, MINT_A, MINT_B, 101, 50, 0, 0, 0);
    assert_eq!(r, Err(ErrorCode::InsufficientBalance));
    assert_eq!(ex.balance(ALICE, MINT_A), 100);
    assert_eq!(ex.profile_count(ALICE), Some(0));
}

#[test]
fn double_initialization_is_rejected() {
    let mut ex = Exchange::new();
    ex.initialize_user(ALICE).unwrap();
    assert_eq!(ex.initialize_user(ALICE), Err(ErrorCode::AlreadyInitialized));
    assert_eq!(ex.profile_count(ALICE), Some(0));
}

#[test]
fn mismatched_mints_are_rejected() {
    let mut ex = funded_pair();
    let id = ex.create_offer(ALICE, MINT_A, MINT_B, 100, 50, 0, 0, 0).unwrap();
    let r = ex.accept_offer(BOB, ALICE, id, MINT_B, MINT_B);
    assert_eq!(r, Err(ErrorCode::InvalidMint));
    let r = ex.accept_offer(BOB, ALICE, id, MINT_A, MINT_A);
    assert_eq!(r, Err(ErrorCode::InvalidMint));
    // Nothing moved and the offer is still open.
    assert_eq!(ex.balance(BOB, MINT_B), 50);
    assert_eq!(ex.balance(ALICE, MINT_B), 0);
    assert_eq!(ex.get_offer(ALICE, id).unwrap().escrow, 100);
}

#[test]
fn accept_requires_taker_funds() {
    let mut ex = funded_pair();
    let id = ex.create_offer(ALICE, MINT_A, MINT_B, 100, 51, 0, 0, 0).unwrap();
    let r = ex.accept_offer(BOB, ALICE, id, MINT_A, MINT_B);
    assert_eq!(r, Err(ErrorCode::InsufficientBalance));
    assert_eq!(ex.balance(BOB, MINT_B), 50);
    assert!(ex.get_offer(ALICE, id).is_some());
}

#[test]
fn cancel_restores_maker_balance() {
    let mut ex = funded_pair();
    let before = ex.balance(ALICE, MINT_A);
    let id = ex.create_offer(ALICE, MINT_A, MINT_B, 70, 10, 0, 0, 0).unwrap();
    assert_eq!(ex.balance(ALICE, MINT_A), 30);
    ex.cancel_offer(ALICE, ALICE, id).unwrap();
    assert_eq!(ex.balance(ALICE, MINT_A), before);
    assert!(ex.get_offer(ALICE, id).is_none());
}

#[test]
fn only_the_maker_may_cancel() {
    let mut ex = funded_pair();
    let id = ex.create_offer(ALICE, MINT_A, MINT_B, 100, 50, 0, 0, 0).unwrap();
    assert_eq!(ex.cancel_offer(BOB, ALICE, id), Err(ErrorCode::Unauthorized));
    assert_eq!(ex.get_offer(ALICE, id).unwrap().escrow, 100);
}

#[test]
fn settled_offer_is_terminal() {
    let mut ex = funded_pair();
    let id = ex.create_offer(ALICE, MINT_A, MINT_B, 100, 50, 0, 0, 0).unwrap();
    ex.accept_offer(BOB, ALICE, id, MINT_A, MINT_B).unwrap();
    let a = ex.balance(ALICE, MINT_B);
    let b = ex.balance(BOB, MINT_A);
    assert_eq!(ex.accept_offer(BOB, ALICE, id, MINT_A, MINT_B), Err(ErrorCode::OfferNotFound));
    assert_eq!(ex.cancel_offer(ALICE, ALICE, id), Err(ErrorCode::OfferNotFound));
    assert_eq!(ex.balance(ALICE, MINT_B), a);
    assert_eq!(ex.balance(BOB, MINT_A), b);
}

#[test]
fn cancelled_offer_is_terminal() {
    let mut ex = funded_pair();
    let id = ex.create_offer(ALICE, MINT_A, MINT_B, 100, 50, 0, 0, 0).unwrap();
    ex.cancel_offer(ALICE, ALICE, id).unwrap();
    assert_eq!(ex.cancel_offer(ALICE, ALICE, id), Err(ErrorCode::OfferNotFound));
    assert_eq!(ex.accept_offer(BOB, ALICE, id, MINT_A, MINT_B), Err(ErrorCode::OfferNotFound));
    assert_eq!(ex.balance(ALICE, MINT_A), 100);
}

#[test]
fn offer_ids_are_sequential() {
    let mut ex = funded_pair();
    let id0 = ex.create_offer(ALICE, MINT_A, MINT_B, 10, 5, 0, 0, 0).unwrap();
    let id1 = ex.create_offer(ALICE, MINT_A, MINT_B, 10, 5, 0, 0, 0).unwrap();
    let id2 = ex.create_offer(ALICE, MINT_A, MINT_B, 10, 5, 0, 0, 0).unwrap();
    assert_eq!((id0, id1, id2), (0, 1, 2));
    assert_eq!(ex.profile_count(ALICE), Some(3));
    assert!(ex.get_offer(ALICE, 0).is_some());
    assert!(ex.get_offer(ALICE, 1).is_some());
    assert!(ex.get_offer(ALICE, 2).is_some());
}

#[test]
fn counter_at_maximum_overflows() {
    // A registry whose one user already used up the whole counter space.
    let mut ex = Exchange {
        ledger: AssetLedger::new(),
        profiles: vec![UserProfile { authority: ALICE, offer_count: u64::MAX }],
        offers: vec![],
    };
    ex.deposit(ALICE, MINT_A, 100);
    let r = ex.create_offer(ALICE, MINT_A, MINT_B, 100, 50, 0, 0, 0);
    assert_eq!(r, Err(ErrorCode::CounterOverflow));
    assert_eq!(ex.balance(ALICE, MINT_A), 100);
    assert!(ex.get_offer(ALICE, u64::MAX).is_none());
}

#[test]
fn accepting_own_offer_returns_funds() {
    // The maker may act as taker; everything flows back to them.
    let mut ex = Exchange::new();
    ex.initialize_user(ALICE).unwrap();
    ex.deposit(ALICE, MINT_A, 100);
    ex.deposit(ALICE, MINT_B, 50);
    let id = ex.create_offer(ALICE, MINT_A, MINT_B, 100, 50, 0, 0, 0).unwrap();
    ex.accept_offer(ALICE, ALICE, id, MINT_A, MINT_B).unwrap();
    assert_eq!(ex.balance(ALICE, MINT_A), 100);
    assert_eq!(ex.balance(ALICE, MINT_B), 50);
    assert!(ex.get_offer(ALICE, id).is_none());
}
