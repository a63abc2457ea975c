use escrow::instructions::derive_address;
use escrow::instructions::initialize_escrow;
use escrow::instructions::make_refund;
use escrow::instructions::taker_deposit_withdraw_and_close;
use escrow::state::EscrowError;
use escrow::state::Ledger;

const MAKER: u64 = 1;
const TAKER: u64 = 2;
const ASSET_A: u64 = 10;
const ASSET_B: u64 = 20;

/// Maker with 100 of A and 0 of B, taker with 0 of A and 50 of B, and an
/// open escrow made with seed 1, receive_amount 50, deposit_amount 100.
fn opened_scenario() -> (Ledger, u128) {
    let mut ledger = Ledger::new();
    ledger.set_balance(MAKER, ASSET_A, 100);
    ledger.set_balance(TAKER, ASSET_B, 50);
    let r = initialize_escrow(&mut ledger, MAKER, 1, ASSET_A, ASSET_B, 50, 100);
    assert_eq!(r, Ok(()));
    (ledger, derive_address(MAKER, 1))
}

#[test]
fn derive_address_packs_maker_and_seed() {
    assert_eq!(derive_address(1, 7), 1u128 * 0x1_0000_0000_0000_0000 + 7);
    assert_eq!(derive_address(3, 9), 3u128 * 0x1_0000_0000_0000_0000 + 9);
    assert_ne!(derive_address(3, 9), derive_address(9, 3));
}

#[test]
fn latest_balance_entry_wins() {
    let mut ledger = Ledger::new();
    assert_eq!(ledger.balance_of(MAKER, ASSET_A), 0);
    ledger.set_balance(MAKER, ASSET_A, 100);
    ledger.set_balance(MAKER, ASSET_A, 40);
    assert_eq!(ledger.balance_of(MAKER, ASSET_A), 40);
    assert_eq!(ledger.balance_of(MAKER, ASSET_B), 0);
}

#[test]
fn make_funds_holding_with_exact_deposit() {
    let (ledger, address) = opened_scenario();
    assert_eq!(ledger.balance_of(MAKER, ASSET_A), 0);
    let slot = ledger.get_escrow(address).unwrap();
    assert_eq!(slot.maker, MAKER);
    assert_eq!(slot.seed, 1);
    assert_eq!(slot.asset_a, ASSET_A);
    assert_eq!(slot.asset_b, ASSET_B);
    assert_eq!(slot.receive_amount, 50);
    assert_eq!(slot.holding_amount, 100);
    assert_eq!(slot.address, address);
}

#[test]
fn make_with_insufficient_funds_is_atomic() {
    let mut ledger = Ledger::new();
    ledger.set_balance(MAKER, ASSET_A, 60);
    let r = initialize_escrow(&mut ledger, MAKER, 1, ASSET_A, ASSET_B, 50, 100);
    assert_eq!(r, Err(EscrowError::InsufficientFunds));
    // no orphan record, no debit
    assert!(ledger.get_escrow(derive_address(MAKER, 1)).is_none());
    assert_eq!(ledger.balance_of(MAKER, ASSET_A), 60);
}

#[test]
fn make_rejects_address_collision() {
    let (mut ledger, address) = opened_scenario();
    ledger.set_balance(MAKER, ASSET_A, 100);
    let r = initialize_escrow(&mut ledger, MAKER, 1, ASSET_A, ASSET_B, 7, 30);
    assert_eq!(r, Err(EscrowError::AddressCollision));
    // the live record is the original one, and the maker was not debited again
    assert_eq!(ledger.get_escrow(address).unwrap().receive_amount, 50);
    assert_eq!(ledger.balance_of(MAKER, ASSET_A), 100);
}

#[test]
fn distinct_seeds_open_independent_escrows() {
    let mut ledger = Ledger::new();
    ledger.set_balance(MAKER, ASSET_A, 100);
    assert_eq!(initialize_escrow(&mut ledger, MAKER, 1, ASSET_A, ASSET_B, 50, 60), Ok(()));
    assert_eq!(initialize_escrow(&mut ledger, MAKER, 2, ASSET_A, ASSET_B, 50, 40), Ok(()));
    assert_eq!(ledger.balance_of(MAKER, ASSET_A), 0);
    assert_eq!(make_refund(&mut ledger, MAKER, derive_address(MAKER, 2)), Ok(()));
    assert_eq!(ledger.balance_of(MAKER, ASSET_A), 40);
    // the first escrow is still live and untouched
    assert_eq!(ledger.get_escrow(derive_address(MAKER, 1)).unwrap().holding_amount, 60);
}

#[test]
fn take_settles_the_trade() {
    let (mut ledger, address) = opened_scenario();
    let r = taker_deposit_withdraw_and_close(&mut ledger, TAKER, address);
    assert_eq!(r, Ok(()));
    assert_eq!(ledger.balance_of(MAKER, ASSET_A), 0);
    assert_eq!(ledger.balance_of(MAKER, ASSET_B), 50);
    assert_eq!(ledger.balance_of(TAKER, ASSET_A), 100);
    assert_eq!(ledger.balance_of(TAKER, ASSET_B), 0);
    assert!(ledger.get_escrow(address).is_none());
}

#[test]
fn refund_cancels_the_trade() {
    let (mut ledger, address) = opened_scenario();
    let r = make_refund(&mut ledger, MAKER, address);
    assert_eq!(r, Ok(()));
    assert_eq!(ledger.balance_of(MAKER, ASSET_A), 100);
    assert_eq!(ledger.balance_of(MAKER, ASSET_B), 0);
    // the taker's balances are untouched
    assert_eq!(ledger.balance_of(TAKER, ASSET_A), 0);
    assert_eq!(ledger.balance_of(TAKER, ASSET_B), 50);
    assert!(ledger.get_escrow(address).is_none());
}

#[test]
fn consumed_record_cannot_be_taken_or_refunded_again() {
    let (mut ledger, address) = opened_scenario();
    assert_eq!(taker_deposit_withdraw_and_close(&mut ledger, TAKER, address), Ok(()));
    assert_eq!(
        taker_deposit_withdraw_and_close(&mut ledger, TAKER, address),
        Err(EscrowError::RecordNotFound)
    );
    assert_eq!(make_refund(&mut ledger, MAKER, address), Err(EscrowError::RecordNotFound));
    // the failed attempts moved nothing
    assert_eq!(ledger.balance_of(MAKER, ASSET_B), 50);
    assert_eq!(ledger.balance_of(TAKER, ASSET_A), 100);
}

#[test]
fn refunded_record_cannot_be_consumed_again() {
    let (mut ledger, address) = opened_scenario();
    assert_eq!(make_refund(&mut ledger, MAKER, address), Ok(()));
    assert_eq!(make_refund(&mut ledger, MAKER, address), Err(EscrowError::RecordNotFound));
    assert_eq!(
        taker_deposit_withdraw_and_close(&mut ledger, TAKER, address),
        Err(EscrowError::RecordNotFound)
    );
    assert_eq!(ledger.balance_of(MAKER, ASSET_A), 100);
    assert_eq!(ledger.balance_of(TAKER, ASSET_B), 50);
}

#[test]
fn take_on_missing_record_fails() {
    let mut ledger = Ledger::new();
    ledger.set_balance(TAKER, ASSET_B, 50);
    let r = taker_deposit_withdraw_and_close(&mut ledger, TAKER, derive_address(5, 5));
    assert_eq!(r, Err(EscrowError::RecordNotFound));
    assert_eq!(ledger.balance_of(TAKER, ASSET_B), 50);
}

#[test]
fn refund_by_non_maker_is_unauthorized() {
    let (mut ledger, address) = opened_scenario();
    let r = make_refund(&mut ledger, TAKER, address);
    assert_eq!(r, Err(EscrowError::Unauthorized));
    let r2 = make_refund(&mut ledger, 99, address);
    assert_eq!(r2, Err(EscrowError::Unauthorized));
    // state unchanged: record still live, holding still funded, no balance moved
    assert_eq!(ledger.get_escrow(address).unwrap().holding_amount, 100);
    assert_eq!(ledger.balance_of(MAKER, ASSET_A), 0);
    assert_eq!(ledger.balance_of(TAKER, ASSET_B), 50);
    // the rightful maker can still refund afterwards
    assert_eq!(make_refund(&mut ledger, MAKER, address), Ok(()));
    assert_eq!(ledger.balance_of(MAKER, ASSET_A), 100);
}

#[test]
fn unpaid_take_releases_nothing() {
    let mut ledger = Ledger::new();
    ledger.set_balance(MAKER, ASSET_A, 100);
    ledger.set_balance(TAKER, ASSET_B, 49);
    assert_eq!(initialize_escrow(&mut ledger, MAKER, 1, ASSET_A, ASSET_B, 50, 100), Ok(()));
    let address = derive_address(MAKER, 1);
    let r = taker_deposit_withdraw_and_close(&mut ledger, TAKER, address);
    assert_eq!(r, Err(EscrowError::InsufficientFunds));
    // nothing left custody and nothing was paid
    assert_eq!(ledger.get_escrow(address).unwrap().holding_amount, 100);
    assert_eq!(ledger.balance_of(TAKER, ASSET_A), 0);
    assert_eq!(ledger.balance_of(TAKER, ASSET_B), 49);
    assert_eq!(ledger.balance_of(MAKER, ASSET_B), 0);
}

#[test]
fn conservation_across_make_and_take() {
    let (mut ledger, address) = opened_scenario();
    let total_a = 100u64;
    let total_b = 50u64;
    // while the escrow is open the holding carries the deposit
    let holding = ledger.get_escrow(address).unwrap().holding_amount;
    assert_eq!(
        ledger.balance_of(MAKER, ASSET_A) + ledger.balance_of(TAKER, ASSET_A) + holding,
        total_a
    );
    assert_eq!(
        ledger.balance_of(MAKER, ASSET_B) + ledger.balance_of(TAKER, ASSET_B),
        total_b
    );
    assert_eq!(taker_deposit_withdraw_and_close(&mut ledger, TAKER, address), Ok(()));
    // after Take the record is gone and the parties hold the same totals
    assert_eq!(
        ledger.balance_of(MAKER, ASSET_A) + ledger.balance_of(TAKER, ASSET_A),
        total_a
    );
    assert_eq!(
        ledger.balance_of(MAKER, ASSET_B) + ledger.balance_of(TAKER, ASSET_B),
        total_b
    );
    // with exactly receive_amount moved from taker to maker
    assert_eq!(ledger.balance_of(MAKER, ASSET_B), 50);
    assert_eq!(ledger.balance_of(TAKER, ASSET_B), 0);
}

#[test]
fn zero_value_escrow_is_permitted() {
    // the policy on degenerate escrows: zero amounts are accepted, matching
    // the protocol's permissive treatment of them
    let mut ledger = Ledger::new();
    let r = initialize_escrow(&mut ledger, MAKER, 1, ASSET_A, ASSET_B, 0, 0);
    assert_eq!(r, Ok(()));
    let address = derive_address(MAKER, 1);
    assert_eq!(ledger.get_escrow(address).unwrap().holding_amount, 0);
    assert_eq!(taker_deposit_withdraw_and_close(&mut ledger, TAKER, address), Ok(()));
    assert!(ledger.get_escrow(address).is_none());
    assert_eq!(ledger.balance_of(TAKER, ASSET_A), 0);
}

#[test]
fn same_asset_on_both_sides_is_permitted() {
    let mut ledger = Ledger::new();
    ledger.set_balance(MAKER, ASSET_A, 100);
    ledger.set_balance(TAKER, ASSET_A, 50);
    assert_eq!(initialize_escrow(&mut ledger, MAKER, 1, ASSET_A, ASSET_A, 50, 100), Ok(()));
    let address = derive_address(MAKER, 1);
    assert_eq!(taker_deposit_withdraw_and_close(&mut ledger, TAKER, address), Ok(()));
    assert_eq!(ledger.balance_of(MAKER, ASSET_A), 50);
    assert_eq!(ledger.balance_of(TAKER, ASSET_A), 100);
}

#[test]
fn largest_deposit_round_trips() {
    let mut ledger = Ledger::new();
    ledger.set_balance(MAKER, ASSET_A, u64::MAX);
    assert_eq!(initialize_escrow(&mut ledger, MAKER, 1, ASSET_A, ASSET_B, 0, u64::MAX), Ok(()));
    let address = derive_address(MAKER, 1);
    assert_eq!(ledger.balance_of(MAKER, ASSET_A), 0);
    assert_eq!(ledger.get_escrow(address).unwrap().holding_amount, u64::MAX);
    assert_eq!(taker_deposit_withdraw_and_close(&mut ledger, TAKER, address), Ok(()));
    assert_eq!(ledger.balance_of(TAKER, ASSET_A), u64::MAX);
}
