//! The protocol's laws, proved over the model transitions of `state`:
//! atomicity of Make, exclusivity of Take and Refund, conservation of both
//! assets across a completed trade, authorization of Refund, and that an
//! unpaid Take releases nothing.

use crate::state::BalanceAccount;
use crate::state::EscrowError;
use crate::state::EscrowSlot;
use crate::state::LedgerView;
use crate::state::bal;
use crate::state::find_escrow;
use crate::state::lemma_bal_push;
use crate::state::lemma_find_after_remove;
use crate::state::lemma_find_after_remove_other;
use crate::state::lemma_find_push;
use crate::state::spec_derive_address;
use crate::state::spec_make;
use crate::state::spec_refund;
use crate::state::spec_take;
use crate::state::take_fits;
use vstd::prelude::*;

verus! {

/// Atomicity of Make: a successful Make creates exactly the new record, with
/// a holding funded with the full deposit, and debits the maker's balance of
/// `asset_a` by exactly the deposit; every other balance and every other
/// record is untouched. (A failing Make changes nothing: the operations'
/// contracts say every error leaves the ledger as it was.)
pub proof fn lemma_make_atomic(
    lv: LedgerView,
    maker: u64,
    seed: u64,
    asset_a: u64,
    asset_b: u64,
    receive_amount: u64,
    deposit_amount: u64,
)
    requires
        spec_make(lv, maker, seed, asset_a, asset_b, receive_amount, deposit_amount) is Ok,
    ensures
        ({
            let address = spec_derive_address(maker, seed);
            let next = spec_make(
                lv,
                maker,
                seed,
                asset_a,
                asset_b,
                receive_amount,
                deposit_amount,
            ).unwrap();
            let slot = (EscrowSlot {
                address,
                seed,
                maker,
                asset_a,
                asset_b,
                receive_amount,
                holding_amount: deposit_amount,
            });
            &&& find_escrow(lv.escrows, address) is None
            &&& bal(lv.accounts, maker, asset_a) >= deposit_amount
            &&& find_escrow(next.escrows, address) == Some(slot)
            &&& bal(next.accounts, maker, asset_a) == bal(lv.accounts, maker, asset_a)
                - deposit_amount
            &&& forall|o: u64, a: u64|
                !(o == maker && a == asset_a) ==> #[trigger] bal(next.accounts, o, a) == bal(
                    lv.accounts,
                    o,
                    a,
                )
            &&& forall|ad: u128|
                ad != address ==> #[trigger] find_escrow(next.escrows, ad) == find_escrow(
                    lv.escrows,
                    ad,
                )
        }),
{
    let address = spec_derive_address(maker, seed);
    let next = spec_make(lv, maker, seed, asset_a, asset_b, receive_amount, deposit_amount).unwrap();
    let slot = EscrowSlot {
        address,
        seed,
        maker,
        asset_a,
        asset_b,
        receive_amount,
        holding_amount: deposit_amount,
    };
    let debit = BalanceAccount {
        owner: maker,
        asset: asset_a,
        amount: (bal(lv.accounts, maker, asset_a) - deposit_amount) as u64,
    };
    lemma_bal_push(lv.accounts, debit, maker, asset_a);
    assert forall|o: u64, a: u64| !(o == maker && a == asset_a) implies #[trigger] bal(
        next.accounts,
        o,
        a,
    ) == bal(lv.accounts, o, a) by {
        lemma_bal_push(lv.accounts, debit, o, a);
    }
    assert forall|ad: u128| ad != address implies #[trigger] find_escrow(next.escrows, ad)
        == find_escrow(lv.escrows, ad) by {
        lemma_find_push(lv.escrows, slot, ad);
    }
    lemma_find_push(lv.escrows, slot, address);
}

/// Exclusivity: once either Take or Refund has consumed a record, both Take
/// and Refund on the same address fail with `RecordNotFound`, whoever calls
/// them — at most one of the two ever succeeds on a given record.
pub proof fn lemma_take_refund_exclusive(
    lv: LedgerView,
    party: u64,
    address: u128,
    next: LedgerView,
)
    requires
        lv.wf(),
        spec_take(lv, party, address) == Ok::<LedgerView, EscrowError>(next) || spec_refund(
            lv,
            party,
            address,
        ) == Ok::<LedgerView, EscrowError>(next),
    ensures
        forall|p: u64| #[trigger]
            spec_take(next, p, address) == Err::<LedgerView, EscrowError>(
                EscrowError::RecordNotFound,
            ),
        forall|p: u64| #[trigger]
            spec_refund(next, p, address) == Err::<LedgerView, EscrowError>(
                EscrowError::RecordNotFound,
            ),
{
    lemma_find_after_remove(lv.escrows, address);
}

/// Frame of Take and Refund: consuming a record touches no other record —
/// escrow instances are independent — and moves no balance of any pair other
/// than the trade's parties in the trade's two assets.
pub proof fn lemma_consume_frame(lv: LedgerView, party: u64, address: u128, next: LedgerView)
    requires
        spec_take(lv, party, address) == Ok::<LedgerView, EscrowError>(next) || spec_refund(
            lv,
            party,
            address,
        ) == Ok::<LedgerView, EscrowError>(next),
    ensures
        ({
            let e = find_escrow(lv.escrows, address).unwrap();
            &&& forall|ad: u128|
                ad != address ==> #[trigger] find_escrow(next.escrows, ad) == find_escrow(
                    lv.escrows,
                    ad,
                )
            &&& forall|o: u64, a: u64|
                !((o == party || o == e.maker) && (a == e.asset_a || a == e.asset_b))
                    ==> #[trigger] bal(next.accounts, o, a) == bal(lv.accounts, o, a)
        }),
{
    let e = find_escrow(lv.escrows, address).unwrap();
    assert forall|ad: u128| ad != address implies #[trigger] find_escrow(next.escrows, ad)
        == find_escrow(lv.escrows, ad) by {
        lemma_find_after_remove_other(lv.escrows, address, ad);
    }
    assert forall|o: u64, a: u64| !((o == party || o == e.maker) && (a == e.asset_a || a
        == e.asset_b)) implies #[trigger] bal(next.accounts, o, a) == bal(lv.accounts, o, a) by {
        if spec_take(lv, party, address) == Ok::<LedgerView, EscrowError>(next) {
            let pay = BalanceAccount {
                owner: party,
                asset: e.asset_b,
                amount: (bal(lv.accounts, party, e.asset_b) - e.receive_amount) as u64,
            };
            let step1 = lv.accounts.push(pay);
            let credit = BalanceAccount {
                owner: e.maker,
                asset: e.asset_b,
                amount: (bal(step1, e.maker, e.asset_b) + e.receive_amount) as u64,
            };
            let step2 = step1.push(credit);
            let release = BalanceAccount {
                owner: party,
                asset: e.asset_a,
                amount: (bal(step2, party, e.asset_a) + e.holding_amount) as u64,
            };
            lemma_bal_push(lv.accounts, pay, o, a);
            lemma_bal_push(step1, credit, o, a);
            lemma_bal_push(step2, release, o, a);
        } else {
            let release = BalanceAccount {
                owner: e.maker,
                asset: e.asset_a,
                amount: (bal(lv.accounts, e.maker, e.asset_a) + e.holding_amount) as u64,
            };
            lemma_bal_push(lv.accounts, release, o, a);
        }
    }
}

/// Conservation across Make + Take, for distinct parties trading distinct
/// assets: the total of `asset_a` held by maker, taker and the custody
/// holding never changes — while the escrow is open the holding carries the
/// deposit, and after Take the taker holds it; and the total of `asset_b`
/// held by maker and taker never changes, with exactly `receive_amount`
/// moving from taker to maker on Take.
pub proof fn lemma_conservation(
    lv: LedgerView,
    maker: u64,
    taker: u64,
    seed: u64,
    asset_a: u64,
    asset_b: u64,
    receive_amount: u64,
    deposit_amount: u64,
)
    requires
        maker != taker,
        asset_a != asset_b,
        spec_make(lv, maker, seed, asset_a, asset_b, receive_amount, deposit_amount) is Ok,
        bal(lv.accounts, taker, asset_b) >= receive_amount,
        take_fits(
            spec_make(lv, maker, seed, asset_a, asset_b, receive_amount, deposit_amount).unwrap(),
            taker,
            spec_derive_address(maker, seed),
        ),
    ensures
        ({
            let address = spec_derive_address(maker, seed);
            let mid = spec_make(
                lv,
                maker,
                seed,
                asset_a,
                asset_b,
                receive_amount,
                deposit_amount,
            ).unwrap();
            let fin = spec_take(mid, taker, address).unwrap();
            &&& spec_take(mid, taker, address) is Ok
            &&& find_escrow(mid.escrows, address).unwrap().holding_amount == deposit_amount
            &&& bal(mid.accounts, maker, asset_a) + bal(mid.accounts, taker, asset_a)
                + deposit_amount == bal(lv.accounts, maker, asset_a) + bal(
                lv.accounts,
                taker,
                asset_a,
            )
            &&& bal(fin.accounts, maker, asset_a) + bal(fin.accounts, taker, asset_a) == bal(
                lv.accounts,
                maker,
                asset_a,
            ) + bal(lv.accounts, taker, asset_a)
            &&& bal(fin.accounts, maker, asset_b) + bal(fin.accounts, taker, asset_b) == bal(
                lv.accounts,
                maker,
                asset_b,
            ) + bal(lv.accounts, taker, asset_b)
            &&& bal(fin.accounts, maker, asset_b) == bal(lv.accounts, maker, asset_b)
                + receive_amount
            &&& bal(fin.accounts, taker, asset_b) == bal(lv.accounts, taker, asset_b)
                - receive_amount
        }),
{
    let address = spec_derive_address(maker, seed);
    let mid = spec_make(lv, maker, seed, asset_a, asset_b, receive_amount, deposit_amount).unwrap();
    let slot = EscrowSlot {
        address,
        seed,
        maker,
        asset_a,
        asset_b,
        receive_amount,
        holding_amount: deposit_amount,
    };
    let debit = BalanceAccount {
        owner: maker,
        asset: asset_a,
        amount: (bal(lv.accounts, maker, asset_a) - deposit_amount) as u64,
    };
    lemma_find_push(lv.escrows, slot, address);
    assert(find_escrow(mid.escrows, address) == Some(slot));
    lemma_bal_push(lv.accounts, debit, maker, asset_a);
    lemma_bal_push(lv.accounts, debit, taker, asset_a);
    lemma_bal_push(lv.accounts, debit, maker, asset_b);
    lemma_bal_push(lv.accounts, debit, taker, asset_b);
    let pay = BalanceAccount {
        owner: taker,
        asset: asset_b,
        amount: (bal(mid.accounts, taker, asset_b) - receive_amount) as u64,
    };
    let step1 = mid.accounts.push(pay);
    lemma_bal_push(mid.accounts, pay, maker, asset_a);
    lemma_bal_push(mid.accounts, pay, taker, asset_a);
    lemma_bal_push(mid.accounts, pay, maker, asset_b);
    lemma_bal_push(mid.accounts, pay, taker, asset_b);
    let credit = BalanceAccount {
        owner: maker,
        asset: asset_b,
        amount: (bal(step1, maker, asset_b) + receive_amount) as u64,
    };
    let step2 = step1.push(credit);
    lemma_bal_push(step1, credit, maker, asset_a);
    lemma_bal_push(step1, credit, taker, asset_a);
    lemma_bal_push(step1, credit, maker, asset_b);
    lemma_bal_push(step1, credit, taker, asset_b);
    let release = BalanceAccount {
        owner: taker,
        asset: asset_a,
        amount: (bal(step2, taker, asset_a) + deposit_amount) as u64,
    };
    lemma_bal_push(step2, release, maker, asset_a);
    lemma_bal_push(step2, release, taker, asset_a);
    lemma_bal_push(step2, release, maker, asset_b);
    lemma_bal_push(step2, release, taker, asset_b);
}

/// Authorization: Refund invoked by any identity other than the stored maker
/// fails with `Unauthorized`. (The operation's contract adds that a failing
/// refund leaves the ledger unchanged.)
pub proof fn lemma_refund_authorization(lv: LedgerView, caller: u64, address: u128)
    requires
        find_escrow(lv.escrows, address) is Some,
        caller != find_escrow(lv.escrows, address).unwrap().maker,
    ensures
        spec_refund(lv, caller, address) == Err::<LedgerView, EscrowError>(
            EscrowError::Unauthorized,
        ),
{
}

/// No pay, no release: when the taker's balance of `asset_b` is below the
/// record's `receive_amount`, Take fails with `InsufficientFunds`. (The
/// operation's contract adds that a failing take leaves the ledger unchanged,
/// so nothing leaves custody.)
pub proof fn lemma_no_pay_no_release(lv: LedgerView, taker: u64, address: u128)
    requires
        find_escrow(lv.escrows, address) is Some,
        bal(lv.accounts, taker, find_escrow(lv.escrows, address).unwrap().asset_b) < find_escrow(
            lv.escrows,
            address,
        ).unwrap().receive_amount,
    ensures
        spec_take(lv, taker, address) == Err::<LedgerView, EscrowError>(
            EscrowError::InsufficientFunds,
        ),
{
}

} // verus!
