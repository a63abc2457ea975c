//! The three escrow operations — make, take, refund — and the ledger
//! methods they are built from. Every operation either completes fully or
//! fails with an `EscrowError` and leaves the ledger exactly as it was.

use crate::state::BalanceAccount;
use crate::state::EscrowError;
use crate::state::EscrowSlot;
use crate::state::Ledger;
use crate::state::LedgerView;
use crate::state::bal;
use crate::state::find_escrow;
use crate::state::lemma_escrows_wf_push;
use crate::state::lemma_escrows_wf_remove;
use crate::state::lemma_remove_escrow_at;
use crate::state::spec_derive_address;
use crate::state::spec_make;
use crate::state::spec_refund;
use crate::state::spec_take;
use crate::state::refund_fits;
use crate::state::take_fits;
use crate::state::with_bal;
use vstd::prelude::*;

verus! {

/// The deterministic storage address of the escrow record `maker` creates
/// with `seed`. Purely structural: re-deriving it from the record's stored
/// fields is what stands in for a signature.
pub fn derive_address(maker: u64, seed: u64) -> (r: u128)
    ensures
        r == spec_derive_address(maker, seed),
{
    maker as u128 * 0x1_0000_0000_0000_0000 + seed as u128
}

impl Ledger {
    /// An empty ledger: no balances, no live escrow records.
    pub fn new() -> (r: Ledger)
        ensures
            r.wf(),
            r@.accounts == Seq::<BalanceAccount>::empty(),
            r@.escrows == Seq::<EscrowSlot>::empty(),
    {
        Ledger { accounts: Vec::new(), escrows: Vec::new() }
    }

    /// Sets the balance of `(owner, asset)` to `amount`, as the surrounding
    /// asset service does when it endows a party with funds. No other balance
    /// and no escrow record changes.
    pub fn set_balance(&mut self, owner: u64, asset: u64, amount: u64)
        ensures
            final(self)@.accounts == with_bal(old(self)@.accounts, owner, asset, amount),
            final(self)@.escrows == old(self)@.escrows,
            old(self).wf() ==> final(self).wf(),
    {
        self.accounts.push(BalanceAccount { owner, asset, amount });
    }

    /// Current balance of `(owner, asset)`.
    pub fn balance_of(&self, owner: u64, asset: u64) -> (r: u64)
        ensures
            r == bal(self@.accounts, owner, asset),
    {
        let mut i: usize = self.accounts.len();
        proof {
            assert(self.accounts@.take(i as int) =~= self.accounts@);
        }
        while 0 < i
            invariant
                i <= self.accounts.len(),
                bal(self.accounts@, owner, asset) == bal(
                    self.accounts@.take(i as int),
                    owner,
                    asset,
                ),
            decreases i,
        {
            let idx = i - 1;
            let entry = &self.accounts[idx];
            proof {
                assert(self.accounts@.take(i as int).drop_last() =~= self.accounts@.take(
                    idx as int,
                ));
                assert(self.accounts@.take(i as int).last() == self.accounts@[idx as int]);
            }
            if entry.owner == owner && entry.asset == asset {
                return entry.amount;
            }
            i = idx;
        }
        proof {
            assert(self.accounts@.take(0).len() == 0);
        }
        0
    }

    /// Index of the live escrow record at `address`, scanning from the back
    /// so the result agrees with `find_escrow`.
    fn find_escrow_index(&self, address: u128) -> (r: Option<usize>)
        ensures
            (match r {
                Some(idx) => idx < self.escrows@.len() && self.escrows@[idx as int].address
                    == address && (forall|k: int|
                    idx < k < self.escrows@.len() ==> (#[trigger] self.escrows@[k]).address
                        != address) && find_escrow(self@.escrows, address) == Some(
                    self.escrows@[idx as int],
                ),
                None => find_escrow(self@.escrows, address) is None && (forall|k: int|
                    0 <= k < self.escrows@.len() ==> (#[trigger] self.escrows@[k]).address
                        != address),
            }),
    {
        let mut i: usize = self.escrows.len();
        proof {
            assert(self.escrows@.take(i as int) =~= self.escrows@);
        }
        while 0 < i
            invariant
                i <= self.escrows.len(),
                find_escrow(self.escrows@, address) == find_escrow(
                    self.escrows@.take(i as int),
                    address,
                ),
                forall|k: int|
                    i <= k < self.escrows@.len() ==> (#[trigger] self.escrows@[k]).address
                        != address,
            decreases i,
        {
            let idx = i - 1;
            let slot = &self.escrows[idx];
            proof {
                assert(self.escrows@.take(i as int).drop_last() =~= self.escrows@.take(idx as int));
                assert(self.escrows@.take(i as int).last() == self.escrows@[idx as int]);
            }
            if slot.address == address {
                return Some(idx);
            }
            i = idx;
        }
        proof {
            assert(self.escrows@.take(0).len() == 0);
        }
        None
    }

    /// The live escrow record at `address`, if any.
    pub fn get_escrow(&self, address: u128) -> (r: Option<EscrowSlot>)
        ensures
            r == find_escrow(self@.escrows, address),
    {
        match self.find_escrow_index(address) {
            Some(idx) => Some(self.escrows[idx]),
            None => None,
        }
    }
}

/// Make: create the escrow record at the address derived from
/// `(maker, seed)` and move `deposit_amount` of `asset_a` from the maker into
/// custody, as one unit. Fails with `AddressCollision` if a live record
/// already occupies the address, and with `InsufficientFunds` if the maker's
/// balance of `asset_a` is below `deposit_amount`; every failure leaves the
/// ledger unchanged, so no orphan record or unfunded holding can exist.
/// Zero `receive_amount` or `deposit_amount` is permitted: a degenerate
/// escrow is created and can be taken or refunded like any other.
pub fn initialize_escrow(
    ledger: &mut Ledger,
    maker: u64,
    seed: u64,
    asset_a: u64,
    asset_b: u64,
    receive_amount: u64,
    deposit_amount: u64,
) -> (r: Result<(), EscrowError>)
    requires
        old(ledger).wf(),
    ensures
        final(ledger).wf(),
        (match r {
            Ok(()) => spec_make(
                old(ledger)@,
                maker,
                seed,
                asset_a,
                asset_b,
                receive_amount,
                deposit_amount,
            ) == Ok::<LedgerView, EscrowError>(final(ledger)@),
            Err(e) => spec_make(
                old(ledger)@,
                maker,
                seed,
                asset_a,
                asset_b,
                receive_amount,
                deposit_amount,
            ) == Err::<LedgerView, EscrowError>(e) && final(ledger)@ == old(ledger)@,
        }),
{
    let address = derive_address(maker, seed);
    if ledger.find_escrow_index(address).is_some() {
        return Err(EscrowError::AddressCollision);
    }
    let maker_balance = ledger.balance_of(maker, asset_a);
    if maker_balance < deposit_amount {
        return Err(EscrowError::InsufficientFunds);
    }
    let slot = EscrowSlot {
        address,
        seed,
        maker,
        asset_a,
        asset_b,
        receive_amount,
        holding_amount: deposit_amount,
    };
    ledger.accounts.push(
        BalanceAccount { owner: maker, asset: asset_a, amount: maker_balance - deposit_amount },
    );
    ledger.escrows.push(slot);
    proof {
        lemma_escrows_wf_push(old(ledger)@.escrows, slot);
        assert(ledger@ =~= spec_make(
            old(ledger)@,
            maker,
            seed,
            asset_a,
            asset_b,
            receive_amount,
            deposit_amount,
        ).unwrap());
    }
    Ok(())
}

/// Take: the taker pays `receive_amount` of `asset_b` to the maker — before
/// any custody moves — and then receives the full custodied balance of
/// `asset_a` while the record and holding are destroyed, all as one unit.
/// Fails with `RecordNotFound` if no live record sits at `escrow_address`,
/// and with `InsufficientFunds` if the taker's balance of `asset_b` is below
/// `receive_amount`; every failure leaves the ledger unchanged, so a taker
/// who cannot pay never gains any of the custodied asset.
pub fn taker_deposit_withdraw_and_close(
    ledger: &mut Ledger,
    taker: u64,
    escrow_address: u128,
) -> (r: Result<(), EscrowError>)
    requires
        old(ledger).wf(),
        take_fits(old(ledger)@, taker, escrow_address),
    ensures
        final(ledger).wf(),
        (match r {
            Ok(()) => spec_take(old(ledger)@, taker, escrow_address) == Ok::<LedgerView, EscrowError>(final(ledger)@),
            Err(e) => spec_take(old(ledger)@, taker, escrow_address) == Err::<LedgerView, EscrowError>(e) && final(ledger)@
                == old(ledger)@,
        }),
{
    let idx = match ledger.find_escrow_index(escrow_address) {
        None => {
            return Err(EscrowError::RecordNotFound);
        },
        Some(idx) => idx,
    };
    let slot = ledger.escrows[idx];
    let taker_b = ledger.balance_of(taker, slot.asset_b);
    if taker_b < slot.receive_amount {
        return Err(EscrowError::InsufficientFunds);
    }
    // The taker pays the maker first.
    ledger.accounts.push(
        BalanceAccount {
            owner: taker,
            asset: slot.asset_b,
            amount: taker_b - slot.receive_amount,
        },
    );
    let maker_b = ledger.balance_of(slot.maker, slot.asset_b);
    ledger.accounts.push(
        BalanceAccount {
            owner: slot.maker,
            asset: slot.asset_b,
            amount: maker_b + slot.receive_amount,
        },
    );
    // Only then is custody released to the taker, and the record destroyed.
    let taker_a = ledger.balance_of(taker, slot.asset_a);
    ledger.accounts.push(
        BalanceAccount {
            owner: taker,
            asset: slot.asset_a,
            amount: taker_a + slot.holding_amount,
        },
    );
    ledger.escrows.remove(idx);
    proof {
        lemma_remove_escrow_at(old(ledger)@.escrows, escrow_address, idx as int);
        lemma_escrows_wf_remove(old(ledger)@.escrows, idx as int);
        assert(ledger@ =~= spec_take(old(ledger)@, taker, escrow_address).unwrap());
    }
    Ok(())
}

/// Refund: the maker unilaterally cancels the trade, reclaiming the full
/// custodied balance of `asset_a` while the record and holding are
/// destroyed. Fails with `RecordNotFound` if no live record sits at
/// `escrow_address`, and with `Unauthorized` if the caller is not the stored
/// maker; every failure leaves the ledger unchanged.
pub fn make_refund(ledger: &mut Ledger, caller: u64, escrow_address: u128) -> (r: Result<
    (),
    EscrowError,
>)
    requires
        old(ledger).wf(),
        refund_fits(old(ledger)@, caller, escrow_address),
    ensures
        final(ledger).wf(),
        (match r {
            Ok(()) => spec_refund(old(ledger)@, caller, escrow_address) == Ok::<LedgerView, EscrowError>(final(ledger)@),
            Err(e) => spec_refund(old(ledger)@, caller, escrow_address) == Err::<LedgerView, EscrowError>(e) && final(ledger)@
                == old(ledger)@,
        }),
{
    let idx = match ledger.find_escrow_index(escrow_address) {
        None => {
            return Err(EscrowError::RecordNotFound);
        },
        Some(idx) => idx,
    };
    let slot = ledger.escrows[idx];
    if caller != slot.maker {
        return Err(EscrowError::Unauthorized);
    }
    let maker_a = ledger.balance_of(slot.maker, slot.asset_a);
    ledger.accounts.push(
        BalanceAccount {
            owner: slot.maker,
            asset: slot.asset_a,
            amount: maker_a + slot.holding_amount,
        },
    );
    ledger.escrows.remove(idx);
    proof {
        lemma_remove_escrow_at(old(ledger)@.escrows, escrow_address, idx as int);
        lemma_escrows_wf_remove(old(ledger)@.escrows, idx as int);
        assert(ledger@ =~= spec_refund(old(ledger)@, caller, escrow_address).unwrap());
    }
    Ok(())
}

} // verus!
