//! Ledger state and its mathematical model.
//!
//! The ledger holds fungible-asset balances and the live escrow records. A
//! balance entry binds an `(owner, asset)` pair to an amount; the balance
//! list is append-only and the latest entry for a pair gives the current
//! balance. An escrow record and its custody holding are co-created and
//! co-destroyed, so they are stored as one slot whose `holding_amount` is the
//! custody balance.

use vstd::prelude::*;

verus! {

/// One balance entry: `owner` holds `amount` of `asset`. Balances are kept
/// per distinct asset identifier, so a party may hold independent balances
/// for different assets.
#[derive(Clone, Copy, Debug, PartialEq, Eq, Structural)]
pub struct BalanceAccount {
    pub owner: u64,
    pub asset: u64,
    pub amount: u64,
}

/// One live escrow record together with its custody holding.
///
/// `address` is the record's storage address, derived deterministically from
/// `(maker, seed)`; the derivation is recomputable from the stored fields, so
/// presenting the record itself is what authorizes release of the holding —
/// no private key controls the custody. `holding_amount` is the custodied
/// balance of `asset_a`, funded at creation and drained exactly once when the
/// record is consumed.
#[derive(Clone, Copy, Debug, PartialEq, Eq, Structural)]
pub struct EscrowSlot {
    pub address: u128,
    pub seed: u64,
    pub maker: u64,
    pub asset_a: u64,
    pub asset_b: u64,
    pub receive_amount: u64,
    pub holding_amount: u64,
}

/// Every way an escrow operation can fail. All failures are surfaced
/// synchronously and leave the ledger unchanged.
#[derive(Clone, Copy, Debug, PartialEq, Eq, Structural)]
pub enum EscrowError {
    /// A required transfer's source balance is too low.
    InsufficientFunds,
    /// The caller's identity does not match the required role.
    Unauthorized,
    /// A live record already occupies the derived address.
    AddressCollision,
    /// The referenced record does not exist or was already consumed.
    RecordNotFound,
}

/// The ledger: balances plus live escrow records.
pub struct Ledger {
    pub accounts: Vec<BalanceAccount>,
    pub escrows: Vec<EscrowSlot>,
}

/// Mathematical model of a ledger state.
#[verifier::ext_equal]
pub struct LedgerView {
    pub accounts: Seq<BalanceAccount>,
    pub escrows: Seq<EscrowSlot>,
}

impl View for Ledger {
    type V = LedgerView;

    open spec fn view(&self) -> LedgerView {
        LedgerView { accounts: self.accounts@, escrows: self.escrows@ }
    }
}

/// The deterministic storage address of the escrow record a given maker
/// creates with a given seed. The pair is packed into the high and low halves
/// of the address, so distinct `(maker, seed)` pairs get distinct addresses.
pub open spec fn spec_derive_address(maker: u64, seed: u64) -> u128 {
    (maker as u128 * 0x1_0000_0000_0000_0000 + seed as u128) as u128
}

/// Current balance of `(owner, asset)`: the amount in the latest matching
/// entry, or zero when no entry matches.
pub open spec fn bal(accounts: Seq<BalanceAccount>, owner: u64, asset: u64) -> u64
    decreases accounts.len(),
{
    if accounts.len() == 0 {
        0
    } else if accounts.last().owner == owner && accounts.last().asset == asset {
        accounts.last().amount
    } else {
        bal(accounts.drop_last(), owner, asset)
    }
}

/// The balance list after setting the balance of `(owner, asset)` to
/// `amount`: one entry is appended, every other pair is unaffected.
pub open spec fn with_bal(
    accounts: Seq<BalanceAccount>,
    owner: u64,
    asset: u64,
    amount: u64,
) -> Seq<BalanceAccount> {
    accounts.push(BalanceAccount { owner, asset, amount })
}

/// The live escrow record at `address`, if any. Well-formed ledgers hold at
/// most one record per address.
pub open spec fn find_escrow(escrows: Seq<EscrowSlot>, address: u128) -> Option<EscrowSlot>
    decreases escrows.len(),
{
    if escrows.len() == 0 {
        None
    } else if escrows.last().address == address {
        Some(escrows.last())
    } else {
        find_escrow(escrows.drop_last(), address)
    }
}

/// The escrow list with the record at `address` removed (unchanged when no
/// record matches).
pub open spec fn remove_escrow(escrows: Seq<EscrowSlot>, address: u128) -> Seq<EscrowSlot>
    decreases escrows.len(),
{
    if escrows.len() == 0 {
        escrows
    } else if escrows.last().address == address {
        escrows.drop_last()
    } else {
        remove_escrow(escrows.drop_last(), address).push(escrows.last())
    }
}

/// Well-formedness of the escrow list: each live record sits at its own
/// address, and every address is the one derived from the record's stored
/// `(maker, seed)` — so recomputing the derivation from the record is a sound
/// authority check.
pub open spec fn escrows_wf(escrows: Seq<EscrowSlot>) -> bool {
    &&& forall|i: int, j: int|
        0 <= i < j < escrows.len() ==> (#[trigger] escrows[i]).address != (
        #[trigger] escrows[j]).address
    &&& forall|i: int|
        0 <= i < escrows.len() ==> (#[trigger] escrows[i]).address == spec_derive_address(
            escrows[i].maker,
            escrows[i].seed,
        )
}

impl LedgerView {
    /// Well-formedness of a ledger state.
    pub open spec fn wf(self) -> bool {
        escrows_wf(self.escrows)
    }
}

impl Ledger {
    /// Well-formedness of the ledger; established by `Ledger::new` and
    /// preserved by every operation.
    pub open spec fn wf(self) -> bool {
        self@.wf()
    }
}

/// The Make transition: derive the record's address from `(maker, seed)`;
/// fail with `AddressCollision` if a live record already occupies it; fail
/// with `InsufficientFunds` if the maker's balance of `asset_a` cannot cover
/// the deposit; otherwise debit the maker and create the record with its
/// holding funded with exactly `deposit_amount`. Either both the record and
/// the funded holding come to exist, or nothing changes.
pub open spec fn spec_make(
    lv: LedgerView,
    maker: u64,
    seed: u64,
    asset_a: u64,
    asset_b: u64,
    receive_amount: u64,
    deposit_amount: u64,
) -> Result<LedgerView, EscrowError> {
    let address = spec_derive_address(maker, seed);
    if find_escrow(lv.escrows, address) is Some {
        Err(EscrowError::AddressCollision)
    } else if bal(lv.accounts, maker, asset_a) < deposit_amount {
        Err(EscrowError::InsufficientFunds)
    } else {
        Ok(
            LedgerView {
                accounts: with_bal(
                    lv.accounts,
                    maker,
                    asset_a,
                    (bal(lv.accounts, maker, asset_a) - deposit_amount) as u64,
                ),
                escrows: lv.escrows.push(
                    EscrowSlot {
                        address,
                        seed,
                        maker,
                        asset_a,
                        asset_b,
                        receive_amount,
                        holding_amount: deposit_amount,
                    },
                ),
            },
        )
    }
}

/// The Take transition: fail with `RecordNotFound` if no live record sits at
/// `address`; fail with `InsufficientFunds` — before any custody moves — if
/// the taker's balance of `asset_b` cannot cover `receive_amount`; otherwise
/// pay the maker first, then release the full holding of `asset_a` to the
/// taker and destroy the record, all as one unit.
pub open spec fn spec_take(lv: LedgerView, taker: u64, address: u128) -> Result<
    LedgerView,
    EscrowError,
> {
    match find_escrow(lv.escrows, address) {
        None => Err(EscrowError::RecordNotFound),
        Some(e) => {
            if bal(lv.accounts, taker, e.asset_b) < e.receive_amount {
                Err(EscrowError::InsufficientFunds)
            } else {
                let paid = with_bal(
                    with_bal(
                        lv.accounts,
                        taker,
                        e.asset_b,
                        (bal(lv.accounts, taker, e.asset_b) - e.receive_amount) as u64,
                    ),
                    e.maker,
                    e.asset_b,
                    (bal(
                        with_bal(
                            lv.accounts,
                            taker,
                            e.asset_b,
                            (bal(lv.accounts, taker, e.asset_b) - e.receive_amount) as u64,
                        ),
                        e.maker,
                        e.asset_b,
                    ) + e.receive_amount) as u64,
                );
                Ok(
                    LedgerView {
                        accounts: with_bal(
                            paid,
                            taker,
                            e.asset_a,
                            (bal(paid, taker, e.asset_a) + e.holding_amount) as u64,
                        ),
                        escrows: remove_escrow(lv.escrows, address),
                    },
                )
            }
        },
    }
}

/// The Refund transition: fail with `RecordNotFound` if no live record sits
/// at `address`; fail with `Unauthorized` if the caller is not the stored
/// maker; otherwise release the full holding of `asset_a` back to the maker
/// and destroy the record.
pub open spec fn spec_refund(lv: LedgerView, caller: u64, address: u128) -> Result<
    LedgerView,
    EscrowError,
> {
    match find_escrow(lv.escrows, address) {
        None => Err(EscrowError::RecordNotFound),
        Some(e) => {
            if caller != e.maker {
                Err(EscrowError::Unauthorized)
            } else {
                Ok(
                    LedgerView {
                        accounts: with_bal(
                            lv.accounts,
                            e.maker,
                            e.asset_a,
                            (bal(lv.accounts, e.maker, e.asset_a) + e.holding_amount) as u64,
                        ),
                        escrows: remove_escrow(lv.escrows, address),
                    },
                )
            }
        },
    }
}

/// Appending one balance entry changes exactly that pair's balance and no
/// other.
pub proof fn lemma_bal_push(
    accounts: Seq<BalanceAccount>,
    entry: BalanceAccount,
    owner: u64,
    asset: u64,
)
    ensures
        bal(accounts.push(entry), owner, asset) == if entry.owner == owner && entry.asset
            == asset {
            entry.amount
        } else {
            bal(accounts, owner, asset)
        },
{
    assert(accounts.push(entry).drop_last() =~= accounts);
    assert(accounts.push(entry).last() == entry);
}

/// Appending one escrow slot changes exactly the lookup at its address and no
/// other.
pub proof fn lemma_find_push(escrows: Seq<EscrowSlot>, slot: EscrowSlot, address: u128)
    ensures
        find_escrow(escrows.push(slot), address) == if slot.address == address {
            Some(slot)
        } else {
            find_escrow(escrows, address)
        },
{
    assert(escrows.push(slot).drop_last() =~= escrows);
    assert(escrows.push(slot).last() == slot);
}

/// A lookup misses exactly when no slot carries the address.
pub proof fn lemma_find_none(escrows: Seq<EscrowSlot>, address: u128)
    ensures
        find_escrow(escrows, address) is None <==> (forall|k: int|
            0 <= k < escrows.len() ==> (#[trigger] escrows[k]).address != address),
    decreases escrows.len(),
{
    if escrows.len() > 0 {
        lemma_find_none(escrows.drop_last(), address);
        assert(forall|k: int|
            0 <= k < escrows.len() - 1 ==> escrows.drop_last()[k] == (#[trigger] escrows[k]));
        assert(escrows.last() == escrows[escrows.len() - 1]);
    }
}

/// Removing the record at `address` is removing the slot at the index where
/// it sits, when no later slot carries the address.
pub proof fn lemma_remove_escrow_at(escrows: Seq<EscrowSlot>, address: u128, i: int)
    requires
        0 <= i < escrows.len(),
        escrows[i].address == address,
        forall|k: int| i < k < escrows.len() ==> (#[trigger] escrows[k]).address != address,
    ensures
        remove_escrow(escrows, address) == escrows.remove(i),
    decreases escrows.len(),
{
    if i == escrows.len() - 1 {
        assert(escrows.last().address == address);
        assert(escrows.remove(i) =~= escrows.drop_last());
    } else {
        assert(escrows.last() == escrows[escrows.len() - 1]);
        assert(escrows.last().address != address);
        assert(escrows.drop_last()[i] == escrows[i]);
        assert(forall|k: int|
            i < k < escrows.len() - 1 ==> (#[trigger] escrows.drop_last()[k]) == escrows[k]);
        lemma_remove_escrow_at(escrows.drop_last(), address, i);
        assert(escrows.remove(i) =~= escrows.drop_last().remove(i).push(escrows.last()));
    }
}

/// Once the record at an address is removed from a list whose addresses are
/// distinct, no record remains at that address.
pub proof fn lemma_find_after_remove(escrows: Seq<EscrowSlot>, address: u128)
    requires
        forall|i: int, j: int|
            0 <= i < j < escrows.len() ==> (#[trigger] escrows[i]).address != (
            #[trigger] escrows[j]).address,
    ensures
        find_escrow(remove_escrow(escrows, address), address) is None,
    decreases escrows.len(),
{
    if escrows.len() == 0 {
    } else if escrows.last().address == address {
        assert(escrows.last() == escrows[escrows.len() - 1]);
        lemma_find_none(escrows.drop_last(), address);
        assert forall|k: int| 0 <= k < escrows.drop_last().len() implies (
        #[trigger] escrows.drop_last()[k]).address != address by {
            assert(escrows.drop_last()[k] == escrows[k]);
            assert(escrows[k].address != escrows[escrows.len() - 1].address);
        }
    } else {
        assert(forall|k: int|
            0 <= k < escrows.len() - 1 ==> escrows.drop_last()[k] == (#[trigger] escrows[k]));
        lemma_find_after_remove(escrows.drop_last(), address);
        lemma_find_push(remove_escrow(escrows.drop_last(), address), escrows.last(), address);
    }
}

/// Removing the record at one address leaves the lookup at every other
/// address unchanged.
pub proof fn lemma_find_after_remove_other(escrows: Seq<EscrowSlot>, address: u128, other: u128)
    requires
        other != address,
    ensures
        find_escrow(remove_escrow(escrows, address), other) == find_escrow(escrows, other),
    decreases escrows.len(),
{
    if escrows.len() > 0 {
        if escrows.last().address == address {
            assert(escrows.drop_last().push(escrows.last()) =~= escrows);
        } else {
            lemma_find_after_remove_other(escrows.drop_last(), address, other);
            lemma_find_push(remove_escrow(escrows.drop_last(), address), escrows.last(), other);
        }
    }
}

/// Removing any one slot preserves well-formedness of the escrow list.
pub proof fn lemma_escrows_wf_remove(escrows: Seq<EscrowSlot>, i: int)
    requires
        escrows_wf(escrows),
        0 <= i < escrows.len(),
    ensures
        escrows_wf(escrows.remove(i)),
{
    escrows.remove_ensures(i);
    let shorter = escrows.remove(i);
    assert forall|a: int, b: int| 0 <= a < b < shorter.len() implies (
    #[trigger] shorter[a]).address != (#[trigger] shorter[b]).address by {
        let a0 = if a < i {
            a
        } else {
            a + 1
        };
        let b0 = if b < i {
            b
        } else {
            b + 1
        };
        assert(shorter[a] == escrows[a0]);
        assert(shorter[b] == escrows[b0]);
    }
    assert forall|a: int| 0 <= a < shorter.len() implies (#[trigger] shorter[a]).address
        == spec_derive_address(shorter[a].maker, shorter[a].seed) by {
        let a0 = if a < i {
            a
        } else {
            a + 1
        };
        assert(shorter[a] == escrows[a0]);
    }
}

/// Appending a slot at a fresh, correctly derived address preserves
/// well-formedness of the escrow list.
pub proof fn lemma_escrows_wf_push(escrows: Seq<EscrowSlot>, slot: EscrowSlot)
    requires
        escrows_wf(escrows),
        forall|k: int| 0 <= k < escrows.len() ==> (#[trigger] escrows[k]).address != slot.address,
        slot.address == spec_derive_address(slot.maker, slot.seed),
    ensures
        escrows_wf(escrows.push(slot)),
{
    let longer = escrows.push(slot);
    assert forall|a: int, b: int| 0 <= a < b < longer.len() implies (#[trigger] longer[a]).address
        != (#[trigger] longer[b]).address by {
        if b == escrows.len() {
            assert(longer[a] == escrows[a]);
            assert(longer[b] == slot);
        } else {
            assert(longer[a] == escrows[a]);
            assert(longer[b] == escrows[b]);
        }
    }
    assert forall|a: int| 0 <= a < longer.len() implies (#[trigger] longer[a]).address
        == spec_derive_address(longer[a].maker, longer[a].seed) by {
        if a == escrows.len() {
            assert(longer[a] == slot);
        } else {
            assert(longer[a] == escrows[a]);
        }
    }
}

/// Machine-limit side condition for Take: the two credits it performs stay
/// within `u64`. Holds vacuously when the operation fails.
pub open spec fn take_fits(lv: LedgerView, taker: u64, address: u128) -> bool {
    match find_escrow(lv.escrows, address) {
        None => true,
        Some(e) => bal(lv.accounts, taker, e.asset_b) >= e.receive_amount ==> {
            let debited = with_bal(
                lv.accounts,
                taker,
                e.asset_b,
                (bal(lv.accounts, taker, e.asset_b) - e.receive_amount) as u64,
            );
            let paid = with_bal(
                debited,
                e.maker,
                e.asset_b,
                (bal(debited, e.maker, e.asset_b) + e.receive_amount) as u64,
            );
            &&& bal(debited, e.maker, e.asset_b) + e.receive_amount <= u64::MAX
            &&& bal(paid, taker, e.asset_a) + e.holding_amount <= u64::MAX
        },
    }
}

/// Machine-limit side condition for Refund: crediting the holding back to
/// the maker stays within `u64`. Holds vacuously when the operation fails.
pub open spec fn refund_fits(lv: LedgerView, caller: u64, address: u128) -> bool {
    match find_escrow(lv.escrows, address) {
        None => true,
        Some(e) => caller == e.maker ==> bal(lv.accounts, e.maker, e.asset_a) + e.holding_amount
            <= u64::MAX,
    }
}

} // verus!
