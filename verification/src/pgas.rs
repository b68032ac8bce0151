//! Fee payment in PGAS (people gas), which is burned rather than paid to
//! the staking pot.
//!
//! The balances, transfers and the conversion from the native currency are
//! the runtime's; each decision below takes their results as values.
use core::marker::PhantomData;
use vstd::prelude::*;

verus! {

/// A balance.
pub type Balance = u128;

/// An asset identifier.
pub type AssetId = u32;

/// Credit handler that burns PGAS credits and hands every other credit to
/// an inner handler.
pub struct BurnPgasHandleCredit<PgasId, Inner>(pub PhantomData<(PgasId, Inner)>);

/// Fungible assets combined with a holder of held balances.
pub struct CombineAssetsWithHolder<A, H>(pub PhantomData<(A, H)>);

/// Fee charging that takes PGAS fees before the swap logic and hands every
/// other asset to an inner handler.
pub struct PgasOnChargeAssetTransaction<PgasId, F, C, Inner>(pub PhantomData<(PgasId, F, C, Inner)>);

/// What was withdrawn for a fee: a PGAS credit, or what the inner handler
/// withdrew.
#[derive(Clone, Copy, PartialEq, Eq, Debug)]
pub enum PgasLiquidityInfo<PgasInfo, InnerInfo> {
    /// The fee was paid in PGAS.
    Pgas(PgasInfo),
    /// The fee was paid in another asset.
    Other(InnerInfo),
}

/// Where a credit goes.
#[derive(Clone, Copy, PartialEq, Eq, Debug, Structural)]
pub enum CreditRoute {
    /// Dropped, which burns it.
    Burn,
    /// Handed to the inner handler.
    Delegate,
}

/// A fee that cannot be paid.
#[derive(Clone, Copy, PartialEq, Eq, Debug, Structural)]
pub enum FeeError {
    /// The payment is invalid.
    Payment,
}

/// What withdrawing an amount from an account would do.
#[derive(Clone, Copy, PartialEq, Eq, Debug, Structural)]
pub enum WithdrawConsequence {
    BalanceLow,
    WouldDie,
    UnknownAsset,
    Underflow,
    Overflow,
    Frozen,
    /// The account would be emptied, losing the given dust.
    ReducedToZero(Balance),
    Success,
}

/// What to withdraw for a fee.
#[derive(Clone, Copy, PartialEq, Eq, Debug, Structural)]
pub enum WithdrawPlan {
    /// Withdraw exactly this much PGAS (the account may be emptied).
    Pgas { amount: Balance },
    /// Let the inner handler withdraw the fee.
    Delegate,
}

/// What the correction of a fee does.
#[derive(Clone, Copy, PartialEq, Eq, Debug)]
pub enum Correction<InnerInfo> {
    /// Burn `burn` of the PGAS credit, refund `refund` to the payer, and
    /// report `corrected_fee` as paid.
    Pgas { burn: Balance, refund: Balance, corrected_fee: Balance },
    /// Let the inner handler correct the fee with what it withdrew.
    Delegate(InnerInfo),
}

/// The PGAS charge for a native fee `fee` whose conversion gave
/// `converted` (`None`: the conversion failed): a failed conversion is an
/// invalid payment, and a non-zero fee is never charged zero.
pub open spec fn pgas_fee_spec(fee: Balance, converted: Option<Balance>) -> Result<Balance, FeeError> {
    match converted {
        None => Err(FeeError::Payment),
        Some(p) => if fee != 0 && p == 0 {
            Ok(1)
        } else {
            Ok(p)
        },
    }
}

/// How a PGAS credit of `withdrawn` splits for a charge of `charge`: the
/// charge, up to the credit, is burned and the rest refunded.
pub open spec fn split_credit(withdrawn: Balance, charge: Balance) -> (Balance, Balance) {
    let burn = if charge < withdrawn {
        charge
    } else {
        withdrawn
    };
    (burn, (withdrawn - burn) as Balance)
}

/// A non-zero fee whose conversion succeeds is charged at least one unit.
pub proof fn lemma_nonzero_fee_charged(fee: Balance, converted: Balance)
    requires
        fee != 0,
    ensures
        pgas_fee_spec(fee, Some(converted)) matches Ok(p) && p >= 1,
{
}

/// A correction neither creates nor loses PGAS: what is burned and what is
/// refunded add up to the credit, and no more than the charge is burned.
pub proof fn lemma_correction_conserves(withdrawn: Balance, charge: Balance)
    ensures
        split_credit(withdrawn, charge).0 + split_credit(withdrawn, charge).1 == withdrawn,
        split_credit(withdrawn, charge).0 <= charge,
        charge <= withdrawn ==> split_credit(withdrawn, charge).0 == charge,
{
}

/// Converts a native fee to a PGAS charge, given the conversion's result.
pub fn native_to_pgas_fee(fee: Balance, converted: Option<Balance>) -> (r: Result<Balance, FeeError>)
    ensures
        r == pgas_fee_spec(fee, converted),
{
    let pgas_fee = match converted {
        Some(p) => p,
        None => {
            return Err(FeeError::Payment);
        },
    };
    if fee != 0 && pgas_fee == 0 {
        Ok(1)
    } else {
        Ok(pgas_fee)
    }
}

impl<PgasId, Inner> BurnPgasHandleCredit<PgasId, Inner> {
    /// Where a credit in `asset` goes: PGAS credits are burned.
    pub fn handle_credit(asset: AssetId, pgas_id: AssetId) -> (r: CreditRoute)
        ensures
            r == (if asset == pgas_id {
                CreditRoute::Burn
            } else {
                CreditRoute::Delegate
            }),
    {
        if asset == pgas_id {
            CreditRoute::Burn
        } else {
            CreditRoute::Delegate
        }
    }
}

impl<PgasId, F, C, Inner> PgasOnChargeAssetTransaction<PgasId, F, C, Inner> {
    /// What to withdraw for a native fee `fee` paid in `asset_id`, where the
    /// conversion of `fee` to PGAS gave `converted`.
    pub fn withdraw_fee(asset_id: AssetId, pgas_id: AssetId, fee: Balance, converted: Option<Balance>) -> (r: Result<
        WithdrawPlan,
        FeeError,
    >)
        ensures
            asset_id != pgas_id ==> r == Ok::<WithdrawPlan, FeeError>(WithdrawPlan::Delegate),
            asset_id == pgas_id ==> r == (match pgas_fee_spec(fee, converted) {
                Ok(amount) => Ok(WithdrawPlan::Pgas { amount }),
                Err(e) => Err(e),
            }),
    {
        if asset_id == pgas_id {
            let amount = native_to_pgas_fee(fee, converted)?;
            Ok(WithdrawPlan::Pgas { amount })
        } else {
            Ok(WithdrawPlan::Delegate)
        }
    }

    /// Whether a fee in `asset_id` can be withdrawn, where the conversion of
    /// `fee` to PGAS gave `converted` and withdrawing that charge would have
    /// `consequence`: a withdrawal that empties the account is accepted.
    /// `Ok(false)` leaves the check to the inner handler.
    pub fn can_withdraw_fee(
        asset_id: AssetId,
        pgas_id: AssetId,
        fee: Balance,
        converted: Option<Balance>,
        consequence: WithdrawConsequence,
    ) -> (r: Result<bool, FeeError>)
        ensures
            asset_id != pgas_id ==> r == Ok::<bool, FeeError>(false),
            asset_id == pgas_id ==> r == (match pgas_fee_spec(fee, converted) {
                Err(e) => Err(e),
                Ok(_) => match consequence {
                    WithdrawConsequence::Success | WithdrawConsequence::ReducedToZero(_) => Ok(true),
                    _ => Err(FeeError::Payment),
                },
            }),
    {
        if asset_id == pgas_id {
            let _ = native_to_pgas_fee(fee, converted)?;
            match consequence {
                WithdrawConsequence::Success | WithdrawConsequence::ReducedToZero(_) => Ok(true),
                _ => Err(FeeError::Payment),
            }
        } else {
            Ok(false)
        }
    }

    /// Corrects a fee once the call ran: of a PGAS credit of `withdrawn`, the
    /// charge for `corrected_fee` (whose conversion gave `converted`) is
    /// burned, up to the credit, and the rest refunded.
    pub fn correct_and_deposit_fee<InnerInfo>(
        corrected_fee: Balance,
        converted: Option<Balance>,
        already_withdrawn: PgasLiquidityInfo<Balance, InnerInfo>,
    ) -> (r: Result<Correction<InnerInfo>, FeeError>)
        ensures
            match already_withdrawn {
                PgasLiquidityInfo::Pgas(withdrawn) => match pgas_fee_spec(corrected_fee, converted) {
                    Err(e) => r == Err::<Correction<InnerInfo>, FeeError>(e),
                    Ok(p) => r == Ok::<Correction<InnerInfo>, FeeError>(
                        Correction::Pgas {
                            burn: split_credit(withdrawn, p).0,
                            refund: split_credit(withdrawn, p).1,
                            corrected_fee,
                        },
                    ),
                },
                PgasLiquidityInfo::Other(i) => r == Ok::<Correction<InnerInfo>, FeeError>(Correction::Delegate(i)),
            },
    {
        match already_withdrawn {
            PgasLiquidityInfo::Pgas(withdrawn) => {
                let pgas_corrected = native_to_pgas_fee(corrected_fee, converted)?;
                let burn = if pgas_corrected < withdrawn {
                    pgas_corrected
                } else {
                    withdrawn
                };
                Ok(Correction::Pgas { burn, refund: withdrawn - burn, corrected_fee })
            },
            PgasLiquidityInfo::Other(i) => Ok(Correction::Delegate(i)),
        }
    }
}

} // verus!
