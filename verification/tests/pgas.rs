use orbis::pgas::{
    native_to_pgas_fee, BurnPgasHandleCredit, Correction, CreditRoute, FeeError, PgasLiquidityInfo,
    PgasOnChargeAssetTransaction, WithdrawConsequence, WithdrawPlan,
};

type Charge = PgasOnChargeAssetTransaction<(), (), (), ()>;
const PGAS: u32 = 7;

#[test]
fn non_zero_fees_are_never_free() {
    assert_eq!(native_to_pgas_fee(10, Some(0)), Ok(1));
    assert_eq!(native_to_pgas_fee(0, Some(0)), Ok(0));
    assert_eq!(native_to_pgas_fee(10, Some(25)), Ok(25));
    assert_eq!(native_to_pgas_fee(10, None), Err(FeeError::Payment));
}

#[test]
fn pgas_credit_is_burned_other_credit_delegated() {
    assert_eq!(BurnPgasHandleCredit::<(), ()>::handle_credit(PGAS, PGAS), CreditRoute::Burn);
    assert_eq!(BurnPgasHandleCredit::<(), ()>::handle_credit(3, PGAS), CreditRoute::Delegate);
}

#[test]
fn withdraw_plan_for_pgas_and_other_assets() {
    assert_eq!(Charge::withdraw_fee(PGAS, PGAS, 100, Some(100)), Ok(WithdrawPlan::Pgas { amount: 100 }));
    assert_eq!(Charge::withdraw_fee(PGAS, PGAS, 100, None), Err(FeeError::Payment));
    assert_eq!(Charge::withdraw_fee(3, PGAS, 100, None), Ok(WithdrawPlan::Delegate));
}

#[test]
fn can_withdraw_accepts_emptying_the_account() {
    assert_eq!(Charge::can_withdraw_fee(PGAS, PGAS, 5, Some(5), WithdrawConsequence::Success), Ok(true));
    assert_eq!(Charge::can_withdraw_fee(PGAS, PGAS, 5, Some(5), WithdrawConsequence::ReducedToZero(0)), Ok(true));
    assert_eq!(Charge::can_withdraw_fee(PGAS, PGAS, 5, Some(5), WithdrawConsequence::BalanceLow), Err(FeeError::Payment));
    assert_eq!(Charge::can_withdraw_fee(3, PGAS, 5, None, WithdrawConsequence::BalanceLow), Ok(false));
}

#[test]
fn correction_burns_the_charge_and_refunds_the_rest() {
    let c = Charge::correct_and_deposit_fee::<u8>(60, Some(60), PgasLiquidityInfo::Pgas(100));
    assert_eq!(c, Ok(Correction::Pgas { burn: 60, refund: 40, corrected_fee: 60 }));
    let all = Charge::correct_and_deposit_fee::<u8>(150, Some(150), PgasLiquidityInfo::Pgas(100));
    assert_eq!(all, Ok(Correction::Pgas { burn: 100, refund: 0, corrected_fee: 150 }));
    let none = Charge::correct_and_deposit_fee::<u8>(0, Some(0), PgasLiquidityInfo::Pgas(100));
    assert_eq!(none, Ok(Correction::Pgas { burn: 0, refund: 100, corrected_fee: 0 }));
    let other = Charge::correct_and_deposit_fee::<u8>(10, None, PgasLiquidityInfo::Other(9));
    assert_eq!(other, Ok(Correction::Delegate(9)));
}
