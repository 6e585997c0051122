use crate::error::AmmError;
use vstd::prelude::*;

verus! {

/// The pool's fee schedule: numerator and denominator of the trade fee, the
/// owner's trade fee, the owner's withdrawal fee and the host fee. Reserved:
/// no bootstrap step reads or writes it.
#[derive(Clone, Copy, Debug, PartialEq, Eq, Structural)]
pub struct FeesInput {
    pub trade_fee_numerator: u64,
    pub trade_fee_denominator: u64,
    pub owner_trade_fee_numerator: u64,
    pub owner_trade_fee_denominator: u64,
    pub owner_withdraw_fee_numerator: u64,
    pub owner_withdraw_fee_denominator: u64,
    pub host_fee_numerator: u64,
    pub host_fee_denominator: u64,
}

/// The pool's price curve: a curve kind and its one parameter. Reserved: no
/// bootstrap step reads or writes it.
#[derive(Clone, Copy, Debug, PartialEq, Eq, Structural)]
pub struct CurveInput {
    pub curve_type: u8,
    pub curve_parameters: u64,
}

/// A fee schedule holding the same eight values as `fees_input`.
pub fn build_fees(fees_input: &FeesInput) -> (r: Result<FeesInput, AmmError>)
    ensures
        r == Ok::<FeesInput, AmmError>(*fees_input),
{
    let fees = FeesInput {
        trade_fee_numerator: fees_input.trade_fee_numerator,
        trade_fee_denominator: fees_input.trade_fee_denominator,
        owner_trade_fee_numerator: fees_input.owner_trade_fee_numerator,
        owner_trade_fee_denominator: fees_input.owner_trade_fee_denominator,
        owner_withdraw_fee_numerator: fees_input.owner_withdraw_fee_numerator,
        owner_withdraw_fee_denominator: fees_input.owner_withdraw_fee_denominator,
        host_fee_numerator: fees_input.host_fee_numerator,
        host_fee_denominator: fees_input.host_fee_denominator,
    };
    Ok(fees)
}

} // verus!
