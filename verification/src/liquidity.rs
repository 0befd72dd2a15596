use vstd::prelude::*;

use crate::errors::ContractError;
use crate::model::{fee_rate_valid, fits_i128, BASIS_POINTS};
use crate::types::Pool;

verus! {

/// The amount of liquidity that [`LiquidityManager::get_liquidity`] reports for any pair.
pub const REPORTED_LIQUIDITY: i128 = 1_000_000;

/// The output of the liquidity manager's constant-product swap, or why there is none.
///
/// With `w = input * (10000 - fee_rate) / 10000`, the output is
/// `w * output_reserve / (input_reserve + w)`, both rounded down. Non-positive amounts or
/// reserves and fee rates outside `0..=10000` are refused with `InvalidParams`; an
/// intermediate value that leaves `i128` gives `ArithmeticOverflow`.
pub open spec fn liquidity_swap_spec(input: int, input_reserve: int, output_reserve: int, fee_rate: int)
    -> Result<i128, ContractError>
{
    if input <= 0 || input_reserve <= 0 || output_reserve <= 0 || !fee_rate_valid(fee_rate) {
        Err(ContractError::InvalidParams)
    } else if !fits_i128(input * (BASIS_POINTS - fee_rate)) {
        Err(ContractError::ArithmeticOverflow)
    } else {
        let with_fee = input * (BASIS_POINTS - fee_rate) / (BASIS_POINTS as int);
        if !fits_i128(with_fee * output_reserve) || !fits_i128(input_reserve + with_fee) {
            Err(ContractError::ArithmeticOverflow)
        } else {
            Ok((with_fee * output_reserve / (input_reserve + with_fee)) as i128)
        }
    }
}

/// Pool discovery and reserve arithmetic.
pub struct LiquidityManager;

impl LiquidityManager {
    /// The pools that discovery knows of: none yet.
    pub fn discover_pools() -> (r: Result<Vec<Pool>, ContractError>)
        ensures
            r is Ok,
            r matches Ok(pools) ==> pools@.len() == 0,
    {
        let pools: Vec<Pool> = Vec::new();
        Ok(pools)
    }

    /// The liquidity of a pair of assets: a fixed 1 000 000 for every pair.
    pub fn get_liquidity(asset_a: String, asset_b: String) -> (r: Result<i128, ContractError>)
        ensures
            r == Ok::<i128, ContractError>(REPORTED_LIQUIDITY),
    {
        Ok(REPORTED_LIQUIDITY)
    }

    /// The output of a constant-product swap with the fee taken from the input:
    /// `with_fee = input * (10000 - fee_rate) / 10000` and
    /// `with_fee * output_reserve / (input_reserve + with_fee)`, rounded down.
    ///
    /// Fails with `InvalidParams` on a non-positive amount or reserve or a fee rate outside
    /// `0..=10000`, and with `ArithmeticOverflow` where an intermediate value leaves `i128`.
    pub fn calculate_swap_output(
        input_amount: i128,
        input_reserve: i128,
        output_reserve: i128,
        fee_rate: i128,
    ) -> (r: Result<i128, ContractError>)
        ensures
            r == liquidity_swap_spec(
                input_amount as int,
                input_reserve as int,
                output_reserve as int,
                fee_rate as int,
            ),
    {
        if input_amount <= 0 || input_reserve <= 0 || output_reserve <= 0 {
            return Err(ContractError::InvalidParams);
        }
        if !(0 <= fee_rate && fee_rate <= BASIS_POINTS) {
            return Err(ContractError::InvalidParams);
        }
        let multiplier = BASIS_POINTS - fee_rate;
        let scaled = match input_amount.checked_mul(multiplier) {
            Some(v) => v,
            None => return Err(ContractError::ArithmeticOverflow),
        };
        proof {
            assert(scaled >= 0) by (nonlinear_arith)
                requires
                    scaled == input_amount * multiplier,
                    input_amount > 0,
                    multiplier >= 0,
            ;
        }
        let input_with_fee = match scaled.checked_div(BASIS_POINTS) {
            Some(v) => v,
            None => return Err(ContractError::ArithmeticOverflow),
        };
        let numerator = match input_with_fee.checked_mul(output_reserve) {
            Some(v) => v,
            None => return Err(ContractError::ArithmeticOverflow),
        };
        let denominator = match input_reserve.checked_add(input_with_fee) {
            Some(v) => v,
            None => return Err(ContractError::ArithmeticOverflow),
        };
        proof {
            assert(numerator >= 0) by (nonlinear_arith)
                requires
                    numerator == input_with_fee * output_reserve,
                    input_with_fee >= 0,
                    output_reserve > 0,
            ;
            assert(0 <= numerator as int / denominator as int <= numerator) by (nonlinear_arith)
                requires
                    numerator >= 0,
                    denominator > 0,
            ;
        }
        match numerator.checked_div(denominator) {
            Some(v) => Ok(v),
            None => Err(ContractError::ArithmeticOverflow),
        }
    }

    /// Whether a pool holds at least `amount` on either side.
    pub fn has_sufficient_liquidity(pool: &Pool, amount: i128) -> (r: bool)
        ensures
            r == (pool.reserve_in >= amount || pool.reserve_out >= amount),
    {
        pool.reserve_in >= amount || pool.reserve_out >= amount
    }
}

} // verus!
