use vstd::prelude::*;

use crate::errors::ContractError;

verus! {

/// The router fee, in basis points, while none has been stored.
pub const DEFAULT_FEE: i128 = 10;
/// The highest router fee that can be configured, in basis points.
pub const MAX_FEE: i128 = 10_000;

/// What the router keeps in its storage: the administrator, the router fee in basis
/// points and the paused flag, each absent until it is first written.
#[derive(Clone, Debug, PartialEq, Eq)]
pub struct RouterConfig<A> {
    pub admin: Option<A>,
    pub fee: Option<i128>,
    pub paused: Option<bool>,
}

/// Whether a router fee can be configured: from 0 to `MAX_FEE` basis points.
pub open spec fn configurable_fee(fee: int) -> bool {
    0 <= fee <= MAX_FEE
}

/// The router fee in force: the stored one, else `DEFAULT_FEE`.
pub open spec fn stored_fee<A>(config: RouterConfig<A>) -> i128 {
    match config.fee {
        Some(fee) => fee,
        None => DEFAULT_FEE,
    }
}

/// What initializing with `admin` and `fee` answers: `InvalidParams` where an administrator
/// is already stored or the fee cannot be configured, else `Ok`.
pub open spec fn initialize_spec<A>(config: RouterConfig<A>, fee: int) -> Result<(), ContractError> {
    if config.admin is Some || !configurable_fee(fee) {
        Err(ContractError::InvalidParams)
    } else {
        Ok(())
    }
}

/// The configuration after a successful initialization.
pub open spec fn initialized<A>(admin: A, fee: i128) -> RouterConfig<A> {
    RouterConfig { admin: Some(admin), fee: Some(fee), paused: Some(false) }
}

/// What setting the fee answers: `InvalidParams` for a fee that cannot be configured,
/// `Unauthorized` where no administrator is stored, else `Ok`.
pub open spec fn set_fee_spec<A>(config: RouterConfig<A>, fee: int) -> Result<(), ContractError> {
    if !configurable_fee(fee) {
        Err(ContractError::InvalidParams)
    } else if config.admin is None {
        Err(ContractError::Unauthorized)
    } else {
        Ok(())
    }
}

/// The configuration with the router fee set to `fee`.
pub open spec fn with_fee<A>(config: RouterConfig<A>, fee: i128) -> RouterConfig<A> {
    RouterConfig { fee: Some(fee), ..config }
}

/// Accepts a router fee from 0 to `MAX_FEE` basis points; refuses any other with
/// `InvalidParams`.
pub fn validate_fee(fee: i128) -> (r: Result<(), ContractError>)
    ensures
        r is Ok <==> configurable_fee(fee as int),
        r is Err ==> r == Err::<(), ContractError>(ContractError::InvalidParams),
{
    if !(0 <= fee && fee <= MAX_FEE) {
        return Err(ContractError::InvalidParams);
    }
    Ok(())
}

impl<A> RouterConfig<A> {
    /// The configuration of a router whose storage is empty.
    pub fn empty() -> (c: RouterConfig<A>)
        ensures
            c.admin is None,
            c.fee is None,
            c.paused is None,
    {
        RouterConfig { admin: None, fee: None, paused: None }
    }

    /// The router fee in force: the stored one, else `DEFAULT_FEE`.
    pub fn get_stored_fee(&self) -> (fee: i128)
        ensures
            fee == stored_fee(*self),
    {
        match self.fee {
            Some(fee) => fee,
            None => DEFAULT_FEE,
        }
    }
}

} // verus!
