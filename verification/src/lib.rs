//! Verified routing logic for a payment router over constant-product liquidity pools.

pub mod config;
pub mod errors;
pub mod graph;
pub mod laws;
pub mod liquidity;
pub mod model;
pub mod path;
pub mod route_lemmas;
pub mod router;
pub mod search_lemmas;
pub mod types;

use vstd::prelude::*;

use crate::config::{
    initialize_spec, initialized, set_fee_spec, stored_fee, validate_fee, with_fee,
    RouterConfig,
};
use crate::errors::ContractError;
use crate::model::{find_route_spec, simulate_spec};
use crate::router::Router;
use crate::types::{route_result_view, Route};

verus! {

/// The router's contract: its configuration and the routing operations it offers.
///
/// The contract's storage is passed in as a [`RouterConfig`]; what is to be stored is
/// handed back in it. Authorization and events are left to the caller.
pub struct SprRouter;

impl SprRouter {
    /// Makes `admin` the administrator and sets the router fee, once.
    ///
    /// Refused with `InvalidParams`, and the configuration left as it is, where an
    /// administrator is already stored or the fee is outside `0..=MAX_FEE`.
    pub fn initialize<A>(config: &mut RouterConfig<A>, admin: A, fee: i128) -> (r: Result<
        (),
        ContractError,
    >)
        ensures
            r == initialize_spec(*old(config), fee as int),
            r is Ok ==> *final(config) == initialized(admin, fee),
            r is Err ==> *final(config) == *old(config),
    {
        if config.admin.is_some() {
            return Err(ContractError::InvalidParams);
        }
        validate_fee(fee)?;
        config.admin = Some(admin);
        config.fee = Some(fee);
        config.paused = Some(false);
        Ok(())
    }

    /// The best route from `source_asset` to `dest_asset` for `amount`, charged the router
    /// fee in force and stamped with `timestamp`, the ledger time of the request.
    pub fn find_route<A>(
        config: &RouterConfig<A>,
        source_asset: String,
        dest_asset: String,
        amount: i128,
        timestamp: u64,
    ) -> (r: Result<Route, ContractError>)
        ensures
            route_result_view(r) == find_route_spec(
                source_asset@,
                dest_asset@,
                amount as int,
                stored_fee(*config) as int,
                timestamp,
            ),
    {
        let fee = config.get_stored_fee();
        Router::find_route(source_asset, dest_asset, amount, fee, timestamp)
    }

    /// The route re-priced against the market, charged the router fee in force and stamped
    /// with `timestamp`; `SlippageExceeded` where the new estimate is below the route's
    /// `min_received`.
    pub fn simulate_route<A>(config: &RouterConfig<A>, route: Route, timestamp: u64) -> (r: Result<
        Route,
        ContractError,
    >)
        ensures
            route_result_view(r) == simulate_spec(route@, stored_fee(*config) as int, timestamp),
    {
        let fee = config.get_stored_fee();
        Router::simulate_route(&route, fee, timestamp)
    }

    /// Executes a route at ledger time `timestamp`: it is re-priced against the market with
    /// the router fee in force, and its new estimated output is returned. Execution fails
    /// as the re-pricing does, with `SlippageExceeded` where the new estimate is below the
    /// route's `min_received`.
    pub fn execute_route<A>(config: &RouterConfig<A>, route: Route, timestamp: u64) -> (r: Result<
        i128,
        ContractError,
    >)
        ensures
            match simulate_spec(route@, stored_fee(*config) as int, timestamp) {
                Ok(simulated) => r == Ok::<i128, ContractError>(simulated.estimated_output),
                Err(e) => r == Err::<i128, ContractError>(e),
            },
    {
        let fee = config.get_stored_fee();
        let simulated = Router::simulate_route(&route, fee, timestamp)?;
        Ok(simulated.estimated_output)
    }

    /// The router fee in force, in basis points.
    pub fn get_fee<A>(config: &RouterConfig<A>) -> (fee: i128)
        ensures
            fee == stored_fee(*config),
    {
        config.get_stored_fee()
    }

    /// Sets the router fee.
    ///
    /// Refused with `InvalidParams` for a fee outside `0..=MAX_FEE`, and with `Unauthorized`
    /// where no administrator is stored; the configuration is then left as it is.
    pub fn set_fee<A>(config: &mut RouterConfig<A>, fee: i128) -> (r: Result<(), ContractError>)
        ensures
            r == set_fee_spec(*old(config), fee as int),
            r is Ok ==> *final(config) == with_fee(*old(config), fee),
            r is Err ==> *final(config) == *old(config),
    {
        validate_fee(fee)?;
        if config.admin.is_none() {
            return Err(ContractError::Unauthorized);
        }
        config.fee = Some(fee);
        Ok(())
    }
}

} // verus!
