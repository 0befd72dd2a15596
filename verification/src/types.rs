use vstd::prelude::*;

use crate::errors::ContractError;

verus! {

/// A constant-product liquidity pool that swaps `asset_in` for `asset_out`.
///
/// Reserves are token amounts; `fee_rate` is in basis points (10 000 is 100%).
#[derive(Clone, Debug, PartialEq, Eq)]
pub struct Pool {
    pub id: String,
    pub asset_in: String,
    pub asset_out: String,
    pub reserve_in: i128,
    pub reserve_out: i128,
    pub fee_rate: i128,
}

/// The mathematical value of a [`Pool`]: its names as character sequences.
pub struct PoolView {
    pub id: Seq<char>,
    pub asset_in: Seq<char>,
    pub asset_out: Seq<char>,
    pub reserve_in: i128,
    pub reserve_out: i128,
    pub fee_rate: i128,
}

impl View for Pool {
    type V = PoolView;

    open spec fn view(&self) -> PoolView {
        PoolView {
            id: self.id@,
            asset_in: self.asset_in@,
            asset_out: self.asset_out@,
            reserve_in: self.reserve_in,
            reserve_out: self.reserve_out,
            fee_rate: self.fee_rate,
        }
    }
}

/// One swap of a route: `input_amount` of `source_asset` becomes `output_amount` of
/// `dest_asset`, paying `fee`; `rate` is the output per input scaled by 10 000.
#[derive(Clone, Debug, PartialEq, Eq)]
pub struct Hop {
    pub source_asset: String,
    pub dest_asset: String,
    pub input_amount: i128,
    pub output_amount: i128,
    pub fee: i128,
    pub rate: i128,
}

/// The mathematical value of a [`Hop`].
pub struct HopView {
    pub source_asset: Seq<char>,
    pub dest_asset: Seq<char>,
    pub input_amount: i128,
    pub output_amount: i128,
    pub fee: i128,
    pub rate: i128,
}

impl View for Hop {
    type V = HopView;

    open spec fn view(&self) -> HopView {
        HopView {
            source_asset: self.source_asset@,
            dest_asset: self.dest_asset@,
            input_amount: self.input_amount,
            output_amount: self.output_amount,
            fee: self.fee,
            rate: self.rate,
        }
    }
}

/// A payment route from `source_asset` to `dest_asset` through the hops of `path`.
#[derive(Clone, Debug, PartialEq, Eq)]
pub struct Route {
    pub source_asset: String,
    pub dest_asset: String,
    pub amount: i128,
    pub path: Vec<Hop>,
    pub total_fee: i128,
    pub estimated_output: i128,
    pub min_received: i128,
    pub timestamp: u64,
}

/// The mathematical value of a [`Route`].
pub struct RouteView {
    pub source_asset: Seq<char>,
    pub dest_asset: Seq<char>,
    pub amount: i128,
    pub path: Seq<HopView>,
    pub total_fee: i128,
    pub estimated_output: i128,
    pub min_received: i128,
    pub timestamp: u64,
}

/// The views of a sequence of hops.
pub open spec fn hops_view(hops: Seq<Hop>) -> Seq<HopView> {
    hops.map_values(|h: Hop| h@)
}

/// The views of a sequence of pools.
pub open spec fn pools_view(pools: Seq<Pool>) -> Seq<PoolView> {
    pools.map_values(|p: Pool| p@)
}

/// The views of a sequence of pool paths.
pub open spec fn paths_view(paths: Seq<Vec<Pool>>) -> Seq<Seq<PoolView>> {
    paths.map_values(|p: Vec<Pool>| pools_view(p@))
}

impl View for Route {
    type V = RouteView;

    open spec fn view(&self) -> RouteView {
        RouteView {
            source_asset: self.source_asset@,
            dest_asset: self.dest_asset@,
            amount: self.amount,
            path: hops_view(self.path@),
            total_fee: self.total_fee,
            estimated_output: self.estimated_output,
            min_received: self.min_received,
            timestamp: self.timestamp,
        }
    }
}

/// The views of the paths of a search result, or its error.
pub open spec fn paths_result_view(r: Result<Vec<Vec<Pool>>, ContractError>) -> Result<
    Seq<Seq<PoolView>>,
    ContractError,
> {
    match r {
        Ok(paths) => Ok(paths_view(paths@)),
        Err(e) => Err(e),
    }
}

/// The view of a route result, or its error.
pub open spec fn route_result_view(r: Result<Route, ContractError>) -> Result<RouteView, ContractError> {
    match r {
        Ok(route) => Ok(route@),
        Err(e) => Err(e),
    }
}

/// The keys under which the router keeps its configuration.
#[derive(Copy, Clone, Debug, PartialEq, Eq, Structural)]
pub enum DataKey {
    Admin,
    Fee,
    Paused,
}

impl Pool {
    /// A copy of the pool, with equal names and numbers.
    pub fn copy(&self) -> (r: Pool)
        ensures
            r@ == self@,
    {
        Pool {
            id: self.id.clone(),
            asset_in: self.asset_in.clone(),
            asset_out: self.asset_out.clone(),
            reserve_in: self.reserve_in,
            reserve_out: self.reserve_out,
            fee_rate: self.fee_rate,
        }
    }
}

/// A copy of a sequence of pools.
pub fn copy_pools(pools: &Vec<Pool>) -> (r: Vec<Pool>)
    ensures
        pools_view(r@) == pools_view(pools@),
{
    let mut r: Vec<Pool> = Vec::new();
    let mut i: usize = 0;
    while i < pools.len()
        invariant
            i <= pools.len(),
            r@.len() == i,
            pools_view(r@) == pools_view(pools@).take(i as int),
        decreases pools.len() - i,
    {
        let ghost before = r@;
        r.push(pools[i].copy());
        proof {
            assert forall|k: int| 0 <= k < i + 1 implies #[trigger] pools_view(r@)[k]
                == pools_view(pools@)[k] by {
                if k < i {
                    assert(before[k] == r@[k]);
                    assert(pools_view(before)[k] == pools_view(pools@).take(i as int)[k]);
                }
            }
            assert(pools_view(r@) =~= pools_view(pools@).take(i + 1));
        }
        i = i + 1;
    }
    proof {
        assert(pools_view(pools@).take(pools.len() as int) =~= pools_view(pools@));
    }
    r
}

} // verus!
