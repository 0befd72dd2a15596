use vstd::prelude::*;

use crate::errors::ContractError;
use crate::graph::PoolGraph;
use crate::model::{
    assets_spec, collect, extend_path, extensions_of, fee_rate_valid, fee_spec, fee_total,
    find_paths_spec, find_route_spec, first_pool, graph_spec, hop_valid, hops_have_pools,
    insert_by_score_spec, insert_position, liquidity_spec,
    liquidity_walk, mock_pools_spec, outgoing, path_touches, pool_view, pools_for_hops,
    queue_after, revisits, route_spec, score_spec, score_value,
    search_steps, search_stops_at, simulate_spec, swap_output_spec, validate_route_spec,
    walk, walk_step, GraphView, WalkState, BASIS_POINTS, MAX_HOPS, MAX_QUEUE_EXPANSIONS,
    RATE_SCALE, SCORE_SCALE,
};
use crate::search_lemmas::{
    lemma_collect_prefix, lemma_collect_settled, lemma_queue_prefix, lemma_queue_shape,
    lemma_search_steps_bound,
};
use crate::types::{
    copy_pools, hops_view, paths_result_view, paths_view, pools_view, route_result_view, Hop,
    HopView, Pool, PoolView, Route, RouteView,
};

verus! {

/// The routing engine: swap arithmetic, path search, route construction and validation.
pub struct Router;

impl Router {
    /// The output of swapping `input_amount` through a constant-product pool.
    ///
    /// Fails with `InvalidParams` on a non-positive amount or reserve, a fee rate outside
    /// `0..10000`, or an input that the fee rounds down to nothing; with `ArithmeticOverflow`
    /// where an intermediate product or sum leaves `i128`; with `InsufficientLiquidity` where
    /// the output rounds down to nothing.
    pub fn calculate_swap_output(
        input_amount: i128,
        reserve_in: i128,
        reserve_out: i128,
        fee_rate: i128,
    ) -> (r: Result<i128, ContractError>)
        ensures
            r == swap_output_spec(
                input_amount as int,
                reserve_in as int,
                reserve_out as int,
                fee_rate as int,
            ),
    {
        if input_amount <= 0 || reserve_in <= 0 || reserve_out <= 0 {
            return Err(ContractError::InvalidParams);
        }
        if !(0 <= fee_rate && fee_rate < BASIS_POINTS) {
            return Err(ContractError::InvalidParams);
        }
        let fee_multiplier = BASIS_POINTS - fee_rate;
        let scaled = match input_amount.checked_mul(fee_multiplier) {
            Some(v) => v,
            None => return Err(ContractError::ArithmeticOverflow),
        };
        proof {
            assert(scaled > 0) by (nonlinear_arith)
                requires
                    scaled == input_amount * fee_multiplier,
                    input_amount > 0,
                    fee_multiplier > 0,
            ;
        }
        let input_after_fee = match scaled.checked_div(BASIS_POINTS) {
            Some(v) => v,
            None => return Err(ContractError::ArithmeticOverflow),
        };
        if input_after_fee <= 0 {
            return Err(ContractError::InvalidParams);
        }
        let numerator = match input_after_fee.checked_mul(reserve_out) {
            Some(v) => v,
            None => return Err(ContractError::ArithmeticOverflow),
        };
        let denominator = match reserve_in.checked_add(input_after_fee) {
            Some(v) => v,
            None => return Err(ContractError::ArithmeticOverflow),
        };
        proof {
            assert(numerator > 0) by (nonlinear_arith)
                requires
                    numerator == input_after_fee * reserve_out,
                    input_after_fee > 0,
                    reserve_out > 0,
            ;
            assert(numerator as int / denominator as int <= numerator) by (nonlinear_arith)
                requires
                    numerator > 0,
                    denominator > 0,
            ;
            assert(numerator as int / denominator as int >= 0) by (nonlinear_arith)
                requires
                    numerator > 0,
                    denominator > 0,
            ;
        }
        let output = match numerator.checked_div(denominator) {
            Some(v) => v,
            None => return Err(ContractError::ArithmeticOverflow),
        };
        if output <= 0 {
            return Err(ContractError::InsufficientLiquidity);
        }
        Ok(output)
    }

    /// The fee on `amount` at `fee_rate` basis points, rounded toward zero.
    ///
    /// Fails with `InvalidParams` on a rate outside `0..=10000`, and with
    /// `ArithmeticOverflow` where `amount * fee_rate` leaves `i128`.
    pub fn calculate_fee(amount: i128, fee_rate: i128) -> (r: Result<i128, ContractError>)
        ensures
            r == fee_spec(amount as int, fee_rate as int),
    {
        Self::validate_fee(fee_rate)?;
        let product = match amount.checked_mul(fee_rate) {
            Some(v) => v,
            None => return Err(ContractError::ArithmeticOverflow),
        };
        match product.checked_div(BASIS_POINTS) {
            Some(v) => Ok(v),
            None => Err(ContractError::ArithmeticOverflow),
        }
    }

    /// Accepts a fee rate from 0 to 10 000 basis points, and refuses any other with
    /// `InvalidParams`.
    pub fn validate_fee(fee_rate: i128) -> (r: Result<(), ContractError>)
        ensures
            r is Ok <==> fee_rate_valid(fee_rate as int),
            r is Err ==> r == Err::<(), ContractError>(ContractError::InvalidParams),
    {
        if !(0 <= fee_rate && fee_rate <= BASIS_POINTS) {
            return Err(ContractError::InvalidParams);
        }
        Ok(())
    }

    /// Accepts a positive amount between two different assets; refuses anything else with
    /// `InvalidParams`.
    pub fn validate_assets(source_asset: &String, dest_asset: &String, amount: i128) -> (r: Result<
        (),
        ContractError,
    >)
        ensures
            r == assets_spec(source_asset@, dest_asset@, amount as int),
    {
        if amount <= 0 {
            return Err(ContractError::InvalidParams);
        }
        if *source_asset == *dest_asset {
            return Err(ContractError::InvalidParams);
        }
        Ok(())
    }

    /// The score of a path: `1_000_000_000 / (hops * 10000 + sum of fee rates)`.
    ///
    /// Fails with `InvalidRoute` on an empty path or a non-positive denominator, and with
    /// `ArithmeticOverflow` where a sum leaves `i128`.
    pub fn score_route(path: &Vec<Pool>) -> (r: Result<i128, ContractError>)
        ensures
            r == score_spec(pools_view(path@)),
    {
        let ghost pv = pools_view(path@);
        if path.len() == 0 {
            return Err(ContractError::InvalidRoute);
        }
        let mut fee_bps: i128 = 0;
        let mut i: usize = 0;
        while i < path.len()
            invariant
                pv == pools_view(path@),
                i <= path.len(),
                fee_total(pv, i as nat) == Some(fee_bps as int),
            decreases path.len() - i,
        {
            assert(pv[i as int].fee_rate == path@[i as int].fee_rate);
            fee_bps = match fee_bps.checked_add(path[i].fee_rate) {
                Some(v) => v,
                None => {
                    proof {
                        lemma_fee_total_none(pv, (i + 1) as nat, path.len() as nat);
                    }
                    return Err(ContractError::ArithmeticOverflow);
                },
            };
            i = i + 1;
        }
        let hop_count = path.len() as i128;
        let hop_penalty = match hop_count.checked_mul(BASIS_POINTS) {
            Some(v) => v,
            None => return Err(ContractError::ArithmeticOverflow),
        };
        let denominator = match hop_penalty.checked_add(fee_bps) {
            Some(v) => v,
            None => return Err(ContractError::ArithmeticOverflow),
        };
        if denominator <= 0 {
            return Err(ContractError::InvalidRoute);
        }
        proof {
            assert((SCORE_SCALE as int) / (denominator as int) <= SCORE_SCALE) by (nonlinear_arith)
                requires
                    denominator > 0,
            ;
            assert((SCORE_SCALE as int) / (denominator as int) >= 0) by (nonlinear_arith)
                requires
                    denominator > 0,
            ;
        }
        match SCORE_SCALE.checked_div(denominator) {
            Some(v) => Ok(v),
            None => Err(ContractError::ArithmeticOverflow),
        }
    }

    /// Whether `amount` can be swapped through every pool of the path without the running
    /// amount exceeding a pool's input reserve; a swap error on the way is returned.
    pub fn path_has_liquidity(path: &Vec<Pool>, amount: i128) -> (r: Result<bool, ContractError>)
        ensures
            r == liquidity_spec(pools_view(path@), amount as int),
    {
        let ghost pv = pools_view(path@);
        let mut current_amount = amount;
        let mut i: usize = 0;
        while i < path.len()
            invariant
                pv == pools_view(path@),
                i <= path.len(),
                liquidity_walk(pv, amount as int, i as nat) == Ok::<Option<int>, ContractError>(
                    Some(current_amount as int),
                ),
            decreases path.len() - i,
        {
            let pool = &path[i];
            assert(pv[i as int] == pool@);
            if current_amount > pool.reserve_in {
                proof {
                    lemma_liquidity_walk_settled(pv, amount as int, (i + 1) as nat, path.len() as nat);
                }
                return Ok(false);
            }
            current_amount = match Self::calculate_swap_output(
                current_amount,
                pool.reserve_in,
                pool.reserve_out,
                pool.fee_rate,
            ) {
                Ok(v) => v,
                Err(e) => {
                    proof {
                        lemma_liquidity_walk_settled(pv, amount as int, (i + 1) as nat, path.len() as nat);
                    }
                    return Err(e);
                },
            };
            i = i + 1;
        }
        Ok(true)
    }

    /// Whether some pool of the path takes or gives `next_asset`.
    pub fn would_create_cycle(path: &Vec<Pool>, next_asset: &String) -> (r: bool)
        ensures
            r == path_touches(pools_view(path@), next_asset@),
    {
        let ghost pv = pools_view(path@);
        let mut i: usize = 0;
        while i < path.len()
            invariant
                pv == pools_view(path@),
                pv.len() == path@.len(),
                i <= path.len(),
                forall|k: int|
                    0 <= k < i ==> !(#[trigger] pv[k].asset_in == next_asset@ || pv[k].asset_out
                        == next_asset@),
            decreases path.len() - i,
        {
            assert(pv[i as int] == path@[i as int]@);
            if path[i].asset_in == *next_asset || path[i].asset_out == *next_asset {
                assert(pv[i as int].asset_in == next_asset@ || pv[i as int].asset_out == next_asset@);
                assert(path_touches(pv, next_asset@));
                return true;
            }
            assert(!(pv[i as int].asset_in == next_asset@ || pv[i as int].asset_out == next_asset@));
            assert forall|k: int| 0 <= k < i + 1 implies !(#[trigger] pv[k].asset_in == next_asset@
                || pv[k].asset_out == next_asset@) by {
                if k == i {
                    assert(!(pv[i as int].asset_in == next_asset@ || pv[i as int].asset_out
                        == next_asset@));
                }
            }
            i = i + 1;
        }
        false
    }

    /// The first pool of `pools` that swaps `source_asset` for `dest_asset`; `RouteNotFound`
    /// where there is none.
    pub fn find_pool(pools: &Vec<Pool>, source_asset: &String, dest_asset: &String) -> (r: Result<
        Pool,
        ContractError,
    >)
        ensures
            match r {
                Ok(p) => first_pool(pools_view(pools@), source_asset@, dest_asset@, 0) == Some(p@),
                Err(e) => e == ContractError::RouteNotFound && first_pool(
                    pools_view(pools@),
                    source_asset@,
                    dest_asset@,
                    0,
                ) is None,
            },
    {
        let ghost pv = pools_view(pools@);
        let mut i: usize = 0;
        while i < pools.len()
            invariant
                pv == pools_view(pools@),
                i <= pools.len(),
                first_pool(pv, source_asset@, dest_asset@, 0) == first_pool(
                    pv,
                    source_asset@,
                    dest_asset@,
                    i as nat,
                ),
            decreases pools.len() - i,
        {
            let pool = &pools[i];
            assert(pv[i as int] == pool@);
            if pool.asset_in == *source_asset && pool.asset_out == *dest_asset {
                return Ok(pool.copy());
            }
            i = i + 1;
        }
        Err(ContractError::RouteNotFound)
    }

    /// The last pool of a path; `InvalidRoute` for the empty path.
    pub fn last_pool(path: &Vec<Pool>) -> (r: Result<Pool, ContractError>)
        ensures
            path@.len() == 0 ==> r == Err::<Pool, ContractError>(ContractError::InvalidRoute),
            path@.len() > 0 ==> (r matches Ok(p) && p@ == path@.last()@),
    {
        if path.len() == 0 {
            return Err(ContractError::InvalidRoute);
        }
        Ok(path[path.len() - 1].copy())
    }

    /// Whether `symbol` is the route's source or the destination of one of its first
    /// `current_index` hops.
    pub fn route_revisits_asset(route: &Route, current_index: usize, symbol: &String) -> (r: bool)
        ensures
            r == revisits(
                route@,
                if current_index <= route.path@.len() {
                    current_index as int
                } else {
                    route.path@.len() as int
                },
                symbol@,
            ),
    {
        if route.source_asset == *symbol {
            return true;
        }
        let ghost hv = hops_view(route.path@);
        let mut i: usize = 0;
        while i < current_index && i < route.path.len()
            invariant
                hv == hops_view(route.path@),
                i <= route.path.len(),
                i <= current_index,
                route.source_asset@ != symbol@,
                forall|j: int| 0 <= j < i ==> #[trigger] hv[j].dest_asset != symbol@,
            decreases route.path.len() - i,
        {
            assert(hv[i as int] == route.path@[i as int]@);
            if route.path[i].dest_asset == *symbol {
                assert(route@.path[i as int].dest_asset == symbol@);
                return true;
            }
            i = i + 1;
        }
        false
    }

    /// Checks a route: the amount and assets, a non-empty path with positive outputs, an
    /// estimate not below the minimum, sound hops chained from the source, and a path that
    /// ends at the destination.
    pub fn validate_route(route: &Route) -> (r: Result<(), ContractError>)
        ensures
            r == validate_route_spec(route@),
    {
        let ghost rv = route@;
        Self::validate_assets(&route.source_asset, &route.dest_asset, route.amount)?;
        if route.path.len() == 0 || route.estimated_output <= 0 || route.min_received <= 0 {
            return Err(ContractError::InvalidRoute);
        }
        if route.estimated_output < route.min_received {
            return Err(ContractError::SlippageExceeded);
        }
        let mut i: usize = 0;
        while i < route.path.len()
            invariant
                rv == route@,
                rv.path.len() == route.path@.len(),
                rv.path.len() > 0,
                assets_spec(rv.source_asset, rv.dest_asset, rv.amount as int) is Ok,
                rv.estimated_output > 0,
                rv.min_received > 0,
                rv.estimated_output >= rv.min_received,
                i <= route.path.len(),
                forall|k: int| 0 <= k < i ==> #[trigger] hop_valid(rv, k),
            decreases route.path.len() - i,
        {
            let hop = &route.path[i];
            assert(rv.path[i as int] == hop@);
            if hop.input_amount <= 0 || hop.output_amount <= 0 || hop.fee < 0 || hop.rate <= 0 {
                assert(!hop_valid(rv, i as int));
                return Err(ContractError::InvalidRoute);
            }
            if i == 0 {
                if hop.source_asset != route.source_asset {
                    assert(!hop_valid(rv, i as int));
                    return Err(ContractError::InvalidRoute);
                }
            } else {
                assert(rv.path[i - 1] == route.path@[i - 1]@);
                if route.path[i - 1].dest_asset != hop.source_asset {
                    assert(!hop_valid(rv, i as int));
                    return Err(ContractError::InvalidRoute);
                }
            }
            if Self::route_revisits_asset(route, i, &hop.dest_asset) && hop.dest_asset
                != route.dest_asset {
                assert(!hop_valid(rv, i as int));
                return Err(ContractError::InvalidRoute);
            }
            assert(hop_valid(rv, i as int));
            i = i + 1;
        }
        let last = &route.path[route.path.len() - 1];
        assert(rv.path.last() == last@);
        if last.dest_asset != route.dest_asset {
            return Err(ContractError::InvalidRoute);
        }
        Ok(())
    }

    /// Inserts `path` into `results` before the first path of lower score; where the path
    /// has no score, `results` stays as it is and the error is returned.
    fn insert_path_by_score(results: &mut Vec<Vec<Pool>>, path: Vec<Pool>) -> (r: Result<
        (),
        ContractError,
    >)
        requires
            forall|k: int|
                0 <= k < old(results)@.len() ==> (#[trigger] score_spec(
                    paths_view(old(results)@)[k],
                )) is Ok,
        ensures
            match insert_by_score_spec(paths_view(old(results)@), pools_view(path@)) {
                Ok(new_results) => r is Ok && paths_view(final(results)@) == new_results,
                Err(e) => r == Err::<(), ContractError>(e) && final(results)@ == old(results)@,
            },
            r is Ok ==> forall|k: int|
                0 <= k < final(results)@.len() ==> (#[trigger] score_spec(
                    paths_view(final(results)@)[k],
                )) is Ok,
    {
        let ghost rs = paths_view(results@);
        let ghost p = pools_view(path@);
        let path_score = Self::score_route(&path)?;
        let ghost pos = insert_position(rs, path_score as int, 0) as int;
        let mut sorted: Vec<Vec<Pool>> = Vec::new();
        let mut inserted = false;
        let mut i: usize = 0;
        while i < results.len()
            invariant
                rs == paths_view(results@),
                rs.len() == results@.len(),
                p == pools_view(path@),
                score_spec(p) == Ok::<i128, ContractError>(path_score),
                pos == insert_position(rs, path_score as int, 0) as int,
                forall|k: int| 0 <= k < rs.len() ==> (#[trigger] score_spec(rs[k])) is Ok,
                i <= results.len(),
                !inserted ==> insert_position(rs, path_score as int, i as nat) == pos,
                !inserted ==> paths_view(sorted@) == rs.take(i as int),
                inserted ==> 0 <= pos < i,
                inserted ==> paths_view(sorted@) == rs.take(pos).push(p) + rs.subrange(pos, i as int),
                forall|k: int| 0 <= k < sorted@.len() ==> (#[trigger] score_spec(paths_view(sorted@)[k])) is Ok,
            decreases results.len() - i,
        {
            let current = &results[i];
            assert(rs[i as int] == pools_view(current@));
            let current_score = match Self::score_route(current) {
                Ok(v) => v,
                Err(e) => {
                    assert(score_spec(rs[i as int]) is Ok);
                    return Err(e);
                },
            };
            assert(score_value(rs[i as int]) == current_score);
            let ghost before = sorted@;
            if !inserted && path_score > current_score {
                sorted.push(copy_pools(&path));
                inserted = true;
                assert(paths_view(sorted@) =~= paths_view(before).push(p));
            }
            let ghost middle = sorted@;
            sorted.push(copy_pools(current));
            assert(paths_view(sorted@) =~= paths_view(middle).push(rs[i as int]));
            proof {
                if inserted {
                    assert(rs.take(pos).push(p) + rs.subrange(pos, i + 1) =~= (rs.take(pos).push(p)
                        + rs.subrange(pos, i as int)).push(rs[i as int]));
                } else {
                    assert(rs.take(i + 1) =~= rs.take(i as int).push(rs[i as int]));
                }
                assert forall|k: int| 0 <= k < sorted@.len() implies (#[trigger] score_spec(
                    paths_view(sorted@)[k],
                )) is Ok by {
                    if k < middle.len() {
                        assert(paths_view(sorted@)[k] == paths_view(middle)[k]);
                        if k < before.len() {
                            assert(paths_view(middle)[k] == paths_view(before)[k]);
                        }
                    }
                }
            }
            i = i + 1;
        }
        if !inserted {
            let ghost before = sorted@;
            sorted.push(path);
            proof {
                assert(paths_view(sorted@) =~= paths_view(before).push(p));
                assert(pos == rs.len());
                assert forall|k: int| 0 <= k < sorted@.len() implies (#[trigger] score_spec(
                    paths_view(sorted@)[k],
                )) is Ok by {
                    if k < before.len() {
                        assert(paths_view(sorted@)[k] == paths_view(before)[k]);
                    }
                }
            }
        }
        proof {
            assert(rs.subrange(pos, rs.len() as int) =~= rs.skip(pos));
            assert(rs.take(rs.len() as int) =~= rs);
            assert(rs.take(pos) + rs.skip(pos) =~= rs);
        }
        *results = sorted;
        Ok(())
    }

    /// Finds paths of pools from `source_asset` to `dest_asset` along which `amount` can be
    /// swapped, best score first.
    ///
    /// The search is breadth first from the pools leaving the source. A path that reaches
    /// the destination is kept where the amount can be swapped along it; any other path
    /// with fewer than `MAX_HOPS` pools is extended by each pool leaving its last asset that
    /// does not lead back to an asset it touches. At most `MAX_QUEUE_EXPANSIONS` queued paths
    /// are looked at. Fails with `InvalidParams` on a bad amount or equal assets, with
    /// `RouteNotFound` where the source has no pools or nothing is found, and with a swap or
    /// score error met on the way.
    pub fn find_paths(
        graph: &PoolGraph,
        source_asset: &String,
        dest_asset: &String,
        amount: i128,
    ) -> (r: Result<Vec<Vec<Pool>>, ContractError>)
        ensures
            paths_result_view(r) == find_paths_spec(graph@, source_asset@, dest_asset@, amount as int),
    {
        let ghost g = graph@;
        let ghost src = source_asset@;
        let ghost dst = dest_asset@;
        Self::validate_assets(source_asset, dest_asset, amount)?;
        let first_pools = match graph.get(source_asset) {
            Some(pools) => pools,
            None => return Err(ContractError::RouteNotFound),
        };
        let mut queue = Self::initial_paths(first_pools);
        let mut results: Vec<Vec<Pool>> = Vec::new();
        let mut cursor: usize = 0;
        proof {
            assert(outgoing(g, src) == pools_view(first_pools@));
            assert(paths_view(queue@) == queue_after(g, src, dst, 0));
            assert(paths_view(results@) =~= Seq::<Seq<PoolView>>::empty());
        }
        while cursor < queue.len() && cursor < MAX_QUEUE_EXPANSIONS
            invariant
                g == graph@,
                src == source_asset@,
                dst == dest_asset@,
                assets_spec(src, dst, amount as int) is Ok,
                g.dom().contains(src),
                paths_view(queue@) == queue_after(g, src, dst, cursor as nat),
                paths_view(queue@).len() == queue@.len(),
                cursor <= MAX_QUEUE_EXPANSIONS,
                search_steps(g, src, dst, 0) == search_steps(g, src, dst, cursor as nat),
                collect(queue_after(g, src, dst, cursor as nat), cursor as nat, dst, amount as int)
                    == Ok::<Seq<Seq<PoolView>>, ContractError>(paths_view(results@)),
                forall|k: int|
                    0 <= k < results@.len() ==> (#[trigger] score_spec(paths_view(results@)[k])) is Ok,
            decreases MAX_QUEUE_EXPANSIONS - cursor,
        {
            let ghost c = cursor as nat;
            let ghost qc = paths_view(queue@);
            let ghost old_results = paths_view(results@);
            proof {
                lemma_queue_shape(g, src, dst, c);
                assert(!search_stops_at(g, src, dst, c));
                assert(search_steps(g, src, dst, c) == search_steps(g, src, dst, c + 1));
                lemma_search_steps_bound(g, src, dst, c + 1);
            }
            let path = copy_pools(&queue[cursor]);
            let ghost pv = pools_view(path@);
            assert(pv == qc[c as int]);
            cursor = cursor + 1;
            let last = match Self::last_pool(&path) {
                Ok(p) => p,
                Err(e) => return Err(e),
            };
            let ghost q_next = qc + extend_path(g, dst, pv);
            assert(q_next == queue_after(g, src, dst, c + 1));
            proof {
                lemma_collect_prefix(q_next, qc, c, dst, amount as int);
                assert(q_next[c as int] == pv);
            }
            if last.asset_out == *dest_asset {
                match Self::path_has_liquidity(&path, amount) {
                    Err(e) => {
                        proof {
                            Self::lemma_search_fails_with(g, src, dst, amount as int, c + 1);
                        }
                        return Err(e);
                    },
                    Ok(false) => {},
                    Ok(true) => {
                        match Self::insert_path_by_score(&mut results, path) {
                            Err(e) => {
                                proof {
                                    Self::lemma_search_fails_with(g, src, dst, amount as int, c + 1);
                                }
                                return Err(e);
                            },
                            Ok(()) => {},
                        }
                    },
                }
                assert(extend_path(g, dst, pv) =~= Seq::<Seq<PoolView>>::empty());
                assert(paths_view(queue@) =~= q_next);
            } else if path.len() >= MAX_HOPS {
                assert(extend_path(g, dst, pv) =~= Seq::<Seq<PoolView>>::empty());
                assert(paths_view(queue@) =~= q_next);
            } else {
                match graph.get(&last.asset_out) {
                    None => {
                        assert(outgoing(g, last.asset_out@) =~= Seq::<PoolView>::empty());
                        assert(extend_path(g, dst, pv) =~= Seq::<Seq<PoolView>>::empty());
                        assert(paths_view(queue@) =~= q_next);
                    },
                    Some(next_pools) => {
                        Self::push_extensions(&mut queue, &path, next_pools);
                    },
                }
            }
        }
        proof {
            lemma_search_steps_bound(g, src, dst, cursor as nat);
            assert(search_stops_at(g, src, dst, cursor as nat));
        }
        if results.len() == 0 {
            return Err(ContractError::RouteNotFound);
        }
        Ok(results)
    }

    /// Where collecting fails after `n` steps, with `n` no more than the search takes, the
    /// whole search fails with that error.
    proof fn lemma_search_fails_with(g: GraphView, src: Seq<char>, dst: Seq<char>, amount: int, n: nat)
        requires
            n <= search_steps(g, src, dst, 0),
            n <= queue_after(g, src, dst, n).len(),
            collect(queue_after(g, src, dst, n), n, dst, amount) is Err,
            assets_spec(src, dst, amount) is Ok,
            g.dom().contains(src),
        ensures
            find_paths_spec(g, src, dst, amount) == collect(queue_after(g, src, dst, n), n, dst, amount),
    {
        let total = search_steps(g, src, dst, 0);
        lemma_queue_prefix(g, src, dst, n, total);
        let qn = queue_after(g, src, dst, n);
        let qt = queue_after(g, src, dst, total);
        lemma_collect_prefix(qt, qn, n, dst, amount);
        lemma_collect_settled(qt, n, total, dst, amount);
    }

    /// The one-pool paths, one for each pool of `first_pools`, in order.
    fn initial_paths(first_pools: &Vec<Pool>) -> (q: Vec<Vec<Pool>>)
        ensures
            paths_view(q@) == pools_view(first_pools@).map_values(|p: PoolView| seq![p]),
            paths_view(q@).len() == q@.len(),
    {
        let ghost fv = pools_view(first_pools@);
        let mut queue: Vec<Vec<Pool>> = Vec::new();
        let mut i: usize = 0;
        while i < first_pools.len()
            invariant
                fv == pools_view(first_pools@),
                fv.len() == first_pools@.len(),
                i <= first_pools.len(),
                queue@.len() == i,
                paths_view(queue@) == fv.take(i as int).map_values(|p: PoolView| seq![p]),
            decreases first_pools.len() - i,
        {
            let mut path: Vec<Pool> = Vec::new();
            path.push(first_pools[i].copy());
            let ghost before = queue@;
            queue.push(path);
            proof {
                assert(pools_view(path@) =~= seq![fv[i as int]]);
                assert(paths_view(queue@) =~= paths_view(before).push(seq![fv[i as int]]));
                assert(fv.take(i + 1).map_values(|p: PoolView| seq![p]) =~= fv.take(
                    i as int,
                ).map_values(|p: PoolView| seq![p]).push(seq![fv[i as int]]));
            }
            i = i + 1;
        }
        proof {
            assert(fv.take(first_pools.len() as int) =~= fv);
        }
        queue
    }

    /// Queues the extensions of `path` by each of `next_pools`, in order, leaving out those
    /// that lead to an asset the path already touches.
    fn push_extensions(queue: &mut Vec<Vec<Pool>>, path: &Vec<Pool>, next_pools: &Vec<Pool>)
        requires
            paths_view(old(queue)@).len() == old(queue)@.len(),
        ensures
            paths_view(final(queue)@) == paths_view(old(queue)@) + extensions_of(
                pools_view(path@),
                pools_view(next_pools@),
            ),
            paths_view(final(queue)@).len() == final(queue)@.len(),
    {
        let ghost start = paths_view(queue@);
        let ghost nv = pools_view(next_pools@);
        let ghost pv = pools_view(path@);
        let mut j: usize = 0;
        while j < next_pools.len()
            invariant
                nv == pools_view(next_pools@),
                nv.len() == next_pools@.len(),
                pv == pools_view(path@),
                pv.len() == path@.len(),
                j <= next_pools.len(),
                paths_view(queue@) == start + extensions_of(pv, nv.take(j as int)),
                paths_view(queue@).len() == queue@.len(),
            decreases next_pools.len() - j,
        {
            let next_pool = &next_pools[j];
            proof {
                assert(nv.take(j + 1).drop_last() =~= nv.take(j as int));
                assert(nv.take(j + 1).last() == next_pool@);
            }
            if !Self::would_create_cycle(path, &next_pool.asset_out) {
                let mut next_path = copy_pools(path);
                let ghost copied = next_path@;
                next_path.push(next_pool.copy());
                let ghost before = queue@;
                assert(pools_view(next_path@) =~= pools_view(copied).push(next_pool@));
                queue.push(next_path);
                assert(paths_view(queue@) =~= paths_view(before).push(pv.push(next_pool@)));
            }
            j = j + 1;
        }
        proof {
            assert(nv.take(next_pools.len() as int) =~= nv);
        }
    }

    /// A pool from its parts.
    fn pool(
        id: &str,
        asset_in: &str,
        asset_out: &str,
        reserve_in: i128,
        reserve_out: i128,
        fee_rate: i128,
    ) -> (p: Pool)
        ensures
            p@ == pool_view(id@, asset_in@, asset_out@, reserve_in, reserve_out, fee_rate),
    {
        Pool {
            id: String::from_str(id),
            asset_in: String::from_str(asset_in),
            asset_out: String::from_str(asset_out),
            reserve_in,
            reserve_out,
            fee_rate,
        }
    }

    /// The market that the router routes through: thirteen fixed pools.
    pub fn get_mock_pools() -> (pools: Vec<Pool>)
        ensures
            pools_view(pools@) == mock_pools_spec(),
    {
        let mut pools: Vec<Pool> = Vec::new();
        pools.push(Self::pool("p_usdc_xlm", "USDC", "XLM", 1_000_000, 500_000, 30));
        pools.push(Self::pool("p_usdc_eurc", "USDC", "EURC", 1_000_000, 990_000, 20));
        pools.push(Self::pool("p_eurc_xlm", "EURC", "XLM", 900_000, 540_000, 25));
        pools.push(Self::pool("p_usdc_btc", "USDC", "BTC", 2_000_000, 60_000, 35));
        pools.push(Self::pool("p_btc_xlm", "BTC", "XLM", 50_000, 700_000, 30));
        pools.push(Self::pool("p_xlm_aqua", "XLM", "AQUA", 800_000, 1_600_000, 25));
        pools.push(Self::pool("p_aqua_usdc", "AQUA", "USDC", 1_500_000, 700_000, 30));
        pools.push(Self::pool("p_eurc_eth", "EURC", "ETH", 600_000, 300_000, 40));
        pools.push(Self::pool("p_eth_xlm", "ETH", "XLM", 250_000, 650_000, 35));
        pools.push(Self::pool("p_btc_eth", "BTC", "ETH", 80_000, 120_000, 30));
        pools.push(Self::pool("p_xlm_usdc", "XLM", "USDC", 450_000, 900_000, 30));
        pools.push(Self::pool("p_eurc_dead", "EURC", "DEAD", 300_000, 10_000, 50));
        pools.push(Self::pool("p_dead_sink", "DEAD", "SINK", 10_000, 1_000, 60));
        assert(pools_view(pools@) =~= mock_pools_spec());
        pools
    }

    /// The graph of a list of pools: each asset that some pool takes as input, mapped to
    /// those pools in list order.
    pub fn build_pool_graph(pools: &Vec<Pool>) -> (g: PoolGraph)
        ensures
            g@ == graph_spec(pools_view(pools@)),
    {
        PoolGraph::from_pools(pools)
    }

    /// Builds the route from `source_asset` to `dest_asset` for `amount` through `pools`:
    /// each hop swaps the running amount and charges the pool fee on its input; the router
    /// fee is charged on the final output; the route is stamped with `timestamp` (the ledger
    /// time) and checked before it is returned.
    fn route_from_pools(
        source_asset: &String,
        dest_asset: &String,
        amount: i128,
        pools: &Vec<Pool>,
        router_fee_rate: i128,
        timestamp: u64,
    ) -> (r: Result<Route, ContractError>)
        ensures
            route_result_view(r) == route_spec(
                source_asset@,
                dest_asset@,
                amount as int,
                pools_view(pools@),
                router_fee_rate as int,
                timestamp,
            ),
    {
        let ghost pv = pools_view(pools@);
        if pools.len() == 0 {
            return Err(ContractError::RouteNotFound);
        }
        let mut path: Vec<Hop> = Vec::new();
        let mut input_amount = amount;
        let mut total_fee: i128 = 0;
        let mut previous_asset = source_asset.clone();
        let mut i: usize = 0;
        proof {
            assert(hops_view(path@) =~= Seq::<HopView>::empty());
        }
        while i < pools.len()
            invariant
                pv == pools_view(pools@),
                pv.len() == pools@.len(),
                pools@.len() > 0,
                i <= pools.len(),
                walk(source_asset@, amount as int, pv, i as nat) == Ok::<WalkState, ContractError>(
                    WalkState {
                        hops: hops_view(path@),
                        amount: input_amount as int,
                        total_fee: total_fee as int,
                        asset: previous_asset@,
                    },
                ),
            decreases pools.len() - i,
        {
            let pool = &pools[i];
            assert(pv[i as int] == pool@);
            proof {
                assert(walk(source_asset@, amount as int, pv, (i + 1) as nat) == walk_step(
                    WalkState {
                        hops: hops_view(path@),
                        amount: input_amount as int,
                        total_fee: total_fee as int,
                        asset: previous_asset@,
                    },
                    pool@,
                ));
            }
            if pool.asset_in != previous_asset {
                proof {
                    lemma_walk_settled(source_asset@, amount as int, pv, (i + 1) as nat, pv.len());
                }
                return Err(ContractError::InvalidRoute);
            }
            if input_amount > pool.reserve_in {
                proof {
                    lemma_walk_settled(source_asset@, amount as int, pv, (i + 1) as nat, pv.len());
                }
                return Err(ContractError::InsufficientLiquidity);
            }
            let fee = match Self::calculate_fee(input_amount, pool.fee_rate) {
                Ok(v) => v,
                Err(e) => {
                    proof {
                        lemma_walk_settled(source_asset@, amount as int, pv, (i + 1) as nat, pv.len());
                    }
                    return Err(e);
                },
            };
            let output_amount = match Self::calculate_swap_output(
                input_amount,
                pool.reserve_in,
                pool.reserve_out,
                pool.fee_rate,
            ) {
                Ok(v) => v,
                Err(e) => {
                    proof {
                        lemma_walk_settled(source_asset@, amount as int, pv, (i + 1) as nat, pv.len());
                    }
                    return Err(e);
                },
            };
            if output_amount > pool.reserve_out {
                proof {
                    lemma_walk_settled(source_asset@, amount as int, pv, (i + 1) as nat, pv.len());
                }
                return Err(ContractError::InsufficientLiquidity);
            }
            total_fee = match total_fee.checked_add(fee) {
                Some(v) => v,
                None => {
                    proof {
                        lemma_walk_settled(source_asset@, amount as int, pv, (i + 1) as nat, pv.len());
                    }
                    return Err(ContractError::ArithmeticOverflow);
                },
            };
            let scaled = match output_amount.checked_mul(RATE_SCALE) {
                Some(v) => v,
                None => {
                    proof {
                        lemma_walk_settled(source_asset@, amount as int, pv, (i + 1) as nat, pv.len());
                    }
                    return Err(ContractError::ArithmeticOverflow);
                },
            };
            proof {
                assert(scaled as int / input_amount as int <= scaled) by (nonlinear_arith)
                    requires
                        scaled > 0,
                        input_amount > 0,
                ;
                assert(scaled as int / input_amount as int >= 0) by (nonlinear_arith)
                    requires
                        scaled > 0,
                        input_amount > 0,
                ;
            }
            let rate = match scaled.checked_div(input_amount) {
                Some(v) => v,
                None => return Err(ContractError::ArithmeticOverflow),
            };
            let ghost before = path@;
            path.push(
                Hop {
                    source_asset: pool.asset_in.clone(),
                    dest_asset: pool.asset_out.clone(),
                    input_amount,
                    output_amount,
                    fee,
                    rate,
                },
            );
            assert(hops_view(path@) =~= hops_view(before).push(path@.last()@));
            previous_asset = pool.asset_out.clone();
            input_amount = output_amount;
            i = i + 1;
        }
        let ghost st = WalkState {
            hops: hops_view(path@),
            amount: input_amount as int,
            total_fee: total_fee as int,
            asset: previous_asset@,
        };
        assert(walk(source_asset@, amount as int, pv, pv.len()) == Ok::<WalkState, ContractError>(st));
        if previous_asset != *dest_asset {
            return Err(ContractError::InvalidRoute);
        }
        let router_fee = Self::calculate_fee(input_amount, router_fee_rate)?;
        total_fee = match total_fee.checked_add(router_fee) {
            Some(v) => v,
            None => return Err(ContractError::ArithmeticOverflow),
        };
        let estimated_output = match input_amount.checked_sub(router_fee) {
            Some(v) => v,
            None => return Err(ContractError::ArithmeticOverflow),
        };
        if estimated_output <= 0 {
            return Err(ContractError::InsufficientLiquidity);
        }
        let route = Route {
            source_asset: source_asset.clone(),
            dest_asset: dest_asset.clone(),
            amount,
            path,
            total_fee,
            estimated_output,
            min_received: estimated_output,
            timestamp,
        };
        Self::validate_route(&route)?;
        Ok(route)
    }

    /// Finds the route from `source_asset` to `dest_asset` for `amount`: the search runs over
    /// the market's pool graph, and the route is built along the best path found, with a
    /// router fee of `router_fee_rate` basis points on the final output.
    ///
    /// The route is stamped with `timestamp`, the ledger time of the request.
    ///
    /// Fails with `InvalidParams` on a bad amount, equal assets or a fee rate outside
    /// `0..=10000`, and otherwise as the search or the route construction fails.
    pub fn find_route(
        source_asset: String,
        dest_asset: String,
        amount: i128,
        router_fee_rate: i128,
        timestamp: u64,
    ) -> (r: Result<Route, ContractError>)
        ensures
            route_result_view(r) == find_route_spec(
                source_asset@,
                dest_asset@,
                amount as int,
                router_fee_rate as int,
                timestamp,
            ),
    {
        Self::validate_assets(&source_asset, &dest_asset, amount)?;
        Self::validate_fee(router_fee_rate)?;
        let pools = Self::get_mock_pools();
        let graph = Self::build_pool_graph(&pools);
        let paths = Self::find_paths(&graph, &source_asset, &dest_asset, amount)?;
        if paths.len() == 0 {
            return Err(ContractError::RouteNotFound);
        }
        let best_path = &paths[0];
        assert(paths_view(paths@)[0] == pools_view(best_path@));
        Self::route_from_pools(&source_asset, &dest_asset, amount, best_path, router_fee_rate, timestamp)
    }

    /// Re-prices a route against the market: the route is checked, each hop is matched to
    /// the first pool of the market that swaps its assets, and the route is built anew
    /// through those pools from the route's amount, with a router fee of `router_fee_rate`
    /// basis points, stamped with `timestamp` (the ledger time).
    ///
    /// Fails as route validation fails, with `InvalidParams` on a fee rate outside
    /// `0..=10000`, with `RouteNotFound` where a hop has no pool, as the route construction
    /// fails, and with `SlippageExceeded` where the new estimate is below the route's
    /// `min_received`.
    pub fn simulate_route(route: &Route, router_fee_rate: i128, timestamp: u64) -> (r: Result<
        Route,
        ContractError,
    >)
        ensures
            route_result_view(r) == simulate_spec(route@, router_fee_rate as int, timestamp),
    {
        Self::validate_route(route)?;
        Self::validate_fee(router_fee_rate)?;
        let pools = Self::get_mock_pools();
        let ghost mock = pools_view(pools@);
        let ghost hv = route@.path;
        let mut matched: Vec<Pool> = Vec::new();
        let mut i: usize = 0;
        while i < route.path.len()
            invariant
                mock == pools_view(pools@),
                mock == mock_pools_spec(),
                validate_route_spec(route@) is Ok,
                fee_rate_valid(router_fee_rate as int),
                hv == route@.path,
                hv.len() == route.path@.len(),
                i <= route.path.len(),
                forall|k: int| 0 <= k < i ==> (#[trigger] first_pool(
                    mock,
                    hv[k].source_asset,
                    hv[k].dest_asset,
                    0,
                )) is Some,
                pools_view(matched@) == pools_for_hops(mock, hv).take(i as int),
            decreases route.path.len() - i,
        {
            let hop = &route.path[i];
            assert(hv[i as int] == hop@);
            let pool = match Self::find_pool(&pools, &hop.source_asset, &hop.dest_asset) {
                Ok(p) => p,
                Err(e) => {
                    assert(first_pool(mock, hv[i as int].source_asset, hv[i as int].dest_asset, 0) is None);
                    assert(!hops_have_pools(mock, hv));
                    return Err(e);
                },
            };
            let ghost before = matched@;
            matched.push(pool);
            assert(pools_view(matched@) =~= pools_view(before).push(pool@));
            assert(pools_for_hops(mock, hv).take(i + 1) =~= pools_for_hops(mock, hv).take(
                i as int,
            ).push(pool@));
            i = i + 1;
        }
        assert(pools_for_hops(mock, hv).take(route.path.len() as int) =~= pools_for_hops(mock, hv));
        let rebuilt = Self::route_from_pools(
            &route.source_asset,
            &route.dest_asset,
            route.amount,
            &matched,
            router_fee_rate,
            timestamp,
        )?;
        if rebuilt.estimated_output < route.min_received {
            return Err(ContractError::SlippageExceeded);
        }
        Ok(rebuilt)
    }
}

/// Once a partial sum of fee rates leaves `i128`, every longer one is undefined too.
proof fn lemma_fee_total_none(path: Seq<PoolView>, m: nat, n: nat)
    requires
        m <= n,
        fee_total(path, m) is None,
    ensures
        fee_total(path, n) is None,
    decreases n - m,
{
    if m < n {
        lemma_fee_total_none(path, m + 1, n);
    }
}

/// Once the swap walk along a path has stopped (an error, or a reserve below the running
/// amount), walking further gives the same answer.
proof fn lemma_liquidity_walk_settled(path: Seq<PoolView>, amount: int, m: nat, n: nat)
    requires
        m <= n,
        !(liquidity_walk(path, amount, m) matches Ok(Some(_))),
    ensures
        liquidity_walk(path, amount, n) == liquidity_walk(path, amount, m),
    decreases n - m,
{
    if m < n {
        lemma_liquidity_walk_settled(path, amount, m + 1, n);
    }
}

/// Route construction that has failed stays failed with the same error.
proof fn lemma_walk_settled(source: Seq<char>, amount: int, pools: Seq<PoolView>, m: nat, n: nat)
    requires
        m <= n,
        walk(source, amount, pools, m) is Err,
    ensures
        walk(source, amount, pools, n) == walk(source, amount, pools, m),
    decreases n - m,
{
    if m < n {
        lemma_walk_settled(source, amount, pools, m, (n - 1) as nat);
    }
}

} // verus!
