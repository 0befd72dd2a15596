//! The laws of the router: what holds of every input, across calls and across states.
use vstd::prelude::*;

use crate::config::{
    initialize_spec, initialized, set_fee_spec, stored_fee, with_fee, configurable_fee,
    RouterConfig, DEFAULT_FEE,
};
use crate::errors::ContractError;
use crate::model::{
    after_fee, collect, div_trunc, pool_view, RATE_SCALE, fee_rate_valid, fee_total, find_paths_spec, find_route_spec,
    extend_path, extensions_of, first_pool, fits_i128, graph_consistent, graph_spec, hop_fee_total, hops_have_pools,
    is_graph_path, lemma_route_spec_timestamp, liquidity_spec, mock_pools_spec, outgoing,
    pools_for_hops, pools_with_input, queue_after, route_spec, score_spec, search_steps,
    simulate_spec, MAX_HOPS, sorted_by_score, swap_output_spec, validate_route_spec, GraphView,
    BASIS_POINTS, MAX_QUEUE_EXPANSIONS, SCORE_SCALE,
};
use crate::route_lemmas::{
    lemma_first_pool_finds, lemma_mock_pools_unique_pairs, lemma_walk_hop_amounts, lemma_walk_hops,
};
use crate::search_lemmas::{
    lemma_collect_contains, lemma_collect_error, lemma_collect_results, lemma_graph_spec_consistent,
    lemma_prefixes_queued, lemma_pools_with_input,
    lemma_queue_graph_paths, lemma_search_steps_bound,
};
use crate::types::{PoolView, RouteView};

verus! {

/// Before the router is initialized, the fee in force is the default fee.
pub proof fn law_default_fee<A>(config: RouterConfig<A>)
    requires
        config.fee is None,
    ensures
        stored_fee(config) == DEFAULT_FEE,
{
}

/// After a successful initialization with `fee`, the fee in force is `fee`.
pub proof fn law_fee_after_initialize<A>(admin: A, fee: i128)
    ensures
        stored_fee(initialized(admin, fee)) == fee,
{
}

/// A router initializes once: once initialized, every further initialization is refused
/// with `InvalidParams`, whatever administrator and fee it names.
pub proof fn law_initialize_once<A>(admin: A, fee: i128, other_fee: int)
    ensures
        initialize_spec(initialized(admin, fee), other_fee) == Err::<(), ContractError>(
            ContractError::InvalidParams,
        ),
{
}

/// After the fee is set successfully, the fee in force is the fee that was set.
pub proof fn law_fee_after_set_fee<A>(config: RouterConfig<A>, fee: i128)
    requires
        set_fee_spec(config, fee as int) is Ok,
    ensures
        stored_fee(with_fee(config, fee)) == fee,
{
}

/// Setting the fee on a router that has no administrator is refused: with `InvalidParams`
/// for a fee that cannot be configured, and with `Unauthorized` for any other.
pub proof fn law_set_fee_needs_admin<A>(config: RouterConfig<A>, fee: int)
    requires
        config.admin is None,
    ensures
        set_fee_spec(config, fee) == Err::<(), ContractError>(
            if configurable_fee(fee) {
                ContractError::Unauthorized
            } else {
                ContractError::InvalidParams
            },
        ),
{
}

/// A swap never pays out the whole output reserve: a successful output is positive and
/// below `reserve_out`.
pub proof fn law_swap_output_below_reserve(input: int, reserve_in: int, reserve_out: int, fee_rate: int)
    requires
        swap_output_spec(input, reserve_in, reserve_out, fee_rate) is Ok,
    ensures
        0 < swap_output_spec(input, reserve_in, reserve_out, fee_rate)->Ok_0 < reserve_out,
{
    let a = after_fee(input, fee_rate);
    lemma_output_below_reserve(a, reserve_in, reserve_out);
}

/// A swap against a non-positive reserve always fails with `InvalidParams`.
pub proof fn law_swap_invalid_reserves_fail(input: int, reserve_in: int, reserve_out: int, fee_rate: int)
    requires
        reserve_in <= 0 || reserve_out <= 0,
    ensures
        swap_output_spec(input, reserve_in, reserve_out, fee_rate) == Err::<i128, ContractError>(
            ContractError::InvalidParams,
        ),
{
}

/// A higher pool fee never gives a larger output: where the same swap succeeds at fee rates
/// `low_fee <= high_fee`, the output at `high_fee` is at most the output at `low_fee`.
pub proof fn law_higher_fee_no_more_output(
    input: int,
    reserve_in: int,
    reserve_out: int,
    low_fee: int,
    high_fee: int,
)
    requires
        low_fee <= high_fee,
        swap_output_spec(input, reserve_in, reserve_out, low_fee) is Ok,
        swap_output_spec(input, reserve_in, reserve_out, high_fee) is Ok,
    ensures
        swap_output_spec(input, reserve_in, reserve_out, high_fee)->Ok_0 <= swap_output_spec(
            input,
            reserve_in,
            reserve_out,
            low_fee,
        )->Ok_0,
{
    let b = BASIS_POINTS as int;
    let a_low = after_fee(input, low_fee);
    let a_high = after_fee(input, high_fee);
    assert(input * (b - high_fee) <= input * (b - low_fee)) by (nonlinear_arith)
        requires
            input > 0,
            low_fee <= high_fee,
    ;
    assert(a_high <= a_low) by (nonlinear_arith)
        requires
            a_high == input * (b - high_fee) / b,
            a_low == input * (b - low_fee) / b,
            input * (b - high_fee) <= input * (b - low_fee),
            b > 0,
    ;
    lemma_output_below_reserve(a_high, reserve_in, reserve_out);
    lemma_output_monotone(a_high, a_low, reserve_in, reserve_out);
}

/// The constant-product output `a * reserve_out / (reserve_in + a)` is below the reserve.
proof fn lemma_output_below_reserve(a: int, reserve_in: int, reserve_out: int)
    requires
        a > 0,
        reserve_in > 0,
        reserve_out > 0,
    ensures
        a * reserve_out / (reserve_in + a) < reserve_out,
{
    assert(a * reserve_out < reserve_out * (reserve_in + a)) by (nonlinear_arith)
        requires
            a > 0,
            reserve_in > 0,
            reserve_out > 0,
    ;
    assert(a * reserve_out / (reserve_in + a) < reserve_out) by (nonlinear_arith)
        requires
            a * reserve_out < reserve_out * (reserve_in + a),
            reserve_in + a > 0,
            a * reserve_out >= 0,
    ;
}

/// The constant-product output grows with the input after fee.
proof fn lemma_output_monotone(a_small: int, a_large: int, reserve_in: int, reserve_out: int)
    requires
        0 < a_small <= a_large,
        reserve_in > 0,
        reserve_out > 0,
    ensures
        a_small * reserve_out / (reserve_in + a_small) <= a_large * reserve_out / (reserve_in
            + a_large),
{
    let d_small = reserve_in + a_small;
    let d_large = reserve_in + a_large;
    let q = a_small * reserve_out / d_small;
    lemma_output_below_reserve(a_small, reserve_in, reserve_out);
    assert(q * d_small <= a_small * reserve_out) by (nonlinear_arith)
        requires
            q == a_small * reserve_out / d_small,
            d_small > 0,
    ;
    assert(q * d_large <= a_large * reserve_out) by (nonlinear_arith)
        requires
            q * d_small <= a_small * reserve_out,
            d_large == d_small + (a_large - a_small),
            a_large >= a_small,
            q <= reserve_out,
            q >= 0,
    ;
    assert(q <= a_large * reserve_out / d_large) by (nonlinear_arith)
        requires
            q * d_large <= a_large * reserve_out,
            d_large > 0,
    ;
}

/// What the path search finds: in a graph that lists each pool under its input asset, a
/// successful search returns between one and `MAX_QUEUE_EXPANSIONS` paths, best score
/// first; each is a simple path of one to `MAX_HOPS` pools of the graph from `source`
/// whose pools chain asset to asset, that ends at `dest`, that has a score, and along which
/// `amount` can be swapped without exceeding an input reserve.
pub proof fn law_found_paths(g: GraphView, source: Seq<char>, dest: Seq<char>, amount: int)
    requires
        graph_consistent(g),
        find_paths_spec(g, source, dest, amount) is Ok,
    ensures
        ({
            let paths = find_paths_spec(g, source, dest, amount)->Ok_0;
            &&& 1 <= paths.len() <= MAX_QUEUE_EXPANSIONS
            &&& sorted_by_score(paths)
            &&& forall|i: int|
                0 <= i < paths.len() ==> {
                    &&& is_graph_path(g, source, #[trigger] paths[i])
                    &&& paths[i].last().asset_out == dest
                    &&& score_spec(paths[i]) is Ok
                    &&& liquidity_spec(paths[i], amount) == Ok::<bool, ContractError>(true)
                }
        }),
{
    let n = search_steps(g, source, dest, 0);
    let q = queue_after(g, source, dest, n);
    lemma_search_steps_bound(g, source, dest, 0);
    lemma_queue_graph_paths(g, source, dest, n);
    lemma_collect_results(q, n, dest, amount);
    let paths = find_paths_spec(g, source, dest, amount)->Ok_0;
    assert forall|i: int| 0 <= i < paths.len() implies {
        &&& is_graph_path(g, source, #[trigger] paths[i])
        &&& paths[i].last().asset_out == dest
        &&& score_spec(paths[i]) is Ok
        &&& liquidity_spec(paths[i], amount) == Ok::<bool, ContractError>(true)
    } by {
        let k = choose|k: int|
            0 <= k < n && q[k] == #[trigger] paths[i] && q[k].last().asset_out == dest
                && liquidity_spec(q[k], amount) == Ok::<bool, ContractError>(true) && score_spec(
                q[k],
            ) is Ok;
        assert(q[k] == paths[i]);
    }
}

/// Every route that the router builds passes route validation, carries the requested
/// assets, amount and timestamp, promises its whole estimate as the minimum received, and
/// has one hop per pool, each swapping that pool's assets. Its fees add up: the total fee
/// is the hop fees plus the router fee on the last hop's output, and the estimate is that
/// output less the router fee.
pub proof fn law_built_routes_are_valid(
    source: Seq<char>,
    dest: Seq<char>,
    amount: int,
    pools: Seq<PoolView>,
    router_fee: int,
    timestamp: u64,
)
    requires
        fits_i128(amount),
        route_spec(source, dest, amount, pools, router_fee, timestamp) is Ok,
    ensures
        ({
            let route = route_spec(source, dest, amount, pools, router_fee, timestamp)->Ok_0;
            let last_output = route.path.last().output_amount as int;
            let fee = div_trunc(last_output * router_fee, BASIS_POINTS as int);
            &&& validate_route_spec(route) is Ok
            &&& route.source_asset == source
            &&& route.dest_asset == dest
            &&& route.amount == amount
            &&& route.timestamp == timestamp
            &&& route.min_received == route.estimated_output
            &&& route.path.len() == pools.len()
            &&& forall|i: int|
                0 <= i < pools.len() ==> (#[trigger] route.path[i]).source_asset == pools[i].asset_in
                    && route.path[i].dest_asset == pools[i].asset_out
            &&& route.total_fee == hop_fee_total(route.path) + fee
            &&& route.estimated_output == last_output - fee
            &&& 0 < route.estimated_output <= last_output
        }),
{
    lemma_walk_hops(source, amount, pools, pools.len());
}

/// The route that the router finds is one it builds: it passes validation and carries the
/// requested assets, amount and timestamp.
pub proof fn law_found_route_is_valid(
    source: Seq<char>,
    dest: Seq<char>,
    amount: int,
    router_fee: int,
    timestamp: u64,
)
    requires
        fits_i128(amount),
        find_route_spec(source, dest, amount, router_fee, timestamp) is Ok,
    ensures
        ({
            let route = find_route_spec(source, dest, amount, router_fee, timestamp)->Ok_0;
            &&& validate_route_spec(route) is Ok
            &&& route.source_asset == source
            &&& route.dest_asset == dest
            &&& route.amount == amount
            &&& route.timestamp == timestamp
            &&& route.min_received == route.estimated_output
        }),
{
    let paths = find_paths_spec(graph_spec(mock_pools_spec()), source, dest, amount)->Ok_0;
    law_built_routes_are_valid(source, dest, amount, paths[0], router_fee, timestamp);
}

/// A simulated route passes validation, keeps the route's assets and amount, and never
/// estimates less than the minimum that the simulated route asked for.
pub proof fn law_simulated_route_is_valid(route: RouteView, router_fee: int, timestamp: u64)
    requires
        simulate_spec(route, router_fee, timestamp) is Ok,
    ensures
        ({
            let simulated = simulate_spec(route, router_fee, timestamp)->Ok_0;
            &&& validate_route_spec(simulated) is Ok
            &&& simulated.source_asset == route.source_asset
            &&& simulated.dest_asset == route.dest_asset
            &&& simulated.amount == route.amount
            &&& simulated.timestamp == timestamp
            &&& simulated.path.len() == route.path.len()
            &&& simulated.estimated_output >= route.min_received
        }),
{
    let pools = pools_for_hops(mock_pools_spec(), route.path);
    law_built_routes_are_valid(
        route.source_asset,
        route.dest_asset,
        route.amount as int,
        pools,
        router_fee,
        timestamp,
    );
}

/// Slippage is enforced: where a sound route re-priced against the market would estimate
/// less than its `min_received`, simulation (and so execution) answers
/// `SlippageExceeded`.
pub proof fn law_minimum_output_enforced(route: RouteView, router_fee: int, timestamp: u64)
    requires
        validate_route_spec(route) is Ok,
        fee_rate_valid(router_fee),
        hops_have_pools(mock_pools_spec(), route.path),
        route_spec(
            route.source_asset,
            route.dest_asset,
            route.amount as int,
            pools_for_hops(mock_pools_spec(), route.path),
            router_fee,
            timestamp,
        ) matches Ok(rebuilt) && rebuilt.estimated_output < route.min_received,
    ensures
        simulate_spec(route, router_fee, timestamp) == Err::<RouteView, ContractError>(
            ContractError::SlippageExceeded,
        ),
{
}

/// Simulating a route that the router found, with the same router fee and at any later
/// time, gives back that route with the new time: the same hops, fees and estimated output.
pub proof fn law_simulation_reproduces_found_route(
    source: Seq<char>,
    dest: Seq<char>,
    amount: int,
    router_fee: int,
    found_at: u64,
    simulated_at: u64,
)
    requires
        fits_i128(amount),
        find_route_spec(source, dest, amount, router_fee, found_at) is Ok,
    ensures
        simulate_spec(find_route_spec(source, dest, amount, router_fee, found_at)->Ok_0, router_fee, simulated_at)
            == find_route_spec(source, dest, amount, router_fee, simulated_at),
{
    let mock = mock_pools_spec();
    let g = graph_spec(mock);
    let paths = find_paths_spec(g, source, dest, amount)->Ok_0;
    let p = paths[0];
    let route = find_route_spec(source, dest, amount, router_fee, found_at)->Ok_0;
    lemma_graph_spec_consistent(mock);
    law_found_paths(g, source, dest, amount);
    law_built_routes_are_valid(source, dest, amount, p, router_fee, found_at);
    lemma_route_spec_timestamp(source, dest, amount, p, router_fee, found_at, simulated_at);
    lemma_mock_pools_unique_pairs();
    assert(is_graph_path(g, source, p));
    assert forall|i: int| 0 <= i < p.len() implies #[trigger] first_pool(
        mock,
        route.path[i].source_asset,
        route.path[i].dest_asset,
        0,
    ) == Some(p[i]) by {
        assert(outgoing(g, p[i].asset_in).contains(p[i]));
        assert(g.dom().contains(p[i].asset_in));
        lemma_pools_with_input(mock, p[i].asset_in);
        let k = choose|k: int| 0 <= k < outgoing(g, p[i].asset_in).len() && outgoing(g, p[i].asset_in)[k] == p[i];
        assert(mock.contains(pools_with_input(mock, p[i].asset_in)[k]));
        let idx = choose|idx: int| 0 <= idx < mock.len() && mock[idx] == p[i];
        lemma_first_pool_finds(mock, idx, 0);
    }
    assert(hops_have_pools(mock, route.path));
    assert(pools_for_hops(mock, route.path) =~= p);
}

/// Executing a route that the router found, with the same router fee and at any later
/// time, succeeds and returns the estimated output that was found.
pub proof fn law_execution_of_found_route(
    source: Seq<char>,
    dest: Seq<char>,
    amount: int,
    router_fee: int,
    found_at: u64,
    executed_at: u64,
)
    requires
        fits_i128(amount),
        find_route_spec(source, dest, amount, router_fee, found_at) is Ok,
    ensures
        simulate_spec(find_route_spec(source, dest, amount, router_fee, found_at)->Ok_0, router_fee, executed_at) is Ok,
        simulate_spec(find_route_spec(source, dest, amount, router_fee, found_at)->Ok_0, router_fee, executed_at)->Ok_0.estimated_output
            == find_route_spec(source, dest, amount, router_fee, found_at)->Ok_0.estimated_output,
{
    law_simulation_reproduces_found_route(source, dest, amount, router_fee, found_at, executed_at);
    let paths = find_paths_spec(graph_spec(mock_pools_spec()), source, dest, amount)->Ok_0;
    lemma_route_spec_timestamp(source, dest, amount, paths[0], router_fee, found_at, executed_at);
}

/// Between two paths of the same length that both have a score, the one whose fee rates
/// sum higher scores no higher.
pub proof fn law_higher_fees_score_no_higher(cheap: Seq<PoolView>, costly: Seq<PoolView>)
    requires
        cheap.len() == costly.len(),
        score_spec(cheap) is Ok,
        score_spec(costly) is Ok,
        fee_total(cheap, cheap.len()) is Some,
        fee_total(costly, costly.len()) is Some,
        fee_total(cheap, cheap.len())->Some_0 <= fee_total(costly, costly.len())->Some_0,
    ensures
        score_spec(costly)->Ok_0 <= score_spec(cheap)->Ok_0,
{
    let penalty = cheap.len() * BASIS_POINTS;
    let low = penalty + fee_total(cheap, cheap.len())->Some_0;
    let high = penalty + fee_total(costly, costly.len())->Some_0;
    assert((SCORE_SCALE as int) / high <= (SCORE_SCALE as int) / low) by (nonlinear_arith)
        requires
            0 < low <= high,
    ;
}

/// A request for a non-positive amount, or between an asset and itself, is refused with
/// `InvalidParams` by the path search and by route discovery, whatever the graph and fee.
pub proof fn law_bad_requests_refused(
    g: GraphView,
    source: Seq<char>,
    dest: Seq<char>,
    amount: int,
    router_fee: int,
    timestamp: u64,
)
    requires
        amount <= 0 || source == dest,
    ensures
        find_paths_spec(g, source, dest, amount) == Err::<Seq<Seq<PoolView>>, ContractError>(
            ContractError::InvalidParams,
        ),
        find_route_spec(source, dest, amount, router_fee, timestamp) == Err::<RouteView, ContractError>(
            ContractError::InvalidParams,
        ),
{
}

/// A route that passes validation chains from its source to its destination: the first hop
/// takes the source asset, each later hop takes the asset that the hop before it gave, and
/// the last hop gives the destination asset. Its amounts are positive and no hop leads back
/// to an asset held before, except to the destination.
pub proof fn law_valid_routes_chain(route: RouteView)
    requires
        validate_route_spec(route) is Ok,
    ensures
        route.amount > 0,
        route.source_asset != route.dest_asset,
        route.path.len() > 0,
        route.path[0].source_asset == route.source_asset,
        forall|i: int|
            0 < i < route.path.len() ==> (#[trigger] route.path[i]).source_asset == route.path[i
                - 1].dest_asset,
        route.path.last().dest_asset == route.dest_asset,
        forall|i: int|
            0 <= i < route.path.len() ==> (#[trigger] route.path[i]).input_amount > 0
                && route.path[i].output_amount > 0 && route.path[i].fee >= 0 && route.path[i].rate > 0,
        forall|i: int, j: int|
            0 <= j < i < route.path.len() && route.path[i].dest_asset != route.dest_asset
                ==> route.path[i].dest_asset != #[trigger] route.path[j].dest_asset
                && (#[trigger] route.path[i]).dest_asset != route.source_asset,
        0 < route.min_received <= route.estimated_output,
{
    assert(crate::model::hop_valid(route, 0));
    assert forall|i: int| 0 < i < route.path.len() implies (#[trigger] route.path[i]).source_asset
        == route.path[i - 1].dest_asset by {
        assert(crate::model::hop_valid(route, i));
    }
    assert forall|i: int| 0 <= i < route.path.len() implies (#[trigger] route.path[i]).input_amount
        > 0 && route.path[i].output_amount > 0 && route.path[i].fee >= 0 && route.path[i].rate > 0 by {
        assert(crate::model::hop_valid(route, i));
    }
    assert forall|i: int, j: int|
        0 <= j < i < route.path.len() && route.path[i].dest_asset != route.dest_asset implies route.path[i].dest_asset
            != #[trigger] route.path[j].dest_asset && (#[trigger] route.path[i]).dest_asset
            != route.source_asset by {
        assert(crate::model::hop_valid(route, i));
        if route.path[i].dest_asset == route.path[j].dest_asset {
            assert(crate::model::revisits(route, i, route.path[i].dest_asset));
        }
    }
}

/// In a route that the router builds, the first hop swaps the requested amount and each
/// later hop swaps what the hop before it put out; each hop's fee is its pool's fee rate on
/// that hop's own input (rounded toward zero), its output is the pool's constant-product
/// output for that input, and its rate is output per input times `RATE_SCALE`.
pub proof fn law_built_route_hops(
    source: Seq<char>,
    dest: Seq<char>,
    amount: int,
    pools: Seq<PoolView>,
    router_fee: int,
    timestamp: u64,
)
    requires
        fits_i128(amount),
        route_spec(source, dest, amount, pools, router_fee, timestamp) is Ok,
    ensures
        ({
            let route = route_spec(source, dest, amount, pools, router_fee, timestamp)->Ok_0;
            &&& route.path.len() == pools.len()
            &&& route.path[0].input_amount == amount
            &&& forall|i: int|
                0 <= i < route.path.len() - 1 ==> (#[trigger] route.path[i + 1]).input_amount
                    == route.path[i].output_amount
            &&& forall|i: int|
                0 <= i < route.path.len() ==> {
                    &&& (#[trigger] route.path[i]).fee == div_trunc(
                        route.path[i].input_amount * pools[i].fee_rate,
                        BASIS_POINTS as int,
                    )
                    &&& swap_output_spec(
                        route.path[i].input_amount as int,
                        pools[i].reserve_in as int,
                        pools[i].reserve_out as int,
                        pools[i].fee_rate as int,
                    ) == Ok::<i128, ContractError>(route.path[i].output_amount)
                    &&& route.path[i].rate == route.path[i].output_amount * RATE_SCALE / (
                    route.path[i].input_amount as int)
                }
        }),
{
    lemma_walk_hops(source, amount, pools, pools.len());
    lemma_walk_hop_amounts(source, amount, pools, pools.len());
    let route = route_spec(source, dest, amount, pools, router_fee, timestamp)->Ok_0;
    assert forall|i: int| 0 <= i < route.path.len() implies {
        &&& (#[trigger] route.path[i]).fee == div_trunc(
            route.path[i].input_amount * pools[i].fee_rate,
            BASIS_POINTS as int,
        )
        &&& swap_output_spec(
            route.path[i].input_amount as int,
            pools[i].reserve_in as int,
            pools[i].reserve_out as int,
            pools[i].fee_rate as int,
        ) == Ok::<i128, ContractError>(route.path[i].output_amount)
        &&& route.path[i].rate == route.path[i].output_amount * RATE_SCALE / (
        route.path[i].input_amount as int)
    } by {
        assert(crate::route_lemmas::hop_priced_by(route.path[i], pools[i]));
    }
}

/// Simulation respects the route's slippage tolerance: a sound route, under a valid router
/// fee, whose every hop has a pool in the market, re-prices to the route rebuilt through
/// those pools whenever the new estimate is at least the route's `min_received`, whatever
/// estimate the route itself carried; and it is refused with `SlippageExceeded` exactly when
/// the new estimate is below `min_received`.
pub proof fn law_slippage_tolerance(route: RouteView, router_fee: int, timestamp: u64)
    requires
        validate_route_spec(route) is Ok,
        fee_rate_valid(router_fee),
        hops_have_pools(mock_pools_spec(), route.path),
        route_spec(
            route.source_asset,
            route.dest_asset,
            route.amount as int,
            pools_for_hops(mock_pools_spec(), route.path),
            router_fee,
            timestamp,
        ) is Ok,
    ensures
        ({
            let rebuilt = route_spec(
                route.source_asset,
                route.dest_asset,
                route.amount as int,
                pools_for_hops(mock_pools_spec(), route.path),
                router_fee,
                timestamp,
            )->Ok_0;
            &&& rebuilt.estimated_output >= route.min_received ==> simulate_spec(
                route,
                router_fee,
                timestamp,
            ) == Ok::<RouteView, ContractError>(rebuilt)
            &&& rebuilt.estimated_output < route.min_received <==> simulate_spec(
                route,
                router_fee,
                timestamp,
            ) == Err::<RouteView, ContractError>(ContractError::SlippageExceeded)
        }),
{
}

/// The market: thirteen pools, in this order, each with its input and output assets, its
/// input and output reserves, and its fee rate in basis points.
pub proof fn law_market_pools()
    ensures
        mock_pools_spec().len() == 13,
        mock_pools_spec()[0] == pool_view("p_usdc_xlm"@, "USDC"@, "XLM"@, 1_000_000, 500_000, 30),
        mock_pools_spec()[1] == pool_view("p_usdc_eurc"@, "USDC"@, "EURC"@, 1_000_000, 990_000, 20),
        mock_pools_spec()[2] == pool_view("p_eurc_xlm"@, "EURC"@, "XLM"@, 900_000, 540_000, 25),
        mock_pools_spec()[3] == pool_view("p_usdc_btc"@, "USDC"@, "BTC"@, 2_000_000, 60_000, 35),
        mock_pools_spec()[4] == pool_view("p_btc_xlm"@, "BTC"@, "XLM"@, 50_000, 700_000, 30),
        mock_pools_spec()[5] == pool_view("p_xlm_aqua"@, "XLM"@, "AQUA"@, 800_000, 1_600_000, 25),
        mock_pools_spec()[6] == pool_view("p_aqua_usdc"@, "AQUA"@, "USDC"@, 1_500_000, 700_000, 30),
        mock_pools_spec()[7] == pool_view("p_eurc_eth"@, "EURC"@, "ETH"@, 600_000, 300_000, 40),
        mock_pools_spec()[8] == pool_view("p_eth_xlm"@, "ETH"@, "XLM"@, 250_000, 650_000, 35),
        mock_pools_spec()[9] == pool_view("p_btc_eth"@, "BTC"@, "ETH"@, 80_000, 120_000, 30),
        mock_pools_spec()[10] == pool_view("p_xlm_usdc"@, "XLM"@, "USDC"@, 450_000, 900_000, 30),
        mock_pools_spec()[11] == pool_view("p_eurc_dead"@, "EURC"@, "DEAD"@, 300_000, 10_000, 50),
        mock_pools_spec()[12] == pool_view("p_dead_sink"@, "DEAD"@, "SINK"@, 10_000, 1_000, 60),
{
}


/// The search extends every path that it looks at and that neither reaches the destination
/// nor has `MAX_HOPS` pools: by each pool leaving the path's last asset, in the graph's
/// order, that leads to an asset the path does not touch yet.
pub proof fn law_search_extends_short_paths(g: GraphView, dest: Seq<char>, path: Seq<PoolView>)
    requires
        1 <= path.len() < MAX_HOPS,
        path.last().asset_out != dest,
    ensures
        extend_path(g, dest, path) == extensions_of(path, outgoing(g, path.last().asset_out)),
{
}

/// The search misses no path: where it looks at every path it queues within its budget and
/// fails, if at all, only for want of a route, it succeeds, and its results hold every
/// simple path of one to `MAX_HOPS` pools of the graph from `source` that reaches `dest`
/// only at its end and along which `amount` can be swapped.
pub proof fn law_search_finds_every_path(
    g: GraphView,
    source: Seq<char>,
    dest: Seq<char>,
    amount: int,
    path: Seq<PoolView>,
)
    requires
        graph_consistent(g),
        search_steps(g, source, dest, 0) < MAX_QUEUE_EXPANSIONS,
        find_paths_spec(g, source, dest, amount) is Ok || find_paths_spec(g, source, dest, amount)
            == Err::<Seq<Seq<PoolView>>, ContractError>(ContractError::RouteNotFound),
        is_graph_path(g, source, path),
        path.last().asset_out == dest,
        forall|k: int| 0 <= k < path.len() - 1 ==> #[trigger] path[k].asset_out != dest,
        liquidity_spec(path, amount) == Ok::<bool, ContractError>(true),
    ensures
        find_paths_spec(g, source, dest, amount) is Ok,
        find_paths_spec(g, source, dest, amount)->Ok_0.contains(path),
{
    let total = search_steps(g, source, dest, 0);
    let qt = queue_after(g, source, dest, total);
    assert(outgoing(g, source).contains(path[0]));
    assert(g.dom().contains(source));
    lemma_prefixes_queued(g, source, dest, path, path.len() as int);
    assert(path.take(path.len() as int) =~= path);
    let k = choose|k: int| 0 <= k < qt.len() && qt[k] == path;
    lemma_search_steps_bound(g, source, dest, 0);
    assert(k < total);
    if collect(qt, total, dest, amount) is Err {
        lemma_collect_error(qt, total, dest, amount);
    }
    lemma_collect_contains(qt, total, dest, amount, k);
    let results = collect(qt, total, dest, amount)->Ok_0;
    assert(results.contains(path));
    assert(results.len() > 0);
}

} // verus!
