//! The mathematical model of routing: what each operation of the router computes, stated
//! over the views of pools, hops and routes.
use vstd::prelude::*;

use crate::errors::ContractError;
use crate::types::{HopView, PoolView, RouteView};

verus! {

/// Basis points in one whole: fee rates are expressed against it.
pub const BASIS_POINTS: i128 = 10_000;
/// The scale of a hop's rate: output per input, times this.
pub const RATE_SCALE: i128 = 10_000;
/// The numerator of a route's score.
pub const SCORE_SCALE: i128 = 1_000_000_000;
/// The longest path, in pools, that the search extends.
pub const MAX_HOPS: usize = 5;
/// How many queued paths the search looks at, at most.
pub const MAX_QUEUE_EXPANSIONS: usize = 50;

/// A graph of pools: for each asset, the pools that take it as input, in order.
pub type GraphView = Map<Seq<char>, Seq<PoolView>>;

/// Whether an integer fits in an `i128`.
pub open spec fn fits_i128(x: int) -> bool {
    i128::MIN <= x <= i128::MAX
}

/// Integer division rounding toward zero, as Rust's `/` on signed integers does.
pub open spec fn div_trunc(x: int, d: int) -> int {
    let q = (if x >= 0 { x } else { -x }) / (if d >= 0 { d } else { -d });
    if x == 0 || (x > 0) == (d > 0) {
        q
    } else {
        -q
    }
}

/// Whether a fee rate is an allowed rate of the router: from 0 to 10 000 basis points.
pub open spec fn fee_rate_valid(fee_rate: int) -> bool {
    0 <= fee_rate <= BASIS_POINTS
}

/// The fee charged on `amount` at `fee_rate` basis points, rounded toward zero, or why
/// there is none.
pub open spec fn fee_spec(amount: int, fee_rate: int) -> Result<i128, ContractError> {
    if !fee_rate_valid(fee_rate) {
        Err(ContractError::InvalidParams)
    } else if !fits_i128(amount * fee_rate) {
        Err(ContractError::ArithmeticOverflow)
    } else {
        Ok(div_trunc(amount * fee_rate, BASIS_POINTS as int) as i128)
    }
}

/// The input of a swap left after a pool fee of `fee_rate` basis points, rounded down.
pub open spec fn after_fee(input: int, fee_rate: int) -> int {
    input * (BASIS_POINTS - fee_rate) / (BASIS_POINTS as int)
}

/// The output of a constant-product swap of `input` against reserves `reserve_in` and
/// `reserve_out`, after a pool fee of `fee_rate` basis points, or why there is none.
///
/// With `a = input * (10000 - fee_rate) / 10000`, the output is
/// `a * reserve_out / (reserve_in + a)`, both rounded down.
pub open spec fn swap_output_spec(input: int, reserve_in: int, reserve_out: int, fee_rate: int)
    -> Result<i128, ContractError>
{
    if input <= 0 || reserve_in <= 0 || reserve_out <= 0 {
        Err(ContractError::InvalidParams)
    } else if !(0 <= fee_rate < BASIS_POINTS) {
        Err(ContractError::InvalidParams)
    } else if !fits_i128(input * (BASIS_POINTS - fee_rate)) {
        Err(ContractError::ArithmeticOverflow)
    } else {
        let a = after_fee(input, fee_rate);
        if a <= 0 {
            Err(ContractError::InvalidParams)
        } else if !fits_i128(a * reserve_out) {
            Err(ContractError::ArithmeticOverflow)
        } else if !fits_i128(reserve_in + a) {
            Err(ContractError::ArithmeticOverflow)
        } else {
            let output = a * reserve_out / (reserve_in + a);
            if output <= 0 {
                Err(ContractError::InsufficientLiquidity)
            } else {
                Ok(output as i128)
            }
        }
    }
}

/// The checks of a request: a positive amount between two different assets.
pub open spec fn assets_spec(source: Seq<char>, dest: Seq<char>, amount: int) -> Result<
    (),
    ContractError,
> {
    if amount <= 0 || source == dest {
        Err(ContractError::InvalidParams)
    } else {
        Ok(())
    }
}

// ----------------------------------------------------------------------------------------
// Scores
// ----------------------------------------------------------------------------------------

/// The sum of the fee rates of the first `n` pools of a path, or `None` where a partial
/// sum leaves `i128`.
pub open spec fn fee_total(path: Seq<PoolView>, n: nat) -> Option<int>
    decreases n,
{
    if n == 0 {
        Some(0)
    } else {
        match fee_total(path, (n - 1) as nat) {
            None => None,
            Some(s) => {
                let t = s + path[n - 1].fee_rate;
                if fits_i128(t) {
                    Some(t)
                } else {
                    None
                }
            },
        }
    }
}

/// The score of a path: `1_000_000_000 / (hops * 10000 + sum of fee rates)`; higher is
/// better. Fails with `InvalidRoute` on an empty path or a non-positive denominator, and
/// with `ArithmeticOverflow` where a sum leaves `i128`.
pub open spec fn score_spec(path: Seq<PoolView>) -> Result<i128, ContractError> {
    if path.len() == 0 {
        Err(ContractError::InvalidRoute)
    } else {
        match fee_total(path, path.len()) {
            None => Err(ContractError::ArithmeticOverflow),
            Some(fees) => {
                let penalty = path.len() * BASIS_POINTS;
                if !fits_i128(penalty) || !fits_i128(penalty + fees) {
                    Err(ContractError::ArithmeticOverflow)
                } else if penalty + fees <= 0 {
                    Err(ContractError::InvalidRoute)
                } else {
                    Ok(((SCORE_SCALE as int) / (penalty + fees)) as i128)
                }
            },
        }
    }
}

/// The score of a path where it has one, else 0.
pub open spec fn score_value(path: Seq<PoolView>) -> int {
    match score_spec(path) {
        Ok(s) => s as int,
        Err(_) => 0,
    }
}

/// The first index from `i` on at which a path of score `s` goes before the path there:
/// the first whose score is below `s`; the end where there is none.
pub open spec fn insert_position(results: Seq<Seq<PoolView>>, s: int, i: nat) -> nat
    decreases results.len() - i,
{
    if i >= results.len() {
        results.len()
    } else if s > score_value(results[i as int]) {
        i
    } else {
        insert_position(results, s, i + 1)
    }
}

/// `results` with `path` inserted before the first path of lower score, or why the path
/// has no score.
pub open spec fn insert_by_score_spec(results: Seq<Seq<PoolView>>, path: Seq<PoolView>) -> Result<
    Seq<Seq<PoolView>>,
    ContractError,
> {
    match score_spec(path) {
        Err(e) => Err(e),
        Ok(s) => {
            let k = insert_position(results, s as int, 0) as int;
            Ok(results.take(k).push(path) + results.skip(k))
        },
    }
}

// ----------------------------------------------------------------------------------------
// Liquidity along a path
// ----------------------------------------------------------------------------------------

/// Swapping `amount` through the first `n` pools of a path: `Some` of what comes out,
/// `None` where some pool's input reserve was below the running amount, or the first
/// swap error.
pub open spec fn liquidity_walk(path: Seq<PoolView>, amount: int, n: nat) -> Result<
    Option<int>,
    ContractError,
>
    decreases n,
{
    if n == 0 {
        Ok(Some(amount))
    } else {
        match liquidity_walk(path, amount, (n - 1) as nat) {
            Err(e) => Err(e),
            Ok(None) => Ok(None),
            Ok(Some(current)) => {
                let pool = path[n - 1];
                if current > pool.reserve_in {
                    Ok(None)
                } else {
                    match swap_output_spec(
                        current,
                        pool.reserve_in as int,
                        pool.reserve_out as int,
                        pool.fee_rate as int,
                    ) {
                        Err(e) => Err(e),
                        Ok(out) => Ok(Some(out as int)),
                    }
                }
            },
        }
    }
}

/// Whether `amount` can be swapped through every pool of the path without exceeding an
/// input reserve, or the first swap error on the way.
pub open spec fn liquidity_spec(path: Seq<PoolView>, amount: int) -> Result<bool, ContractError> {
    match liquidity_walk(path, amount, path.len()) {
        Err(e) => Err(e),
        Ok(None) => Ok(false),
        Ok(Some(_)) => Ok(true),
    }
}

// ----------------------------------------------------------------------------------------
// Route construction
// ----------------------------------------------------------------------------------------

/// The state of building a route: the hops so far, the amount that the last hop put out,
/// the pool fees so far, and the asset held.
pub struct WalkState {
    pub hops: Seq<HopView>,
    pub amount: int,
    pub total_fee: int,
    pub asset: Seq<char>,
}

/// One hop of route construction: swap the held amount through `pool`.
pub open spec fn walk_step(st: WalkState, pool: PoolView) -> Result<WalkState, ContractError> {
    if pool.asset_in != st.asset {
        Err(ContractError::InvalidRoute)
    } else if st.amount > pool.reserve_in {
        Err(ContractError::InsufficientLiquidity)
    } else {
        match fee_spec(st.amount, pool.fee_rate as int) {
            Err(e) => Err(e),
            Ok(fee) => match swap_output_spec(
                st.amount,
                pool.reserve_in as int,
                pool.reserve_out as int,
                pool.fee_rate as int,
            ) {
                Err(e) => Err(e),
                Ok(out) => {
                    if out > pool.reserve_out {
                        Err(ContractError::InsufficientLiquidity)
                    } else if !fits_i128(st.total_fee + fee) {
                        Err(ContractError::ArithmeticOverflow)
                    } else if !fits_i128(out * RATE_SCALE) {
                        Err(ContractError::ArithmeticOverflow)
                    } else {
                        let hop = HopView {
                            source_asset: pool.asset_in,
                            dest_asset: pool.asset_out,
                            input_amount: st.amount as i128,
                            output_amount: out,
                            fee: fee,
                            rate: (out * RATE_SCALE / st.amount) as i128,
                        };
                        Ok(
                            WalkState {
                                hops: st.hops.push(hop),
                                amount: out as int,
                                total_fee: st.total_fee + fee,
                                asset: pool.asset_out,
                            },
                        )
                    }
                },
            },
        }
    }
}

/// Route construction through the first `n` pools, starting with `amount` of `source`.
pub open spec fn walk(source: Seq<char>, amount: int, pools: Seq<PoolView>, n: nat) -> Result<
    WalkState,
    ContractError,
>
    decreases n,
{
    if n == 0 {
        Ok(WalkState { hops: Seq::empty(), amount: amount, total_fee: 0, asset: source })
    } else {
        match walk(source, amount, pools, (n - 1) as nat) {
            Err(e) => Err(e),
            Ok(st) => walk_step(st, pools[n - 1]),
        }
    }
}

/// Whether the route revisits `asset` before hop `i`: it is the source, or an earlier hop
/// led to it.
pub open spec fn revisits(route: RouteView, i: int, asset: Seq<char>) -> bool {
    route.source_asset == asset || exists|j: int|
        0 <= j < i && #[trigger] route.path[j].dest_asset == asset
}

/// Whether hop `i` of a route is sound: positive amounts and rate, a non-negative fee,
/// continuity with what came before, and no return to an asset already held unless it is
/// the destination.
pub open spec fn hop_valid(route: RouteView, i: int) -> bool {
    let hop = route.path[i];
    &&& hop.input_amount > 0
    &&& hop.output_amount > 0
    &&& hop.fee >= 0
    &&& hop.rate > 0
    &&& hop.source_asset == (if i == 0 {
        route.source_asset
    } else {
        route.path[i - 1].dest_asset
    })
    &&& !(revisits(route, i, hop.dest_asset) && hop.dest_asset != route.dest_asset)
}

/// What route validation answers: `InvalidParams` for a bad amount or equal assets,
/// `InvalidRoute` for an empty path or non-positive outputs, `SlippageExceeded` where the
/// estimate is below the minimum, `InvalidRoute` for an unsound hop or a path that does
/// not end at the destination, and `Ok` otherwise.
pub open spec fn validate_route_spec(route: RouteView) -> Result<(), ContractError> {
    if route.amount <= 0 || route.source_asset == route.dest_asset {
        Err(ContractError::InvalidParams)
    } else if route.path.len() == 0 || route.estimated_output <= 0 || route.min_received <= 0 {
        Err(ContractError::InvalidRoute)
    } else if route.estimated_output < route.min_received {
        Err(ContractError::SlippageExceeded)
    } else if (forall|i: int| 0 <= i < route.path.len() ==> #[trigger] hop_valid(route, i))
        && route.path.last().dest_asset == route.dest_asset {
        Ok(())
    } else {
        Err(ContractError::InvalidRoute)
    }
}

/// The route from `source` to `dest` for `amount` through `pools`, charged `router_fee`
/// basis points on the final output and stamped with `timestamp`.
pub open spec fn route_spec(
    source: Seq<char>,
    dest: Seq<char>,
    amount: int,
    pools: Seq<PoolView>,
    router_fee: int,
    timestamp: u64,
) -> Result<RouteView, ContractError> {
    if pools.len() == 0 {
        Err(ContractError::RouteNotFound)
    } else {
        match walk(source, amount, pools, pools.len()) {
            Err(e) => Err(e),
            Ok(st) => {
                if st.asset != dest {
                    Err(ContractError::InvalidRoute)
                } else {
                    match fee_spec(st.amount, router_fee) {
                        Err(e) => Err(e),
                        Ok(fee) => {
                            if !fits_i128(st.total_fee + fee) || !fits_i128(st.amount - fee) {
                                Err(ContractError::ArithmeticOverflow)
                            } else if st.amount - fee <= 0 {
                                Err(ContractError::InsufficientLiquidity)
                            } else {
                                let route = RouteView {
                                    source_asset: source,
                                    dest_asset: dest,
                                    amount: amount as i128,
                                    path: st.hops,
                                    total_fee: (st.total_fee + fee) as i128,
                                    estimated_output: (st.amount - fee) as i128,
                                    min_received: (st.amount - fee) as i128,
                                    timestamp: timestamp,
                                };
                                match validate_route_spec(route) {
                                    Err(e) => Err(e),
                                    Ok(_) => Ok(route),
                                }
                            }
                        },
                    }
                }
            },
        }
    }
}

/// A route with its timestamp set.
pub open spec fn stamped(route: RouteView, timestamp: u64) -> RouteView {
    RouteView { timestamp: timestamp, ..route }
}

/// Route validation does not look at the timestamp.
pub proof fn lemma_validation_ignores_timestamp(route: RouteView, t: u64)
    ensures
        validate_route_spec(stamped(route, t)) == validate_route_spec(route),
{
    let s = stamped(route, t);
    assert(s.path == route.path);
    assert(s.source_asset == route.source_asset);
    assert(s.dest_asset == route.dest_asset);
    assert forall|i: int| #![trigger hop_valid(s, i)] #![trigger hop_valid(route, i)]
        hop_valid(s, i) == hop_valid(route, i) by {
        assert forall|a: Seq<char>| #[trigger] revisits(s, i, a) == revisits(route, i, a) by {}
    }
}

/// Building a route with another timestamp gives the same answer, stamped with that time.
pub proof fn lemma_route_spec_timestamp(
    source: Seq<char>,
    dest: Seq<char>,
    amount: int,
    pools: Seq<PoolView>,
    router_fee: int,
    t0: u64,
    t1: u64,
)
    ensures
        route_spec(source, dest, amount, pools, router_fee, t1) == match route_spec(
            source,
            dest,
            amount,
            pools,
            router_fee,
            t0,
        ) {
            Ok(r) => Ok(stamped(r, t1)),
            Err(e) => Err(e),
        },
{
    if pools.len() > 0 {
        if let Ok(st) = walk(source, amount, pools, pools.len()) {
            if st.asset == dest {
                if let Ok(fee) = fee_spec(st.amount, router_fee) {
                    let r0 = RouteView {
                        source_asset: source,
                        dest_asset: dest,
                        amount: amount as i128,
                        path: st.hops,
                        total_fee: (st.total_fee + fee) as i128,
                        estimated_output: (st.amount - fee) as i128,
                        min_received: (st.amount - fee) as i128,
                        timestamp: t0,
                    };
                    lemma_validation_ignores_timestamp(r0, t1);
                }
            }
        }
    }
}

/// The sum of the fees of a sequence of hops.
pub open spec fn hop_fee_total(hops: Seq<HopView>) -> int
    decreases hops.len(),
{
    if hops.len() == 0 {
        0
    } else {
        hop_fee_total(hops.drop_last()) + hops.last().fee
    }
}

// ----------------------------------------------------------------------------------------
// The pool graph and the path search
// ----------------------------------------------------------------------------------------

/// The pools of `pools` that take `asset` as input, in order.
pub open spec fn pools_with_input(pools: Seq<PoolView>, asset: Seq<char>) -> Seq<PoolView>
    decreases pools.len(),
{
    if pools.len() == 0 {
        Seq::empty()
    } else {
        let rest = pools_with_input(pools.drop_last(), asset);
        if pools.last().asset_in == asset {
            rest.push(pools.last())
        } else {
            rest
        }
    }
}

/// The graph of a list of pools: each asset that some pool takes as input maps to those
/// pools, in list order.
pub open spec fn graph_spec(pools: Seq<PoolView>) -> GraphView {
    Map::new(
        |a: Seq<char>| exists|i: int| 0 <= i < pools.len() && #[trigger] pools[i].asset_in == a,
        |a: Seq<char>| pools_with_input(pools, a),
    )
}

/// Whether every pool that a graph lists under an asset takes that asset as input.
pub open spec fn graph_consistent(g: GraphView) -> bool {
    forall|a: Seq<char>, k: int|
        g.dom().contains(a) && 0 <= k < g[a].len() ==> (#[trigger] g[a][k]).asset_in == a
}

/// Whether `path` is a simple path of pools of the graph from `source`: one to `MAX_HOPS`
/// pools, the first taking `source`, each taking what the one before gives, each listed in
/// the graph under its input asset, and each after the first leading to an asset that no
/// earlier pool takes or gives.
pub open spec fn is_graph_path(g: GraphView, source: Seq<char>, path: Seq<PoolView>) -> bool {
    &&& 1 <= path.len() <= MAX_HOPS
    &&& path[0].asset_in == source
    &&& forall|k: int|
        0 <= k < path.len() - 1 ==> #[trigger] path[k].asset_out == path[k + 1].asset_in
    &&& forall|k: int|
        0 <= k < path.len() ==> outgoing(g, path[k].asset_in).contains(#[trigger] path[k])
    &&& forall|k: int|
        1 <= k < path.len() ==> !path_touches(path.take(k), (#[trigger] path[k]).asset_out)
}

/// Whether a list of paths is ordered by score, best first.
pub open spec fn sorted_by_score(paths: Seq<Seq<PoolView>>) -> bool {
    forall|i: int, j: int|
        0 <= i < j < paths.len() ==> score_value(#[trigger] paths[i]) >= score_value(
            #[trigger] paths[j],
        )
}

/// The pools leaving `asset` in a graph; none where the graph has no entry for it.
pub open spec fn outgoing(g: GraphView, asset: Seq<char>) -> Seq<PoolView> {
    if g.dom().contains(asset) {
        g[asset]
    } else {
        Seq::empty()
    }
}

/// Whether some pool of the path takes or gives `asset`.
pub open spec fn path_touches(path: Seq<PoolView>, asset: Seq<char>) -> bool {
    exists|k: int|
        0 <= k < path.len() && (#[trigger] path[k].asset_in == asset || path[k].asset_out == asset)
}

/// The extensions of `path` by each of `next`, in order, leaving out those that lead to an
/// asset the path already touches.
pub open spec fn extensions_of(path: Seq<PoolView>, next: Seq<PoolView>) -> Seq<Seq<PoolView>>
    decreases next.len(),
{
    if next.len() == 0 {
        Seq::empty()
    } else {
        let rest = extensions_of(path, next.drop_last());
        if path_touches(path, next.last().asset_out) {
            rest
        } else {
            rest.push(path.push(next.last()))
        }
    }
}

/// What the search queues after looking at `path`: nothing where the path reaches `dest`
/// or has `MAX_HOPS` pools, else its extensions by the pools leaving its last asset.
pub open spec fn extend_path(g: GraphView, dest: Seq<char>, path: Seq<PoolView>) -> Seq<
    Seq<PoolView>,
> {
    if path.last().asset_out == dest || path.len() >= MAX_HOPS {
        Seq::empty()
    } else {
        extensions_of(path, outgoing(g, path.last().asset_out))
    }
}

/// The one-pool paths that the search starts from: one for each pool leaving `source`.
pub open spec fn initial_queue(g: GraphView, source: Seq<char>) -> Seq<Seq<PoolView>> {
    outgoing(g, source).map_values(|p: PoolView| seq![p])
}

/// The search queue after the first `n` queued paths have been looked at.
pub open spec fn queue_after(g: GraphView, source: Seq<char>, dest: Seq<char>, n: nat) -> Seq<
    Seq<PoolView>,
>
    decreases n,
{
    if n == 0 {
        initial_queue(g, source)
    } else {
        let q = queue_after(g, source, dest, (n - 1) as nat);
        if n - 1 < q.len() {
            q + extend_path(g, dest, q[n - 1])
        } else {
            q
        }
    }
}

/// Whether the search stops before looking at queued path `n`: the queue is used up, or
/// `MAX_QUEUE_EXPANSIONS` paths have been looked at.
pub open spec fn search_stops_at(g: GraphView, source: Seq<char>, dest: Seq<char>, n: nat) -> bool {
    n >= MAX_QUEUE_EXPANSIONS || n >= queue_after(g, source, dest, n).len()
}

/// The number of queued paths that the search looks at, counting on from `n`.
pub open spec fn search_steps(g: GraphView, source: Seq<char>, dest: Seq<char>, n: nat) -> nat
    decreases MAX_QUEUE_EXPANSIONS - n,
{
    if search_stops_at(g, source, dest, n) {
        n
    } else {
        search_steps(g, source, dest, n + 1)
    }
}

/// What looking at a queued path adds to the results: a path that reaches `dest` goes in by
/// score where `amount` can be swapped along it.
pub open spec fn consider_path(
    results: Seq<Seq<PoolView>>,
    path: Seq<PoolView>,
    dest: Seq<char>,
    amount: int,
) -> Result<Seq<Seq<PoolView>>, ContractError> {
    if path.last().asset_out != dest {
        Ok(results)
    } else {
        match liquidity_spec(path, amount) {
            Err(e) => Err(e),
            Ok(false) => Ok(results),
            Ok(true) => insert_by_score_spec(results, path),
        }
    }
}

/// The results after looking at the first `n` paths of the queue `q`.
pub open spec fn collect(q: Seq<Seq<PoolView>>, n: nat, dest: Seq<char>, amount: int) -> Result<
    Seq<Seq<PoolView>>,
    ContractError,
>
    decreases n,
{
    if n == 0 {
        Ok(Seq::empty())
    } else {
        match collect(q, (n - 1) as nat, dest, amount) {
            Err(e) => Err(e),
            Ok(results) => consider_path(results, q[n - 1], dest, amount),
        }
    }
}

/// The paths that the search finds from `source` to `dest` for `amount`, best score first,
/// or why there are none.
///
/// The search is breadth first over simple paths of at most `MAX_HOPS` pools and looks at
/// no more than `MAX_QUEUE_EXPANSIONS` queued paths.
pub open spec fn find_paths_spec(g: GraphView, source: Seq<char>, dest: Seq<char>, amount: int) -> Result<
    Seq<Seq<PoolView>>,
    ContractError,
> {
    match assets_spec(source, dest, amount) {
        Err(e) => Err(e),
        Ok(_) => {
            if !g.dom().contains(source) {
                Err(ContractError::RouteNotFound)
            } else {
                let n = search_steps(g, source, dest, 0);
                match collect(queue_after(g, source, dest, n), n, dest, amount) {
                    Err(e) => Err(e),
                    Ok(results) => {
                        if results.len() == 0 {
                            Err(ContractError::RouteNotFound)
                        } else {
                            Ok(results)
                        }
                    },
                }
            }
        },
    }
}

// ----------------------------------------------------------------------------------------
// Pool lookup
// ----------------------------------------------------------------------------------------

/// The first pool of `pools`, from index `i` on, that swaps `source` for `dest`.
pub open spec fn first_pool(pools: Seq<PoolView>, source: Seq<char>, dest: Seq<char>, i: nat) -> Option<
    PoolView,
>
    decreases pools.len() - i,
{
    if i >= pools.len() {
        None
    } else if pools[i as int].asset_in == source && pools[i as int].asset_out == dest {
        Some(pools[i as int])
    } else {
        first_pool(pools, source, dest, i + 1)
    }
}

/// Whether some pool of `pools` swaps each hop's source asset for its destination asset.
pub open spec fn hops_have_pools(pools: Seq<PoolView>, hops: Seq<HopView>) -> bool {
    forall|i: int|
        0 <= i < hops.len() ==> (#[trigger] first_pool(
            pools,
            hops[i].source_asset,
            hops[i].dest_asset,
            0,
        )) is Some
}

/// For each hop, the first pool of `pools` that swaps its source asset for its destination
/// asset.
pub open spec fn pools_for_hops(pools: Seq<PoolView>, hops: Seq<HopView>) -> Seq<PoolView> {
    Seq::new(
        hops.len(),
        |i: int| first_pool(pools, hops[i].source_asset, hops[i].dest_asset, 0)->Some_0,
    )
}

// ----------------------------------------------------------------------------------------
// The market and the router's operations
// ----------------------------------------------------------------------------------------

/// A pool's view from its parts.
pub open spec fn pool_view(
    id: Seq<char>,
    asset_in: Seq<char>,
    asset_out: Seq<char>,
    reserve_in: i128,
    reserve_out: i128,
    fee_rate: i128,
) -> PoolView {
    PoolView { id, asset_in, asset_out, reserve_in, reserve_out, fee_rate }
}

/// The market that the router routes through: thirteen pools, in this order.
pub open spec fn mock_pools_spec() -> Seq<PoolView> {
    seq![
        pool_view("p_usdc_xlm"@, "USDC"@, "XLM"@, 1_000_000, 500_000, 30),
        pool_view("p_usdc_eurc"@, "USDC"@, "EURC"@, 1_000_000, 990_000, 20),
        pool_view("p_eurc_xlm"@, "EURC"@, "XLM"@, 900_000, 540_000, 25),
        pool_view("p_usdc_btc"@, "USDC"@, "BTC"@, 2_000_000, 60_000, 35),
        pool_view("p_btc_xlm"@, "BTC"@, "XLM"@, 50_000, 700_000, 30),
        pool_view("p_xlm_aqua"@, "XLM"@, "AQUA"@, 800_000, 1_600_000, 25),
        pool_view("p_aqua_usdc"@, "AQUA"@, "USDC"@, 1_500_000, 700_000, 30),
        pool_view("p_eurc_eth"@, "EURC"@, "ETH"@, 600_000, 300_000, 40),
        pool_view("p_eth_xlm"@, "ETH"@, "XLM"@, 250_000, 650_000, 35),
        pool_view("p_btc_eth"@, "BTC"@, "ETH"@, 80_000, 120_000, 30),
        pool_view("p_xlm_usdc"@, "XLM"@, "USDC"@, 450_000, 900_000, 30),
        pool_view("p_eurc_dead"@, "EURC"@, "DEAD"@, 300_000, 10_000, 50),
        pool_view("p_dead_sink"@, "DEAD"@, "SINK"@, 10_000, 1_000, 60),
    ]
}

/// The route that the router finds from `source` to `dest` for `amount`, charging
/// `router_fee` basis points, stamped with `timestamp`: the route along the best path that
/// the search finds in the market.
pub open spec fn find_route_spec(
    source: Seq<char>,
    dest: Seq<char>,
    amount: int,
    router_fee: int,
    timestamp: u64,
) -> Result<
    RouteView,
    ContractError,
> {
    match assets_spec(source, dest, amount) {
        Err(e) => Err(e),
        Ok(_) => {
            if !fee_rate_valid(router_fee) {
                Err(ContractError::InvalidParams)
            } else {
                match find_paths_spec(graph_spec(mock_pools_spec()), source, dest, amount) {
                    Err(e) => Err(e),
                    Ok(paths) => route_spec(source, dest, amount, paths[0], router_fee, timestamp),
                }
            }
        },
    }
}

/// The route that simulating `route` with a router fee of `router_fee` basis points gives,
/// stamped with `timestamp`: the route is checked, each hop is matched to the first pool of
/// the market that swaps its assets, and the route is built anew through those pools; where
/// the new estimate falls below the route's `min_received`, the answer is
/// `SlippageExceeded`.
pub open spec fn simulate_spec(route: RouteView, router_fee: int, timestamp: u64) -> Result<
    RouteView,
    ContractError,
> {
    match validate_route_spec(route) {
        Err(e) => Err(e),
        Ok(_) => {
            if !fee_rate_valid(router_fee) {
                Err(ContractError::InvalidParams)
            } else if !hops_have_pools(mock_pools_spec(), route.path) {
                Err(ContractError::RouteNotFound)
            } else {
                match route_spec(
                    route.source_asset,
                    route.dest_asset,
                    route.amount as int,
                    pools_for_hops(mock_pools_spec(), route.path),
                    router_fee,
                    timestamp,
                ) {
                    Err(e) => Err(e),
                    Ok(rebuilt) => {
                        if rebuilt.estimated_output < route.min_received {
                            Err(ContractError::SlippageExceeded)
                        } else {
                            Ok(rebuilt)
                        }
                    },
                }
            }
        },
    }
}

} // verus!
