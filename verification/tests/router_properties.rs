use soroban_sdk::testutils::Address as _;
use soroban_sdk::testutils::Ledger as _;
use soroban_sdk::{Address, Env};
use spr_contracts::config::{validate_fee, RouterConfig, DEFAULT_FEE};
use spr_contracts::errors::ContractError;
use spr_contracts::liquidity::LiquidityManager;
use spr_contracts::path::PathFinder;
use spr_contracts::router::Router;
use spr_contracts::types::{Hop, Pool, Route};
use spr_contracts::SprRouter;

fn s(value: &str) -> String {
    value.to_string()
}

fn pool(id: &str, asset_in: &str, asset_out: &str, reserve_in: i128, reserve_out: i128, fee_rate: i128) -> Pool {
    Pool {
        id: s(id),
        asset_in: s(asset_in),
        asset_out: s(asset_out),
        reserve_in,
        reserve_out,
        fee_rate,
    }
}

fn hop(source: &str, dest: &str, input_amount: i128, output_amount: i128, fee: i128, rate: i128) -> Hop {
    Hop {
        source_asset: s(source),
        dest_asset: s(dest),
        input_amount,
        output_amount,
        fee,
        rate,
    }
}

fn route(source: &str, dest: &str, amount: i128, path: Vec<Hop>, estimated_output: i128, min_received: i128) -> Route {
    Route {
        source_asset: s(source),
        dest_asset: s(dest),
        amount,
        path,
        total_fee: 0,
        estimated_output,
        min_received,
        timestamp: 0,
    }
}

#[test]
fn error_codes_follow_declaration_order() {
    assert_eq!(ContractError::RouteNotFound.code(), 1);
    assert_eq!(ContractError::InvalidParams.code(), 2);
    assert_eq!(ContractError::InvalidRoute.code(), 3);
    assert_eq!(ContractError::InsufficientLiquidity.code(), 4);
    assert_eq!(ContractError::SlippageExceeded.code(), 5);
    assert_eq!(ContractError::Unauthorized.code(), 6);
    assert_eq!(ContractError::ArithmeticOverflow.code(), 7);
    assert_eq!(ContractError::RoutingError.code(), 8);
}

#[test]
fn swap_rejects_bad_inputs() {
    assert_eq!(Router::calculate_swap_output(1_000, 0, 500_000, 25), Err(ContractError::InvalidParams));
    assert_eq!(Router::calculate_swap_output(1_000, 1_000_000, -1, 25), Err(ContractError::InvalidParams));
    assert_eq!(Router::calculate_swap_output(1_000, 1_000_000, 500_000, 10_000), Err(ContractError::InvalidParams));
    assert_eq!(Router::calculate_swap_output(1_000, 1_000_000, 500_000, -1), Err(ContractError::InvalidParams));
    // 1 * 9_999 / 10_000 rounds down to nothing.
    assert_eq!(Router::calculate_swap_output(1, 1_000_000, 500_000, 1), Err(ContractError::InvalidParams));
    // 10 * 1 / (1_000_000 + 10) rounds down to nothing.
    assert_eq!(Router::calculate_swap_output(10, 1_000_000, 1, 0), Err(ContractError::InsufficientLiquidity));
}

#[test]
fn swap_output_stays_below_reserve() {
    assert_eq!(Router::calculate_swap_output(1_000_000_000_000, 1_000, 500, 0), Ok(499));
}

#[test]
fn higher_fee_gives_no_more_output() {
    let low = Router::calculate_swap_output(1_000, 1_000_000, 500_000, 0).unwrap();
    let mid = Router::calculate_swap_output(1_000, 1_000_000, 500_000, 25).unwrap();
    let high = Router::calculate_swap_output(1_000, 1_000_000, 500_000, 5_000).unwrap();
    assert!(high <= mid && mid <= low);
    assert_eq!(high, 249);
}

#[test]
fn fee_is_rounded_toward_zero() {
    assert_eq!(Router::calculate_fee(1_000, 30), Ok(3));
    assert_eq!(Router::calculate_fee(-1_001, 10), Ok(-1));
    assert_eq!(Router::calculate_fee(1_000, 10_001), Err(ContractError::InvalidParams));
    assert_eq!(Router::calculate_fee(i128::MAX, 2), Err(ContractError::ArithmeticOverflow));
    assert_eq!(Router::validate_fee(10_000), Ok(()));
    assert_eq!(Router::validate_fee(-1), Err(ContractError::InvalidParams));
}

#[test]
fn score_of_paths() {
    assert_eq!(Router::score_route(&vec![]), Err(ContractError::InvalidRoute));
    assert_eq!(Router::score_route(&vec![pool("a", "A", "B", 1, 1, 30)]), Ok(99_700));
    assert_eq!(
        Router::score_route(&vec![pool("a", "A", "B", 1, 1, 20), pool("b", "B", "C", 1, 1, 25)]),
        Ok(49_887)
    );
    assert_eq!(Router::score_route(&vec![pool("a", "A", "B", 1, 1, -10_000)]), Err(ContractError::InvalidRoute));
    assert_eq!(
        Router::score_route(&vec![pool("a", "A", "B", 1, 1, i128::MAX), pool("b", "B", "C", 1, 1, 1)]),
        Err(ContractError::ArithmeticOverflow)
    );
}

#[test]
fn liquidity_along_paths() {
    let usdc_xlm = vec![pool("p", "USDC", "XLM", 1_000_000, 500_000, 30)];
    assert_eq!(Router::path_has_liquidity(&usdc_xlm, 1_000), Ok(true));
    assert_eq!(Router::path_has_liquidity(&usdc_xlm, 2_000_000), Ok(false));
    assert_eq!(Router::path_has_liquidity(&usdc_xlm, 0), Err(ContractError::InvalidParams));
}

#[test]
fn cycle_and_lookup_helpers() {
    let path = vec![pool("p1", "A", "B", 1, 1, 1), pool("p2", "B", "C", 1, 1, 1)];
    assert!(Router::would_create_cycle(&path, &s("A")));
    assert!(Router::would_create_cycle(&path, &s("C")));
    assert!(!Router::would_create_cycle(&path, &s("D")));
    assert_eq!(Router::last_pool(&path).unwrap().id, s("p2"));
    assert_eq!(Router::last_pool(&vec![]), Err(ContractError::InvalidRoute));
    let pools = Router::get_mock_pools();
    assert_eq!(Router::find_pool(&pools, &s("EURC"), &s("XLM")).unwrap().id, s("p_eurc_xlm"));
    assert_eq!(Router::find_pool(&pools, &s("XLM"), &s("BTC")), Err(ContractError::RouteNotFound));
}

#[test]
fn graph_lists_pools_by_input_asset() {
    let pools = Router::get_mock_pools();
    assert_eq!(pools.len(), 13);
    let graph = Router::build_pool_graph(&pools);
    let usdc = graph.get(&s("USDC")).unwrap();
    let ids: Vec<String> = usdc.iter().map(|p| p.id.clone()).collect();
    assert_eq!(ids, vec![s("p_usdc_xlm"), s("p_usdc_eurc"), s("p_usdc_btc")]);
    assert!(graph.get(&s("SINK")).is_none());
}

#[test]
fn found_paths_are_sorted_simple_paths() {
    let pools = Router::get_mock_pools();
    let graph = Router::build_pool_graph(&pools);
    let paths = Router::find_paths(&graph, &s("USDC"), &s("ETH"), 1_000).unwrap();
    let mut previous_score = i128::MAX;
    for path in paths.iter() {
        assert!(path.len() >= 1 && path.len() <= 5);
        assert_eq!(path[0].asset_in, s("USDC"));
        assert_eq!(path[path.len() - 1].asset_out, s("ETH"));
        for k in 1..path.len() {
            assert_eq!(path[k - 1].asset_out, path[k].asset_in);
        }
        let score = Router::score_route(path).unwrap();
        assert!(score <= previous_score);
        previous_score = score;
        assert_eq!(Router::path_has_liquidity(path, 1_000), Ok(true));
    }
}

#[test]
fn find_paths_rejects_bad_requests() {
    let pools = Router::get_mock_pools();
    let graph = Router::build_pool_graph(&pools);
    assert_eq!(Router::find_paths(&graph, &s("USDC"), &s("XLM"), 0), Err(ContractError::InvalidParams));
    assert_eq!(Router::find_paths(&graph, &s("USDC"), &s("USDC"), 10), Err(ContractError::InvalidParams));
    assert_eq!(Router::find_paths(&graph, &s("GOLD"), &s("USDC"), 10), Err(ContractError::RouteNotFound));
}

#[test]
fn found_route_has_exact_amounts() {
    let env = Env::default();
    env.ledger().with_mut(|info| info.timestamp = 12_345);
    let found = Router::find_route(s("USDC"), s("XLM"), 1_000, 10, env.ledger().timestamp()).unwrap();
    assert_eq!(found.path, vec![hop("USDC", "XLM", 1_000, 498, 3, 4_980)]);
    assert_eq!(found.estimated_output, 498);
    assert_eq!(found.min_received, 498);
    assert_eq!(found.total_fee, 3);
    assert_eq!(found.timestamp, 12_345);
    assert_eq!(Router::validate_route(&found), Ok(()));
}

#[test]
fn find_route_refusals() {
    let env = Env::default();
    assert_eq!(Router::find_route(s("USDC"), s("XLM"), 0, 10, 0), Err(ContractError::InvalidParams));
    assert_eq!(Router::find_route(s("USDC"), s("XLM"), 1_000, 10_001, 0), Err(ContractError::InvalidParams));
    assert_eq!(Router::find_route(s("SINK"), s("USDC"), 1_000, 10, 0), Err(ContractError::RouteNotFound));
}

#[test]
fn validation_errors() {
    let one_hop = || vec![hop("USDC", "XLM", 1_000, 498, 3, 4_980)];
    assert_eq!(Router::validate_route(&route("USDC", "XLM", 0, one_hop(), 498, 498)), Err(ContractError::InvalidParams));
    assert_eq!(Router::validate_route(&route("USDC", "USDC", 1_000, one_hop(), 498, 498)), Err(ContractError::InvalidParams));
    assert_eq!(Router::validate_route(&route("USDC", "XLM", 1_000, one_hop(), 497, 498)), Err(ContractError::SlippageExceeded));
    assert_eq!(Router::validate_route(&route("USDC", "XLM", 1_000, one_hop(), 498, 498)), Ok(()));
    let revisiting = vec![
        hop("USDC", "EURC", 1_000, 990, 2, 9_900),
        hop("EURC", "USDC", 990, 980, 2, 9_898),
        hop("USDC", "XLM", 980, 480, 2, 4_897),
    ];
    assert_eq!(Router::validate_route(&route("USDC", "XLM", 1_000, revisiting, 480, 480)), Err(ContractError::InvalidRoute));
    assert!(Router::route_revisits_asset(&route("USDC", "XLM", 1_000, one_hop(), 498, 498), 1, &s("XLM")));
    assert!(!Router::route_revisits_asset(&route("USDC", "XLM", 1_000, one_hop(), 498, 498), 0, &s("XLM")));
}

#[test]
fn simulation_reproduces_found_route() {
    let env = Env::default();
    let found = Router::find_route(s("USDC"), s("ETH"), 1_000, 10, env.ledger().timestamp()).unwrap();
    let mut stamped = found.clone();
    stamped.timestamp = 99;
    let simulated = Router::simulate_route(&stamped, 10, 99).unwrap();
    assert_eq!(simulated.path, found.path);
    assert_eq!(simulated.estimated_output, found.estimated_output);
    assert_eq!(simulated.total_fee, found.total_fee);
    assert_eq!(simulated.min_received, found.min_received);
    assert_eq!(simulated.timestamp, 99);
}

#[test]
fn simulation_rebuilds_two_hop_route_exactly() {
    let sent = Route {
        source_asset: s("USDC"),
        dest_asset: s("XLM"),
        amount: 1_000,
        path: vec![hop("USDC", "EURC", 1_000, 980, 2, 9_800), hop("EURC", "XLM", 980, 580, 2, 5_918)],
        total_fee: 4,
        estimated_output: 580,
        min_received: 580,
        timestamp: 7,
    };
    let rebuilt = Router::simulate_route(&sent, 10, 1_234).unwrap();
    assert_eq!(
        rebuilt,
        Route {
            source_asset: s("USDC"),
            dest_asset: s("XLM"),
            amount: 1_000,
            path: vec![hop("USDC", "EURC", 1_000, 987, 2, 9_870), hop("EURC", "XLM", 987, 589, 2, 5_967)],
            total_fee: 4,
            estimated_output: 589,
            min_received: 589,
            timestamp: 1_234,
        }
    );
}

#[test]
fn simulation_and_execution_enforce_minimum_output() {
    let env = Env::default();
    let mut config: RouterConfig<Address> = RouterConfig::empty();
    SprRouter::initialize(&mut config, Address::generate(&env), 10).unwrap();
    let greedy = route("USDC", "XLM", 1_000, vec![hop("USDC", "XLM", 1_000, 10_000, 0, 1)], 10_000, 10_000);
    assert_eq!(Router::simulate_route(&greedy, 10, 0), Err(ContractError::SlippageExceeded));
    assert_eq!(SprRouter::execute_route(&config, greedy.clone(), 0), Err(ContractError::SlippageExceeded));
    assert_eq!(SprRouter::simulate_route(&config, greedy, 0), Err(ContractError::SlippageExceeded));
    let modest = route("USDC", "XLM", 1_000, vec![hop("USDC", "XLM", 1_000, 498, 3, 4_980)], 498, 498);
    assert_eq!(SprRouter::execute_route(&config, modest, 0), Ok(498));
}

#[test]
fn simulation_refusals() {
    let env = Env::default();
    let no_pool = route("XLM", "BTC", 1_000, vec![hop("XLM", "BTC", 1_000, 10, 0, 100)], 10, 10);
    assert_eq!(Router::simulate_route(&no_pool, 10, 0), Err(ContractError::RouteNotFound));
    let found = Router::find_route(s("USDC"), s("XLM"), 1_000, 10, env.ledger().timestamp()).unwrap();
    assert_eq!(Router::simulate_route(&found, 10_001, 0), Err(ContractError::InvalidParams));
}

#[test]
fn configuration_laws() {
    let env = Env::default();
    let mut config: RouterConfig<Address> = RouterConfig::empty();
    assert_eq!(SprRouter::get_fee(&config), DEFAULT_FEE);
    assert_eq!(SprRouter::set_fee(&mut config, 10_001), Err(ContractError::InvalidParams));
    assert_eq!(SprRouter::set_fee(&mut config, 20), Err(ContractError::Unauthorized));
    assert_eq!(SprRouter::initialize(&mut config, Address::generate(&env), 10_001), Err(ContractError::InvalidParams));
    assert_eq!(config, RouterConfig::empty());
    let admin = Address::generate(&env);
    assert_eq!(SprRouter::initialize(&mut config, admin.clone(), 30), Ok(()));
    assert_eq!(SprRouter::get_fee(&config), 30);
    assert_eq!(config.paused, Some(false));
    assert_eq!(SprRouter::initialize(&mut config, Address::generate(&env), 40), Err(ContractError::InvalidParams));
    assert_eq!(config.admin, Some(admin));
    assert_eq!(SprRouter::set_fee(&mut config, -5), Err(ContractError::InvalidParams));
    assert_eq!(SprRouter::get_fee(&config), 30);
    assert_eq!(SprRouter::set_fee(&mut config, 0), Ok(()));
    assert_eq!(SprRouter::get_fee(&config), 0);
    assert_eq!(validate_fee(10_000), Ok(()));
    assert_eq!(validate_fee(10_001), Err(ContractError::InvalidParams));
}

#[test]
fn liquidity_manager_arithmetic() {
    assert_eq!(LiquidityManager::calculate_swap_output(1_000, 1_000_000, 500_000, 25), Ok(498));
    assert_eq!(LiquidityManager::calculate_swap_output(0, 1_000_000, 500_000, 25), Err(ContractError::InvalidParams));
    assert_eq!(LiquidityManager::calculate_swap_output(1_000, 1_000_000, 500_000, 20_000), Err(ContractError::InvalidParams));
    assert_eq!(LiquidityManager::calculate_swap_output(1_000, 1_000_000, 500_000, -1), Err(ContractError::InvalidParams));
    assert_eq!(LiquidityManager::calculate_swap_output(1_000, 1_000_000, 500_000, 10_000), Ok(0));
    assert_eq!(
        LiquidityManager::calculate_swap_output(i128::MAX, i128::MAX, i128::MAX, 1),
        Err(ContractError::ArithmeticOverflow)
    );
    assert_eq!(LiquidityManager::discover_pools(), Ok(vec![]));
    assert_eq!(LiquidityManager::get_liquidity(s("USDC"), s("XLM")), Ok(1_000_000));
    let p = pool("p", "A", "B", 100, 5, 1);
    assert!(LiquidityManager::has_sufficient_liquidity(&p, 50));
    assert!(!LiquidityManager::has_sufficient_liquidity(&p, 101));
}

#[test]
fn path_finder_checks() {
    assert_eq!(PathFinder::build_path(s("A"), s("B")), Ok(vec![]));
    assert_eq!(PathFinder::validate_path(&vec![]), Err(ContractError::RoutingError));
    let one = vec![hop("A", "B", 1, 1, 0, 1)];
    assert_eq!(PathFinder::validate_path(&one), Ok(()));
    assert_eq!(PathFinder::calculate_efficiency(&vec![]), 0);
    assert_eq!(PathFinder::calculate_efficiency(&one), 100);
}
