use soroban_sdk::testutils::Address as _;
use soroban_sdk::testutils::Ledger as _;
use soroban_sdk::{Address, Env};
use spr_contracts::config::RouterConfig;
use spr_contracts::errors::ContractError;
use spr_contracts::router::Router;
use spr_contracts::types::{Hop, Pool, Route};
use spr_contracts::SprRouter;

fn sym(value: &str) -> String {
    value.to_string()
}

fn pool(
    id: &str,
    asset_in: &str,
    asset_out: &str,
    reserve_in: i128,
    reserve_out: i128,
    fee_rate: i128,
) -> Pool {
    Pool {
        id: sym(id),
        asset_in: sym(asset_in),
        asset_out: sym(asset_out),
        reserve_in,
        reserve_out,
        fee_rate,
    }
}

#[test]
fn amm_calculates_exact_output() {
    let output = Router::calculate_swap_output(1_000, 1_000_000, 500_000, 25);
    assert_eq!(output, Ok(498));
}

#[test]
fn amm_fee_reduces_output() {
    let without_fee = Router::calculate_swap_output(1_000, 1_000_000, 500_000, 0);
    let with_fee = Router::calculate_swap_output(1_000, 1_000_000, 500_000, 25);

    assert_eq!(without_fee, Ok(499));
    assert_eq!(with_fee, Ok(498));
}

#[test]
fn amm_rejects_zero_input() {
    let output = Router::calculate_swap_output(0, 1_000_000, 500_000, 25);
    assert_eq!(output, Err(ContractError::InvalidParams));
}

#[test]
fn amm_reports_overflow() {
    let output = Router::calculate_swap_output(i128::MAX, i128::MAX, i128::MAX, 1);
    assert_eq!(output, Err(ContractError::ArithmeticOverflow));
}

#[test]
fn bfs_finds_single_hop_first() {
    let pools = Router::get_mock_pools();
    let graph = Router::build_pool_graph(&pools);
    let paths = Router::find_paths(&graph, &sym("USDC"), &sym("XLM"), 1_000);

    match paths {
        Ok(paths) => {
            assert!(paths.len() > 0);
            match paths.get(0) {
                Some(path) => {
                    assert_eq!(path.len(), 1);
                    match path.get(0) {
                        Some(first) => assert_eq!(first.asset_out, sym("XLM")),
                        None => assert!(false),
                    }
                }
                None => assert!(false),
            }
        }
        Err(_) => assert!(false),
    }
}

#[test]
fn bfs_finds_multi_hop_path() {
    let pools = Router::get_mock_pools();
    let graph = Router::build_pool_graph(&pools);
    let paths = Router::find_paths(&graph, &sym("USDC"), &sym("ETH"), 1_000);

    match paths {
        Ok(paths) => {
            assert!(paths.len() > 0);
            let mut found_multi_hop = false;
            let mut i = 0;
            while i < paths.len() {
                if let Some(path) = paths.get(i) {
                    if path.len() > 1 {
                        found_multi_hop = true;
                    }
                }
                i += 1;
            }
            assert!(found_multi_hop);
        }
        Err(_) => assert!(false),
    }
}

#[test]
fn bfs_returns_no_route() {
    let pools = Router::get_mock_pools();
    let graph = Router::build_pool_graph(&pools);
    let paths = Router::find_paths(&graph, &sym("SINK"), &sym("USDC"), 1_000);

    assert_eq!(paths, Err(ContractError::RouteNotFound));
}

#[test]
fn bfs_enforces_max_hops() {
    let mut pools = Vec::new();
    pools.push(pool("p1", "A", "B", 1_000, 1_000, 1));
    pools.push(pool("p2", "B", "C", 1_000, 1_000, 1));
    pools.push(pool("p3", "C", "D", 1_000, 1_000, 1));
    pools.push(pool("p4", "D", "E", 1_000, 1_000, 1));
    pools.push(pool("p5", "E", "F", 1_000, 1_000, 1));
    pools.push(pool("p6", "F", "G", 1_000, 1_000, 1));

    let graph = Router::build_pool_graph(&pools);
    let paths = Router::find_paths(&graph, &sym("A"), &sym("G"), 10);

    assert_eq!(paths, Err(ContractError::RouteNotFound));
}

#[test]
fn bfs_prevents_cycles() {
    let mut pools = Vec::new();
    pools.push(pool("p1", "A", "B", 1_000, 1_000, 1));
    pools.push(pool("p2", "B", "A", 1_000, 1_000, 1));
    pools.push(pool("p3", "B", "C", 1_000, 1_000, 1));

    let graph = Router::build_pool_graph(&pools);
    let paths = Router::find_paths(&graph, &sym("A"), &sym("C"), 10);

    match paths {
        Ok(paths) => match paths.get(0) {
            Some(path) => assert_eq!(path.len(), 2),
            None => assert!(false),
        },
        Err(_) => assert!(false),
    }
}

#[test]
fn validation_rejects_empty_path() {
    let route = Route {
        source_asset: sym("USDC"),
        dest_asset: sym("XLM"),
        amount: 1_000,
        path: Vec::new(),
        total_fee: 0,
        estimated_output: 0,
        min_received: 0,
        timestamp: 0,
    };

    assert_eq!(
        Router::validate_route(&route),
        Err(ContractError::InvalidRoute)
    );
}

#[test]
fn validation_rejects_malformed_path() {
    let mut path = Vec::new();
    path.push(Hop {
        source_asset: sym("EURC"),
        dest_asset: sym("XLM"),
        input_amount: 1_000,
        output_amount: 900,
        fee: 1,
        rate: 9_000,
    });
    let route = Route {
        source_asset: sym("USDC"),
        dest_asset: sym("XLM"),
        amount: 1_000,
        path,
        total_fee: 1,
        estimated_output: 900,
        min_received: 900,
        timestamp: 0,
    };

    assert_eq!(
        Router::validate_route(&route),
        Err(ContractError::InvalidRoute)
    );
}

#[test]
fn simulation_rejects_insufficient_liquidity() {
    let env = Env::default();
    let mut path = Vec::new();
    path.push(Hop {
        source_asset: sym("USDC"),
        dest_asset: sym("XLM"),
        input_amount: 2_000_000,
        output_amount: 1,
        fee: 0,
        rate: 1,
    });
    let route = Route {
        source_asset: sym("USDC"),
        dest_asset: sym("XLM"),
        amount: 2_000_000,
        path,
        total_fee: 0,
        estimated_output: 1,
        min_received: 1,
        timestamp: 0,
    };

    assert_eq!(
        Router::simulate_route(&route, 10, env.ledger().timestamp()),
        Err(ContractError::InsufficientLiquidity)
    );
}

#[test]
fn contract_find_route_success() {
    let env = Env::default();
    let mut config: RouterConfig<Address> = RouterConfig::empty();
    let admin = Address::generate(&env);

    SprRouter::initialize(&mut config, admin, 10).unwrap();
    let route = SprRouter::find_route(&config, sym("USDC"), sym("XLM"), 1_000, env.ledger().timestamp()).unwrap();

    assert_eq!(route.source_asset, sym("USDC"));
    assert_eq!(route.dest_asset, sym("XLM"));
    assert_eq!(route.path.len(), 1);
    assert!(route.estimated_output > 0);
}

#[test]
fn contract_find_route_failure() {
    let env = Env::default();
    let config: RouterConfig<Address> = RouterConfig::empty();
    let route = SprRouter::find_route(&config, sym("USDC"), sym("USDC"), 1_000, env.ledger().timestamp());

    assert!(route.is_err());
}

#[test]
fn contract_simulate_route_is_deterministic() {
    let env = Env::default();
    let mut config: RouterConfig<Address> = RouterConfig::empty();
    let admin = Address::generate(&env);
    SprRouter::initialize(&mut config, admin, 10).unwrap();

    let route = SprRouter::find_route(&config, sym("USDC"), sym("XLM"), 1_000, env.ledger().timestamp()).unwrap();
    let first = SprRouter::simulate_route(&config, route.clone(), env.ledger().timestamp());
    let second = SprRouter::simulate_route(&config, route.clone(), env.ledger().timestamp());

    assert_eq!(first, second);
}

#[test]
fn contract_execute_route_is_mocked_success() {
    let env = Env::default();
    let mut config: RouterConfig<Address> = RouterConfig::empty();
    let admin = Address::generate(&env);
    SprRouter::initialize(&mut config, admin, 10).unwrap();

    let route = SprRouter::find_route(&config, sym("USDC"), sym("XLM"), 1_000, env.ledger().timestamp()).unwrap();
    let output = SprRouter::execute_route(&config, route.clone(), env.ledger().timestamp()).unwrap();

    assert_eq!(output, route.estimated_output);
}

#[test]
fn contract_admin_fee_updates() {
    let env = Env::default();
    let mut config: RouterConfig<Address> = RouterConfig::empty();
    let admin = Address::generate(&env);

    SprRouter::initialize(&mut config, admin, 10).unwrap();
    assert_eq!(SprRouter::get_fee(&config), 10);
    SprRouter::set_fee(&mut config, 25).unwrap();
    assert_eq!(SprRouter::get_fee(&config), 25);
}

#[test]
fn contract_unauthorized_fee_update_rejected() {
    let mut config: RouterConfig<Address> = RouterConfig::empty();
    let update = SprRouter::set_fee(&mut config, 25);

    assert!(update.is_err());
}
