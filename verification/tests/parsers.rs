use pool_data_rs::lens::Tick;
use pool_data_rs::parsers::algebra_integral::{
    algebra_integral_pool_data, AlgebraIntegralPoolReserves, AlgebraIntegralPoolState,
};
use pool_data_rs::parsers::erc20::{erc20_metadata, ERC20Metadata};
use pool_data_rs::parsers::uniswap_v2::uniswap_v2_pool_data;
use pool_data_rs::parsers::uniswap_v3::{uniswap_v3_pool_data, UniswapV3PoolState};
use pool_data_rs::parsers::uniswap_v4::{
    pool_key_prefix, position_manager, state_view, uniswap_v4_pool_data, PoolKey, ProcessedTick,
};
use pool_data_rs::parsers::CallError;
use pool_data_rs::primitives::{Address, B256};
use pool_data_rs::types::{PoolData, Protocol};

fn addr(b: u8) -> Address {
    Address { bytes: [b; 20] }
}

#[test]
fn v2_pool_data_from_its_calls() {
    let data = uniswap_v2_pool_data(addr(1), Some(addr(2)), Some(addr(3)), Some(addr(4)), Some((5, 6, 7))).unwrap();
    assert_eq!(data.pool_address.bytes, [1; 20]);
    assert_eq!(data.protocol, Protocol::UniswapV2);
    assert_eq!(data.creator_contract.unwrap().bytes, [2; 20]);
    assert_eq!(data.tokens.iter().map(|a| a.bytes).collect::<Vec<_>>(), vec![[3; 20], [4; 20]]);
    assert_eq!(data.fee, 30);
    assert_eq!(data.protocol(), Protocol::UniswapV2);
    assert_eq!(data.fee(), 30);
    assert_eq!(data.creator_contract().unwrap().bytes, [2; 20]);
    assert_eq!(data.tokens().iter().map(|a| a.bytes).collect::<Vec<_>>(), vec![[3; 20], [4; 20]]);
}

#[test]
fn v2_pool_data_reports_the_first_failed_call() {
    let r = |f, t0, t1, res| uniswap_v2_pool_data(addr(1), f, t0, t1, res).err();
    assert_eq!(r(None, None, None, None), Some(CallError::Factory));
    assert_eq!(r(Some(addr(2)), None, None, None), Some(CallError::Token0));
    assert_eq!(r(Some(addr(2)), Some(addr(3)), None, None), Some(CallError::Token1));
    assert_eq!(r(Some(addr(2)), Some(addr(3)), Some(addr(4)), None), Some(CallError::GetReserves));
}

#[test]
fn call_error_messages() {
    assert_eq!(CallError::Factory.message(), "Failed to to fetch and decode factory call");
    assert_eq!(CallError::GetReserves.message(), "Failed to to fetch and decode get reserves call");
    assert_eq!(CallError::Decimals.message(), "Failed to to fetch and decode decimals call");
    assert_eq!(CallError::Multicall.message(), "Failed to get multicall result");
}

fn v3_state(tick_spacing: i32) -> UniswapV3PoolState {
    UniswapV3PoolState {
        factory: addr(9),
        token0: addr(3),
        token1: addr(4),
        fee: 3000,
        tick_spacing,
        max_liquidity_per_tick: 11505743598341114571880798222544994,
        liquidity: 123,
        sqrt_price_x96: 79228162514264337593543950336,
        tick: -5,
    }
}

#[test]
fn v3_pool_data_from_its_calls() {
    let ticks = vec![Tick { index: -60, liquidity_gross: 1, liquidity_net: 1 }];
    let data = uniswap_v3_pool_data(addr(1), ticks.clone(), Some(v3_state(60))).unwrap();
    assert_eq!(data.protocol, Protocol::UniswapV3);
    assert_eq!(data.creator_contract.unwrap().bytes, [9; 20]);
    assert_eq!(data.fee, 3000);
    assert_eq!(data.tick, -5);
    assert_eq!(data.tick_spacing, 60);
    assert_eq!(data.sqrt_price_x96, 79228162514264337593543950336);
    assert_eq!(data.liquidity, 123);
    assert_eq!(data.max_liquidity_per_tick, 11505743598341114571880798222544994);
    assert_eq!(data.ticks, ticks);
    let negative = uniswap_v3_pool_data(addr(1), vec![], Some(v3_state(-10))).unwrap();
    assert_eq!(negative.tick_spacing, 10);
    assert_eq!(uniswap_v3_pool_data(addr(1), vec![], None).err(), Some(CallError::Multicall));
}

#[test]
fn algebra_pool_data_from_its_calls() {
    let state = AlgebraIntegralPoolState {
        factory: addr(9),
        token0: addr(3),
        token1: addr(4),
        fee: 500,
        tick_spacing: -60,
        max_liquidity_per_tick: 77,
        reserve0: 1000,
        reserve1: 2000,
        liquidity: 88,
        price: 4295128740,
        tick: 887271,
        last_fee: 100,
        plugin: addr(7),
    };
    let data = algebra_integral_pool_data(addr(1), Some(state)).unwrap();
    assert_eq!(data.protocol, Protocol::AlgebraIntegral);
    assert_eq!(data.fee, 500);
    assert_eq!(data.tick_spacing, 60);
    assert_eq!(data.tick, 887271);
    assert_eq!(data.sqrt_price_x96, 4295128740);
    assert_eq!(data.reserves, AlgebraIntegralPoolReserves { reserve0: 1000, reserve1: 2000 });
    assert_eq!(data.last_fee, 100);
    assert_eq!(data.plugin.bytes, [7; 20]);
    assert_eq!(algebra_integral_pool_data(addr(1), None).err(), Some(CallError::Multicall));
}

#[test]
fn v4_pool_data_from_its_key_and_state() {
    let mut id = [0u8; 32];
    for (i, b) in id.iter_mut().enumerate() {
        *b = i as u8;
    }
    let pool_id = B256 { bytes: id };
    assert_eq!(pool_key_prefix(&pool_id).to_vec(), id[..25].to_vec());
    let key = PoolKey { currency0: addr(3), currency1: addr(4), fee: 500, tick_spacing: -10 };
    let ticks = vec![ProcessedTick { index: 10, liquidity_gross: 2, liquidity_net: -2 }];
    let data = uniswap_v4_pool_data(pool_id, key, 1u128 << 96, 55, -3, ticks.clone());
    assert_eq!(data.pool_id.bytes, id);
    assert_eq!(data.protocol, Protocol::UniswapV4);
    assert_eq!(data.creator_contract.unwrap().bytes, position_manager().bytes);
    assert_eq!(data.tokens.iter().map(|a| a.bytes).collect::<Vec<_>>(), vec![[3; 20], [4; 20]]);
    assert_eq!(data.fee, 500);
    assert_eq!(data.sqrt_price_x96, 1u128 << 96);
    assert_eq!(data.liquidity, 55);
    assert_eq!(data.tick, -3);
    assert_eq!(data.tick_spacing, 10);
    assert_eq!(data.max_liquidity_per_tick, 0);
    assert_eq!(data.ticks, ticks);
}

#[test]
fn v4_contract_addresses() {
    let pool_id_of = |address| {
        pool_data_rs::parsers::uniswap_v2::UniswapV2PoolData {
            pool_address: address,
            protocol: Protocol::UniswapV2,
            creator_contract: None,
            tokens: vec![],
            fee: 30,
        }
        .pool_id()
    };
    assert_eq!(pool_id_of(state_view()), "0x7fFE42C4a5DEeA5b0feC41C94C136Cf115597227");
    assert_eq!(pool_id_of(position_manager()), "0xbD216513d74C8cf14cf4747E6AaA6420FF64ee9e");
}

#[test]
fn erc20_metadata_from_its_calls() {
    let m = erc20_metadata(Some("Wrapped Ether".to_string()), Some("WETH".to_string()), Some(18)).unwrap();
    assert_eq!(m.to_string(), "ERC20Metadata { name: Wrapped Ether, symbol: WETH, decimals: 18 }");
    assert_eq!(erc20_metadata(None, None, None).err().map(|e| e.message()), Some(CallError::Name.message()));
    assert!(matches!(erc20_metadata(Some(String::new()), None, Some(1)), Err(CallError::Symbol)));
    assert!(matches!(erc20_metadata(Some(String::new()), Some(String::new()), None), Err(CallError::Decimals)));
}

#[test]
fn erc20_metadata_text() {
    for (decimals, text) in [(0u8, "0"), (6, "6"), (10, "10"), (99, "99"), (100, "100"), (255, "255")] {
        let m = ERC20Metadata { name: "A".to_string(), symbol: "B".to_string(), decimals };
        assert_eq!(m.to_string(), format!("ERC20Metadata {{ name: A, symbol: B, decimals: {text} }}"));
    }
}
