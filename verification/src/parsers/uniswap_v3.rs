//! Uniswap V3 pools.

use vstd::prelude::*;

use crate::lens::Tick;
use crate::parsers::CallError;
use crate::primitives::Address;
use crate::ticks::fits_int24;
use crate::types::Protocol;

verus! {

/// What is known of a Uniswap V3 pool.
#[derive(Debug)]
pub struct UniswapV3PoolData {
    pub pool_address: Address,
    pub protocol: Protocol,
    pub creator_contract: Option<Address>,
    pub tokens: Vec<Address>,
    pub fee: u64,
    pub sqrt_price_x96: u128,
    pub liquidity: u128,
    pub tick: i64,
    pub tick_spacing: i64,
    pub max_liquidity_per_tick: u128,
    pub ticks: Vec<Tick>,
}

/// The answers of a V3 pool's calls: `factory`, `token0`, `token1`, `fee`
/// (a `uint24`), `tickSpacing` (an `int24`), `maxLiquidityPerTick`,
/// `liquidity`, and from `slot0` the square-root price (narrowed to 128 bits)
/// and the current tick (an `int24`).
#[derive(Clone, Copy, Debug)]
pub struct UniswapV3PoolState {
    pub factory: Address,
    pub token0: Address,
    pub token1: Address,
    pub fee: u32,
    pub tick_spacing: i32,
    pub max_liquidity_per_tick: u128,
    pub liquidity: u128,
    pub sqrt_price_x96: u128,
    pub tick: i32,
}

/// The magnitude of a tick spacing.
pub open spec fn spacing_magnitude(tick_spacing: int) -> int {
    if tick_spacing < 0 {
        -tick_spacing
    } else {
        tick_spacing
    }
}

/// The record of a Uniswap V3 pool from its ticks and the answers of its
/// calls (`None` when the batch of calls failed). The creator is the
/// factory, the tokens are `token0` then `token1`, and the tick spacing is
/// recorded without its sign.
pub fn uniswap_v3_pool_data(pool_id: Address, ticks: Vec<Tick>, state: Option<UniswapV3PoolState>) -> (data:
    Result<UniswapV3PoolData, CallError>)
    requires
        state matches Some(s) ==> fits_int24(s.tick_spacing as int) && s.tick_spacing != -0x80_0000,
    ensures
        state is None ==> data == Err::<UniswapV3PoolData, CallError>(CallError::Multicall),
        state matches Some(s) ==> (data matches Ok(d) && d.pool_address == pool_id && d.protocol
            == Protocol::UniswapV3 && d.creator_contract == Some(s.factory) && d.tokens@ == seq![
            s.token0,
            s.token1,
        ] && d.fee == s.fee && d.sqrt_price_x96 == s.sqrt_price_x96 && d.liquidity == s.liquidity
            && d.tick == s.tick && d.tick_spacing == spacing_magnitude(s.tick_spacing as int)
            && d.max_liquidity_per_tick == s.max_liquidity_per_tick && d.ticks@ == ticks@),
{
    let s = match state {
        Some(s) => s,
        None => return Err(CallError::Multicall),
    };
    let tick_spacing: i64 = if s.tick_spacing < 0 {
        -(s.tick_spacing as i64)
    } else {
        s.tick_spacing as i64
    };
    Ok(UniswapV3PoolData {
        pool_address: pool_id,
        protocol: Protocol::UniswapV3,
        creator_contract: Some(s.factory),
        tokens: vec![s.token0, s.token1],
        fee: s.fee as u64,
        sqrt_price_x96: s.sqrt_price_x96,
        liquidity: s.liquidity,
        tick: s.tick as i64,
        tick_spacing,
        max_liquidity_per_tick: s.max_liquidity_per_tick,
        ticks,
    })
}

} // verus!
