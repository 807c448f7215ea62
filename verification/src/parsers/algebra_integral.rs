//! Algebra Integral pools.

use vstd::prelude::*;

use crate::parsers::uniswap_v3::spacing_magnitude;
use crate::parsers::CallError;
use crate::primitives::Address;
use crate::ticks::fits_int24;
use crate::types::Protocol;

verus! {

/// The reserves of an Algebra Integral pool.
#[derive(Clone, Copy, Debug, PartialEq, Eq, Structural)]
pub struct AlgebraIntegralPoolReserves {
    pub reserve0: u128,
    pub reserve1: u128,
}

/// What is known of an Algebra Integral pool.
#[derive(Debug)]
pub struct AlgebraIntegralPoolData {
    pub pool_address: Address,
    pub protocol: Protocol,
    pub creator_contract: Option<Address>,
    pub tokens: Vec<Address>,
    pub fee: u64,
    pub sqrt_price_x96: u128,
    pub liquidity: u128,
    pub tick: i64,
    pub tick_spacing: i64,
    pub max_liquidity_per_tick: u128,
    pub reserves: AlgebraIntegralPoolReserves,
    pub last_fee: u16,
    pub plugin: Address,
}

/// The answers of an Algebra Integral pool's calls: `factory`, `token0`,
/// `token1`, `fee`, `tickSpacing` (an `int24`), `maxLiquidityPerTick`,
/// `getReserves`, `liquidity`, from `globalState` the price (narrowed to 128
/// bits), the current tick (an `int24`) and the last fee, and `plugin`.
#[derive(Clone, Copy, Debug)]
pub struct AlgebraIntegralPoolState {
    pub factory: Address,
    pub token0: Address,
    pub token1: Address,
    pub fee: u16,
    pub tick_spacing: i32,
    pub max_liquidity_per_tick: u128,
    pub reserve0: u128,
    pub reserve1: u128,
    pub liquidity: u128,
    pub price: u128,
    pub tick: i32,
    pub last_fee: u16,
    pub plugin: Address,
}

/// The record of an Algebra Integral pool from the answers of its calls
/// (`None` when the batch of calls failed). The creator is the factory, the
/// tokens are `token0` then `token1`, and the tick spacing is recorded
/// without its sign.
pub fn algebra_integral_pool_data(pool_id: Address, state: Option<AlgebraIntegralPoolState>) -> (data:
    Result<AlgebraIntegralPoolData, CallError>)
    requires
        state matches Some(s) ==> fits_int24(s.tick_spacing as int) && s.tick_spacing != -0x80_0000,
    ensures
        state is None ==> data == Err::<AlgebraIntegralPoolData, CallError>(CallError::Multicall),
        state matches Some(s) ==> (data matches Ok(d) && d.pool_address == pool_id && d.protocol
            == Protocol::AlgebraIntegral && d.creator_contract == Some(s.factory) && d.tokens@
            == seq![s.token0, s.token1] && d.fee == s.fee && d.sqrt_price_x96 == s.price
            && d.liquidity == s.liquidity && d.tick == s.tick && d.tick_spacing == spacing_magnitude(
            s.tick_spacing as int,
        ) && d.max_liquidity_per_tick == s.max_liquidity_per_tick && d.reserves
            == AlgebraIntegralPoolReserves { reserve0: s.reserve0, reserve1: s.reserve1 }
            && d.last_fee == s.last_fee && d.plugin == s.plugin),
{
    let s = match state {
        Some(s) => s,
        None => return Err(CallError::Multicall),
    };
    let tick_spacing: i64 = if s.tick_spacing < 0 {
        -(s.tick_spacing as i64)
    } else {
        s.tick_spacing as i64
    };
    Ok(AlgebraIntegralPoolData {
        pool_address: pool_id,
        protocol: Protocol::AlgebraIntegral,
        creator_contract: Some(s.factory),
        tokens: vec![s.token0, s.token1],
        fee: s.fee as u64,
        sqrt_price_x96: s.price,
        liquidity: s.liquidity,
        tick: s.tick as i64,
        tick_spacing,
        max_liquidity_per_tick: s.max_liquidity_per_tick,
        reserves: AlgebraIntegralPoolReserves { reserve0: s.reserve0, reserve1: s.reserve1 },
        last_fee: s.last_fee,
        plugin: s.plugin,
    })
}

} // verus!
