//! Uniswap V2 pools.

use vstd::prelude::*;

use crate::parsers::CallError;
use crate::primitives::{address_to_checksum, checksum_text, Address};
use crate::types::{PoolData, Protocol};

verus! {

/// The fee of every Uniswap V2 pool, in hundredths of a percent.
pub const UNISWAP_V2_FEE: u64 = 30;

/// What is known of a Uniswap V2 pool.
#[derive(Debug)]
pub struct UniswapV2PoolData {
    pub pool_address: Address,
    pub protocol: Protocol,
    pub creator_contract: Option<Address>,
    pub tokens: Vec<Address>,
    pub fee: u64,
}

impl PoolData for UniswapV2PoolData {
    fn pool_id(&self) -> (id: String)
        ensures
            id@ == checksum_text(self.pool_address.bytes@),
    {
        address_to_checksum(&self.pool_address)
    }

    fn protocol(&self) -> (protocol: Protocol)
        ensures
            protocol == self.protocol,
    {
        self.protocol
    }

    fn creator_contract(&self) -> (creator: Option<&Address>)
        ensures
            creator == match self.creator_contract {
                Some(a) => Some(&a),
                None => None::<&Address>,
            },
    {
        match &self.creator_contract {
            Some(a) => Some(a),
            None => None,
        }
    }

    fn tokens(&self) -> (tokens: Vec<&Address>)
        ensures
            tokens@.len() == self.tokens@.len(),
            forall|i: int| 0 <= i < tokens@.len() ==> *#[trigger] tokens@[i] == self.tokens@[i],
    {
        let mut tokens: Vec<&Address> = Vec::new();
        let mut i: usize = 0;
        while i < self.tokens.len()
            invariant
                i <= self.tokens@.len(),
                tokens@.len() == i,
                forall|j: int| 0 <= j < i ==> *#[trigger] tokens@[j] == self.tokens@[j],
            decreases self.tokens@.len() - i,
        {
            tokens.push(&self.tokens[i]);
            i = i + 1;
        }
        tokens
    }

    fn fee(&self) -> (fee: u64)
        ensures
            fee == self.fee,
    {
        self.fee
    }
}

/// The record of a Uniswap V2 pool, from the answers of its `factory`,
/// `token0`, `token1` and `getReserves` calls (`None` for a call that could
/// not be made or decoded). The first call that failed, in that order, is
/// the error.
pub fn uniswap_v2_pool_data(
    pool_id: Address,
    factory: Option<Address>,
    token0: Option<Address>,
    token1: Option<Address>,
    reserves: Option<(u128, u128, u32)>,
) -> (data: Result<UniswapV2PoolData, CallError>)
    ensures
        factory is None ==> data == Err::<UniswapV2PoolData, CallError>(CallError::Factory),
        factory is Some && token0 is None ==> data == Err::<UniswapV2PoolData, CallError>(
            CallError::Token0,
        ),
        factory is Some && token0 is Some && token1 is None ==> data == Err::<
            UniswapV2PoolData,
            CallError,
        >(CallError::Token1),
        factory is Some && token0 is Some && token1 is Some && reserves is None ==> data == Err::<
            UniswapV2PoolData,
            CallError,
        >(CallError::GetReserves),
        factory is Some && token0 is Some && token1 is Some && reserves is Some ==> (data matches Ok(d)
            && d.pool_address == pool_id && d.protocol == Protocol::UniswapV2 && d.creator_contract
            == factory && d.tokens@ == seq![token0.unwrap(), token1.unwrap()] && d.fee == 30),
{
    let factory = match factory {
        Some(a) => a,
        None => return Err(CallError::Factory),
    };
    let token0 = match token0 {
        Some(a) => a,
        None => return Err(CallError::Token0),
    };
    let token1 = match token1 {
        Some(a) => a,
        None => return Err(CallError::Token1),
    };
    if reserves.is_none() {
        return Err(CallError::GetReserves);
    }
    Ok(UniswapV2PoolData {
        pool_address: pool_id,
        protocol: Protocol::UniswapV2,
        creator_contract: Some(factory),
        tokens: vec![token0, token1],
        fee: UNISWAP_V2_FEE,
    })
}

} // verus!
