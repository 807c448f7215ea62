//! Pool and token records, built from the answers of the contracts' calls.

use vstd::prelude::*;

pub mod algebra_integral;
pub mod erc20;
pub mod uniswap_v2;
pub mod uniswap_v3;
pub mod uniswap_v4;

verus! {

/// A call whose answer could not be had or decoded.
#[derive(Clone, Copy, Debug, PartialEq, Eq, Structural)]
pub enum CallError {
    Factory,
    Token0,
    Token1,
    GetReserves,
    Name,
    Symbol,
    Decimals,
    Multicall,
}

} // verus!

verus! {

/// The text that tells what failed.
pub open spec fn call_error_text(error: CallError) -> Seq<char> {
    match error {
        CallError::Factory => "Failed to to fetch and decode factory call"@,
        CallError::Token0 => "Failed to to fetch and decode token0 call"@,
        CallError::Token1 => "Failed to to fetch and decode token1 call"@,
        CallError::GetReserves => "Failed to to fetch and decode get reserves call"@,
        CallError::Name => "Failed to to fetch and decode name call"@,
        CallError::Symbol => "Failed to to fetch and decode symbol call"@,
        CallError::Decimals => "Failed to to fetch and decode decimals call"@,
        CallError::Multicall => "Failed to get multicall result"@,
    }
}

impl CallError {
    /// What failed, as text.
    pub fn message(&self) -> (text: &'static str)
        ensures
            text@ == call_error_text(*self),
    {
        match self {
            CallError::Factory => "Failed to to fetch and decode factory call",
            CallError::Token0 => "Failed to to fetch and decode token0 call",
            CallError::Token1 => "Failed to to fetch and decode token1 call",
            CallError::GetReserves => "Failed to to fetch and decode get reserves call",
            CallError::Name => "Failed to to fetch and decode name call",
            CallError::Symbol => "Failed to to fetch and decode symbol call",
            CallError::Decimals => "Failed to to fetch and decode decimals call",
            CallError::Multicall => "Failed to get multicall result",
        }
    }
}

} // verus!
